use vstd::prelude::*;
use vstd::string::StringExecFns;

verus! {

/// Where failures that look like defects of the store should be reported.
pub const ISSUES_URL: &'static str = "https://github.com/muhammad-fiaz/opendb/issues";

/// Every way an operation of the store can fail.
#[derive(Debug)]
pub enum Error {
    /// The storage substrate reported a failure.
    Storage(String),
    /// A payload was empty, corrupt or of an unknown schema version.
    Codec(String),
    /// A record that had to exist did not.
    NotFound(String),
    /// A transaction handle was used after it finished.
    Transaction(String),
    /// The cache layer failed.
    Cache(String),
    /// An embedding or query had the wrong dimension.
    VectorIndex(String),
    /// The graph layer failed.
    Graph(String),
    /// A caller-supplied argument violates a precondition.
    InvalidInput(String),
    /// An I/O failure, described in words.
    Io(String),
    /// An internal invariant was found broken.
    Internal(String),
    /// A multimodal file could not be processed.
    FileProcessing(String),
}

/// The outcome of every fallible operation of the store.
pub type Result<T> = core::result::Result<T, Error>;

/// True of the kinds of failure that point at a defect worth reporting.
pub open spec fn reportable(e: Error) -> bool {
    !(e is NotFound || e is InvalidInput || e is FileProcessing)
}

/// The detail text that each variant carries.
pub open spec fn detail_of(e: Error) -> Seq<char> {
    match e {
        Error::Storage(s) => s@,
        Error::Codec(s) => s@,
        Error::NotFound(s) => s@,
        Error::Transaction(s) => s@,
        Error::Cache(s) => s@,
        Error::VectorIndex(s) => s@,
        Error::Graph(s) => s@,
        Error::InvalidInput(s) => s@,
        Error::Io(s) => s@,
        Error::Internal(s) => s@,
        Error::FileProcessing(s) => s@,
    }
}

/// The words that open the description of each variant.
pub open spec fn heading_of(e: Error) -> Seq<char> {
    match e {
        Error::Storage(_) => "Storage error: "@,
        Error::Codec(_) => "Codec error: "@,
        Error::NotFound(_) => "Record not found: "@,
        Error::Transaction(_) => "Transaction error: "@,
        Error::Cache(_) => "Cache error: "@,
        Error::VectorIndex(_) => "Vector index error: "@,
        Error::Graph(_) => "Graph error: "@,
        Error::InvalidInput(_) => "Invalid input: "@,
        Error::Io(_) => "I/O error: "@,
        Error::Internal(_) => "Internal error: "@,
        Error::FileProcessing(_) => "File processing error: "@,
    }
}

/// The words that close the description of each variant.
pub open spec fn trailer_of(e: Error) -> Seq<char> {
    match e {
        Error::NotFound(_) | Error::InvalidInput(_) => Seq::empty(),
        Error::Internal(_) => "\n\nThis is likely a bug. Please report it at: "@ + ISSUES_URL@,
        Error::FileProcessing(_) =>
            "\n\nSupported formats: PDF, DOCX, TXT, MP3, MP4, WAV, etc.\nIf you need help, please visit: "@
                + ISSUES_URL@,
        _ => "\n\nIf this error persists, please report it at: "@ + ISSUES_URL@,
    }
}

/// The full human-readable description of a failure.
pub open spec fn description_of(e: Error) -> Seq<char> {
    heading_of(e) + detail_of(e) + trailer_of(e)
}

impl Error {
    /// Where failures should be reported.
    pub fn issues_url() -> (r: &'static str)
        ensures
            r@ == ISSUES_URL@,
    {
        ISSUES_URL
    }

    /// Whether this failure points at a defect worth reporting.
    pub fn should_report(&self) -> (r: bool)
        ensures
            r == reportable(*self),
    {
        match self {
            Error::NotFound(_) | Error::InvalidInput(_) | Error::FileProcessing(_) => false,
            _ => true,
        }
    }

    fn heading(&self) -> (r: &'static str)
        ensures
            r@ == heading_of(*self),
    {
        match self {
            Error::Storage(_) => "Storage error: ",
            Error::Codec(_) => "Codec error: ",
            Error::NotFound(_) => "Record not found: ",
            Error::Transaction(_) => "Transaction error: ",
            Error::Cache(_) => "Cache error: ",
            Error::VectorIndex(_) => "Vector index error: ",
            Error::Graph(_) => "Graph error: ",
            Error::InvalidInput(_) => "Invalid input: ",
            Error::Io(_) => "I/O error: ",
            Error::Internal(_) => "Internal error: ",
            Error::FileProcessing(_) => "File processing error: ",
        }
    }

    fn detail(&self) -> (r: &String)
        ensures
            r@ == detail_of(*self),
    {
        match self {
            Error::Storage(s) => s,
            Error::Codec(s) => s,
            Error::NotFound(s) => s,
            Error::Transaction(s) => s,
            Error::Cache(s) => s,
            Error::VectorIndex(s) => s,
            Error::Graph(s) => s,
            Error::InvalidInput(s) => s,
            Error::Io(s) => s,
            Error::Internal(s) => s,
            Error::FileProcessing(s) => s,
        }
    }

    fn trailer(&self) -> (r: String)
        ensures
            r@ == trailer_of(*self),
    {
        match self {
            Error::NotFound(_) | Error::InvalidInput(_) => String::new(),
            Error::Internal(_) => String::from_str(
                "\n\nThis is likely a bug. Please report it at: ",
            ).concat(ISSUES_URL),
            Error::FileProcessing(_) => String::from_str(
                "\n\nSupported formats: PDF, DOCX, TXT, MP3, MP4, WAV, etc.\nIf you need help, please visit: ",
            ).concat(ISSUES_URL),
            _ => String::from_str("\n\nIf this error persists, please report it at: ").concat(
                ISSUES_URL,
            ),
        }
    }

    /// The full human-readable description of this failure.
    pub fn describe(&self) -> (r: String)
        ensures
            r@ == description_of(*self),
    {
        String::from_str(self.heading()).concat(self.detail().as_str()).concat(
            self.trailer().as_str(),
        )
    }

    /// The description followed by a pointer to where help can be found.
    pub fn user_message(&self) -> (r: String)
        ensures
            r@ == description_of(*self) + "\n\n\u{1f4a1} Need help? Visit our GitHub issues: "@
                + ISSUES_URL@,
    {
        self.describe().concat("\n\n\u{1f4a1} Need help? Visit our GitHub issues: ").concat(
            ISSUES_URL,
        )
    }
}

} // verus!
