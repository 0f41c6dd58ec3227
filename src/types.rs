use vstd::prelude::*;

verus! {

/// Bit pattern of the single-precision number 1.0.
pub const ONE_BITS: u32 = 0x3f80_0000;

/// Bit pattern of the single-precision number -0.0.
pub const NEG_ZERO_BITS: u32 = 0x8000_0000;

/// Whether a single-precision bit pattern is a NaN.
pub open spec fn is_nan_bits(b: u32) -> bool {
    (0x7f80_0000 < b && b < 0x8000_0000) || 0xff80_0000 < b
}

/// Whether a single-precision bit pattern stands for a number in [0, 1].
pub open spec fn in_unit_bits(b: u32) -> bool {
    b <= ONE_BITS || b == NEG_ZERO_BITS
}

/// A single-precision number, given by its bit pattern, clamped into [0, 1]:
/// negative numbers become 0, numbers above 1 become 1, NaN and numbers in
/// range stay as they are.
pub open spec fn clamp_unit(b: u32) -> u32 {
    if is_nan_bits(b) {
        b
    } else if NEG_ZERO_BITS < b {
        0
    } else if ONE_BITS < b && b < NEG_ZERO_BITS {
        ONE_BITS
    } else {
        b
    }
}

/// Clamps a single-precision number, given by its bit pattern, into [0, 1].
pub fn clamp_unit_bits(b: u32) -> (r: u32)
    ensures
        r == clamp_unit(b),
{
    if (0x7f80_0000 < b && b < 0x8000_0000) || 0xff80_0000 < b {
        b
    } else if NEG_ZERO_BITS < b {
        0
    } else if ONE_BITS < b && b < NEG_ZERO_BITS {
        ONE_BITS
    } else {
        b
    }
}

/// Every number that is not a NaN lands in [0, 1] once clamped, and a number
/// already in [0, 1] is left as it is.
pub proof fn lemma_clamp_unit(b: u32)
    ensures
        !is_nan_bits(b) ==> in_unit_bits(clamp_unit(b)),
        in_unit_bits(b) ==> clamp_unit(b) == b,
{
}

/// Seconds since the Unix epoch, now.
///
/// Relies on chrono's `Utc::now().timestamp()`; the value depends on the
/// clock, so nothing is stated of it.
#[verifier::external_body]
fn current_timestamp() -> (r: i64) {
    chrono::Utc::now().timestamp()
}

/// A stored record: text with an embedding, an importance score and metadata.
///
/// Single-precision numbers are held as their IEEE-754 bit patterns
/// (`f32::to_bits`), so they round-trip exactly.
#[derive(Debug, Clone)]
pub struct Memory {
    /// Unique identifier.
    pub id: String,
    /// The text of the record.
    pub content: String,
    /// The embedding, one bit pattern per component.
    pub embedding: Vec<u32>,
    /// Importance in [0, 1], as a bit pattern.
    pub importance: u32,
    /// Creation or update time, in seconds since the Unix epoch.
    pub timestamp: i64,
    /// Metadata entries, at most one per key.
    pub metadata: Vec<(String, String)>,
}

/// The value of a record, over mathematical sequences.
pub struct MemoryModel {
    pub id: Seq<char>,
    pub content: Seq<char>,
    pub embedding: Seq<u32>,
    pub importance: u32,
    pub timestamp: i64,
    pub metadata: Seq<(Seq<char>, Seq<char>)>,
}

/// The view of a list of string pairs.
pub open spec fn pairs_view(v: Seq<(String, String)>) -> Seq<(Seq<char>, Seq<char>)> {
    v.map_values(|p: (String, String)| (p.0@, p.1@))
}

/// No key occurs twice among the entries.
pub open spec fn unique_keys(m: Seq<(Seq<char>, Seq<char>)>) -> bool {
    forall|i: int, j: int| 0 <= i < j < m.len() ==> m[i].0 != m[j].0
}

/// Whether `i` is the first position of key `k` among the entries.
pub open spec fn first_key_at(m: Seq<(Seq<char>, Seq<char>)>, k: Seq<char>, i: int) -> bool {
    0 <= i < m.len() && m[i].0 == k && forall|j: int| 0 <= j < i ==> m[j].0 != k
}

/// The entries with the value for `k` replaced at its first position, or
/// extended by `(k, v)` where `k` does not occur.
pub open spec fn pairs_set(m: Seq<(Seq<char>, Seq<char>)>, k: Seq<char>, v: Seq<char>) -> Seq<
    (Seq<char>, Seq<char>),
> {
    if exists|i: int| first_key_at(m, k, i) {
        m.update(choose|i: int| first_key_at(m, k, i), (k, v))
    } else {
        m.push((k, v))
    }
}

/// Compares two strings.
pub fn str_equal(a: &str, b: &str) -> (r: bool)
    ensures
        r == (a@ == b@),
{
    a.to_owned() == b.to_owned()
}

impl View for Memory {
    type V = MemoryModel;

    open spec fn view(&self) -> MemoryModel {
        MemoryModel {
            id: self.id@,
            content: self.content@,
            embedding: self.embedding@,
            importance: self.importance,
            timestamp: self.timestamp,
            metadata: pairs_view(self.metadata@),
        }
    }
}

impl MemoryModel {
    /// A record is valid when its importance is clamped and its metadata keys are unique.
    pub open spec fn valid(self) -> bool {
        in_unit_bits(self.importance) && unique_keys(self.metadata)
    }
}

/// Sets `key` to `value` among the entries: the first entry with that key
/// gets the value, or a new entry is appended.
pub fn set_pair(v: &mut Vec<(String, String)>, key: &str, value: &str)
    ensures
        pairs_view(final(v)@) == pairs_set(pairs_view(old(v)@), key@, value@),
        unique_keys(pairs_view(old(v)@)) ==> unique_keys(pairs_view(final(v)@)),
{
    let mut i: usize = 0;
    while i < v.len()
        invariant
            v@ == old(v)@,
            i <= v@.len(),
            forall|j: int| 0 <= j < i ==> #[trigger] v@[j].0@ != key@,
        decreases v@.len() - i,
    {
        if str_equal(v[i].0.as_str(), key) {
            let ghost old_meta = pairs_view(v@);
            v.set(i, (key.to_owned(), value.to_owned()));
            proof {
                assert forall|j: int| 0 <= j < i implies old_meta[j].0 != key@ by {
                    assert(old_meta[j].0 == old(v)@[j].0@);
                }
                assert(first_key_at(old_meta, key@, i as int));
                let k = choose|j: int| first_key_at(old_meta, key@, j);
                assert(k == i as int);
                assert(pairs_view(v@) =~= old_meta.update(i as int, (key@, value@)));
                if unique_keys(old_meta) {
                    assert(unique_keys(pairs_view(v@)));
                }
            }
            return;
        }
        i = i + 1;
    }
    let ghost old_meta = pairs_view(v@);
    v.push((key.to_owned(), value.to_owned()));
    assert(pairs_view(v@) =~= old_meta.push((key@, value@)));
    assert forall|j: int| !first_key_at(old_meta, key@, j) by {
        if 0 <= j < old_meta.len() {
            assert(old_meta[j].0 == old(v)@[j].0@);
        }
    }
}

/// Copies a list of string pairs.
pub fn copy_pairs(v: &Vec<(String, String)>) -> (r: Vec<(String, String)>)
    ensures
        pairs_view(r@) == pairs_view(v@),
{
    let mut r: Vec<(String, String)> = Vec::new();
    let mut i: usize = 0;
    while i < v.len()
        invariant
            i <= v@.len(),
            r@.len() == i,
            forall|j: int| 0 <= j < i ==> #[trigger] r@[j].0@ == v@[j].0@ && r@[j].1@ == v@[j].1@,
        decreases v@.len() - i,
    {
        let k = v[i].0.clone();
        let x = v[i].1.clone();
        r.push((k, x));
        i = i + 1;
    }
    assert(pairs_view(r@) =~= pairs_view(v@));
    r
}

/// Copies a vector of bit patterns.
pub fn copy_words(v: &Vec<u32>) -> (r: Vec<u32>)
    ensures
        r@ == v@,
{
    let r = v.clone();
    assert(r@ =~= v@);
    r
}

impl Memory {
    /// A record stamped with the current time; the importance is clamped into [0, 1].
    pub fn new(id: &str, content: &str, embedding: Vec<u32>, importance: u32) -> (r: Memory)
        ensures
            r.id@ == id@,
            r.content@ == content@,
            r.embedding@ == embedding@,
            r.importance == clamp_unit(importance),
            r.metadata@.len() == 0,
    {
        let timestamp = current_timestamp();
        Memory::with_timestamp(id, content, embedding, importance, timestamp)
    }

    /// A record with a given timestamp; the importance is clamped into [0, 1].
    pub fn with_timestamp(
        id: &str,
        content: &str,
        embedding: Vec<u32>,
        importance: u32,
        timestamp: i64,
    ) -> (r: Memory)
        ensures
            r.id@ == id@,
            r.content@ == content@,
            r.embedding@ == embedding@,
            r.importance == clamp_unit(importance),
            r.timestamp == timestamp,
            r.metadata@.len() == 0,
    {
        Memory {
            id: id.to_owned(),
            content: content.to_owned(),
            embedding,
            importance: clamp_unit_bits(importance),
            timestamp,
            metadata: Vec::new(),
        }
    }

    /// The record with metadata `key` set to `value`, replacing an earlier value.
    pub fn with_metadata(self, key: &str, value: &str) -> (r: Memory)
        ensures
            r@ == (MemoryModel {
                metadata: pairs_set(self@.metadata, key@, value@),
                ..self@
            }),
            unique_keys(self@.metadata) ==> unique_keys(r@.metadata),
    {
        let mut m = self;
        set_pair(&mut m.metadata, key, value);
        m
    }
}

/// Bit pattern of the default edge weight, 1.0.
pub const DEFAULT_WEIGHT_BITS: u32 = ONE_BITS;

/// A directed, labelled edge between two node identifiers.
#[derive(Debug, Clone)]
pub struct Edge {
    /// Source node.
    pub from: String,
    /// Relation label.
    pub relation: String,
    /// Target node.
    pub to: String,
    /// Weight, as a single-precision bit pattern.
    pub weight: u32,
    /// Creation time, in seconds since the Unix epoch.
    pub timestamp: i64,
}

/// The value of an edge, over mathematical sequences.
pub struct EdgeModel {
    pub from: Seq<char>,
    pub relation: Seq<char>,
    pub to: Seq<char>,
    pub weight: u32,
    pub timestamp: i64,
}

impl View for Edge {
    type V = EdgeModel;

    open spec fn view(&self) -> EdgeModel {
        EdgeModel {
            from: self.from@,
            relation: self.relation@,
            to: self.to@,
            weight: self.weight,
            timestamp: self.timestamp,
        }
    }
}

/// The view of a list of edges.
pub open spec fn edges_view(v: Seq<Edge>) -> Seq<EdgeModel> {
    v.map_values(|e: Edge| e@)
}

impl EdgeModel {
    /// Whether the edge connects `from` to `to` under `relation`.
    pub open spec fn joins(self, from: Seq<char>, relation: Seq<char>, to: Seq<char>) -> bool {
        self.from == from && self.relation == relation && self.to == to
    }
}

impl Edge {
    /// An edge of weight 1.0 stamped with the current time.
    pub fn new(from: &str, relation: &str, to: &str) -> (r: Edge)
        ensures
            r@.joins(from@, relation@, to@),
            r.weight == DEFAULT_WEIGHT_BITS,
    {
        Edge {
            from: from.to_owned(),
            relation: relation.to_owned(),
            to: to.to_owned(),
            weight: DEFAULT_WEIGHT_BITS,
            timestamp: current_timestamp(),
        }
    }

    /// The edge with its weight replaced.
    pub fn with_weight(self, weight: u32) -> (r: Edge)
        ensures
            r@ == (EdgeModel { weight, ..self@ }),
    {
        let mut e = self;
        e.weight = weight;
        e
    }

    /// A copy of the edge.
    pub fn duplicate(&self) -> (r: Edge)
        ensures
            r@ == self@,
    {
        Edge {
            from: self.from.clone(),
            relation: self.relation.clone(),
            to: self.to.clone(),
            weight: self.weight,
            timestamp: self.timestamp,
        }
    }
}

impl Memory {
    /// Stamps the record with the current time; nothing else changes.
    pub fn touch(&mut self)
        ensures
            final(self)@ == (MemoryModel { timestamp: final(self)@.timestamp, ..old(self)@ }),
    {
        self.timestamp = current_timestamp();
    }

    /// A copy of the record.
    pub fn duplicate(&self) -> (r: Memory)
        ensures
            r@ == self@,
    {
        Memory {
            id: self.id.clone(),
            content: self.content.clone(),
            embedding: copy_words(&self.embedding),
            importance: self.importance,
            timestamp: self.timestamp,
            metadata: copy_pairs(&self.metadata),
        }
    }
}

/// The name for what `str::to_lowercase` returns.
pub uninterp spec fn lowercase_of(s: Seq<char>) -> Seq<char>;

/// Relies on `str::to_lowercase`: the result depends on the characters alone.
#[verifier::external_body]
fn to_lowercase(s: &str) -> (r: String)
    ensures
        r@ == lowercase_of(s@),
{
    s.to_lowercase()
}

/// The kinds of file a multimodal document can come from.
#[derive(Debug, Clone, Copy, PartialEq, Eq, Structural)]
pub enum FileType {
    /// Plain text (.txt, .md, ...).
    Text,
    /// PDF document.
    Pdf,
    /// Word document.
    Docx,
    /// Audio (.mp3, .wav, ...).
    Audio,
    /// Video (.mp4, .mkv, ...).
    Video,
    /// Image (.png, .jpg, ...).
    Image,
    /// Anything else.
    Unknown,
}

/// The kind of file that a lower-case extension names.
pub open spec fn file_type_of(e: Seq<char>) -> FileType {
    if e == "txt"@ || e == "md"@ || e == "markdown"@ || e == "text"@ {
        FileType::Text
    } else if e == "pdf"@ {
        FileType::Pdf
    } else if e == "doc"@ || e == "docx"@ {
        FileType::Docx
    } else if e == "mp3"@ || e == "wav"@ || e == "m4a"@ || e == "aac"@ || e == "flac"@ || e == "ogg"@ {
        FileType::Audio
    } else if e == "mp4"@ || e == "avi"@ || e == "mkv"@ || e == "mov"@ || e == "webm"@ || e
        == "flv"@ {
        FileType::Video
    } else if e == "jpg"@ || e == "jpeg"@ || e == "png"@ || e == "gif"@ || e == "bmp"@ || e
        == "webp"@ || e == "svg"@ {
        FileType::Image
    } else {
        FileType::Unknown
    }
}

impl FileType {
    /// The kind of file that an extension names, whatever its case.
    pub fn from_extension(ext: &str) -> (r: FileType)
        ensures
            r == file_type_of(lowercase_of(ext@)),
    {
        let lower = to_lowercase(ext);
        FileType::from_lowercase_extension(lower.as_str())
    }

    /// The kind of file that a lower-case extension names.
    pub fn from_lowercase_extension(e: &str) -> (r: FileType)
        ensures
            r == file_type_of(e@),
    {
        if str_equal(e, "txt") || str_equal(e, "md") || str_equal(e, "markdown") || str_equal(
            e,
            "text",
        ) {
            FileType::Text
        } else if str_equal(e, "pdf") {
            FileType::Pdf
        } else if str_equal(e, "doc") || str_equal(e, "docx") {
            FileType::Docx
        } else if str_equal(e, "mp3") || str_equal(e, "wav") || str_equal(e, "m4a") || str_equal(
            e,
            "aac",
        ) || str_equal(e, "flac") || str_equal(e, "ogg") {
            FileType::Audio
        } else if str_equal(e, "mp4") || str_equal(e, "avi") || str_equal(e, "mkv") || str_equal(
            e,
            "mov",
        ) || str_equal(e, "webm") || str_equal(e, "flv") {
            FileType::Video
        } else if str_equal(e, "jpg") || str_equal(e, "jpeg") || str_equal(e, "png") || str_equal(
            e,
            "gif",
        ) || str_equal(e, "bmp") || str_equal(e, "webp") || str_equal(e, "svg") {
            FileType::Image
        } else {
            FileType::Unknown
        }
    }

    /// A short description of the kind of file.
    pub fn description(&self) -> (r: &'static str)
        ensures
            r@ == match *self {
                FileType::Text => "Plain text file"@,
                FileType::Pdf => "PDF document"@,
                FileType::Docx => "Microsoft Word document"@,
                FileType::Audio => "Audio file"@,
                FileType::Video => "Video file"@,
                FileType::Image => "Image file"@,
                FileType::Unknown => "Unknown file type"@,
            },
    {
        match self {
            FileType::Text => "Plain text file",
            FileType::Pdf => "PDF document",
            FileType::Docx => "Microsoft Word document",
            FileType::Audio => "Audio file",
            FileType::Video => "Video file",
            FileType::Image => "Image file",
            FileType::Unknown => "Unknown file type",
        }
    }
}

/// Where the processing of a file stands.
#[derive(Debug, Clone, Copy, PartialEq, Eq, Structural)]
pub enum ProcessingStatus {
    /// Waiting to be processed.
    Queued,
    /// Being processed.
    Processing,
    /// Processed.
    Completed,
    /// Processing failed.
    Failed,
}

/// A piece of a large document with its own embedding.
#[derive(Debug, Clone)]
pub struct DocumentChunk {
    /// Identifier of the chunk, usually its index.
    pub chunk_id: String,
    /// Text of the chunk.
    pub content: String,
    /// Embedding, one single-precision bit pattern per component.
    pub embedding: Vec<u32>,
    /// Character offset where the chunk starts.
    pub start_offset: usize,
    /// Character offset where the chunk ends.
    pub end_offset: usize,
    /// Metadata entries, at most one per key.
    pub metadata: Vec<(String, String)>,
}

impl DocumentChunk {
    /// A chunk without metadata.
    pub fn new(
        chunk_id: &str,
        content: &str,
        embedding: Vec<u32>,
        start_offset: usize,
        end_offset: usize,
    ) -> (r: DocumentChunk)
        ensures
            r.chunk_id@ == chunk_id@,
            r.content@ == content@,
            r.embedding@ == embedding@,
            r.start_offset == start_offset,
            r.end_offset == end_offset,
            r.metadata@.len() == 0,
    {
        DocumentChunk {
            chunk_id: chunk_id.to_owned(),
            content: content.to_owned(),
            embedding,
            start_offset,
            end_offset,
            metadata: Vec::new(),
        }
    }

    /// The chunk with metadata `key` set to `value`.
    pub fn with_metadata(self, key: &str, value: &str) -> (r: DocumentChunk)
        ensures
            pairs_view(r.metadata@) == pairs_set(pairs_view(self.metadata@), key@, value@),
            r.chunk_id == self.chunk_id,
            r.content == self.content,
            r.embedding == self.embedding,
            r.start_offset == self.start_offset,
            r.end_offset == self.end_offset,
    {
        let mut c = self;
        set_pair(&mut c.metadata, key, value);
        c
    }
}

/// A document extracted from a file, with its embedding and chunks.
#[derive(Debug, Clone)]
pub struct MultimodalDocument {
    /// Unique identifier.
    pub id: String,
    /// Name of the original file.
    pub filename: String,
    /// Kind of the original file.
    pub file_type: FileType,
    /// Size of the original file in bytes.
    pub file_size: usize,
    /// Text extracted from the file.
    pub extracted_text: String,
    /// Chunks of a large document.
    pub chunks: Vec<DocumentChunk>,
    /// Embedding of the whole document, as bit patterns.
    pub embedding: Vec<u32>,
    /// Ingestion time, in seconds since the Unix epoch.
    pub timestamp: i64,
    /// Metadata entries, at most one per key.
    pub metadata: Vec<(String, String)>,
}

impl MultimodalDocument {
    /// A document without chunks or metadata, stamped with the current time.
    pub fn new(
        id: &str,
        filename: &str,
        file_type: FileType,
        file_size: usize,
        extracted_text: &str,
        embedding: Vec<u32>,
    ) -> (r: MultimodalDocument)
        ensures
            r.id@ == id@,
            r.filename@ == filename@,
            r.file_type == file_type,
            r.file_size == file_size,
            r.extracted_text@ == extracted_text@,
            r.chunks@.len() == 0,
            r.embedding@ == embedding@,
            r.metadata@.len() == 0,
    {
        MultimodalDocument {
            id: id.to_owned(),
            filename: filename.to_owned(),
            file_type,
            file_size,
            extracted_text: extracted_text.to_owned(),
            chunks: Vec::new(),
            embedding,
            timestamp: current_timestamp(),
            metadata: Vec::new(),
        }
    }

    /// Appends a chunk.
    pub fn add_chunk(&mut self, chunk: DocumentChunk)
        ensures
            final(self).chunks@ == old(self).chunks@.push(chunk),
            final(self).id == old(self).id,
            final(self).metadata == old(self).metadata,
            final(self).embedding == old(self).embedding,
    {
        self.chunks.push(chunk);
    }

    /// The document with metadata `key` set to `value`.
    pub fn with_metadata(self, key: &str, value: &str) -> (r: MultimodalDocument)
        ensures
            pairs_view(r.metadata@) == pairs_set(pairs_view(self.metadata@), key@, value@),
            r.id == self.id,
            r.chunks == self.chunks,
            r.embedding == self.embedding,
    {
        let mut d = self;
        set_pair(&mut d.metadata, key, value);
        d
    }
}

} // verus!
