use crate::error::Error;
use vstd::prelude::*;

verus! {

/// The contents of one namespace: keys to values.
pub type Space = Map<Seq<u8>, Seq<u8>>;

/// The contents of a whole store: namespace names to their contents.
pub type Spaces = Map<Seq<char>, Space>;

/// Names of the namespaces of the store, one per data model.
pub struct ColumnFamilies;

impl ColumnFamilies {
    /// Raw key-value pairs.
    pub const DEFAULT: &'static str = "default";

    /// Encoded records, keyed by identifier.
    pub const RECORDS: &'static str = "records";

    /// Outgoing adjacency lists, keyed by source node.
    pub const GRAPH_FORWARD: &'static str = "graph_forward";

    /// Incoming adjacency lists, keyed by target node.
    pub const GRAPH_BACKWARD: &'static str = "graph_backward";

    /// Vector index metadata.
    pub const VECTOR_INDEX: &'static str = "vector_index";

    /// Encoded embeddings, keyed by identifier.
    pub const VECTOR_DATA: &'static str = "vector_data";

    /// Store metadata.
    pub const METADATA: &'static str = "metadata";

    /// Every namespace name, in a fixed order.
    pub fn all() -> (r: Vec<&'static str>)
        ensures
            r@.map_values(|s: &'static str| s@) == namespace_names(),
    {
        let r = vec![
            Self::DEFAULT,
            Self::RECORDS,
            Self::GRAPH_FORWARD,
            Self::GRAPH_BACKWARD,
            Self::VECTOR_INDEX,
            Self::VECTOR_DATA,
            Self::METADATA,
        ];
        assert(r@.map_values(|s: &'static str| s@) =~= namespace_names());
        r
    }
}

/// The names of the namespaces that every store holds.
pub open spec fn namespace_names() -> Seq<Seq<char>> {
    seq![
        ColumnFamilies::DEFAULT@,
        ColumnFamilies::RECORDS@,
        ColumnFamilies::GRAPH_FORWARD@,
        ColumnFamilies::GRAPH_BACKWARD@,
        ColumnFamilies::VECTOR_INDEX@,
        ColumnFamilies::VECTOR_DATA@,
        ColumnFamilies::METADATA@,
    ]
}

/// Whether a store holds every namespace of the data models.
pub open spec fn has_all_namespaces(s: Spaces) -> bool {
    forall|i: int| 0 <= i < namespace_names().len() ==> s.contains_key(#[trigger] namespace_names()[i])
}

/// The value stored under `key` in namespace `cf`, if any.
pub open spec fn lookup(s: Spaces, cf: Seq<char>, key: Seq<u8>) -> Option<Seq<u8>> {
    if s.contains_key(cf) && s[cf].contains_key(key) {
        Some(s[cf][key])
    } else {
        None
    }
}

/// The store after writing `value` under `key` in namespace `cf`.
pub open spec fn store_put(s: Spaces, cf: Seq<char>, key: Seq<u8>, value: Seq<u8>) -> Spaces {
    s.insert(cf, s[cf].insert(key, value))
}

/// The store after removing `key` from namespace `cf`.
pub open spec fn store_delete(s: Spaces, cf: Seq<char>, key: Seq<u8>) -> Spaces {
    s.insert(cf, s[cf].remove(key))
}

/// Whether `p` is a prefix of `k`.
pub open spec fn is_prefix(p: Seq<u8>, k: Seq<u8>) -> bool {
    p.len() <= k.len() && k.subrange(0, p.len() as int) == p
}

/// The entries of a namespace whose keys start with `p`.
pub open spec fn with_prefix(m: Space, p: Seq<u8>) -> Space {
    Map::new(|k: Seq<u8>| m.contains_key(k) && is_prefix(p, k), |k: Seq<u8>| m[k])
}

/// The view of a list of key-value pairs.
pub open spec fn kv_view(v: Seq<(Vec<u8>, Vec<u8>)>) -> Seq<(Seq<u8>, Seq<u8>)> {
    v.map_values(|p: (Vec<u8>, Vec<u8>)| (p.0@, p.1@))
}

/// The map that a list of key-value pairs describes; a later pair for a key
/// wins over an earlier one.
pub open spec fn pairs_map<K, V>(v: Seq<(K, V)>) -> Map<K, V>
    decreases v.len(),
{
    if v.len() == 0 {
        Map::empty()
    } else {
        pairs_map(v.drop_last()).insert(v.last().0, v.last().1)
    }
}

/// No key occurs twice in a list of key-value pairs.
pub open spec fn distinct_keys<K, V>(v: Seq<(K, V)>) -> bool {
    forall|i: int, j: int| 0 <= i < j < v.len() ==> v[i].0 != v[j].0
}

/// The result of a prefix scan: each key once, exactly the entries of the
/// namespace whose keys start with the prefix.
pub open spec fn scan_result(r: Seq<(Seq<u8>, Seq<u8>)>, m: Space, p: Seq<u8>) -> bool {
    distinct_keys(r) && pairs_map(r) == with_prefix(m, p)
}

/// One write of a batch.
pub enum WriteOp {
    /// Store a value under a key of a namespace.
    Put(String, Vec<u8>, Vec<u8>),
    /// Remove a key from a namespace.
    Delete(String, Vec<u8>),
}

impl WriteOp {
    /// The namespace that the write goes to.
    pub open spec fn space(self) -> Seq<char> {
        match self {
            WriteOp::Put(cf, _, _) => cf@,
            WriteOp::Delete(cf, _) => cf@,
        }
    }
}

/// The store after one write.
pub open spec fn apply_op(s: Spaces, op: WriteOp) -> Spaces {
    match op {
        WriteOp::Put(cf, k, v) => store_put(s, cf@, k@, v@),
        WriteOp::Delete(cf, k) => store_delete(s, cf@, k@),
    }
}

/// The store after a sequence of writes, in order.
pub open spec fn apply_ops(s: Spaces, ops: Seq<WriteOp>) -> Spaces
    decreases ops.len(),
{
    if ops.len() == 0 {
        s
    } else {
        apply_op(apply_ops(s, ops.drop_last()), ops.last())
    }
}

/// Whether every write of a batch goes to a namespace of the store.
pub open spec fn ops_known(s: Spaces, ops: Seq<WriteOp>) -> bool {
    forall|i: int| 0 <= i < ops.len() ==> s.contains_key(#[trigger] ops[i].space())
}

/// The view of an optional value.
pub open spec fn opt_view(o: Option<Vec<u8>>) -> Option<Seq<u8>> {
    match o {
        Some(v) => Some(v@),
        None => None,
    }
}

/// A namespaced byte store with atomic batches: the substrate under every
/// model of the database.
///
/// Reads and scans see the current contents. Every failure is a storage
/// error, and a write that fails leaves the contents as they were. A batch is applied whole or not at all, which is
/// what transactions commit through.
pub trait StorageBackend {
    /// The current contents.
    spec fn spaces(&self) -> Spaces;

    /// The internal invariant of the store.
    spec fn well_formed(&self) -> bool;

    /// The value under `key` in namespace `cf`.
    fn get(&self, cf: &str, key: &[u8]) -> (r: Result<Option<Vec<u8>>, Error>)
        requires
            self.well_formed(),
        ensures
            r matches Ok(v) ==> self.spaces().contains_key(cf@) && opt_view(v) == lookup(
                self.spaces(),
                cf@,
                key@,
            ),
            !self.spaces().contains_key(cf@) ==> r is Err,
            r matches Err(e) ==> e is Storage,
    ;

    /// Stores `value` under `key` in namespace `cf`.
    fn put(&mut self, cf: &str, key: &[u8], value: &[u8]) -> (r: Result<(), Error>)
        requires
            old(self).well_formed(),
        ensures
            final(self).well_formed(),
            r is Ok ==> old(self).spaces().contains_key(cf@) && final(self).spaces() == store_put(
                old(self).spaces(),
                cf@,
                key@,
                value@,
            ),
            r is Err ==> final(self).spaces() == old(self).spaces(),
            !old(self).spaces().contains_key(cf@) ==> r is Err,
            r matches Err(e) ==> e is Storage,
    ;

    /// Removes `key` from namespace `cf`.
    fn delete(&mut self, cf: &str, key: &[u8]) -> (r: Result<(), Error>)
        requires
            old(self).well_formed(),
        ensures
            final(self).well_formed(),
            r is Ok ==> old(self).spaces().contains_key(cf@) && final(self).spaces()
                == store_delete(old(self).spaces(), cf@, key@),
            r is Err ==> final(self).spaces() == old(self).spaces(),
            !old(self).spaces().contains_key(cf@) ==> r is Err,
            r matches Err(e) ==> e is Storage,
    ;

    /// Every entry of namespace `cf` whose key starts with `prefix`.
    fn scan_prefix(&self, cf: &str, prefix: &[u8]) -> (r: Result<Vec<(Vec<u8>, Vec<u8>)>, Error>)
        requires
            self.well_formed(),
        ensures
            r matches Ok(v) ==> self.spaces().contains_key(cf@) && scan_result(
                kv_view(v@),
                self.spaces()[cf@],
                prefix@,
            ),
            !self.spaces().contains_key(cf@) ==> r is Err,
            r matches Err(e) ==> e is Storage,
    ;

    /// Applies every write of `ops`, in order, or none of them.
    fn write_batch(&mut self, ops: &Vec<WriteOp>) -> (r: Result<(), Error>)
        requires
            old(self).well_formed(),
        ensures
            final(self).well_formed(),
            r is Ok ==> ops_known(old(self).spaces(), ops@) && final(self).spaces() == apply_ops(
                old(self).spaces(),
                ops@,
            ),
            r is Err ==> final(self).spaces() == old(self).spaces(),
            !ops_known(old(self).spaces(), ops@) ==> r is Err,
            r matches Err(e) ==> e is Storage,
    ;

    /// Makes every completed write durable.
    fn flush(&self) -> (r: Result<(), Error>)
        requires
            self.well_formed(),
        ensures
            r matches Err(e) ==> e is Storage,
    ;
}

/// Compares two byte strings.
pub fn bytes_equal(a: &[u8], b: &[u8]) -> (r: bool)
    ensures
        r == (a@ == b@),
{
    if a.len() != b.len() {
        return false;
    }
    let mut i: usize = 0;
    while i < a.len()
        invariant
            a@.len() == b@.len(),
            i <= a@.len(),
            forall|j: int| 0 <= j < i ==> a@[j] == b@[j],
        decreases a@.len() - i,
    {
        if a[i] != b[i] {
            return false;
        }
        i = i + 1;
    }
    assert(a@ =~= b@);
    true
}

/// Whether `key` starts with `prefix`.
pub fn starts_with(key: &[u8], prefix: &[u8]) -> (r: bool)
    ensures
        r == is_prefix(prefix@, key@),
{
    if prefix.len() > key.len() {
        return false;
    }
    let mut i: usize = 0;
    while i < prefix.len()
        invariant
            prefix@.len() <= key@.len(),
            i <= prefix@.len(),
            forall|j: int| 0 <= j < i ==> key@[j] == prefix@[j],
        decreases prefix@.len() - i,
    {
        if key[i] != prefix[i] {
            assert(key@.subrange(0, prefix@.len() as int)[i as int] != prefix@[i as int]);
            return false;
        }
        i = i + 1;
    }
    assert(key@.subrange(0, prefix@.len() as int) =~= prefix@);
    true
}

/// Two stores agree on namespace `cf`.
pub open spec fn same_space(s1: Spaces, s2: Spaces, cf: Seq<char>) -> bool {
    (s1.contains_key(cf) <==> s2.contains_key(cf)) && s1[cf] == s2[cf]
}

/// The namespaces of the data models have distinct names.
pub proof fn lemma_names_distinct()
    ensures
        ColumnFamilies::DEFAULT@ != ColumnFamilies::RECORDS@,
        ColumnFamilies::DEFAULT@ != ColumnFamilies::GRAPH_FORWARD@,
        ColumnFamilies::DEFAULT@ != ColumnFamilies::GRAPH_BACKWARD@,
        ColumnFamilies::DEFAULT@ != ColumnFamilies::VECTOR_DATA@,
        ColumnFamilies::RECORDS@ != ColumnFamilies::GRAPH_FORWARD@,
        ColumnFamilies::RECORDS@ != ColumnFamilies::GRAPH_BACKWARD@,
        ColumnFamilies::RECORDS@ != ColumnFamilies::VECTOR_DATA@,
        ColumnFamilies::GRAPH_FORWARD@ != ColumnFamilies::GRAPH_BACKWARD@,
        ColumnFamilies::GRAPH_FORWARD@ != ColumnFamilies::VECTOR_DATA@,
        ColumnFamilies::GRAPH_BACKWARD@ != ColumnFamilies::VECTOR_DATA@,
{
    reveal_strlit("default");
    reveal_strlit("records");
    reveal_strlit("graph_forward");
    reveal_strlit("graph_backward");
    reveal_strlit("vector_data");
    assert(ColumnFamilies::DEFAULT@[0] != ColumnFamilies::RECORDS@[0]);
    assert(ColumnFamilies::GRAPH_FORWARD@.len() != ColumnFamilies::GRAPH_BACKWARD@.len());
}

} // verus!
