use crate::error::Error;
use crate::memory_backend::{lemma_pairs_contains, lemma_pairs_value};
use crate::storage::{
    is_prefix, kv_view, lookup, same_space, scan_result, with_prefix, store_delete, store_put, ColumnFamilies, Spaces,
    StorageBackend,
};
use crate::codec::string_from_utf8;
use crate::types::Memory;
use vstd::prelude::*;
use vstd::slice::slice_to_vec;
use vstd::string::StringSliceAdditionalSpecFns;
use vstd::utf8::{decode_utf8, encode_utf8, encode_utf8_decode_utf8, valid_utf8};

verus! {

/// The bytes that bincode's standard configuration writes for an embedding.
pub uninterp spec fn embedding_encoding(v: Seq<u32>) -> Seq<u8>;

/// The embedding that bincode's standard configuration reads from the front
/// of some bytes, if any.
pub uninterp spec fn embedding_decoding(b: Seq<u8>) -> Option<Seq<u32>>;

/// The byte limit under which embeddings are decoded: a length prefix that
/// claims more than this is refused instead of allocated.
pub const EMBEDDING_DECODE_LIMIT: usize = 1048576;

/// The most components of an embedding that decoding under the limit reads
/// back (four bytes are claimed per component).
pub const MAX_EMBEDDING_LEN: usize = 65536;

/// Relies on `bincode::encode_to_vec` with the standard configuration:
/// writing a `Vec<u32>` into a vector cannot fail, and the bytes depend on
/// the embedding alone. Relies on `bincode::decode_from_slice` for reading
/// them back: under the byte limit it gives the embedding again.
#[verifier::external_body]
fn encode_embedding(v: &Vec<u32>) -> (r: Option<Vec<u8>>)
    ensures
        r is Some,
        r matches Some(b) ==> b@ == embedding_encoding(v@),
        r matches Some(b) ==> (v@.len() <= MAX_EMBEDDING_LEN ==> embedding_decoding(b@) == Some(v@)),
{
    bincode::encode_to_vec(v, bincode::config::standard()).ok()
}

/// Relies on `bincode::decode_from_slice` with the standard configuration and
/// a byte limit: the embedding read from the front of the bytes depends on
/// the bytes alone, and a length prefix over the limit is an error rather
/// than an allocation.
#[verifier::external_body]
fn decode_embedding(b: &[u8]) -> (r: Option<Vec<u32>>)
    ensures
        r is Some <==> embedding_decoding(b@) is Some,
        r matches Some(v) ==> embedding_decoding(b@) == Some(v@),
{
    let config = bincode::config::standard().with_limit::<EMBEDDING_DECODE_LIMIT>();
    bincode::decode_from_slice::<Vec<u32>, _>(b, config).ok().map(|p| p.0)
}

/// The view of a list of identified embeddings.
pub open spec fn vectors_view(v: Seq<(String, Vec<u32>)>) -> Seq<(Seq<char>, Seq<u32>)> {
    v.map_values(|p: (String, Vec<u32>)| (p.0@, p.1@))
}

/// The identified embeddings that a scan of the vector namespace decodes
/// to, in scan order; `None` when a key is not UTF-8 or a value does not decode.
pub open spec fn vectors_of(scan: Seq<(Seq<u8>, Seq<u8>)>) -> Option<Seq<(Seq<char>, Seq<u32>)>>
    decreases scan.len(),
{
    if scan.len() == 0 {
        Some(Seq::empty())
    } else {
        match (vectors_of(scan.drop_last()), embedding_decoding(scan.last().1)) {
            (Some(v), Some(e)) => if valid_utf8(scan.last().0) {
                Some(v.push((decode_utf8(scan.last().0), e)))
            } else {
                None
            },
            _ => None,
        }
    }
}

/// Whether `v` is what a full scan of the vector namespace of `s` decodes to.
pub open spec fn snapshot_of(s: Spaces, v: Seq<(Seq<char>, Seq<u32>)>) -> bool {
    s.contains_key(ColumnFamilies::VECTOR_DATA@) && exists|scan: Seq<(Seq<u8>, Seq<u8>)>|
        scan_result(scan, s[ColumnFamilies::VECTOR_DATA@], Seq::empty()) && vectors_of(scan) == Some(v)
}

/// Whether the first entry of a scan that does not decode fails on its key
/// (not UTF-8) rather than on its value.
pub open spec fn bad_key_first(scan: Seq<(Seq<u8>, Seq<u8>)>) -> bool
    decreases scan.len(),
{
    if scan.len() == 0 {
        false
    } else if vectors_of(scan.drop_last()) is None {
        bad_key_first(scan.drop_last())
    } else {
        !valid_utf8(scan.last().0)
    }
}

/// The error kinds of a scan that does not decode: a vector index error for
/// a key that is not UTF-8, a codec error for a value, whichever comes first.
pub open spec fn fault_kind(scan: Seq<(Seq<u8>, Seq<u8>)>, e: Error) -> bool {
    vectors_of(scan) is None && (e is VectorIndex <==> bad_key_first(scan)) && (e is Codec
        <==> !bad_key_first(scan))
}

proof fn lemma_vectors_stuck(scan: Seq<(Seq<u8>, Seq<u8>)>, j: int)
    requires
        0 <= j <= scan.len(),
        vectors_of(scan.subrange(0, j)) is None,
    ensures
        vectors_of(scan) is None,
        bad_key_first(scan) == bad_key_first(scan.subrange(0, j)),
    decreases scan.len() - j,
{
    if scan.len() == j {
        assert(scan.subrange(0, j) =~= scan);
    } else {
        let w = scan.drop_last();
        assert(w.subrange(0, j) =~= scan.subrange(0, j));
        lemma_vectors_stuck(w, j);
    }
}

/// The identified embeddings that scanned pairs decode to, in order. Fails
/// exactly when some pair does not decode: with a vector index error when
/// the first such pair has a key that is not UTF-8, with a codec error when
/// its value is not an embedding.
pub fn snapshot_from_pairs(pairs: &Vec<(Vec<u8>, Vec<u8>)>) -> (r: Result<Vec<(String, Vec<u32>)>, Error>)
    ensures
        r is Ok <==> vectors_of(kv_view(pairs@)) is Some,
        r matches Ok(v) ==> vectors_of(kv_view(pairs@)) == Some(vectors_view(v@)),
        r matches Err(e) ==> fault_kind(kv_view(pairs@), e),
{
    let ghost scan = kv_view(pairs@);
    let mut values: Vec<(String, Vec<u32>)> = Vec::new();
    let mut i: usize = 0;
    while i < pairs.len()
        invariant
            i <= pairs@.len(),
            scan == kv_view(pairs@),
            vectors_of(scan.subrange(0, i as int)) == Some(vectors_view(values@)),
        decreases pairs@.len() - i,
    {
        let ghost upto = scan.subrange(0, i + 1);
        assert(upto.drop_last() =~= scan.subrange(0, i as int));
        assert(upto.last() == (pairs@[i as int].0@, pairs@[i as int].1@));
        let id = match string_from_utf8(slice_to_vec(pairs[i].0.as_slice())) {
            Some(id) => id,
            None => {
                proof {
                    lemma_vectors_stuck(scan, i + 1);
                }
                return Err(Error::VectorIndex("Invalid key".to_owned()));
            },
        };
        let embedding = match decode_embedding(pairs[i].1.as_slice()) {
            Some(e) => e,
            None => {
                proof {
                    lemma_vectors_stuck(scan, i + 1);
                }
                return Err(Error::Codec("Failed to deserialize embedding".to_owned()));
            },
        };
        let ghost before = vectors_view(values@);
        let ghost entry = (id@, embedding@);
        values.push((id, embedding));
        assert(vectors_view(values@) =~= before.push(entry));
        i = i + 1;
    }
    assert(scan.subrange(0, pairs@.len() as int) =~= scan);
    Ok(values)
}

/// The vector namespace of `s` does not decode, and `e` is the error its
/// first faulty entry gives.
pub open spec fn snapshot_fault(s: Spaces, e: Error) -> bool {
    exists|scan: Seq<(Seq<u8>, Seq<u8>)>|
        scan_result(scan, s[ColumnFamilies::VECTOR_DATA@], Seq::empty()) && fault_kind(scan, e)
}

proof fn lemma_vectors_entry(scan: Seq<(Seq<u8>, Seq<u8>)>, v: Seq<(Seq<char>, Seq<u32>)>, i: int)
    requires
        vectors_of(scan) == Some(v),
        0 <= i < scan.len(),
    ensures
        v.len() == scan.len(),
        valid_utf8(scan[i].0),
        embedding_decoding(scan[i].1) == Some(v[i].1),
        v[i].0 == decode_utf8(scan[i].0),
    decreases scan.len(),
{
    let w = scan.drop_last();
    let u = vectors_of(w)->Some_0;
    if i < scan.len() - 1 {
        lemma_vectors_entry(w, u, i);
        assert(w[i] == scan[i]);
        assert(v[i] == u[i]);
    } else if w.len() > 0 {
        lemma_vectors_entry(w, u, 0);
    }
}

/// A snapshot of a store that holds the encoding of embedding `e` under
/// identifier `id`, when that encoding reads back as `e`, holds `(id, e)`:
/// a search after an insert ranks the embedding that the insert stored.
pub proof fn lemma_snapshot_holds(s: Spaces, id: Seq<char>, e: Seq<u32>, v: Seq<(Seq<char>, Seq<u32>)>)
    requires
        snapshot_of(s, v),
        lookup(s, ColumnFamilies::VECTOR_DATA@, encode_utf8(id)) == Some(embedding_encoding(e)),
        embedding_decoding(embedding_encoding(e)) == Some(e),
    ensures
        v.contains((id, e)),
{
    let scan = choose|scan: Seq<(Seq<u8>, Seq<u8>)>|
        scan_result(scan, s[ColumnFamilies::VECTOR_DATA@], Seq::empty()) && vectors_of(scan) == Some(v);
    let k = encode_utf8(id);
    let m = s[ColumnFamilies::VECTOR_DATA@];
    assert(is_prefix(Seq::<u8>::empty(), k)) by {
        assert(k.subrange(0, 0) =~= Seq::<u8>::empty());
    }
    assert(with_prefix(m, Seq::empty()).contains_key(k));
    lemma_pairs_contains(scan, k);
    let i = choose|i: int| 0 <= i < scan.len() && scan[i].0 == k;
    lemma_pairs_value(scan, i);
    lemma_vectors_entry(scan, v, i);
    encode_utf8_decode_utf8(id);
    assert(v[i] == (id, e));
}

// ---------------------------------------------------------------------------
// Choosing the nearest candidates
// ---------------------------------------------------------------------------

/// Candidate `a` comes before candidate `b`: a smaller distance, or an equal
/// distance and an earlier position.
pub open spec fn ranks_before(c: Seq<(Seq<char>, u32)>, a: int, b: int) -> bool {
    c[a].1 < c[b].1 || (c[a].1 == c[b].1 && a < b)
}

pub open spec fn min_nat(a: nat, b: nat) -> nat {
    if a < b {
        a
    } else {
        b
    }
}

/// `sel` picks the first `k` candidates (or all of them) in rank order.
pub open spec fn top_selection(c: Seq<(Seq<char>, u32)>, k: nat, sel: Seq<int>) -> bool {
    &&& sel.len() == min_nat(k, c.len())
    &&& forall|i: int| 0 <= i < sel.len() ==> 0 <= #[trigger] sel[i] < c.len()
    &&& forall|i: int, j: int| 0 <= i < j < sel.len() ==> ranks_before(c, sel[i], sel[j])
    &&& forall|x: int, i: int|
        #![trigger sel.contains(x), sel[i]]
        0 <= x < c.len() && !sel.contains(x) && 0 <= i < sel.len() ==> ranks_before(c, sel[i], x)
}

/// `r` holds the `k` nearest candidates (or all of them), nearest first,
/// equal distances in candidate order.
pub open spec fn nearest_of(c: Seq<(Seq<char>, u32)>, k: nat, r: Seq<(Seq<char>, u32)>) -> bool {
    exists|sel: Seq<int>| top_selection(c, k, sel) && r == sel.map_values(|j: int| c[j])
}

/// The nearest candidates come in ascending order of distance, and there
/// are `k` of them, or every candidate when there are fewer.
pub proof fn lemma_nearest_sorted(c: Seq<(Seq<char>, u32)>, k: nat, r: Seq<(Seq<char>, u32)>)
    requires
        nearest_of(c, k, r),
    ensures
        r.len() == min_nat(k, c.len()),
        forall|i: int, j: int| 0 <= i < j < r.len() ==> r[i].1 <= r[j].1,
        forall|i: int| 0 <= i < r.len() ==> c.contains(#[trigger] r[i]),
{
    let sel = choose|sel: Seq<int>| top_selection(c, k, sel) && r == sel.map_values(|j: int| c[j]);
    assert forall|i: int, j: int| 0 <= i < j < r.len() implies r[i].1 <= r[j].1 by {
        assert(ranks_before(c, sel[i], sel[j]));
    }
    assert forall|i: int| 0 <= i < r.len() implies c.contains(#[trigger] r[i]) by {
        assert(0 <= sel[i] < c.len());
        assert(r[i] == c[sel[i]]);
    }
}

/// The view of a list of identified distances.
pub open spec fn hits_view(v: Seq<(String, u32)>) -> Seq<(Seq<char>, u32)> {
    v.map_values(|p: (String, u32)| (p.0@, p.1))
}

/// The `k` candidates nearest by distance (or all of them), nearest first;
/// candidates at equal distance keep their order.
///
/// Distances are single-precision bit patterns of non-negative numbers, whose
/// order as unsigned integers is their numeric order.
pub fn nearest(cands: &Vec<(String, u32)>, k: usize) -> (r: Vec<(String, u32)>)
    ensures
        nearest_of(hits_view(cands@), k as nat, hits_view(r@)),
{
    let ghost c = hits_view(cands@);
    let n = cands.len();
    let mut rest: Vec<usize> = Vec::new();
    let mut i: usize = 0;
    while i < n
        invariant
            i <= n,
            n == cands@.len(),
            rest@.len() == i,
            forall|a: int| 0 <= a < i ==> #[trigger] rest@[a] == a,
        decreases n - i,
    {
        rest.push(i);
        i = i + 1;
    }
    let limit = if k < n {
        k
    } else {
        n
    };
    let mut out: Vec<(String, u32)> = Vec::new();
    let ghost mut sel: Seq<int> = Seq::empty();
    assert forall|x: int| 0 <= x < n implies #[trigger] rest@.contains(x as usize) by {
        assert(rest@[x] == x as usize);
    }
    assert(hits_view(out@) =~= sel.map_values(|j: int| c[j]));
    while out.len() < limit
        invariant
            n == cands@.len(),
            c == hits_view(cands@),
            limit == min_nat(k as nat, n as nat),
            out@.len() == sel.len() <= limit,
            rest@.len() + sel.len() == n,
            forall|a: int| 0 <= a < rest@.len() ==> #[trigger] rest@[a] < n,
            forall|a: int, b: int| 0 <= a < b < rest@.len() ==> rest@[a] != rest@[b],
            forall|x: int| 0 <= x < n ==> (rest@.contains(x as usize) <==> !sel.contains(x)),
            forall|a: int| 0 <= a < sel.len() ==> 0 <= #[trigger] sel[a] < n,
            forall|a: int, b: int| 0 <= a < b < sel.len() ==> ranks_before(c, sel[a], sel[b]),
            forall|x: int, a: int|
                #![trigger sel.contains(x), sel[a]]
                0 <= x < n && !sel.contains(x) && 0 <= a < sel.len() ==> ranks_before(c, sel[a], x),
            hits_view(out@) == sel.map_values(|j: int| c[j]),
        decreases limit - out@.len(),
    {
        let mut best: usize = 0;
        let mut j: usize = 1;
        while j < rest.len()
            invariant
                n == cands@.len(),
                c == hits_view(cands@),
                0 < rest@.len(),
                best < j <= rest@.len(),
                forall|a: int| 0 <= a < rest@.len() ==> #[trigger] rest@[a] < n,
                forall|y: int|
                    0 <= y < j && y != best ==> ranks_before(c, rest@[best as int] as int, #[trigger] rest@[y] as int),
                forall|a: int, b: int| 0 <= a < b < rest@.len() ==> rest@[a] != rest@[b],
            decreases rest@.len() - j,
        {
            let cj = cands[rest[j]].1;
            let cb = cands[rest[best]].1;
            assert(c[rest@[j as int] as int].1 == cj);
            assert(c[rest@[best as int] as int].1 == cb);
            if cj < cb || (cj == cb && rest[j] < rest[best]) {
                best = j;
            }
            j = j + 1;
        }
        let b = rest[best];
        proof {
            assert forall|x: int| 0 <= x < n && !sel.contains(x) && x != b implies ranks_before(c, b as int, x) by {
                assert(rest@.contains(x as usize));
                let y = choose|y: int| 0 <= y < rest@.len() && rest@[y] == x as usize;
                assert(y != best);
            }
        }
        let ghost old_rest = rest@;
        rest.remove(best);
        assert(rest@ == old_rest.remove(best as int));
        let ghost old_sel = sel;
        let ghost before = hits_view(out@);
        out.push((cands[b].0.clone(), cands[b].1));
        proof {
            sel = sel.push(b as int);
            assert(hits_view(out@) =~= before.push(c[b as int]));
            assert(sel.map_values(|j: int| c[j]) =~= old_sel.map_values(|j: int| c[j]).push(c[b as int]));
            assert forall|x: int| 0 <= x < n implies (rest@.contains(x as usize) <==> !sel.contains(x)) by {
                if x == b as int {
                    assert(sel[sel.len() - 1] == x);
                    if rest@.contains(x as usize) {
                        let y = choose|y: int| 0 <= y < rest@.len() && rest@[y] == x as usize;
                        let y2 = if y < best { y } else { y + 1 };
                        assert(old_rest[y2] == x as usize);
                        assert(old_rest[best as int] == x as usize);
                    }
                } else {
                    if rest@.contains(x as usize) {
                        let y = choose|y: int| 0 <= y < rest@.len() && rest@[y] == x as usize;
                        let y2 = if y < best { y } else { y + 1 };
                        assert(old_rest[y2] == x as usize);
                        assert(old_rest.contains(x as usize));
                    } else if old_rest.contains(x as usize) {
                        let y = choose|y: int| 0 <= y < old_rest.len() && old_rest[y] == x as usize;
                        assert(y != best);
                        let y2 = if y < best { y } else { y - 1 };
                        assert(rest@[y2] == x as usize);
                    }
                    if old_sel.contains(x) {
                        let a = choose|a: int| 0 <= a < old_sel.len() && old_sel[a] == x;
                        assert(sel[a] == x);
                    }
                    if sel.contains(x) {
                        let a = choose|a: int| 0 <= a < sel.len() && sel[a] == x;
                        if a < old_sel.len() {
                            assert(old_sel[a] == x);
                        }
                    }
                }
            }
            assert forall|a: int, b2: int| 0 <= a < b2 < rest@.len() implies rest@[a] != rest@[b2] by {
                let a2 = if a < best { a } else { a + 1 };
                let b3 = if b2 < best { b2 } else { b2 + 1 };
                assert(rest@[a] == old_rest[a2] && rest@[b2] == old_rest[b3]);
            }
            assert forall|a: int| 0 <= a < rest@.len() implies #[trigger] rest@[a] < n by {
                let a2 = if a < best { a } else { a + 1 };
                assert(rest@[a] == old_rest[a2]);
            }
            assert forall|x: int, a: int|
                #![trigger sel.contains(x), sel[a]]
                0 <= x < n && !sel.contains(x) && 0 <= a < sel.len() implies ranks_before(c, sel[a], x) by {
                if a < old_sel.len() {
                    assert(sel[a] == old_sel[a]);
                    assert(!old_sel.contains(x)) by {
                        if old_sel.contains(x) {
                            let q = choose|q: int| 0 <= q < old_sel.len() && old_sel[q] == x;
                            assert(sel[q] == x);
                        }
                    }
                } else {
                    assert(x != b as int);
                }
            }
            assert forall|a: int, a3: int| 0 <= a < a3 < sel.len() implies ranks_before(c, sel[a], sel[a3]) by {
                if a3 == sel.len() - 1 {
                    assert(sel[a] == old_sel[a]);
                    assert(!old_sel.contains(b as int)) by {
                        assert(old_rest.contains(b));
                    }
                }
            }
        }
    }
    proof {
        assert(top_selection(c, k as nat, sel));
    }
    out
}

// ---------------------------------------------------------------------------
// The index
// ---------------------------------------------------------------------------

/// Whether `c` gives, for each embedding of `v` in order, its identifier and
/// a distance that `distance` returned for the query and that embedding.
pub open spec fn distances_from<F: Fn(&[u32], &[u32]) -> u32>(
    distance: F,
    query: &[u32],
    v: Seq<(Seq<char>, Seq<u32>)>,
    c: Seq<(Seq<char>, u32)>,
) -> bool {
    c.len() == v.len() && forall|i: int|
        0 <= i < v.len() ==> #[trigger] c[i].0 == v[i].0 && exists|e: &[u32]|
            e@ == v[i].1 && distance.ensures((query, e), c[i].1)
}

/// Exact nearest-neighbour search over the embeddings of one namespace,
/// through an in-memory snapshot that every write discards whole.
pub struct VectorManager {
    snapshot: Option<Vec<(String, Vec<u32>)>>,
    dimension: usize,
}

impl VectorManager {
    /// The snapshot, when there is one, is what the store holds.
    pub closed spec fn coherent(&self, s: Spaces) -> bool {
        match self.snapshot {
            Some(v) => snapshot_of(s, vectors_view(v@)),
            None => true,
        }
    }

    /// The snapshot agrees with any store that agrees on the vector namespace.
    pub proof fn lemma_transfer(&self, s1: Spaces, s2: Spaces)
        requires
            self.coherent(s1),
            same_space(s1, s2, ColumnFamilies::VECTOR_DATA@),
        ensures
            self.coherent(s2),
    {
    }

    /// Whether a snapshot is built.
    pub closed spec fn has_snapshot(&self) -> bool {
        self.snapshot is Some
    }

    /// The length every embedding must have.
    pub closed spec fn dim(&self) -> nat {
        self.dimension as nat
    }

    /// An index for embeddings of length `dimension`.
    pub fn new(dimension: usize) -> (r: VectorManager)
        ensures
            forall|s: Spaces| r.coherent(s),
            r.dim() == dimension,
    {
        VectorManager { snapshot: None, dimension }
    }

    /// The length every embedding must have.
    pub fn dimension(&self) -> (r: usize)
        ensures
            r == self.dim(),
    {
        self.dimension
    }

    /// Discards the snapshot.
    pub(crate) fn invalidate(&mut self)
        ensures
            forall|s: Spaces| final(self).coherent(s),
            final(self).dim() == old(self).dim(),
    {
        self.snapshot = None;
    }

    /// Stores the embedding of `memory` under its identifier and discards the
    /// snapshot. An embedding of the wrong length is refused with nothing changed.
    pub fn insert<S: StorageBackend>(&mut self, storage: &mut S, memory: &Memory) -> (r: Result<
        (),
        Error,
    >)
        requires
            old(self).coherent(old(storage).spaces()),
            old(storage).well_formed(),
        ensures
            final(self).coherent(final(storage).spaces()),
            final(storage).well_formed(),
            final(self).dim() == old(self).dim(),
            memory.embedding@.len() != old(self).dim() ==> (r matches Err(e) && e is VectorIndex)
                && final(storage).spaces() == old(storage).spaces() && *final(self) == *old(self),
            r is Ok ==> final(storage).spaces() == store_put(
                old(storage).spaces(),
                ColumnFamilies::VECTOR_DATA@,
                encode_utf8(memory.id@),
                embedding_encoding(memory.embedding@),
            ) && !final(self).has_snapshot(),
            r is Ok && memory.embedding@.len() <= MAX_EMBEDDING_LEN ==> embedding_decoding(
                embedding_encoding(memory.embedding@),
            ) == Some(memory.embedding@),
            memory.embedding@.len() == old(self).dim() ==> (r matches Err(e) ==> e is Storage),
            r is Err ==> final(storage).spaces() == old(storage).spaces(),
    {
        if memory.embedding.len() != self.dimension {
            return Err(Error::VectorIndex("Embedding dimension mismatch".to_owned()));
        }
        let bytes = match encode_embedding(&memory.embedding) {
            Some(b) => b,
            None => return Err(Error::Codec("Failed to serialize embedding".to_owned())),
        };
        storage.put(ColumnFamilies::VECTOR_DATA, memory.id.as_str().as_bytes(), bytes.as_slice())?;
        self.snapshot = None;
        Ok(())
    }

    /// Removes the embedding stored under `id` and discards the snapshot.
    pub fn delete<S: StorageBackend>(&mut self, storage: &mut S, id: &str) -> (r: Result<(), Error>)
        requires
            old(self).coherent(old(storage).spaces()),
            old(storage).well_formed(),
        ensures
            final(self).coherent(final(storage).spaces()),
            final(storage).well_formed(),
            final(self).dim() == old(self).dim(),
            r is Ok ==> final(storage).spaces() == store_delete(
                old(storage).spaces(),
                ColumnFamilies::VECTOR_DATA@,
                encode_utf8(id@),
            ),
            r is Err ==> final(storage).spaces() == old(storage).spaces(),
            r matches Err(e) ==> e is Storage,
    {
        storage.delete(ColumnFamilies::VECTOR_DATA, id.as_bytes())?;
        self.snapshot = None;
        Ok(())
    }

    /// Builds the snapshot from a full scan of the store, unless there is one.
    fn ensure_snapshot<S: StorageBackend>(&mut self, storage: &S) -> (r: Result<(), Error>)
        requires
            old(self).coherent(storage.spaces()),
            storage.well_formed(),
        ensures
            final(self).coherent(storage.spaces()),
            final(self).dim() == old(self).dim(),
            old(self).has_snapshot() ==> r is Ok && *final(self) == *old(self),
            r is Ok ==> final(self).has_snapshot(),
            r is Err ==> !final(self).has_snapshot(),
            r matches Err(e) ==> e is Storage || snapshot_fault(storage.spaces(), e),
    {
        if self.snapshot.is_some() {
            return Ok(());
        }
        let empty: Vec<u8> = Vec::new();
        assert(empty@ =~= Seq::<u8>::empty());
        let pairs = storage.scan_prefix(ColumnFamilies::VECTOR_DATA, empty.as_slice())?;
        let values = snapshot_from_pairs(&pairs)?;
        self.snapshot = Some(values);
        Ok(())
    }

    /// Discards the snapshot and builds it again from the store.
    pub fn rebuild_index<S: StorageBackend>(&mut self, storage: &S) -> (r: Result<(), Error>)
        requires
            old(self).coherent(storage.spaces()),
            storage.well_formed(),
        ensures
            final(self).coherent(storage.spaces()),
            final(self).dim() == old(self).dim(),
            r is Ok <==> final(self).has_snapshot(),
            r matches Err(e) ==> e is Storage || snapshot_fault(storage.spaces(), e),
    {
        self.snapshot = None;
        self.ensure_snapshot(storage)
    }

    /// The `k` stored embeddings nearest to `query` under `distance`, nearest
    /// first, as identifiers with distances. A query of the wrong length is
    /// refused with nothing changed.
    pub fn search<S: StorageBackend, F: Fn(&[u32], &[u32]) -> u32>(
        &mut self,
        storage: &S,
        query: &[u32],
        k: usize,
        distance: F,
    ) -> (r: Result<Vec<(String, u32)>, Error>)
        requires
            old(self).coherent(storage.spaces()),
            storage.well_formed(),
            forall|a: &[u32], b: &[u32]| distance.requires((a, b)),
        ensures
            final(self).coherent(storage.spaces()),
            final(self).dim() == old(self).dim(),
            query@.len() != old(self).dim() ==> (r matches Err(e) && e is VectorIndex) && *final(self)
                == *old(self),
            r matches Ok(hits) ==> query@.len() == old(self).dim() && exists|
                v: Seq<(Seq<char>, Seq<u32>)>,
                c: Seq<(Seq<char>, u32)>,
            |
                snapshot_of(storage.spaces(), v) && distances_from(distance, query, v, c) && nearest_of(
                    c,
                    k as nat,
                    hits_view(hits@),
                ),
            old(self).has_snapshot() && query@.len() == old(self).dim() ==> r is Ok,
            query@.len() == old(self).dim() ==> (r matches Err(e) ==> !old(self).has_snapshot() && (
            e is Storage || snapshot_fault(storage.spaces(), e))),
    {
        if query.len() != self.dimension {
            return Err(Error::VectorIndex("Query dimension mismatch".to_owned()));
        }
        self.ensure_snapshot(storage)?;
        let vectors = match &self.snapshot {
            Some(v) => v,
            None => return Err(Error::VectorIndex("Cache not built".to_owned())),
        };
        let ghost v = vectors_view(vectors@);
        let mut cands: Vec<(String, u32)> = Vec::new();
        let mut i: usize = 0;
        while i < vectors.len()
            invariant
                i <= vectors@.len(),
                v == vectors_view(vectors@),
                forall|a: &[u32], b: &[u32]| distance.requires((a, b)),
                distances_from(distance, query, v.subrange(0, i as int), hits_view(cands@)),
            decreases vectors@.len() - i,
        {
            let e = vectors[i].1.as_slice();
            let d = distance(query, e);
            let ghost before = hits_view(cands@);
            cands.push((vectors[i].0.clone(), d));
            proof {
                let c2 = hits_view(cands@);
                let v2 = v.subrange(0, i + 1);
                assert(c2 =~= before.push((v[i as int].0, d)));
                assert forall|j: int| 0 <= j < v2.len() implies #[trigger] c2[j].0 == v2[j].0 && exists|
                    e2: &[u32],
                | e2@ == v2[j].1 && distance.ensures((query, e2), c2[j].1) by {
                    if j < i {
                        assert(v2[j] == v.subrange(0, i as int)[j]);
                        assert(c2[j] == before[j]);
                    } else {
                        assert(e@ == v2[j].1);
                    }
                }
                assert(c2.len() == v2.len());
                assert(distances_from(distance, query, v2, c2));
            }
            i = i + 1;
        }
        assert(v.subrange(0, vectors@.len() as int) =~= v);
        Ok(nearest(&cands, k))
    }
}

/// Tuning parameters for a graph-based approximate index; the search here
/// is exact and does not read them.
pub struct HnswParams {
    /// Connections per node and layer.
    pub max_connections: usize,
    /// Candidate list size while building.
    pub ef_construction: usize,
    /// Candidate list size while searching.
    pub ef_search: usize,
}

impl Default for HnswParams {
    fn default() -> (r: HnswParams)
        ensures
            r.max_connections == 16 && r.ef_construction == 200 && r.ef_search == 50,
    {
        HnswParams { max_connections: 16, ef_construction: 200, ef_search: 50 }
    }
}

impl HnswParams {
    /// Parameters that favour accuracy.
    pub fn high_accuracy() -> (r: HnswParams)
        ensures
            r.max_connections == 32 && r.ef_construction == 400 && r.ef_search == 100,
    {
        HnswParams { max_connections: 32, ef_construction: 400, ef_search: 100 }
    }

    /// Parameters that favour speed.
    pub fn high_speed() -> (r: HnswParams)
        ensures
            r.max_connections == 8 && r.ef_construction == 100 && r.ef_search == 25,
    {
        HnswParams { max_connections: 8, ef_construction: 100, ef_search: 25 }
    }
}

} // verus!
