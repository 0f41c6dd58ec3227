use crate::error::Error;
use crate::types::{edges_view, pairs_view, Edge, EdgeModel, Memory, MemoryModel};
use vstd::bytes::{
    lemma_auto_spec_u32_to_from_le_bytes, lemma_auto_spec_u64_to_from_le_bytes,
    spec_u32_from_le_bytes, spec_u32_to_le_bytes, spec_u64_from_le_bytes, spec_u64_to_le_bytes,
    u32_from_le_bytes, u32_to_le_bytes, u64_from_le_bytes, u64_to_le_bytes,
};
use vstd::prelude::*;
use vstd::slice::{slice_subrange, slice_to_vec};
use vstd::string::StringSliceAdditionalSpecFns;
use vstd::utf8::{decode_utf8, encode_utf8, encode_utf8_decode_utf8, encode_utf8_valid_utf8, valid_utf8};

verus! {

/// The schema-version tag that leads every encoded payload.
pub const SCHEMA_VERSION: u8 = 1;

/// The largest length that a length prefix can state.
pub const MAX_LEN: u64 = 0xffff_ffff_ffff_ffff;

// ---------------------------------------------------------------------------
// The format, as functions on byte sequences
// ---------------------------------------------------------------------------

pub open spec fn ser_u32(x: u32) -> Seq<u8> {
    spec_u32_to_le_bytes(x)
}

pub open spec fn ser_u64(x: u64) -> Seq<u8> {
    spec_u64_to_le_bytes(x)
}

/// A string: its UTF-8 length as eight little-endian bytes, then its UTF-8 bytes.
pub open spec fn ser_str(s: Seq<char>) -> Seq<u8> {
    ser_u64(encode_utf8(s).len() as u64) + encode_utf8(s)
}

/// Whether the UTF-8 form of a string fits a length prefix.
pub open spec fn str_fits(s: Seq<char>) -> bool {
    encode_utf8(s).len() <= MAX_LEN
}

/// The items of a list one after the other.
pub open spec fn ser_items<T>(v: Seq<T>, f: spec_fn(T) -> Seq<u8>) -> Seq<u8>
    decreases v.len(),
{
    if v.len() == 0 {
        Seq::empty()
    } else {
        ser_items(v.drop_last(), f) + f(v.last())
    }
}

/// A list: its length as eight little-endian bytes, then its items.
pub open spec fn ser_list<T>(v: Seq<T>, f: spec_fn(T) -> Seq<u8>) -> Seq<u8> {
    ser_u64(v.len() as u64) + ser_items(v, f)
}

pub open spec fn ser_pair(p: (Seq<char>, Seq<char>)) -> Seq<u8> {
    ser_str(p.0) + ser_str(p.1)
}

pub open spec fn word_ser() -> spec_fn(u32) -> Seq<u8> {
    |x: u32| ser_u32(x)
}

pub open spec fn pair_ser() -> spec_fn((Seq<char>, Seq<char>)) -> Seq<u8> {
    |p: (Seq<char>, Seq<char>)| ser_pair(p)
}

pub open spec fn edge_ser() -> spec_fn(EdgeModel) -> Seq<u8> {
    |e: EdgeModel| ser_edge(e)
}

/// The fields of a record, in order.
pub open spec fn ser_memory_fields(m: MemoryModel) -> Seq<u8> {
    ser_str(m.id) + ser_str(m.content) + ser_list(m.embedding, word_ser()) + ser_u32(m.importance)
        + ser_u64(#[verifier::truncate] (m.timestamp as u64)) + ser_list(m.metadata, pair_ser())
}

/// The fields of an edge, in order.
pub open spec fn ser_edge(e: EdgeModel) -> Seq<u8> {
    ser_str(e.from) + ser_str(e.relation) + ser_str(e.to) + ser_u32(e.weight) + ser_u64(
        #[verifier::truncate] (e.timestamp as u64),
    )
}

/// The encoding of a record: the version tag, then its fields.
pub open spec fn serialize_memory(m: MemoryModel) -> Seq<u8> {
    seq![SCHEMA_VERSION] + ser_memory_fields(m)
}

/// The encoding of one edge: the version tag, then its fields.
pub open spec fn serialize_edge(e: EdgeModel) -> Seq<u8> {
    seq![SCHEMA_VERSION] + ser_edge(e)
}

/// The encoding of an adjacency list: the version tag, then the list.
pub open spec fn serialize_edges(v: Seq<EdgeModel>) -> Seq<u8> {
    seq![SCHEMA_VERSION] + ser_list(v, edge_ser())
}

/// Whether every string and list of a record fits its length prefix.
pub open spec fn memory_fits(m: MemoryModel) -> bool {
    &&& str_fits(m.id)
    &&& str_fits(m.content)
    &&& m.embedding.len() <= MAX_LEN
    &&& m.metadata.len() <= MAX_LEN
    &&& forall|i: int| 0 <= i < m.metadata.len() ==> #[trigger] pair_fits(m.metadata[i])
}

pub open spec fn pair_fits(p: (Seq<char>, Seq<char>)) -> bool {
    str_fits(p.0) && str_fits(p.1)
}

/// Whether every string of an edge fits its length prefix.
pub open spec fn edge_fits(e: EdgeModel) -> bool {
    str_fits(e.from) && str_fits(e.relation) && str_fits(e.to)
}

pub open spec fn edges_fit(v: Seq<EdgeModel>) -> bool {
    v.len() <= MAX_LEN && forall|i: int| 0 <= i < v.len() ==> #[trigger] edge_fits(v[i])
}

// ---------------------------------------------------------------------------
// Reading the format back: from a buffer and a position, a value and the
// position after it
// ---------------------------------------------------------------------------

pub open spec fn parse_u32(b: Seq<u8>, i: int) -> Option<(u32, int)> {
    if 0 <= i && i + 4 <= b.len() {
        Some((spec_u32_from_le_bytes(b.subrange(i, i + 4)), i + 4))
    } else {
        None
    }
}

pub open spec fn parse_u64(b: Seq<u8>, i: int) -> Option<(u64, int)> {
    if 0 <= i && i + 8 <= b.len() {
        Some((spec_u64_from_le_bytes(b.subrange(i, i + 8)), i + 8))
    } else {
        None
    }
}

pub open spec fn parse_str(b: Seq<u8>, i: int) -> Option<(Seq<char>, int)> {
    match parse_u64(b, i) {
        Some((n, j)) => if j + n <= b.len() && valid_utf8(b.subrange(j, j + n)) {
            Some((decode_utf8(b.subrange(j, j + n)), j + n))
        } else {
            None
        },
        None => None,
    }
}

/// `n` items read one after the other.
pub open spec fn parse_items<T>(
    b: Seq<u8>,
    i: int,
    n: nat,
    p: spec_fn(Seq<u8>, int) -> Option<(T, int)>,
) -> Option<(Seq<T>, int)>
    decreases n,
{
    if n == 0 {
        Some((Seq::empty(), i))
    } else {
        match parse_items(b, i, (n - 1) as nat, p) {
            Some((v, j)) => match p(b, j) {
                Some((x, k)) => Some((v.push(x), k)),
                None => None,
            },
            None => None,
        }
    }
}

pub open spec fn parse_list<T>(b: Seq<u8>, i: int, p: spec_fn(Seq<u8>, int) -> Option<(T, int)>) -> Option<
    (Seq<T>, int),
> {
    match parse_u64(b, i) {
        Some((n, j)) => parse_items(b, j, n as nat, p),
        None => None,
    }
}

pub open spec fn parse_pair(b: Seq<u8>, i: int) -> Option<((Seq<char>, Seq<char>), int)> {
    match parse_str(b, i) {
        Some((k, j)) => match parse_str(b, j) {
            Some((v, l)) => Some(((k, v), l)),
            None => None,
        },
        None => None,
    }
}

pub open spec fn word_parser() -> spec_fn(Seq<u8>, int) -> Option<(u32, int)> {
    |b: Seq<u8>, i: int| parse_u32(b, i)
}

pub open spec fn pair_parser() -> spec_fn(Seq<u8>, int) -> Option<((Seq<char>, Seq<char>), int)> {
    |b: Seq<u8>, i: int| parse_pair(b, i)
}

pub open spec fn edge_parser() -> spec_fn(Seq<u8>, int) -> Option<(EdgeModel, int)> {
    |b: Seq<u8>, i: int| parse_edge_at(b, i)
}

pub open spec fn parse_memory_at(b: Seq<u8>, i: int) -> Option<(MemoryModel, int)> {
    match parse_str(b, i) {
        None => None,
        Some((id, i1)) => match parse_str(b, i1) {
            None => None,
            Some((content, i2)) => match parse_list(b, i2, word_parser()) {
                None => None,
                Some((embedding, i3)) => match parse_u32(b, i3) {
                    None => None,
                    Some((importance, i4)) => match parse_u64(b, i4) {
                        None => None,
                        Some((ts, i5)) => match parse_list(b, i5, pair_parser()) {
                            None => None,
                            Some((metadata, i6)) => Some(
                                (
                                    MemoryModel {
                                        id,
                                        content,
                                        embedding,
                                        importance,
                                        timestamp: #[verifier::truncate] (ts as i64),
                                        metadata,
                                    },
                                    i6,
                                ),
                            ),
                        },
                    },
                },
            },
        },
    }
}

pub open spec fn parse_edge_at(b: Seq<u8>, i: int) -> Option<(EdgeModel, int)> {
    match parse_str(b, i) {
        None => None,
        Some((from, i1)) => match parse_str(b, i1) {
            None => None,
            Some((relation, i2)) => match parse_str(b, i2) {
                None => None,
                Some((to, i3)) => match parse_u32(b, i3) {
                    None => None,
                    Some((weight, i4)) => match parse_u64(b, i4) {
                        None => None,
                        Some((ts, i5)) => Some(
                            (EdgeModel { from, relation, to, weight, timestamp: #[verifier::truncate] (ts as i64) }, i5),
                        ),
                    },
                },
            },
        },
    }
}

/// Whether a buffer starts with the version tag that this format knows.
pub open spec fn tagged(b: Seq<u8>) -> bool {
    b.len() >= 1 && b[0] == SCHEMA_VERSION
}

/// The record that a whole buffer encodes, if any.
pub open spec fn parse_memory(b: Seq<u8>) -> Option<MemoryModel> {
    if tagged(b) {
        match parse_memory_at(b, 1) {
            Some((m, j)) => if j == b.len() {
                Some(m)
            } else {
                None
            },
            None => None,
        }
    } else {
        None
    }
}

/// The edge that a whole buffer encodes, if any.
pub open spec fn parse_edge(b: Seq<u8>) -> Option<EdgeModel> {
    if tagged(b) {
        match parse_edge_at(b, 1) {
            Some((e, j)) => if j == b.len() {
                Some(e)
            } else {
                None
            },
            None => None,
        }
    } else {
        None
    }
}

/// The adjacency list that a whole buffer encodes, if any; an empty buffer
/// is the empty list.
pub open spec fn parse_edges(b: Seq<u8>) -> Option<Seq<EdgeModel>> {
    if b.len() == 0 {
        Some(Seq::empty())
    } else if tagged(b) {
        match parse_list(b, 1, edge_parser()) {
            Some((v, j)) => if j == b.len() {
                Some(v)
            } else {
                None
            },
            None => None,
        }
    } else {
        None
    }
}

// ---------------------------------------------------------------------------
// Round trips
// ---------------------------------------------------------------------------

/// `w` stands in `b` at position `i`.
pub open spec fn occurs_at(b: Seq<u8>, i: int, w: Seq<u8>) -> bool {
    0 <= i && i + w.len() <= b.len() && b.subrange(i, i + w.len()) == w
}

proof fn lemma_occurs_split(b: Seq<u8>, i: int, w1: Seq<u8>, w2: Seq<u8>)
    requires
        occurs_at(b, i, w1 + w2),
    ensures
        occurs_at(b, i, w1),
        occurs_at(b, i + w1.len(), w2),
{
    let w = w1 + w2;
    let whole = b.subrange(i, i + w.len());
    assert(whole == w);
    assert(b.subrange(i, i + w1.len()) =~= whole.subrange(0, w1.len() as int));
    assert(whole.subrange(0, w1.len() as int) =~= w1);
    assert(b.subrange(i + w1.len(), i + w1.len() + w2.len()) =~= whole.subrange(
        w1.len() as int,
        w.len() as int,
    ));
    assert(whole.subrange(w1.len() as int, w.len() as int) =~= w2);
}

proof fn lemma_u32_round_trip(b: Seq<u8>, i: int, x: u32)
    requires
        occurs_at(b, i, ser_u32(x)),
    ensures
        parse_u32(b, i) == Some((x, i + 4)),
{
    lemma_auto_spec_u32_to_from_le_bytes();
}

proof fn lemma_u64_round_trip(b: Seq<u8>, i: int, x: u64)
    requires
        occurs_at(b, i, ser_u64(x)),
    ensures
        parse_u64(b, i) == Some((x, i + 8)),
{
    lemma_auto_spec_u64_to_from_le_bytes();
}

proof fn lemma_str_round_trip(b: Seq<u8>, i: int, s: Seq<char>)
    requires
        occurs_at(b, i, ser_str(s)),
        str_fits(s),
    ensures
        parse_str(b, i) == Some((s, i + ser_str(s).len())),
{
    lemma_auto_spec_u64_to_from_le_bytes();
    let n = encode_utf8(s).len();
    lemma_occurs_split(b, i, ser_u64(n as u64), encode_utf8(s));
    lemma_u64_round_trip(b, i, n as u64);
    encode_utf8_valid_utf8(s);
    encode_utf8_decode_utf8(s);
}

proof fn lemma_pair_round_trip(b: Seq<u8>, i: int, p: (Seq<char>, Seq<char>))
    requires
        occurs_at(b, i, ser_pair(p)),
        pair_fits(p),
    ensures
        parse_pair(b, i) == Some((p, i + ser_pair(p).len())),
{
    lemma_occurs_split(b, i, ser_str(p.0), ser_str(p.1));
    lemma_str_round_trip(b, i, p.0);
    lemma_str_round_trip(b, i + ser_str(p.0).len(), p.1);
}

proof fn lemma_edge_round_trip(b: Seq<u8>, i: int, e: EdgeModel)
    requires
        occurs_at(b, i, ser_edge(e)),
        edge_fits(e),
    ensures
        parse_edge_at(b, i) == Some((e, i + ser_edge(e).len())),
{
    let w1 = ser_str(e.from);
    let w2 = ser_str(e.relation);
    let w3 = ser_str(e.to);
    let w4 = ser_u32(e.weight);
    let w5 = ser_u64(#[verifier::truncate] (e.timestamp as u64));
    lemma_occurs_split(b, i, w1 + w2 + w3 + w4, w5);
    lemma_occurs_split(b, i, w1 + w2 + w3, w4);
    lemma_occurs_split(b, i, w1 + w2, w3);
    lemma_occurs_split(b, i, w1, w2);
    lemma_str_round_trip(b, i, e.from);
    lemma_str_round_trip(b, i + w1.len(), e.relation);
    lemma_str_round_trip(b, i + w1.len() + w2.len(), e.to);
    lemma_auto_spec_u32_to_from_le_bytes();
    lemma_u32_round_trip(b, i + w1.len() + w2.len() + w3.len(), e.weight);
    lemma_auto_spec_u64_to_from_le_bytes();
    lemma_u64_round_trip(b, i + w1.len() + w2.len() + w3.len() + w4.len(), #[verifier::truncate] (e.timestamp as u64));
    lemma_cast_round_trip(e.timestamp);
}

proof fn lemma_words_round_trip(b: Seq<u8>, i: int, v: Seq<u32>)
    requires
        occurs_at(b, i, ser_items(v, word_ser())),
    ensures
        parse_items(b, i, v.len(), word_parser()) == Some((v, i + ser_items(v, word_ser()).len())),
    decreases v.len(),
{
    if v.len() > 0 {
        let w = v.drop_last();
        lemma_occurs_split(b, i, ser_items(w, word_ser()), ser_u32(v.last()));
        lemma_words_round_trip(b, i, w);
        lemma_auto_spec_u32_to_from_le_bytes();
        lemma_u32_round_trip(b, i + ser_items(w, word_ser()).len(), v.last());
        assert(w.push(v.last()) =~= v);
    }
}

proof fn lemma_pairs_round_trip(b: Seq<u8>, i: int, v: Seq<(Seq<char>, Seq<char>)>)
    requires
        occurs_at(b, i, ser_items(v, pair_ser())),
        forall|k: int| 0 <= k < v.len() ==> #[trigger] pair_fits(v[k]),
    ensures
        parse_items(b, i, v.len(), pair_parser()) == Some((v, i + ser_items(v, pair_ser()).len())),
    decreases v.len(),
{
    if v.len() > 0 {
        let w = v.drop_last();
        lemma_occurs_split(b, i, ser_items(w, pair_ser()), ser_pair(v.last()));
        assert forall|k: int| 0 <= k < w.len() implies #[trigger] pair_fits(w[k]) by {
            assert(w[k] == v[k]);
        }
        lemma_pairs_round_trip(b, i, w);
        assert(pair_fits(v[v.len() - 1]));
        lemma_pair_round_trip(b, i + ser_items(w, pair_ser()).len(), v.last());
        assert(w.push(v.last()) =~= v);
    }
}

proof fn lemma_edge_items_round_trip(b: Seq<u8>, i: int, v: Seq<EdgeModel>)
    requires
        occurs_at(b, i, ser_items(v, edge_ser())),
        forall|k: int| 0 <= k < v.len() ==> #[trigger] edge_fits(v[k]),
    ensures
        parse_items(b, i, v.len(), edge_parser()) == Some((v, i + ser_items(v, edge_ser()).len())),
    decreases v.len(),
{
    if v.len() > 0 {
        let w = v.drop_last();
        lemma_occurs_split(b, i, ser_items(w, edge_ser()), ser_edge(v.last()));
        assert forall|k: int| 0 <= k < w.len() implies #[trigger] edge_fits(w[k]) by {
            assert(w[k] == v[k]);
        }
        lemma_edge_items_round_trip(b, i, w);
        assert(edge_fits(v[v.len() - 1]));
        lemma_edge_round_trip(b, i + ser_items(w, edge_ser()).len(), v.last());
        assert(w.push(v.last()) =~= v);
    }
}

proof fn lemma_cast_round_trip(t: i64)
    ensures
        (#[verifier::truncate] (#[verifier::truncate] (t as u64)) as i64) == t,
{
    assert((#[verifier::truncate] (#[verifier::truncate] (t as u64)) as i64) == t) by (bit_vector);
}

/// Decoding the encoding of a record gives the record back: identifier,
/// content, embedding, importance, timestamp and metadata all equal.
pub proof fn lemma_memory_round_trip(m: MemoryModel)
    requires
        memory_fits(m),
    ensures
        parse_memory(serialize_memory(m)) == Some(m),
{
    lemma_auto_spec_u64_to_from_le_bytes();
    lemma_auto_spec_u32_to_from_le_bytes();
    let b = serialize_memory(m);
    let w1 = ser_str(m.id);
    let w2 = ser_str(m.content);
    let w3 = ser_list(m.embedding, word_ser());
    let w4 = ser_u32(m.importance);
    let w5 = ser_u64(#[verifier::truncate] (m.timestamp as u64));
    let w6 = ser_list(m.metadata, pair_ser());
    assert(b.subrange(1, b.len() as int) =~= w1 + w2 + w3 + w4 + w5 + w6);
    lemma_occurs_split(b, 1, w1 + w2 + w3 + w4 + w5, w6);
    lemma_occurs_split(b, 1, w1 + w2 + w3 + w4, w5);
    lemma_occurs_split(b, 1, w1 + w2 + w3, w4);
    lemma_occurs_split(b, 1, w1 + w2, w3);
    lemma_occurs_split(b, 1, w1, w2);
    let i3: int = 1 + w1.len() as int + w2.len() as int;
    let i6: int = i3 + w3.len() + w4.len() + w5.len();
    lemma_str_round_trip(b, 1, m.id);
    lemma_str_round_trip(b, 1 + w1.len() as int, m.content);
    lemma_occurs_split(b, i3, ser_u64(m.embedding.len() as u64), ser_items(m.embedding, word_ser()));
    lemma_u64_round_trip(b, i3, m.embedding.len() as u64);
    lemma_words_round_trip(b, i3 + 8, m.embedding);
    lemma_u32_round_trip(b, i3 + w3.len(), m.importance);
    lemma_u64_round_trip(b, i3 + w3.len() + w4.len(), #[verifier::truncate] (m.timestamp as u64));
    lemma_cast_round_trip(m.timestamp);
    lemma_occurs_split(b, i6, ser_u64(m.metadata.len() as u64), ser_items(m.metadata, pair_ser()));
    lemma_u64_round_trip(b, i6, m.metadata.len() as u64);
    lemma_pairs_round_trip(b, i6 + 8, m.metadata);
}

/// Decoding the encoding of an edge gives the edge back.
pub proof fn lemma_edge_encoding_round_trip(e: EdgeModel)
    requires
        edge_fits(e),
    ensures
        parse_edge(serialize_edge(e)) == Some(e),
{
    let b = serialize_edge(e);
    assert(b.subrange(1, b.len() as int) =~= ser_edge(e));
    lemma_edge_round_trip(b, 1, e);
    lemma_cast_round_trip(e.timestamp);
}

/// Decoding the encoding of an adjacency list gives the list back.
pub proof fn lemma_edges_round_trip(v: Seq<EdgeModel>)
    requires
        edges_fit(v),
    ensures
        parse_edges(serialize_edges(v)) == Some(v),
{
    lemma_auto_spec_u64_to_from_le_bytes();
    let b = serialize_edges(v);
    let w1 = ser_u64(v.len() as u64);
    let w2 = ser_items(v, edge_ser());
    assert(b.subrange(1, b.len() as int) =~= w1 + w2);
    lemma_occurs_split(b, 1, w1, w2);
    lemma_u64_round_trip(b, 1, v.len() as u64);
    lemma_edge_items_round_trip(b, 9, v);
}

// ---------------------------------------------------------------------------
// Writing
// ---------------------------------------------------------------------------

fn write_u32(out: &mut Vec<u8>, x: u32)
    ensures
        final(out)@ == old(out)@ + ser_u32(x),
{
    let mut b = u32_to_le_bytes(x);
    out.append(&mut b);
}

fn write_u64(out: &mut Vec<u8>, x: u64)
    ensures
        final(out)@ == old(out)@ + ser_u64(x),
{
    let mut b = u64_to_le_bytes(x);
    out.append(&mut b);
}

fn write_str(out: &mut Vec<u8>, s: &str)
    ensures
        final(out)@ == old(out)@ + ser_str(s@),
        str_fits(s@),
{
    let bytes = s.as_bytes();
    write_u64(out, bytes.len() as u64);
    let mut v = slice_to_vec(bytes);
    out.append(&mut v);
    assert(final(out)@ =~= old(out)@ + ser_str(s@));
}

fn write_words(out: &mut Vec<u8>, v: &Vec<u32>)
    ensures
        final(out)@ == old(out)@ + ser_list(v@, word_ser()),
        v@.len() <= MAX_LEN,
{
    write_u64(out, v.len() as u64);
    let ghost start = out@;
    let mut i: usize = 0;
    while i < v.len()
        invariant
            i <= v@.len(),
            out@ == start + ser_items(v@.subrange(0, i as int), word_ser()),
        decreases v@.len() - i,
    {
        write_u32(out, v[i]);
        proof {
            let w = v@.subrange(0, i + 1);
            assert(w.drop_last() =~= v@.subrange(0, i as int));
        }
        i = i + 1;
    }
    assert(v@.subrange(0, v@.len() as int) =~= v@);
    assert(final(out)@ =~= old(out)@ + ser_list(v@, word_ser()));
}

fn write_pairs(out: &mut Vec<u8>, v: &Vec<(String, String)>)
    ensures
        final(out)@ == old(out)@ + ser_list(pairs_view(v@), pair_ser()),
        v@.len() <= MAX_LEN,
        forall|i: int| 0 <= i < v@.len() ==> #[trigger] pair_fits(pairs_view(v@)[i]),
{
    write_u64(out, v.len() as u64);
    let ghost start = out@;
    let mut i: usize = 0;
    while i < v.len()
        invariant
            i <= v@.len(),
            out@ == start + ser_items(pairs_view(v@).subrange(0, i as int), pair_ser()),
            forall|j: int| 0 <= j < i ==> #[trigger] pair_fits(pairs_view(v@)[j]),
        decreases v@.len() - i,
    {
        write_str(out, v[i].0.as_str());
        write_str(out, v[i].1.as_str());
        proof {
            let w = pairs_view(v@).subrange(0, i + 1);
            assert(w.drop_last() =~= pairs_view(v@).subrange(0, i as int));
            assert(w.last() == (v@[i as int].0@, v@[i as int].1@));
        }
        i = i + 1;
    }
    assert(pairs_view(v@).subrange(0, v@.len() as int) =~= pairs_view(v@));
    assert(final(out)@ =~= old(out)@ + ser_list(pairs_view(v@), pair_ser()));
}

fn write_edge(out: &mut Vec<u8>, e: &Edge)
    ensures
        final(out)@ == old(out)@ + ser_edge(e@),
        edge_fits(e@),
{
    write_str(out, e.from.as_str());
    write_str(out, e.relation.as_str());
    write_str(out, e.to.as_str());
    write_u32(out, e.weight);
    write_u64(out, e.timestamp as u64);
    assert(final(out)@ =~= old(out)@ + ser_edge(e@));
}

/// Encodes a record: the version tag, then its fields.
pub fn encode_memory(memory: &Memory) -> (r: Result<Vec<u8>, Error>)
    ensures
        r matches Ok(b) && b@ == serialize_memory(memory@),
        memory_fits(memory@),
{
    let mut out: Vec<u8> = Vec::new();
    out.push(SCHEMA_VERSION);
    write_str(&mut out, memory.id.as_str());
    write_str(&mut out, memory.content.as_str());
    write_words(&mut out, &memory.embedding);
    write_u32(&mut out, memory.importance);
    write_u64(&mut out, memory.timestamp as u64);
    write_pairs(&mut out, &memory.metadata);
    assert(out@ =~= serialize_memory(memory@));
    Ok(out)
}

/// Encodes one edge: the version tag, then its fields.
pub fn encode_edge(edge: &Edge) -> (r: Result<Vec<u8>, Error>)
    ensures
        r matches Ok(b) && b@ == serialize_edge(edge@),
{
    let mut out: Vec<u8> = Vec::new();
    out.push(SCHEMA_VERSION);
    write_edge(&mut out, edge);
    assert(out@ =~= serialize_edge(edge@));
    Ok(out)
}

/// Encodes an adjacency list: the version tag, then the list.
pub fn encode_edges(edges: &[Edge]) -> (r: Result<Vec<u8>, Error>)
    ensures
        r matches Ok(b) && b@ == serialize_edges(edges_view(edges@)),
        edges_fit(edges_view(edges@)),
{
    let mut out: Vec<u8> = Vec::new();
    out.push(SCHEMA_VERSION);
    write_u64(&mut out, edges.len() as u64);
    let ghost start = out@;
    let mut i: usize = 0;
    while i < edges.len()
        invariant
            i <= edges@.len(),
            out@ == start + ser_items(edges_view(edges@).subrange(0, i as int), edge_ser()),
            forall|j: int| 0 <= j < i ==> #[trigger] edge_fits(edges_view(edges@)[j]),
        decreases edges@.len() - i,
    {
        write_edge(&mut out, &edges[i]);
        proof {
            let w = edges_view(edges@).subrange(0, i + 1);
            assert(w.drop_last() =~= edges_view(edges@).subrange(0, i as int));
        }
        i = i + 1;
    }
    assert(edges_view(edges@).subrange(0, edges@.len() as int) =~= edges_view(edges@));
    assert(out@ =~= serialize_edges(edges_view(edges@)));
    Ok(out)
}

// ---------------------------------------------------------------------------
// Reading
// ---------------------------------------------------------------------------

/// Relies on `String::from_utf8`: it accepts exactly the byte strings that
/// are valid UTF-8, and gives the characters they encode.
#[verifier::external_body]
pub(crate) fn string_from_utf8(bytes: Vec<u8>) -> (r: Option<String>)
    ensures
        r is Some <==> valid_utf8(bytes@),
        r matches Some(s) ==> s@ == decode_utf8(bytes@),
{
    String::from_utf8(bytes).ok()
}

/// A failure to decode, with its explanation.
pub fn codec_error(msg: &str) -> (r: Error)
    ensures
        r is Codec,
{
    Error::Codec(msg.to_owned())
}

fn read_u32(b: &[u8], i: usize) -> (r: Option<(u32, usize)>)
    ensures
        r is Some <==> parse_u32(b@, i as int) is Some,
        r matches Some((x, j)) ==> parse_u32(b@, i as int) == Some((x, j as int)),
{
    if i <= b.len() && b.len() - i >= 4 {
        let x = u32_from_le_bytes(slice_subrange(b, i, i + 4));
        Some((x, i + 4))
    } else {
        None
    }
}

fn read_u64(b: &[u8], i: usize) -> (r: Option<(u64, usize)>)
    ensures
        r is Some <==> parse_u64(b@, i as int) is Some,
        r matches Some((x, j)) ==> parse_u64(b@, i as int) == Some((x, j as int)),
{
    if i <= b.len() && b.len() - i >= 8 {
        let x = u64_from_le_bytes(slice_subrange(b, i, i + 8));
        Some((x, i + 8))
    } else {
        None
    }
}

fn read_str(b: &[u8], i: usize) -> (r: Option<(String, usize)>)
    ensures
        r is Some <==> parse_str(b@, i as int) is Some,
        r matches Some((s, j)) ==> parse_str(b@, i as int) == Some((s@, j as int)),
{
    match read_u64(b, i) {
        None => None,
        Some((n, j)) => {
            if n > (b.len() - j) as u64 {
                None
            } else {
                let end = j + n as usize;
                let piece = slice_to_vec(slice_subrange(b, j, end));
                match string_from_utf8(piece) {
                    Some(s) => Some((s, end)),
                    None => None,
                }
            }
        },
    }
}

fn read_pair(b: &[u8], i: usize) -> (r: Option<((String, String), usize)>)
    ensures
        r is Some <==> parse_pair(b@, i as int) is Some,
        r matches Some((p, j)) ==> parse_pair(b@, i as int) == Some(((p.0@, p.1@), j as int)),
{
    match read_str(b, i) {
        None => None,
        Some((k, j)) => match read_str(b, j) {
            None => None,
            Some((v, l)) => Some(((k, v), l)),
        },
    }
}

fn read_edge(b: &[u8], i: usize) -> (r: Option<(Edge, usize)>)
    ensures
        r is Some <==> parse_edge_at(b@, i as int) is Some,
        r matches Some((e, j)) ==> parse_edge_at(b@, i as int) == Some((e@, j as int)),
{
    let (from, i1) = match read_str(b, i) {
        None => return None,
        Some(x) => x,
    };
    let (relation, i2) = match read_str(b, i1) {
        None => return None,
        Some(x) => x,
    };
    let (to, i3) = match read_str(b, i2) {
        None => return None,
        Some(x) => x,
    };
    let (weight, i4) = match read_u32(b, i3) {
        None => return None,
        Some(x) => x,
    };
    let (ts, i5) = match read_u64(b, i4) {
        None => return None,
        Some(x) => x,
    };
    Some((Edge { from, relation, to, weight, timestamp: ts as i64 }, i5))
}

/// Once reading `t + 1` items fails, reading any more fails too.
proof fn lemma_items_stuck<T>(
    b: Seq<u8>,
    i: int,
    t: nat,
    n: nat,
    p: spec_fn(Seq<u8>, int) -> Option<(T, int)>,
)
    requires
        t < n,
        parse_items(b, i, t + 1, p) is None,
    ensures
        parse_items(b, i, n, p) is None,
    decreases n,
{
    if n > t + 1 {
        lemma_items_stuck(b, i, t, (n - 1) as nat, p);
    }
}

fn read_words(b: &[u8], i: usize) -> (r: Option<(Vec<u32>, usize)>)
    ensures
        r is Some <==> parse_list(b@, i as int, word_parser()) is Some,
        r matches Some((v, j)) ==> parse_list(b@, i as int, word_parser()) == Some((v@, j as int)),
{
    let (n, j) = match read_u64(b, i) {
        None => return None,
        Some(x) => x,
    };
    let mut out: Vec<u32> = Vec::new();
    let mut pos = j;
    let mut t: u64 = 0;
    while t < n
        invariant
            t <= n,
            parse_u64(b@, i as int) == Some((n, j as int)),
            parse_items(b@, j as int, t as nat, word_parser()) == Some((out@, pos as int)),
        decreases n - t,
    {
        match read_u32(b, pos) {
            None => {
                proof {
                    lemma_items_stuck(b@, j as int, t as nat, n as nat, word_parser());
                }
                return None;
            },
            Some((x, k)) => {
                out.push(x);
                pos = k;
                t = t + 1;
            },
        }
    }
    Some((out, pos))
}

fn read_pairs(b: &[u8], i: usize) -> (r: Option<(Vec<(String, String)>, usize)>)
    ensures
        r is Some <==> parse_list(b@, i as int, pair_parser()) is Some,
        r matches Some((v, j)) ==> parse_list(b@, i as int, pair_parser()) == Some(
            (pairs_view(v@), j as int),
        ),
{
    let (n, j) = match read_u64(b, i) {
        None => return None,
        Some(x) => x,
    };
    let mut out: Vec<(String, String)> = Vec::new();
    let mut pos = j;
    let mut t: u64 = 0;
    while t < n
        invariant
            t <= n,
            parse_u64(b@, i as int) == Some((n, j as int)),
            parse_items(b@, j as int, t as nat, pair_parser()) == Some((pairs_view(out@), pos as int)),
        decreases n - t,
    {
        match read_pair(b, pos) {
            None => {
                proof {
                    lemma_items_stuck(b@, j as int, t as nat, n as nat, pair_parser());
                }
                return None;
            },
            Some((x, k)) => {
                let ghost before = pairs_view(out@);
                out.push(x);
                assert(pairs_view(out@) =~= before.push((x.0@, x.1@)));
                pos = k;
                t = t + 1;
            },
        }
    }
    Some((out, pos))
}

fn read_edges(b: &[u8], i: usize) -> (r: Option<(Vec<Edge>, usize)>)
    ensures
        r is Some <==> parse_list(b@, i as int, edge_parser()) is Some,
        r matches Some((v, j)) ==> parse_list(b@, i as int, edge_parser()) == Some(
            (edges_view(v@), j as int),
        ),
{
    let (n, j) = match read_u64(b, i) {
        None => return None,
        Some(x) => x,
    };
    let mut out: Vec<Edge> = Vec::new();
    let mut pos = j;
    let mut t: u64 = 0;
    while t < n
        invariant
            t <= n,
            parse_u64(b@, i as int) == Some((n, j as int)),
            parse_items(b@, j as int, t as nat, edge_parser()) == Some((edges_view(out@), pos as int)),
        decreases n - t,
    {
        match read_edge(b, pos) {
            None => {
                proof {
                    lemma_items_stuck(b@, j as int, t as nat, n as nat, edge_parser());
                }
                return None;
            },
            Some((x, k)) => {
                let ghost before = edges_view(out@);
                let ghost xv = x@;
                out.push(x);
                assert(edges_view(out@) =~= before.push(xv));
                pos = k;
                t = t + 1;
            },
        }
    }
    Some((out, pos))
}

fn read_memory(b: &[u8], i: usize) -> (r: Option<(Memory, usize)>)
    ensures
        r is Some <==> parse_memory_at(b@, i as int) is Some,
        r matches Some((m, j)) ==> parse_memory_at(b@, i as int) == Some((m@, j as int)),
{
    let (id, i1) = match read_str(b, i) {
        None => return None,
        Some(x) => x,
    };
    let (content, i2) = match read_str(b, i1) {
        None => return None,
        Some(x) => x,
    };
    let (embedding, i3) = match read_words(b, i2) {
        None => return None,
        Some(x) => x,
    };
    let (importance, i4) = match read_u32(b, i3) {
        None => return None,
        Some(x) => x,
    };
    let (ts, i5) = match read_u64(b, i4) {
        None => return None,
        Some(x) => x,
    };
    let (metadata, i6) = match read_pairs(b, i5) {
        None => return None,
        Some(x) => x,
    };
    Some((Memory { id, content, embedding, importance, timestamp: ts as i64, metadata }, i6))
}

/// Decodes a record. Fails with a codec error exactly when the buffer is
/// not the encoding of a record: empty, of an unknown version, or malformed.
pub fn decode_memory(bytes: &[u8]) -> (r: Result<Memory, Error>)
    ensures
        r is Ok <==> parse_memory(bytes@) is Some,
        r matches Ok(m) ==> parse_memory(bytes@) == Some(m@),
        r matches Err(e) ==> e is Codec,
{
    if bytes.len() == 0 {
        return Err(codec_error("Empty byte array"));
    }
    if bytes[0] != SCHEMA_VERSION {
        return Err(codec_error("Unsupported schema version"));
    }
    match read_memory(bytes, 1) {
        Some((m, j)) => if j == bytes.len() {
            Ok(m)
        } else {
            Err(codec_error("Trailing bytes after record"))
        },
        None => Err(codec_error("Malformed record")),
    }
}

/// Decodes one edge. Fails with a codec error exactly when the buffer is
/// not the encoding of an edge.
pub fn decode_edge(bytes: &[u8]) -> (r: Result<Edge, Error>)
    ensures
        r is Ok <==> parse_edge(bytes@) is Some,
        r matches Ok(e) ==> parse_edge(bytes@) == Some(e@),
        r matches Err(e) ==> e is Codec,
{
    if bytes.len() == 0 {
        return Err(codec_error("Empty byte array"));
    }
    if bytes[0] != SCHEMA_VERSION {
        return Err(codec_error("Unsupported schema version"));
    }
    match read_edge(bytes, 1) {
        Some((e, j)) => if j == bytes.len() {
            Ok(e)
        } else {
            Err(codec_error("Trailing bytes after edge"))
        },
        None => Err(codec_error("Malformed edge")),
    }
}

/// Decodes an adjacency list; an empty buffer is the empty list. Fails with a
/// codec error exactly when the buffer is not the encoding of a list.
pub fn decode_edges(bytes: &[u8]) -> (r: Result<Vec<Edge>, Error>)
    ensures
        r is Ok <==> parse_edges(bytes@) is Some,
        r matches Ok(v) ==> parse_edges(bytes@) == Some(edges_view(v@)),
        r matches Err(e) ==> e is Codec,
{
    if bytes.len() == 0 {
        let v: Vec<Edge> = Vec::new();
        assert(edges_view(v@) =~= Seq::empty());
        return Ok(v);
    }
    if bytes[0] != SCHEMA_VERSION {
        return Err(codec_error("Unsupported schema version"));
    }
    match read_edges(bytes, 1) {
        Some((v, j)) => if j == bytes.len() {
            Ok(v)
        } else {
            Err(codec_error("Trailing bytes after edges"))
        },
        None => Err(codec_error("Malformed edge list")),
    }
}

} // verus!
