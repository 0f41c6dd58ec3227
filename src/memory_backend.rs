use crate::error::Error;
use crate::storage::{
    apply_ops, bytes_equal, distinct_keys, has_all_namespaces, kv_view,
    namespace_names, pairs_map, starts_with, store_delete,
    store_put, with_prefix, ColumnFamilies, Space, Spaces, StorageBackend, WriteOp,
};
use crate::types::str_equal;
use vstd::prelude::*;

verus! {

// ---------------------------------------------------------------------------
// Facts about maps described by lists of pairs
// ---------------------------------------------------------------------------

/// A key is in the map of a list of pairs exactly when some pair has it.
pub proof fn lemma_pairs_contains<K, V>(v: Seq<(K, V)>, k: K)
    ensures
        pairs_map(v).contains_key(k) <==> exists|i: int| 0 <= i < v.len() && v[i].0 == k,
    decreases v.len(),
{
    if v.len() > 0 {
        lemma_pairs_contains(v.drop_last(), k);
        if pairs_map(v.drop_last()).contains_key(k) {
            let i = choose|i: int| 0 <= i < v.drop_last().len() && v.drop_last()[i].0 == k;
            assert(v[i].0 == k);
        }
        if exists|i: int| 0 <= i < v.len() && v[i].0 == k {
            let i = choose|i: int| 0 <= i < v.len() && v[i].0 == k;
            if i < v.len() - 1 {
                assert(v.drop_last()[i].0 == k);
            }
        }
    }
}

/// In a list with distinct keys, each pair gives the value of its key.
pub proof fn lemma_pairs_value<K, V>(v: Seq<(K, V)>, i: int)
    requires
        distinct_keys(v),
        0 <= i < v.len(),
    ensures
        pairs_map(v).contains_key(v[i].0),
        pairs_map(v)[v[i].0] == v[i].1,
    decreases v.len(),
{
    if i < v.len() - 1 {
        let w = v.drop_last();
        assert(distinct_keys(w)) by {
            assert forall|a: int, b: int| 0 <= a < b < w.len() implies w[a].0 != w[b].0 by {
                assert(v[a].0 != v[b].0);
            }
        }
        assert(w[i] == v[i]);
        lemma_pairs_value(w, i);
        assert(v[i].0 != v[v.len() - 1].0);
    }
}

proof fn lemma_drop_last_distinct<K, V>(v: Seq<(K, V)>)
    requires
        distinct_keys(v),
        v.len() > 0,
    ensures
        distinct_keys(v.drop_last()),
        !pairs_map(v.drop_last()).contains_key(v.last().0),
{
    let w = v.drop_last();
    assert forall|a: int, b: int| 0 <= a < b < w.len() implies w[a].0 != w[b].0 by {
        assert(v[a].0 != v[b].0);
    }
    lemma_pairs_contains(w, v.last().0);
    if exists|i: int| 0 <= i < w.len() && w[i].0 == v.last().0 {
        let i = choose|i: int| 0 <= i < w.len() && w[i].0 == v.last().0;
        assert(v[i].0 != v[v.len() - 1].0);
    }
}

proof fn lemma_pairs_update<K, V>(v: Seq<(K, V)>, i: int, x: V)
    requires
        distinct_keys(v),
        0 <= i < v.len(),
    ensures
        pairs_map(v.update(i, (v[i].0, x))) == pairs_map(v).insert(v[i].0, x),
        distinct_keys(v.update(i, (v[i].0, x))),
    decreases v.len(),
{
    let u = v.update(i, (v[i].0, x));
    let w = v.drop_last();
    assert(u.drop_last() =~= if i == v.len() - 1 {
        w
    } else {
        w.update(i, (w[i].0, x))
    });
    lemma_drop_last_distinct(v);
    if i < v.len() - 1 {
        lemma_pairs_update(w, i, x);
        assert(v[i].0 != v[v.len() - 1].0);
    }
    assert(pairs_map(u) =~= pairs_map(v).insert(v[i].0, x));
    assert forall|a: int, b: int| 0 <= a < b < u.len() implies u[a].0 != u[b].0 by {
        assert(v[a].0 != v[b].0);
    }
}

proof fn lemma_pairs_remove<K, V>(v: Seq<(K, V)>, i: int)
    requires
        distinct_keys(v),
        0 <= i < v.len(),
    ensures
        pairs_map(v.remove(i)) == pairs_map(v).remove(v[i].0),
        distinct_keys(v.remove(i)),
    decreases v.len(),
{
    let u = v.remove(i);
    let w = v.drop_last();
    lemma_drop_last_distinct(v);
    if i == v.len() - 1 {
        assert(u =~= w);
        assert(pairs_map(u) =~= pairs_map(v).remove(v[i].0));
    } else {
        assert(u.drop_last() =~= w.remove(i));
        assert(u.last() == v.last());
        lemma_pairs_remove(w, i);
        assert(v[i].0 != v[v.len() - 1].0);
        assert(pairs_map(u) =~= pairs_map(v).remove(v[i].0));
    }
    assert forall|a: int, b: int| 0 <= a < b < u.len() implies u[a].0 != u[b].0 by {
        let a2 = if a < i { a } else { a + 1 };
        let b2 = if b < i { b } else { b + 1 };
        assert(u[a] == v[a2]);
        assert(u[b] == v[b2]);
        assert(v[a2].0 != v[b2].0);
    }
}

proof fn lemma_pairs_push<K, V>(v: Seq<(K, V)>, k: K, x: V)
    requires
        distinct_keys(v),
        !pairs_map(v).contains_key(k),
    ensures
        pairs_map(v.push((k, x))) == pairs_map(v).insert(k, x),
        distinct_keys(v.push((k, x))),
{
    let u = v.push((k, x));
    assert(u.drop_last() =~= v);
    lemma_pairs_contains(v, k);
    assert forall|a: int, b: int| 0 <= a < b < u.len() implies u[a].0 != u[b].0 by {
        if b == v.len() {
            assert(u[a] == v[a]);
        } else {
            assert(v[a].0 != v[b].0);
        }
    }
}

// ---------------------------------------------------------------------------
// The store
// ---------------------------------------------------------------------------

/// One namespace of an in-memory store.
pub struct Namespace {
    name: String,
    entries: Vec<(Vec<u8>, Vec<u8>)>,
}

impl Namespace {
    pub closed spec fn model(&self) -> (Seq<char>, Space) {
        (self.name@, pairs_map(kv_view(self.entries@)))
    }

    pub closed spec fn wf(&self) -> bool {
        distinct_keys(kv_view(self.entries@))
    }
}

/// The models of a list of namespaces.
pub closed spec fn spaces_view(v: Seq<Namespace>) -> Seq<(Seq<char>, Space)> {
    v.map_values(|n: Namespace| n.model())
}

/// A store held in memory: every namespace of the data models, each a list
/// of entries with distinct keys. Batches are checked whole before any of
/// their writes is applied.
pub struct MemoryBackend {
    spaces: Vec<Namespace>,
}

impl MemoryBackend {
    /// Namespace names are distinct and so are the keys within each namespace.
    pub closed spec fn wf(&self) -> bool {
        &&& distinct_keys(spaces_view(self.spaces@))
        &&& forall|i: int| 0 <= i < self.spaces@.len() ==> (#[trigger] self.spaces@[i]).wf()
    }

    /// A store with every namespace of the data models, all empty.
    pub fn new() -> (r: MemoryBackend)
        ensures
            r.wf(),
            has_all_namespaces(r.spaces()),
            forall|cf: Seq<char>| #[trigger] r.spaces().contains_key(cf) ==> r.spaces()[cf]
                =~= Map::<Seq<u8>, Seq<u8>>::empty(),
    {
        proof {
            reveal_strlit("default");
            reveal_strlit("records");
            reveal_strlit("graph_forward");
            reveal_strlit("graph_backward");
            reveal_strlit("vector_index");
            reveal_strlit("vector_data");
            reveal_strlit("metadata");
        }
        let names = ColumnFamilies::all();
        let mut spaces: Vec<Namespace> = Vec::new();
        let mut i: usize = 0;
        while i < names.len()
            invariant
                i <= names@.len(),
                names@.map_values(|s: &'static str| s@) == namespace_names(),
                spaces@.len() == i,
                forall|j: int| 0 <= j < i ==> (#[trigger] spaces@[j]).name@ == names@[j]@,
                forall|j: int| 0 <= j < i ==> (#[trigger] spaces@[j]).entries@.len() == 0,
            decreases names@.len() - i,
        {
            spaces.push(Namespace { name: names[i].to_owned(), entries: Vec::new() });
            i = i + 1;
        }
        let r = MemoryBackend { spaces };
        proof {
            let sv = spaces_view(spaces@);
            let nn = namespace_names();
            assert forall|j: int| 0 <= j < sv.len() implies sv[j] == (nn[j], Map::<Seq<u8>, Seq<u8>>::empty()) by {
                assert(names@.map_values(|s: &'static str| s@)[j] == names@[j]@);
                assert(kv_view(spaces@[j].entries@) =~= Seq::empty());
            }
            assert(distinct_keys(sv)) by {
                assert(nn[0].len() == 7 && nn[0][0] == 'd');
                assert(nn[1].len() == 7 && nn[1][0] == 'r');
                assert(nn[2].len() == 13 && nn[2][0] == 'g');
                assert(nn[3].len() == 14 && nn[3][0] == 'g');
                assert(nn[4].len() == 12 && nn[4][0] == 'v');
                assert(nn[5].len() == 11 && nn[5][0] == 'v');
                assert(nn[6].len() == 8 && nn[6][0] == 'm');
                assert forall|a: int, b: int| 0 <= a < b < sv.len() implies sv[a].0 != sv[b].0 by {
                    assert(nn[a].len() != nn[b].len() || nn[a][0] != nn[b][0]);
                    assert(sv[a].0 == nn[a]);
                    assert(sv[b].0 == nn[b]);
                }
            }
            assert forall|j: int| 0 <= j < spaces@.len() implies (#[trigger] spaces@[j]).wf() by {
                assert(kv_view(spaces@[j].entries@) =~= Seq::empty());
            }
            assert forall|j: int| 0 <= j < nn.len() implies r.spaces().contains_key(#[trigger] nn[j]) by {
                lemma_pairs_value(sv, j);
            }
            assert forall|cf: Seq<char>| #[trigger] r.spaces().contains_key(cf) implies r.spaces()[cf]
                =~= Map::<Seq<u8>, Seq<u8>>::empty() by {
                lemma_pairs_contains(sv, cf);
                let j = choose|j: int| 0 <= j < sv.len() && sv[j].0 == cf;
                lemma_pairs_value(sv, j);
            }
        }
        r
    }

    fn find_space(&self, cf: &str) -> (r: Option<usize>)
        requires
            self.wf(),
        ensures
            r matches Some(i) ==> i < self.spaces@.len() && self.spaces@[i as int].name@ == cf@,
            r is None ==> !self.spaces().contains_key(cf@),
    {
        let mut i: usize = 0;
        while i < self.spaces.len()
            invariant
                i <= self.spaces@.len(),
                forall|j: int| 0 <= j < i ==> (#[trigger] self.spaces@[j]).name@ != cf@,
            decreases self.spaces@.len() - i,
        {
            if str_equal(self.spaces[i].name.as_str(), cf) {
                return Some(i);
            }
            i = i + 1;
        }
        proof {
            let sv = spaces_view(self.spaces@);
            lemma_pairs_contains(sv, cf@);
            assert forall|j: int| 0 <= j < sv.len() implies sv[j].0 != cf@ by {
                assert(sv[j].0 == self.spaces@[j].name@);
            }
        }
        None
    }

    proof fn lemma_space_at(&self, i: int)
        requires
            self.wf(),
            0 <= i < self.spaces@.len(),
        ensures
            self.spaces().contains_key(self.spaces@[i].name@),
            self.spaces()[self.spaces@[i].name@] == pairs_map(kv_view(self.spaces@[i].entries@)),
    {
        lemma_pairs_value(spaces_view(self.spaces@), i);
    }
}

fn find_key(entries: &Vec<(Vec<u8>, Vec<u8>)>, key: &[u8]) -> (r: Option<usize>)
    ensures
        r matches Some(j) ==> j < entries@.len() && entries@[j as int].0@ == key@,
        r is None ==> !pairs_map(kv_view(entries@)).contains_key(key@),
{
    let mut j: usize = 0;
    while j < entries.len()
        invariant
            j <= entries@.len(),
            forall|a: int| 0 <= a < j ==> (#[trigger] entries@[a]).0@ != key@,
        decreases entries@.len() - j,
    {
        if bytes_equal(entries[j].0.as_slice(), key) {
            return Some(j);
        }
        j = j + 1;
    }
    proof {
        let kv = kv_view(entries@);
        lemma_pairs_contains(kv, key@);
        assert forall|a: int| 0 <= a < kv.len() implies kv[a].0 != key@ by {
            assert(kv[a].0 == entries@[a].0@);
        }
    }
    None
}

fn copy_bytes(v: &[u8]) -> (r: Vec<u8>)
    ensures
        r@ == v@,
{
    vstd::slice::slice_to_vec(v)
}

impl MemoryBackend {
    /// Writes into namespace `i`, which exists.
    fn put_at(&mut self, i: usize, key: &[u8], value: &[u8])
        requires
            old(self).wf(),
            i < old(self).spaces@.len(),
        ensures
            final(self).wf(),
            final(self).spaces() == store_put(
                old(self).spaces(),
                old(self).spaces@[i as int].name@,
                key@,
                value@,
            ),
            final(self).spaces@.map_values(|n: Namespace| n.name@) == old(self).spaces@.map_values(
                |n: Namespace| n.name@,
            ),
    {
        proof {
            self.lemma_space_at(i as int);
        }
        let ghost sv = spaces_view(self.spaces@);
        let mut space = Namespace { name: String::new(), entries: Vec::new() };
        self.spaces.set_and_swap(i, &mut space);
        let ghost old_space = space;
        let ghost kv = kv_view(space.entries@);
        assert(old_space.wf());
        match find_key(&space.entries, key) {
            Some(j) => {
                space.entries.set(j, (copy_bytes(key), copy_bytes(value)));
                proof {
                    lemma_pairs_update(kv, j as int, value@);
                    assert(kv_view(space.entries@) =~= kv.update(j as int, (kv[j as int].0, value@)));
                }
            },
            None => {
                space.entries.push((copy_bytes(key), copy_bytes(value)));
                proof {
                    lemma_pairs_push(kv, key@, value@);
                    assert(kv_view(space.entries@) =~= kv.push((key@, value@)));
                }
            },
        }
        self.spaces.set(i, space);
        proof {
            lemma_pairs_update(sv, i as int, space.model().1);
            assert(spaces_view(self.spaces@) =~= sv.update(i as int, (sv[i as int].0, space.model().1)));
            assert forall|k: int| 0 <= k < self.spaces@.len() implies (#[trigger] self.spaces@[k]).wf() by {
                if k != i {
                    assert(self.spaces@[k] == old(self).spaces@[k]);
                }
            }
            assert(self.spaces@.map_values(|n: Namespace| n.name@) =~= old(self).spaces@.map_values(
                |n: Namespace| n.name@,
            ));
        }
    }

    /// Removes a key from namespace `i`, which exists.
    fn delete_at(&mut self, i: usize, key: &[u8])
        requires
            old(self).wf(),
            i < old(self).spaces@.len(),
        ensures
            final(self).wf(),
            final(self).spaces() == store_delete(
                old(self).spaces(),
                old(self).spaces@[i as int].name@,
                key@,
            ),
            final(self).spaces@.map_values(|n: Namespace| n.name@) == old(self).spaces@.map_values(
                |n: Namespace| n.name@,
            ),
    {
        proof {
            self.lemma_space_at(i as int);
        }
        let ghost sv = spaces_view(self.spaces@);
        let mut space = Namespace { name: String::new(), entries: Vec::new() };
        self.spaces.set_and_swap(i, &mut space);
        let ghost old_space = space;
        let ghost kv = kv_view(space.entries@);
        assert(old_space.wf());
        match find_key(&space.entries, key) {
            Some(j) => {
                space.entries.remove(j);
                proof {
                    lemma_pairs_remove(kv, j as int);
                    assert(kv_view(space.entries@) =~= kv.remove(j as int));
                }
            },
            None => {
                proof {
                    assert(pairs_map(kv).remove(key@) =~= pairs_map(kv));
                }
            },
        }
        self.spaces.set(i, space);
        proof {
            lemma_pairs_update(sv, i as int, space.model().1);
            assert(spaces_view(self.spaces@) =~= sv.update(i as int, (sv[i as int].0, space.model().1)));
            assert forall|k: int| 0 <= k < self.spaces@.len() implies (#[trigger] self.spaces@[k]).wf() by {
                if k != i {
                    assert(self.spaces@[k] == old(self).spaces@[k]);
                }
            }
            assert(self.spaces@.map_values(|n: Namespace| n.name@) =~= old(self).spaces@.map_values(
                |n: Namespace| n.name@,
            ));
        }
    }
}

impl StorageBackend for MemoryBackend {
    closed spec fn spaces(&self) -> Spaces {
        pairs_map(spaces_view(self.spaces@))
    }

    closed spec fn well_formed(&self) -> bool {
        self.wf()
    }

    fn get(&self, cf: &str, key: &[u8]) -> (r: Result<Option<Vec<u8>>, Error>) {
        match self.find_space(cf) {
            None => Err(Error::Storage("Column family not found".to_owned())),
            Some(i) => {
                proof {
                    self.lemma_space_at(i as int);
                }
                let entries = &self.spaces[i].entries;
                match find_key(entries, key) {
                    None => Ok(None),
                    Some(j) => {
                        proof {
                            assert(self.spaces@[i as int].wf());
                            lemma_pairs_value(kv_view(entries@), j as int);
                        }
                        Ok(Some(copy_bytes(entries[j].1.as_slice())))
                    },
                }
            },
        }
    }

    fn put(&mut self, cf: &str, key: &[u8], value: &[u8]) -> (r: Result<(), Error>) {
        match self.find_space(cf) {
            None => Err(Error::Storage("Column family not found".to_owned())),
            Some(i) => {
                proof {
                    self.lemma_space_at(i as int);
                }
                self.put_at(i, key, value);
                Ok(())
            },
        }
    }

    fn delete(&mut self, cf: &str, key: &[u8]) -> (r: Result<(), Error>) {
        match self.find_space(cf) {
            None => Err(Error::Storage("Column family not found".to_owned())),
            Some(i) => {
                proof {
                    self.lemma_space_at(i as int);
                }
                self.delete_at(i, key);
                Ok(())
            },
        }
    }

    fn scan_prefix(&self, cf: &str, prefix: &[u8]) -> (r: Result<Vec<(Vec<u8>, Vec<u8>)>, Error>) {
        match self.find_space(cf) {
            None => Err(Error::Storage("Column family not found".to_owned())),
            Some(i) => {
                proof {
                    self.lemma_space_at(i as int);
                }
                let entries = &self.spaces[i].entries;
                let ghost kv = kv_view(entries@);
                assert(self.spaces@[i as int].wf());
                let mut out: Vec<(Vec<u8>, Vec<u8>)> = Vec::new();
                let mut j: usize = 0;
                while j < entries.len()
                    invariant
                        j <= entries@.len(),
                        kv == kv_view(entries@),
                        distinct_keys(kv),
                        distinct_keys(kv_view(out@)),
                        pairs_map(kv_view(out@)) == with_prefix(
                            pairs_map(kv.subrange(0, j as int)),
                            prefix@,
                        ),
                    decreases entries@.len() - j,
                {
                    let ghost before = kv_view(out@);
                    let ghost done = kv.subrange(0, j as int);
                    let ghost e = kv[j as int];
                    assert(kv.subrange(0, j + 1).drop_last() =~= done);
                    proof {
                        lemma_pairs_contains(done, e.0);
                        if exists|a: int| 0 <= a < done.len() && done[a].0 == e.0 {
                            let a = choose|a: int| 0 <= a < done.len() && done[a].0 == e.0;
                            assert(kv[a].0 != kv[j as int].0);
                        }
                    }
                    if starts_with(entries[j].0.as_slice(), prefix) {
                        out.push((copy_bytes(entries[j].0.as_slice()), copy_bytes(entries[j].1.as_slice())));
                        proof {
                            assert(kv_view(out@) =~= before.push(e));
                            lemma_pairs_push(before, e.0, e.1);
                            assert(pairs_map(kv_view(out@)) =~= with_prefix(
                                pairs_map(kv.subrange(0, j + 1)),
                                prefix@,
                            ));
                        }
                    } else {
                        proof {
                            assert(pairs_map(kv_view(out@)) =~= with_prefix(
                                pairs_map(kv.subrange(0, j + 1)),
                                prefix@,
                            ));
                        }
                    }
                    j = j + 1;
                }
                assert(kv.subrange(0, entries@.len() as int) =~= kv);
                Ok(out)
            },
        }
    }

    fn write_batch(&mut self, ops: &Vec<WriteOp>) -> (r: Result<(), Error>) {
        let mut idx: Vec<usize> = Vec::new();
        let mut t: usize = 0;
        while t < ops.len()
            invariant
                self.wf(),
                t <= ops@.len(),
                idx@.len() == t,
                forall|a: int|
                    0 <= a < t ==> #[trigger] idx@[a] < self.spaces@.len() && self.spaces@[idx@[a] as int].name@
                        == ops@[a].space(),
            decreases ops@.len() - t,
        {
            let cf = match &ops[t] {
                WriteOp::Put(cf, _, _) => cf,
                WriteOp::Delete(cf, _) => cf,
            };
            match self.find_space(cf.as_str()) {
                None => {
                    return Err(Error::Storage("Column family not found".to_owned()));
                },
                Some(i) => {
                    idx.push(i);
                },
            }
            t = t + 1;
        }
        let ghost s0 = self.spaces();
        proof {
            assert forall|a: int| 0 <= a < ops@.len() implies s0.contains_key(#[trigger] ops@[a].space()) by {
                assert(idx@[a] < self.spaces@.len());
                self.lemma_space_at(idx@[a] as int);
            }
        }
        let ghost names = self.spaces@.map_values(|n: Namespace| n.name@);
        t = 0;
        while t < ops.len()
            invariant
                self.wf(),
                t <= ops@.len(),
                idx@.len() == ops@.len(),
                self.spaces@.map_values(|n: Namespace| n.name@) == names,
                forall|a: int|
                    0 <= a < ops@.len() ==> #[trigger] idx@[a] < names.len() && names[idx@[a] as int]
                        == ops@[a].space(),
                self.spaces() == apply_ops(s0, ops@.subrange(0, t as int)),
            decreases ops@.len() - t,
        {
            let i = idx[t];
            assert(self.spaces@[i as int].name@ == names[i as int]);
            match &ops[t] {
                WriteOp::Put(_, k, v) => {
                    self.put_at(i, k.as_slice(), v.as_slice());
                },
                WriteOp::Delete(_, k) => {
                    self.delete_at(i, k.as_slice());
                },
            }
            proof {
                assert(ops@.subrange(0, t + 1).drop_last() =~= ops@.subrange(0, t as int));
                assert(ops@.subrange(0, t + 1).last() == ops@[t as int]);
            }
            t = t + 1;
        }
        assert(ops@.subrange(0, ops@.len() as int) =~= ops@);
        Ok(())
    }

    fn flush(&self) -> (r: Result<(), Error>) {
        Ok(())
    }
}

} // verus!
