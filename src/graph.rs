use crate::codec::{
    decode_edges, edge_fits, edges_fit, encode_edges, lemma_edges_round_trip, parse_edges,
    serialize_edges,
};
use crate::error::Error;
use crate::storage::{
    lookup, same_space, store_delete, store_put, ColumnFamilies, Spaces, StorageBackend,
};
use crate::types::{edges_view, str_equal, Edge, EdgeModel, DEFAULT_WEIGHT_BITS};
use vstd::prelude::*;
use vstd::string::StringSliceAdditionalSpecFns;
use vstd::utf8::encode_utf8;

verus! {

/// Common relation labels.
pub struct RelationType;

impl RelationType {
    /// A generic relation.
    pub const RELATED_TO: &'static str = "related_to";

    /// The source was caused by the target.
    pub const CAUSED_BY: &'static str = "caused_by";

    /// The source happened before the target.
    pub const BEFORE: &'static str = "before";

    /// The source happened after the target.
    pub const AFTER: &'static str = "after";

    /// The source refers to the target.
    pub const REFERENCES: &'static str = "references";

    /// The source resembles the target.
    pub const SIMILAR_TO: &'static str = "similar_to";

    /// The source contradicts the target.
    pub const CONTRADICTS: &'static str = "contradicts";

    /// The source supports the target.
    pub const SUPPORTS: &'static str = "supports";
}

/// The adjacency list of `node` in namespace `cf`: empty when nothing is
/// stored, `None` when the stored bytes do not decode.
pub open spec fn adjacency(s: Spaces, cf: Seq<char>, node: Seq<char>) -> Option<Seq<EdgeModel>> {
    match lookup(s, cf, encode_utf8(node)) {
        None => Some(Seq::empty()),
        Some(b) => parse_edges(b),
    }
}

/// Whether some edge of the list joins `from` to `to` under `relation`.
pub open spec fn has_joined(l: Seq<EdgeModel>, from: Seq<char>, relation: Seq<char>, to: Seq<char>) -> bool {
    exists|i: int| 0 <= i < l.len() && l[i].joins(from, relation, to)
}

/// The list with `e` appended, unless an edge with the same endpoints and
/// relation is already there.
pub open spec fn add_edge(l: Seq<EdgeModel>, e: EdgeModel) -> Seq<EdgeModel> {
    if has_joined(l, e.from, e.relation, e.to) {
        l
    } else {
        l.push(e)
    }
}

/// The list without the edges that join `from` to `to` under `relation`.
pub open spec fn without_joined(
    l: Seq<EdgeModel>,
    from: Seq<char>,
    relation: Seq<char>,
    to: Seq<char>,
) -> Seq<EdgeModel>
    decreases l.len(),
{
    if l.len() == 0 {
        l
    } else if l.last().joins(from, relation, to) {
        without_joined(l.drop_last(), from, relation, to)
    } else {
        without_joined(l.drop_last(), from, relation, to).push(l.last())
    }
}

/// The edges of the list with the given relation.
pub open spec fn with_relation(l: Seq<EdgeModel>, relation: Seq<char>) -> Seq<EdgeModel>
    decreases l.len(),
{
    if l.len() == 0 {
        l
    } else if l.last().relation == relation {
        with_relation(l.drop_last(), relation).push(l.last())
    } else {
        with_relation(l.drop_last(), relation)
    }
}

/// The edges of the list, filtered by relation when one is given.
pub open spec fn select(l: Seq<EdgeModel>, relation: Option<Seq<char>>) -> Seq<EdgeModel> {
    match relation {
        Some(r) => with_relation(l, r),
        None => l,
    }
}

/// The number of edges of the list that join `from` to `to` under `relation`.
pub open spec fn count_joined(l: Seq<EdgeModel>, from: Seq<char>, relation: Seq<char>, to: Seq<char>) -> nat
    decreases l.len(),
{
    if l.len() == 0 {
        0
    } else if l.last().joins(from, relation, to) {
        count_joined(l.drop_last(), from, relation, to) + 1
    } else {
        count_joined(l.drop_last(), from, relation, to)
    }
}

/// The view of an optional string.
pub open spec fn opt_str(o: Option<&str>) -> Option<Seq<char>> {
    match o {
        Some(x) => Some(x@),
        None => None,
    }
}

/// The store after `e` is added to the list of `node` in namespace `cf`;
/// `None` when that list does not decode.
pub open spec fn add_to(s: Spaces, cf: Seq<char>, node: Seq<char>, e: EdgeModel) -> Option<Spaces> {
    match adjacency(s, cf, node) {
        Some(l) => Some(store_put(s, cf, encode_utf8(node), serialize_edges(add_edge(l, e)))),
        None => None,
    }
}

/// The store after the edges joining `from` to `to` under `relation` leave
/// the list of `node` in namespace `cf`; a list that becomes empty is
/// removed. `None` when that list does not decode.
pub open spec fn remove_from(
    s: Spaces,
    cf: Seq<char>,
    node: Seq<char>,
    from: Seq<char>,
    relation: Seq<char>,
    to: Seq<char>,
) -> Option<Spaces> {
    match lookup(s, cf, encode_utf8(node)) {
        None => Some(s),
        Some(b) => match parse_edges(b) {
            Some(l) => if without_joined(l, from, relation, to).len() == 0 {
                Some(store_delete(s, cf, encode_utf8(node)))
            } else {
                Some(
                    store_put(
                        s,
                        cf,
                        encode_utf8(node),
                        serialize_edges(without_joined(l, from, relation, to)),
                    ),
                )
            },
            None => None,
        },
    }
}

/// The store after linking with edge `e`: added to the outgoing list of its
/// source, then to the incoming list of its target.
pub open spec fn linked(s: Spaces, e: EdgeModel) -> Option<Spaces> {
    match add_to(s, ColumnFamilies::GRAPH_FORWARD@, e.from, e) {
        Some(s1) => add_to(s1, ColumnFamilies::GRAPH_BACKWARD@, e.to, e),
        None => None,
    }
}

/// The store after unlinking `from` from `to` under `relation`, in both directions.
pub open spec fn unlinked(s: Spaces, from: Seq<char>, relation: Seq<char>, to: Seq<char>) -> Option<
    Spaces,
> {
    match remove_from(s, ColumnFamilies::GRAPH_FORWARD@, from, from, relation, to) {
        Some(s1) => remove_from(s1, ColumnFamilies::GRAPH_BACKWARD@, to, from, relation, to),
        None => None,
    }
}

/// Whether an edge joins the given endpoints under the given relation.
fn edge_joins(e: &Edge, from: &str, relation: &str, to: &str) -> (r: bool)
    ensures
        r == e@.joins(from@, relation@, to@),
{
    str_equal(e.from.as_str(), from) && str_equal(e.relation.as_str(), relation) && str_equal(
        e.to.as_str(),
        to,
    )
}

/// Manages the adjacency lists of the graph: outgoing edges keyed by source
/// in one namespace, incoming edges keyed by target in another.
pub struct GraphManager;

impl GraphManager {
    /// A manager.
    pub fn new() -> (r: GraphManager) {
        GraphManager
    }

    /// The decoded list of `node` in namespace `cf`.
    fn read_list<S: StorageBackend>(&self, storage: &S, cf: &str, node: &str) -> (r: Result<
        Vec<Edge>,
        Error,
    >)
        requires
            storage.well_formed(),
        ensures
            r matches Ok(v) ==> adjacency(storage.spaces(), cf@, node@) == Some(edges_view(v@)),
            adjacency(storage.spaces(), cf@, node@) is None ==> r is Err,
            !storage.spaces().contains_key(cf@) ==> r is Err,
            r matches Err(e) ==> e is Storage || (e is Codec && adjacency(storage.spaces(), cf@, node@) is None),
    {
        match storage.get(cf, node.as_bytes())? {
            Some(bytes) => decode_edges(bytes.as_slice()),
            None => {
                let v: Vec<Edge> = Vec::new();
                assert(edges_view(v@) =~= Seq::empty());
                Ok(v)
            },
        }
    }

    /// Appends `edge` to the list of `node` in namespace `cf` unless an edge
    /// with the same endpoints and relation is there, and stores the list.
    fn add_to_adjacency_list<S: StorageBackend>(
        &self,
        storage: &mut S,
        cf: &str,
        node: &str,
        edge: &Edge,
    ) -> (r: Result<(), Error>)
        requires
            old(storage).well_formed(),
        ensures
            final(storage).well_formed(),
            r is Ok ==> add_to(old(storage).spaces(), cf@, node@, edge@) == Some(
                final(storage).spaces(),
            ),
            r is Err ==> final(storage).spaces() == old(storage).spaces(),
            add_to(old(storage).spaces(), cf@, node@, edge@) is None ==> r is Err,
            forall|c: Seq<char>| c != cf@ ==> #[trigger] same_space(old(storage).spaces(), final(storage).spaces(), c),
            r matches Err(e) ==> e is Storage || e is Codec,
    {
        let mut edges = self.read_list(storage, cf, node)?;
        let ghost l = edges_view(edges@);
        let mut found = false;
        let mut i: usize = 0;
        while i < edges.len()
            invariant
                i <= edges@.len(),
                l == edges_view(edges@),
                found == exists|j: int| 0 <= j < i && l[j].joins(edge@.from, edge@.relation, edge@.to),
            decreases edges@.len() - i,
        {
            assert(l[i as int] == edges@[i as int]@);
            if edge_joins(&edges[i], edge.from.as_str(), edge.relation.as_str(), edge.to.as_str()) {
                found = true;
            }
            i = i + 1;
        }
        if !found {
            edges.push(edge.duplicate());
            assert(edges_view(edges@) =~= l.push(edge@));
        }
        let encoded = encode_edges(edges.as_slice())?;
        storage.put(cf, node.as_bytes(), encoded.as_slice())
    }

    /// Removes from the list of `node` in namespace `cf` every edge that
    /// joins `from` to `to` under `relation`; a list that becomes empty is
    /// removed from the store.
    fn remove_from_adjacency_list<S: StorageBackend>(
        &self,
        storage: &mut S,
        cf: &str,
        node: &str,
        from: &str,
        relation: &str,
        to: &str,
    ) -> (r: Result<(), Error>)
        requires
            old(storage).well_formed(),
        ensures
            final(storage).well_formed(),
            r is Ok ==> remove_from(old(storage).spaces(), cf@, node@, from@, relation@, to@) == Some(
                final(storage).spaces(),
            ),
            r is Err ==> final(storage).spaces() == old(storage).spaces(),
            remove_from(old(storage).spaces(), cf@, node@, from@, relation@, to@) is None ==> r is Err,
            forall|c: Seq<char>| c != cf@ ==> #[trigger] same_space(old(storage).spaces(), final(storage).spaces(), c),
            r matches Err(e) ==> e is Storage || e is Codec,
    {
        let bytes = match storage.get(cf, node.as_bytes())? {
            Some(b) => b,
            None => return Ok(()),
        };
        let edges = decode_edges(bytes.as_slice())?;
        let ghost l = edges_view(edges@);
        let mut kept: Vec<Edge> = Vec::new();
        let mut i: usize = 0;
        while i < edges.len()
            invariant
                i <= edges@.len(),
                l == edges_view(edges@),
                edges_view(kept@) == without_joined(l.subrange(0, i as int), from@, relation@, to@),
            decreases edges@.len() - i,
        {
            assert(l.subrange(0, i + 1).drop_last() =~= l.subrange(0, i as int));
            if !edge_joins(&edges[i], from, relation, to) {
                let ghost before = edges_view(kept@);
                kept.push(edges[i].duplicate());
                assert(edges_view(kept@) =~= before.push(l[i as int]));
            }
            i = i + 1;
        }
        assert(l.subrange(0, edges@.len() as int) =~= l);
        if kept.len() == 0 {
            storage.delete(cf, node.as_bytes())
        } else {
            let encoded = encode_edges(kept.as_slice())?;
            storage.put(cf, node.as_bytes(), encoded.as_slice())
        }
    }

    /// Links `from` to `to` under `relation`: a new edge of weight 1.0 joins
    /// the outgoing list of `from` and the incoming list of `to`, in each
    /// only if no edge with the same endpoints and relation is there. The two
    /// writes are not atomic.
    pub fn link<S: StorageBackend>(&self, storage: &mut S, from: &str, relation: &str, to: &str) -> (r:
        Result<(), Error>)
        requires
            old(storage).well_formed(),
        ensures
            final(storage).well_formed(),
            r is Ok ==> exists|e: EdgeModel|
                e.joins(from@, relation@, to@) && e.weight == DEFAULT_WEIGHT_BITS && linked(
                    old(storage).spaces(),
                    e,
                ) == Some(final(storage).spaces()),
            forall|c: Seq<char>|
                c != ColumnFamilies::GRAPH_FORWARD@ && c != ColumnFamilies::GRAPH_BACKWARD@ ==> #[trigger] same_space(
                    old(storage).spaces(),
                    final(storage).spaces(),
                    c,
                ),
            r matches Err(e) ==> e is Storage || e is Codec,
    {
        let edge = Edge::new(from, relation, to);
        let ghost s0 = storage.spaces();
        self.add_to_adjacency_list(storage, ColumnFamilies::GRAPH_FORWARD, from, &edge)?;
        let ghost s1 = storage.spaces();
        self.add_to_adjacency_list(storage, ColumnFamilies::GRAPH_BACKWARD, to, &edge)?;
        assert(linked(s0, edge@) == Some(storage.spaces()));
        Ok(())
    }

    /// Unlinks `from` from `to` under `relation`: every edge with these
    /// endpoints and relation leaves the outgoing list of `from` and the
    /// incoming list of `to`. The two writes are not atomic.
    pub fn unlink<S: StorageBackend>(&self, storage: &mut S, from: &str, relation: &str, to: &str) -> (r:
        Result<(), Error>)
        requires
            old(storage).well_formed(),
        ensures
            final(storage).well_formed(),
            r is Ok ==> unlinked(old(storage).spaces(), from@, relation@, to@) == Some(
                final(storage).spaces(),
            ),
            forall|c: Seq<char>|
                c != ColumnFamilies::GRAPH_FORWARD@ && c != ColumnFamilies::GRAPH_BACKWARD@ ==> #[trigger] same_space(
                    old(storage).spaces(),
                    final(storage).spaces(),
                    c,
                ),
            r matches Err(e) ==> e is Storage || e is Codec,
    {
        self.remove_from_adjacency_list(storage, ColumnFamilies::GRAPH_FORWARD, from, from, relation, to)?;
        self.remove_from_adjacency_list(storage, ColumnFamilies::GRAPH_BACKWARD, to, from, relation, to)?;
        Ok(())
    }

    /// The edges of the list of `node` in namespace `cf`, filtered by relation
    /// when one is given.
    fn get_edges<S: StorageBackend>(
        &self,
        storage: &S,
        cf: &str,
        node: &str,
        relation: Option<&str>,
    ) -> (r: Result<Vec<Edge>, Error>)
        requires
            storage.well_formed(),
        ensures
            r matches Ok(v) ==> adjacency(storage.spaces(), cf@, node@) matches Some(l) && edges_view(v@)
                == select(l, opt_str(relation)),
            adjacency(storage.spaces(), cf@, node@) is None ==> r is Err,
            r matches Err(e) ==> e is Storage || (e is Codec && adjacency(storage.spaces(), cf@, node@) is None),
    {
        let edges = self.read_list(storage, cf, node)?;
        match relation {
            None => Ok(edges),
            Some(rel) => {
                let ghost l = edges_view(edges@);
                let mut out: Vec<Edge> = Vec::new();
                let mut i: usize = 0;
                while i < edges.len()
                    invariant
                        i <= edges@.len(),
                        l == edges_view(edges@),
                        edges_view(out@) == with_relation(l.subrange(0, i as int), rel@),
                    decreases edges@.len() - i,
                {
                    assert(l.subrange(0, i + 1).drop_last() =~= l.subrange(0, i as int));
                    if str_equal(edges[i].relation.as_str(), rel) {
                        let ghost before = edges_view(out@);
                        out.push(edges[i].duplicate());
                        assert(edges_view(out@) =~= before.push(l[i as int]));
                    }
                    i = i + 1;
                }
                assert(l.subrange(0, edges@.len() as int) =~= l);
                Ok(out)
            },
        }
    }

    /// The outgoing edges of `from`, filtered by relation when one is given.
    pub fn get_outgoing<S: StorageBackend>(&self, storage: &S, from: &str, relation: Option<&str>) -> (r:
        Result<Vec<Edge>, Error>)
        requires
            storage.well_formed(),
        ensures
            r matches Ok(v) ==> adjacency(storage.spaces(), ColumnFamilies::GRAPH_FORWARD@, from@) matches Some(
                l,
            ) && edges_view(v@) == select(l, opt_str(relation)),
            adjacency(storage.spaces(), ColumnFamilies::GRAPH_FORWARD@, from@) is None ==> r is Err,
            r matches Err(e) ==> e is Storage || (e is Codec && adjacency(storage.spaces(), ColumnFamilies::GRAPH_FORWARD@, from@) is None),
    {
        self.get_edges(storage, ColumnFamilies::GRAPH_FORWARD, from, relation)
    }

    /// The incoming edges of `to`, filtered by relation when one is given.
    pub fn get_incoming<S: StorageBackend>(&self, storage: &S, to: &str, relation: Option<&str>) -> (r:
        Result<Vec<Edge>, Error>)
        requires
            storage.well_formed(),
        ensures
            r matches Ok(v) ==> adjacency(storage.spaces(), ColumnFamilies::GRAPH_BACKWARD@, to@) matches Some(
                l,
            ) && edges_view(v@) == select(l, opt_str(relation)),
            adjacency(storage.spaces(), ColumnFamilies::GRAPH_BACKWARD@, to@) is None ==> r is Err,
            r matches Err(e) ==> e is Storage || (e is Codec && adjacency(storage.spaces(), ColumnFamilies::GRAPH_BACKWARD@, to@) is None),
    {
        self.get_edges(storage, ColumnFamilies::GRAPH_BACKWARD, to, relation)
    }

    /// The targets of the outgoing edges of `id` under `relation`, in list order.
    pub fn get_related<S: StorageBackend>(&self, storage: &S, id: &str, relation: &str) -> (r: Result<
        Vec<String>,
        Error,
    >)
        requires
            storage.well_formed(),
        ensures
            r matches Ok(v) ==> adjacency(storage.spaces(), ColumnFamilies::GRAPH_FORWARD@, id@) matches Some(
                l,
            ) && v@.map_values(|s: String| s@) == with_relation(l, relation@).map_values(
                |e: EdgeModel| e.to,
            ),
            adjacency(storage.spaces(), ColumnFamilies::GRAPH_FORWARD@, id@) is None ==> r is Err,
            r matches Err(e) ==> e is Storage || (e is Codec && adjacency(storage.spaces(), ColumnFamilies::GRAPH_FORWARD@, id@) is None),
    {
        let edges = self.get_outgoing(storage, id, Some(relation))?;
        let mut out: Vec<String> = Vec::new();
        let mut i: usize = 0;
        while i < edges.len()
            invariant
                i <= edges@.len(),
                out@.map_values(|s: String| s@) == edges_view(edges@).subrange(0, i as int).map_values(
                    |e: EdgeModel| e.to,
                ),
            decreases edges@.len() - i,
        {
            let ghost before = out@.map_values(|s: String| s@);
            let ghost ev = edges_view(edges@);
            out.push(edges[i].to.clone());
            assert(ev[i as int] == edges@[i as int]@);
            assert(out@.map_values(|s: String| s@) =~= before.push(ev[i as int].to));
            assert(ev.subrange(0, i + 1).map_values(|e: EdgeModel| e.to) =~= ev.subrange(
                0,
                i as int,
            ).map_values(|e: EdgeModel| e.to).push(ev[i as int].to));
            i = i + 1;
        }
        assert(edges_view(edges@).subrange(0, edges@.len() as int) =~= edges_view(edges@));
        Ok(out)
    }
}

// ---------------------------------------------------------------------------
// Laws of linking
// ---------------------------------------------------------------------------

/// A list that fits its length prefix with room for one more edge.
pub open spec fn list_ok(l: Seq<EdgeModel>) -> bool {
    edges_fit(l) && l.len() < crate::codec::MAX_LEN
}

proof fn lemma_count_positive(l: Seq<EdgeModel>, f: Seq<char>, r: Seq<char>, t: Seq<char>)
    ensures
        has_joined(l, f, r, t) <==> count_joined(l, f, r, t) > 0,
    decreases l.len(),
{
    if l.len() > 0 {
        let w = l.drop_last();
        lemma_count_positive(w, f, r, t);
        if has_joined(w, f, r, t) {
            let i = choose|i: int| 0 <= i < w.len() && w[i].joins(f, r, t);
            assert(l[i] == w[i]);
        }
        if has_joined(l, f, r, t) {
            let i = choose|i: int| 0 <= i < l.len() && l[i].joins(f, r, t);
            if i < w.len() {
                assert(w[i] == l[i]);
            }
        }
    }
}

proof fn lemma_count_relation(l: Seq<EdgeModel>, f: Seq<char>, r: Seq<char>, t: Seq<char>)
    ensures
        count_joined(with_relation(l, r), f, r, t) == count_joined(l, f, r, t),
    decreases l.len(),
{
    if l.len() > 0 {
        lemma_count_relation(l.drop_last(), f, r, t);
        if l.last().relation == r {
            assert(with_relation(l, r).drop_last() =~= with_relation(l.drop_last(), r));
        }
    }
}

proof fn lemma_add_edge(l: Seq<EdgeModel>, e: EdgeModel)
    requires
        list_ok(l),
        edge_fits(e),
    ensures
        edges_fit(add_edge(l, e)),
        count_joined(add_edge(l, e), e.from, e.relation, e.to) == if has_joined(
            l,
            e.from,
            e.relation,
            e.to,
        ) {
            count_joined(l, e.from, e.relation, e.to)
        } else {
            count_joined(l, e.from, e.relation, e.to) + 1
        },
{
    if !has_joined(l, e.from, e.relation, e.to) {
        let u = l.push(e);
        assert(u.drop_last() =~= l);
        assert forall|i: int| 0 <= i < u.len() implies #[trigger] edge_fits(u[i]) by {
            if i < l.len() {
                assert(u[i] == l[i]);
            }
        }
    }
}

proof fn lemma_spaces_distinct()
    ensures
        ColumnFamilies::GRAPH_FORWARD@ != ColumnFamilies::GRAPH_BACKWARD@,
{
    reveal_strlit("graph_forward");
    reveal_strlit("graph_backward");
    assert(ColumnFamilies::GRAPH_FORWARD@.len() != ColumnFamilies::GRAPH_BACKWARD@.len());
}

/// The list of `node` after writing the encoding of `l` under it.
proof fn lemma_read_back(s: Spaces, cf: Seq<char>, node: Seq<char>, l: Seq<EdgeModel>)
    requires
        edges_fit(l),
    ensures
        adjacency(store_put(s, cf, encode_utf8(node), serialize_edges(l)), cf, node) == Some(l),
{
    lemma_edges_round_trip(l);
}

/// After a link, the new edge is among the outgoing edges of its source under
/// its relation, and among the incoming edges of its target under its relation.
pub proof fn lemma_link_visible(s: Spaces, e: EdgeModel)
    requires
        edge_fits(e),
        adjacency(s, ColumnFamilies::GRAPH_FORWARD@, e.from) matches Some(l) && list_ok(l),
        adjacency(s, ColumnFamilies::GRAPH_BACKWARD@, e.to) matches Some(l) && list_ok(l),
    ensures
        linked(s, e) matches Some(s2) && (adjacency(s2, ColumnFamilies::GRAPH_FORWARD@, e.from) matches Some(
            out,
        ) && has_joined(with_relation(out, e.relation), e.from, e.relation, e.to)) && (adjacency(
            s2,
            ColumnFamilies::GRAPH_BACKWARD@,
            e.to,
        ) matches Some(inc) && has_joined(with_relation(inc, e.relation), e.from, e.relation, e.to)),
{
    let fwd = ColumnFamilies::GRAPH_FORWARD@;
    let bwd = ColumnFamilies::GRAPH_BACKWARD@;
    lemma_spaces_distinct();
    let lf = adjacency(s, fwd, e.from)->Some_0;
    let lb = adjacency(s, bwd, e.to)->Some_0;
    lemma_add_edge(lf, e);
    lemma_add_edge(lb, e);
    let s1 = store_put(s, fwd, encode_utf8(e.from), serialize_edges(add_edge(lf, e)));
    assert(adjacency(s1, bwd, e.to) == Some(lb));
    let s2 = store_put(s1, bwd, encode_utf8(e.to), serialize_edges(add_edge(lb, e)));
    lemma_read_back(s, fwd, e.from, add_edge(lf, e));
    lemma_read_back(s1, bwd, e.to, add_edge(lb, e));
    assert(adjacency(s2, fwd, e.from) == adjacency(s1, fwd, e.from));
    lemma_count_positive(add_edge(lf, e), e.from, e.relation, e.to);
    lemma_count_positive(add_edge(lb, e), e.from, e.relation, e.to);
    lemma_count_relation(add_edge(lf, e), e.from, e.relation, e.to);
    lemma_count_relation(add_edge(lb, e), e.from, e.relation, e.to);
    lemma_count_positive(with_relation(add_edge(lf, e), e.relation), e.from, e.relation, e.to);
    lemma_count_positive(with_relation(add_edge(lb, e), e.relation), e.from, e.relation, e.to);
}

/// Linking the same endpoints under the same relation twice leaves exactly
/// one edge with those endpoints among the outgoing edges of the source under
/// that relation, when there was at most one before.
pub proof fn lemma_link_twice(s: Spaces, e1: EdgeModel, e2: EdgeModel)
    requires
        e2.joins(e1.from, e1.relation, e1.to),
        edge_fits(e1),
        edge_fits(e2),
        adjacency(s, ColumnFamilies::GRAPH_FORWARD@, e1.from) matches Some(l) && list_ok(l)
            && count_joined(l, e1.from, e1.relation, e1.to) <= 1,
        adjacency(s, ColumnFamilies::GRAPH_BACKWARD@, e1.to) matches Some(l) && list_ok(l),
    ensures
        linked(s, e1) matches Some(s1) && linked(s1, e2) matches Some(s2) && adjacency(
            s2,
            ColumnFamilies::GRAPH_FORWARD@,
            e1.from,
        ) matches Some(out) && count_joined(with_relation(out, e1.relation), e1.from, e1.relation, e1.to)
            == 1,
{
    let fwd = ColumnFamilies::GRAPH_FORWARD@;
    let bwd = ColumnFamilies::GRAPH_BACKWARD@;
    lemma_spaces_distinct();
    let lf = adjacency(s, fwd, e1.from)->Some_0;
    let lb = adjacency(s, bwd, e1.to)->Some_0;
    lemma_add_edge(lf, e1);
    lemma_add_edge(lb, e1);
    lemma_count_positive(lf, e1.from, e1.relation, e1.to);
    let lf1 = add_edge(lf, e1);
    let lb1 = add_edge(lb, e1);
    let sa = store_put(s, fwd, encode_utf8(e1.from), serialize_edges(lf1));
    assert(adjacency(sa, bwd, e1.to) == Some(lb));
    let s1 = store_put(sa, bwd, encode_utf8(e1.to), serialize_edges(lb1));
    lemma_read_back(s, fwd, e1.from, lf1);
    lemma_read_back(sa, bwd, e1.to, lb1);
    assert(adjacency(s1, fwd, e1.from) == Some(lf1));
    assert(adjacency(s1, bwd, e1.to) == Some(lb1));
    lemma_count_positive(lf1, e1.from, e1.relation, e1.to);
    lemma_count_positive(lb1, e1.from, e1.relation, e1.to);
    assert(add_edge(lf1, e2) == lf1);
    assert(add_edge(lb1, e2) == lb1);
    let sb = store_put(s1, fwd, encode_utf8(e1.from), serialize_edges(lf1));
    assert(adjacency(sb, bwd, e1.to) == Some(lb1));
    let s2 = store_put(sb, bwd, encode_utf8(e1.to), serialize_edges(lb1));
    lemma_read_back(s1, fwd, e1.from, lf1);
    assert(adjacency(s2, fwd, e1.from) == adjacency(sb, fwd, e1.from));
    lemma_count_relation(lf1, e1.from, e1.relation, e1.to);
}

proof fn lemma_without_joined(l: Seq<EdgeModel>, f: Seq<char>, r: Seq<char>, t: Seq<char>)
    requires
        edges_fit(l),
    ensures
        !has_joined(without_joined(l, f, r, t), f, r, t),
        edges_fit(without_joined(l, f, r, t)),
        without_joined(l, f, r, t).len() <= l.len(),
    decreases l.len(),
{
    if l.len() > 0 {
        let w = l.drop_last();
        assert(edges_fit(w)) by {
            assert forall|i: int| 0 <= i < w.len() implies #[trigger] edge_fits(w[i]) by {
                assert(w[i] == l[i]);
            }
        }
        lemma_without_joined(w, f, r, t);
        let u = without_joined(w, f, r, t);
        if !l.last().joins(f, r, t) {
            let v = u.push(l.last());
            assert(edge_fits(l[l.len() - 1]));
            assert forall|i: int| 0 <= i < v.len() implies #[trigger] edge_fits(v[i]) by {
                if i < u.len() {
                    assert(v[i] == u[i]);
                }
            }
            if has_joined(v, f, r, t) {
                let i = choose|i: int| 0 <= i < v.len() && v[i].joins(f, r, t);
                assert(i < u.len());
                assert(v[i] == u[i]);
            }
        }
    }
}

/// After an unlink, no edge joins `from` to `to` under `relation`, neither
/// among the outgoing edges of `from` nor among the incoming edges of `to`.
pub proof fn lemma_unlink_removes(s: Spaces, from: Seq<char>, relation: Seq<char>, to: Seq<char>)
    requires
        adjacency(s, ColumnFamilies::GRAPH_FORWARD@, from) matches Some(l) && edges_fit(l),
        adjacency(s, ColumnFamilies::GRAPH_BACKWARD@, to) matches Some(l) && edges_fit(l),
    ensures
        unlinked(s, from, relation, to) matches Some(s2) && (adjacency(
            s2,
            ColumnFamilies::GRAPH_FORWARD@,
            from,
        ) matches Some(out) && !has_joined(out, from, relation, to)) && (adjacency(
            s2,
            ColumnFamilies::GRAPH_BACKWARD@,
            to,
        ) matches Some(inc) && !has_joined(inc, from, relation, to)),
{
    let fwd = ColumnFamilies::GRAPH_FORWARD@;
    let bwd = ColumnFamilies::GRAPH_BACKWARD@;
    lemma_spaces_distinct();
    let lf = adjacency(s, fwd, from)->Some_0;
    let lb = adjacency(s, bwd, to)->Some_0;
    lemma_without_joined(lf, from, relation, to);
    lemma_without_joined(lb, from, relation, to);
    let wf = without_joined(lf, from, relation, to);
    let wb = without_joined(lb, from, relation, to);
    let s1 = remove_from(s, fwd, from, from, relation, to)->Some_0;
    if lookup(s, fwd, encode_utf8(from)) is Some {
        if wf.len() > 0 {
            lemma_read_back(s, fwd, from, wf);
        }
    } else {
        assert(lf.len() == 0);
    }
    assert(adjacency(s1, bwd, to) == Some(lb));
    let s2 = remove_from(s1, bwd, to, from, relation, to)->Some_0;
    if lookup(s1, bwd, encode_utf8(to)) is Some {
        if wb.len() > 0 {
            lemma_read_back(s1, bwd, to, wb);
        }
    } else {
        assert(lb.len() == 0);
    }
    assert(adjacency(s2, fwd, from) == adjacency(s1, fwd, from));
}

} // verus!
