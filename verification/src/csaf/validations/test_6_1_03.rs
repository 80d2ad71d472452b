use crate::csaf::getter_traits::CsafTrait;
use crate::csaf::model::{
    first_some, lemma_first_some_at, lemma_first_some_none, views, DocumentModel, FindingModel,
    RelationshipModel,
};
use crate::csaf::relation_map::{has_edge, lemma_with_edge, with_edge, EdgeModel, RelationMap};
use crate::csaf::schema::Relationship;
use crate::csaf::text::{contains_id, decimal, decimal_string, join, join_strings, texts};
use crate::csaf::validation::{finding_of, ValidationError};
use vstd::prelude::*;

verus! {

/// What a search for a cycle found.
///
/// `end` is the node that the search met a second time. While the search traces back,
/// `cycle` holds `end` and then the nodes of the path to it, last node first; once the trace
/// is back at `end`, `cycle` is the closed path from `end` to `end` in the direction of the
/// edges, and `index` is the relationship index of its first edge. `stack` is the path that
/// the search was on when it met `end`.
pub struct Found {
    pub end: Seq<char>,
    pub cycle: Seq<Seq<char>>,
    pub index: usize,
    pub stack: Seq<Seq<char>>,
}

/// Whether `node` is the source of some edge.
pub open spec fn has_source(edges: Seq<EdgeModel>, node: Seq<char>) -> bool {
    exists|p: int| 0 <= p < edges.len() && #[trigger] edges[p].source == node
}

/// The number of edges whose source is not in `visited`.
pub open spec fn fresh(edges: Seq<EdgeModel>, visited: Seq<Seq<char>>) -> nat
    decreases edges.len(),
{
    if edges.len() == 0 {
        0
    } else {
        fresh(edges.drop_last(), visited) + if visited.contains(edges.last().source) {
            0nat
        } else {
            1nat
        }
    }
}

/// A visited node leaves no more edges fresh, and fewer where it is a new source.
pub proof fn lemma_fresh_push(edges: Seq<EdgeModel>, visited: Seq<Seq<char>>, node: Seq<char>)
    ensures
        fresh(edges, visited.push(node)) <= fresh(edges, visited),
        has_source(edges, node) && !visited.contains(node) ==> fresh(edges, visited.push(node))
            < fresh(edges, visited),
    decreases edges.len(),
{
    if edges.len() > 0 {
        let front = edges.drop_last();
        lemma_fresh_push(front, visited, node);
        let source = edges.last().source;
        if visited.contains(source) {
            let i = choose|i: int| 0 <= i < visited.len() && visited[i] == source;
            assert(visited.push(node)[i] == source);
        }
        if source == node {
            assert(visited.push(node)[visited.len() as int] == node);
        }
        if has_source(edges, node) && !visited.contains(node) {
            let p = choose|p: int| 0 <= p < edges.len() && #[trigger] edges[p].source == node;
            if p < edges.len() - 1 {
                assert(front[p].source == node);
            }
        }
    }
}

/// One step of the trace back from a found node: at `node`, which the search had left along
/// the edge made by relationship `index`.
pub open spec fn trace_back(f: Found, node: Seq<char>, index: usize) -> Found {
    if f.cycle.len() == 1 || f.end != f.cycle.last() {
        let cycle = f.cycle.push(node);
        if f.end == node {
            Found { end: f.end, cycle: cycle.reverse(), index, stack: f.stack }
        } else {
            Found { end: f.end, cycle, index: f.index, stack: f.stack }
        }
    } else {
        f
    }
}

/// The depth-first search from `node`, with `visited` as the path that led to it.
///
/// A node that is on the path already is found at once. Otherwise the edges that leave `node`
/// are followed in their order, and the first that leads to a found node decides; where none
/// does, nothing is found.
pub open spec fn search(edges: Seq<EdgeModel>, node: Seq<char>, visited: Seq<Seq<char>>) -> Option<
    Found,
>
    decreases fresh(edges, visited), 0nat, 0nat,
{
    if visited.contains(node) {
        Some(Found { end: node, cycle: seq![node], index: 0, stack: visited })
    } else if !has_source(edges, node) {
        None
    } else {
        proof {
            lemma_fresh_push(edges, visited, node);
        }
        search_edges(edges, node, 0, visited.push(node))
    }
}

/// The search along the edges at position `from` and after that leave `node`, which is the
/// last node of the path `visited`.
pub open spec fn search_edges(
    edges: Seq<EdgeModel>,
    node: Seq<char>,
    from: nat,
    visited: Seq<Seq<char>>,
) -> Option<Found>
    decreases fresh(edges, visited), 1nat, edges.len() - from,
{
    if from >= edges.len() {
        None
    } else if edges[from as int].source == node {
        match search(edges, edges[from as int].target, visited) {
            Some(f) => Some(trace_back(f, node, edges[from as int].index)),
            None => search_edges(edges, node, from + 1, visited),
        }
    } else {
        search_edges(edges, node, from + 1, visited)
    }
}

/// What `find_cycle` returned, with the path it left behind.
pub open spec fn found_of(
    res: Option<(String, Vec<String>, usize)>,
    stack: Seq<Seq<char>>,
) -> Option<Found> {
    match res {
        Some((end, cycle, index)) => Some(
            Found { end: end@, cycle: texts(cycle@), index, stack },
        ),
        None => None,
    }
}

/// The same strings in the opposite order.
pub fn reversed(mut ids: Vec<String>) -> (r: Vec<String>)
    ensures
        texts(r@) == texts(ids@).reverse(),
{
    let ghost all = texts(ids@);
    let mut out: Vec<String> = Vec::new();
    while ids.len() > 0
        invariant
            ids@.len() + out@.len() == all.len(),
            texts(ids@) == all.take(ids@.len() as int),
            forall|i: int| 0 <= i < out@.len() ==> texts(out@)[i] == all[all.len() - 1 - i],
        decreases ids.len(),
    {
        let ghost before = texts(ids@);
        let ghost turned = texts(out@);
        let last = ids.pop().unwrap();
        assert(texts(ids@) =~= before.drop_last());
        assert(last@ == before.last());
        out.push(last);
        assert(texts(out@) =~= turned.push(last@));
        assert(texts(ids@) =~= all.take(ids@.len() as int));
    }
    assert(texts(out@) =~= all.reverse());
    out
}

/// The search from `product_id` along the path `visited`, one call for each node.
fn search_from(relation_map: &RelationMap, product_id: &str, visited: &mut Vec<String>) -> (res:
    Option<(String, Vec<String>, usize)>)
    ensures
        match search(relation_map@, product_id@, texts(old(visited)@)) {
            Some(f) => found_of(res, texts(final(visited)@)) == Some(f),
            None => res is None && texts(final(visited)@) == texts(old(visited)@),
        },
        res matches Some(r) ==> r.1@.len() >= 1,
    decreases fresh(relation_map@, texts(old(visited)@)),
{
    let ghost graph = relation_map@;
    let ghost before = texts(visited@);
    let id = String::from_str(product_id);
    if contains_id(visited, &id) {
        let mut cycle: Vec<String> = Vec::new();
        cycle.push(id.clone());
        assert(texts(cycle@) =~= seq![product_id@]);
        return Some((id, cycle, 0));
    }
    visited.push(id.clone());
    let ghost path = before.push(product_id@);
    assert(texts(visited@) =~= path);
    let edges = relation_map.edges();
    let mut from: usize = 0;
    while from < edges.len()
        invariant
            0 <= from <= edges.len(),
            views(edges@) == graph,
            graph == relation_map@,
            id@ == product_id@,
            before == texts(old(visited)@),
            !before.contains(product_id@),
            path == before.push(product_id@),
            texts(visited@) == path,
            search_edges(graph, product_id@, 0, path) == search_edges(
                graph,
                product_id@,
                from as nat,
                path,
            ),
        decreases edges.len() - from,
    {
        if edges[from].source == id {
            proof {
                assert(graph[from as int].source == product_id@);
                lemma_fresh_push(graph, before, product_id@);
            }
            match search_from(relation_map, edges[from].target.as_str(), visited) {
                None => {},
                Some((cycle_end, mut cycle, found_index)) => {
                    let ghost f = search(graph, graph[from as int].target, path)->0;
                    let ghost grown = texts(cycle@).push(product_id@);
                    if cycle.len() == 1 || cycle_end != cycle[cycle.len() - 1] {
                        cycle.push(id.clone());
                        assert(texts(cycle@) =~= grown);
                        if cycle_end == id {
                            let closed = reversed(cycle);
                            assert(closed@.len() == texts(closed@).len());
                            assert(grown.reverse().len() == grown.len());
                            return Some((cycle_end, closed, edges[from].index));
                        }
                    }
                    return Some((cycle_end, cycle, found_index));
                },
            }
        }
        from += 1;
    }
    let ghost full = visited@;
    visited.pop();
    assert(visited@ =~= full.drop_last());
    assert(texts(visited@) =~= path.drop_last());
    assert(path.drop_last() =~= before);
    None
}

/// Finds the first cycle that a depth-first search from `product_id` meets.
///
/// `visited` is the path that led to `product_id`; a search of a whole graph starts with
/// none. Returns the node at which the cycle was met, the cycle as a path from that node
/// back to it, and the index of the relationship that made the cycle's first edge. Where
/// nothing is found `visited` is left as it was; else it holds the path on which the cycle
/// was met.
///
/// A search that starts with no path finds a cycle of the graph, and finds nothing only
/// where no path from `product_id` comes back to one of its own nodes.
pub fn find_cycle(relation_map: &RelationMap, product_id: &str, visited: &mut Vec<String>) -> (res:
    Option<(String, Vec<String>, usize)>)
    ensures
        match search(relation_map@, product_id@, texts(old(visited)@)) {
            Some(f) => found_of(res, texts(final(visited)@)) == Some(f),
            None => res is None && texts(final(visited)@) == texts(old(visited)@),
        },
        old(visited)@.len() == 0 ==> match res {
            Some((end, cycle, index)) => is_closed(
                relation_map@,
                Found { end: end@, cycle: texts(cycle@), index, stack: texts(final(visited)@) },
            ),
            None => forall|w: Seq<Seq<char>>|
                #[trigger] is_walk(relation_map@, w) && w[0] == product_id@ ==> w.no_duplicates(),
        },
{
    proof {
        if visited@.len() == 0 {
            let start = Seq::<Seq<char>>::empty();
            assert(texts(visited@) =~= start);
            if search(relation_map@, product_id@, start) is Some {
                lemma_found_is_cycle(relation_map@, product_id@);
            } else {
                assert forall|w: Seq<Seq<char>>| #[trigger]
                    is_walk(relation_map@, w) && w[0] == product_id@ implies w.no_duplicates() by {
                    lemma_search_none(relation_map@, product_id@, start, w);
                }
            }
        }
    }
    search_from(relation_map, product_id, visited)
}

/// Whether `w` is a path along the edges of the graph.
pub open spec fn is_walk(edges: Seq<EdgeModel>, w: Seq<Seq<char>>) -> bool {
    &&& w.len() >= 1
    &&& forall|i: int| 0 <= i < w.len() - 1 ==> #[trigger] has_edge(edges, w[i], w[i + 1])
}

/// Where the search along the edges of a node finds nothing, the search from the target of
/// each of these edges finds nothing.
pub proof fn lemma_search_edges_none(
    edges: Seq<EdgeModel>,
    node: Seq<char>,
    from: nat,
    visited: Seq<Seq<char>>,
    p: int,
)
    requires
        search_edges(edges, node, from, visited) is None,
        from <= p < edges.len(),
        edges[p].source == node,
    ensures
        search(edges, edges[p].target, visited) is None,
    decreases edges.len() - from,
{
    if from < p {
        lemma_search_edges_none(edges, node, from + 1, visited, p);
    }
}

/// Where the search from a node finds nothing, no path from that node comes back to a node
/// of itself or of the path that led to the node.
pub proof fn lemma_search_none(
    edges: Seq<EdgeModel>,
    node: Seq<char>,
    visited: Seq<Seq<char>>,
    w: Seq<Seq<char>>,
)
    requires
        search(edges, node, visited) is None,
        is_walk(edges, w),
        w[0] == node,
    ensures
        w.no_duplicates(),
        forall|i: int| 0 <= i < w.len() ==> !visited.contains(#[trigger] w[i]),
    decreases fresh(edges, visited),
{
    if w.len() > 1 {
        assert(has_edge(edges, w[0int], w[0int + 1]));
        let p = choose|p: int|
            0 <= p < edges.len() && #[trigger] edges[p].source == w[0] && edges[p].target == w[1];
        let path = visited.push(node);
        lemma_search_edges_none(edges, node, 0, path, p);
        lemma_fresh_push(edges, visited, node);
        let rest = w.drop_first();
        assert forall|i: int| 0 <= i < rest.len() - 1 implies #[trigger] has_edge(
            edges,
            rest[i],
            rest[i + 1],
        ) by {
            assert(has_edge(edges, w[i + 1], w[i + 1 + 1]));
        }
        lemma_search_none(edges, w[1], path, rest);
        assert(path[visited.len() as int] == node);
        assert forall|i: int| 0 <= i < w.len() implies !visited.contains(#[trigger] w[i]) by {
            if i > 0 {
                assert(rest[i - 1] == w[i]);
                if visited.contains(w[i]) {
                    let k = choose|k: int| 0 <= k < visited.len() && visited[k] == w[i];
                    assert(path[k] == w[i]);
                }
            }
        }
        assert forall|i: int, j: int| 0 <= i < w.len() && 0 <= j < w.len() && i != j implies w[i]
            != w[j] by {
            if i == 0 {
                assert(rest[j - 1] == w[j]);
            } else if j == 0 {
                assert(rest[i - 1] == w[i]);
            } else {
                assert(rest[i - 1] == w[i] && rest[j - 1] == w[j]);
            }
        }
    }
}

/// Whether `c` is a cycle of the graph: a path of at least one edge that ends where it began.
pub open spec fn is_cycle(edges: Seq<EdgeModel>, c: Seq<Seq<char>>) -> bool {
    &&& c.len() >= 2
    &&& c[0] == c.last()
    &&& is_walk(edges, c)
}

/// Whether what was found is a whole cycle: `cycle` is a cycle of the graph from `end` to
/// `end`, and `index` is the index of an edge from its first node to its second.
pub open spec fn is_closed(edges: Seq<EdgeModel>, f: Found) -> bool {
    &&& is_cycle(edges, f.cycle)
    &&& f.cycle[0] == f.end
    &&& exists|p: int|
        0 <= p < edges.len() && #[trigger] edges[p].source == f.cycle[0] && edges[p].target
            == f.cycle[1] && edges[p].index == f.index
}

/// Whether what was found is a trace on its way back: `end` is a node of the path `visited`
/// that led to `node`, and `cycle` holds `end` and then, last node first, a path from `node`
/// to `end` that has no other node of `visited`.
pub open spec fn is_open(
    edges: Seq<EdgeModel>,
    f: Found,
    node: Seq<char>,
    visited: Seq<Seq<char>>,
) -> bool {
    &&& f.cycle.len() >= 1
    &&& f.cycle[0] == f.end
    &&& f.cycle.last() == node
    &&& visited.contains(f.end)
    &&& forall|i: int|
        0 <= i < f.cycle.len() - 1 ==> #[trigger] has_edge(edges, f.cycle[i + 1], f.cycle[i])
    &&& forall|i: int| 1 <= i < f.cycle.len() ==> !visited.contains(#[trigger] f.cycle[i])
}

/// What a search finds is a whole cycle of the graph, or a trace back to a node of the path
/// that led to the search.
pub proof fn lemma_search_found(edges: Seq<EdgeModel>, node: Seq<char>, visited: Seq<Seq<char>>)
    requires
        visited.no_duplicates(),
        search(edges, node, visited) is Some,
    ensures
        is_closed(edges, search(edges, node, visited)->0) || is_open(
            edges,
            search(edges, node, visited)->0,
            node,
            visited,
        ),
    decreases fresh(edges, visited), 0nat, 0nat,
{
    if visited.contains(node) {
        let f = search(edges, node, visited)->0;
        assert(f.cycle[0] == node);
        assert(is_open(edges, f, node, visited));
    } else {
        let path = visited.push(node);
        lemma_fresh_push(edges, visited, node);
        assert(path.drop_last() =~= visited);
        assert forall|i: int, j: int|
            0 <= i < path.len() && 0 <= j < path.len() && i != j implies path[i] != path[j] by {
            if i < visited.len() {
                assert(visited[i] == path[i]);
            }
            if j < visited.len() {
                assert(visited[j] == path[j]);
            }
        }
        lemma_search_edges_found(edges, node, 0, path);
    }
}

/// What the search along the edges of a node finds is a whole cycle of the graph, or a
/// trace back to a node of the path that led to the node.
pub proof fn lemma_search_edges_found(
    edges: Seq<EdgeModel>,
    node: Seq<char>,
    from: nat,
    visited: Seq<Seq<char>>,
)
    requires
        visited.no_duplicates(),
        visited.len() > 0,
        visited.last() == node,
        search_edges(edges, node, from, visited) is Some,
    ensures
        is_closed(edges, search_edges(edges, node, from, visited)->0) || is_open(
            edges,
            search_edges(edges, node, from, visited)->0,
            node,
            visited.drop_last(),
        ),
    decreases fresh(edges, visited), 1nat, edges.len() - from,
{
    let edge = edges[from as int];
    if edge.source == node && search(edges, edge.target, visited) is Some {
        let below = search(edges, edge.target, visited)->0;
        let f = trace_back(below, node, edge.index);
        lemma_search_found(edges, edge.target, visited);
        let before = visited.drop_last();
        assert(visited[visited.len() - 1] == node);
        if is_closed(edges, below) {
            assert(below.cycle[below.cycle.len() - 1] == below.end);
        } else {
            let n = below.cycle.len() as int;
            if n > 1 {
                assert(!visited.contains(below.cycle[n - 1]));
            }
            let grown = below.cycle.push(node);
            assert(has_edge(edges, node, edge.target));
            assert forall|i: int| 0 <= i < grown.len() - 1 implies #[trigger] has_edge(
                edges,
                grown[i + 1],
                grown[i],
            ) by {
                if i < n - 1 {
                    assert(has_edge(edges, below.cycle[i + 1], below.cycle[i]));
                }
            }
            if below.end == node {
                let c = grown.reverse();
                assert(f.cycle == c);
                assert(c.len() == n + 1);
                assert(c[0] == node);
                assert(c[n] == below.end);
                assert(c[1] == edge.target);
                assert forall|i: int| 0 <= i < c.len() - 1 implies #[trigger] has_edge(
                    edges,
                    c[i],
                    c[i + 1],
                ) by {
                    assert(c[i] == grown[n - i] && c[i + 1] == grown[n - i - 1]);
                    assert(has_edge(edges, grown[n - i - 1 + 1], grown[n - i - 1]));
                }
                assert(is_closed(edges, f));
            } else {
                assert(f.cycle == grown);
                let k = choose|k: int| 0 <= k < visited.len() && visited[k] == below.end;
                assert(before[k] == below.end);
                assert forall|i: int| 1 <= i < grown.len() implies !before.contains(
                    #[trigger] grown[i],
                ) by {
                    if before.contains(grown[i]) {
                        let m = choose|m: int| 0 <= m < before.len() && before[m] == grown[i];
                        assert(visited[m] == grown[i]);
                        if i < n {
                            assert(!visited.contains(below.cycle[i]));
                        }
                    }
                }
                assert(is_open(edges, f, node, before));
            }
        }
    } else {
        lemma_search_edges_found(edges, node, from + 1, visited);
    }
}

/// What a search of the whole graph finds is a cycle of the graph.
pub proof fn lemma_found_is_cycle(edges: Seq<EdgeModel>, node: Seq<char>)
    requires
        search(edges, node, Seq::empty()) is Some,
    ensures
        is_closed(edges, search(edges, node, Seq::empty())->0),
{
    lemma_search_found(edges, node, Seq::empty());
}

/// Whether some relationship leads from `a` to `b`.
pub open spec fn relates(rels: Seq<RelationshipModel>, a: Seq<char>, b: Seq<char>) -> bool {
    exists|i: int|
        0 <= i < rels.len() && #[trigger] rels[i].product_reference == a
            && rels[i].relates_to_product_reference == b
}

/// Whether `c` is a cycle of the relationships: a path of at least one relationship that
/// ends where it began.
pub open spec fn is_relationship_cycle(rels: Seq<RelationshipModel>, c: Seq<Seq<char>>) -> bool {
    &&& c.len() >= 2
    &&& c[0] == c.last()
    &&& forall|i: int| 0 <= i < c.len() - 1 ==> #[trigger] relates(rels, c[i], c[i + 1])
}

/// The graph of the relationships: an edge from `product_reference` to
/// `relates_to_product_reference` for each, with the position of the last relationship
/// between the two.
pub open spec fn relation_edges(rels: Seq<RelationshipModel>) -> Seq<EdgeModel>
    decreases rels.len(),
{
    if rels.len() == 0 {
        Seq::empty()
    } else {
        with_edge(
            relation_edges(rels.drop_last()),
            rels.last().product_reference,
            rels.last().relates_to_product_reference,
            (rels.len() - 1) as usize,
        )
    }
}

/// The graph has exactly the edges that the relationships make.
pub proof fn lemma_relation_edges(rels: Seq<RelationshipModel>)
    ensures
        forall|a: Seq<char>, b: Seq<char>|
            has_edge(relation_edges(rels), a, b) <==> relates(rels, a, b),
    decreases rels.len(),
{
    if rels.len() > 0 {
        let front = rels.drop_last();
        let last = rels.last();
        lemma_relation_edges(front);
        lemma_with_edge(
            relation_edges(front),
            last.product_reference,
            last.relates_to_product_reference,
            (rels.len() - 1) as usize,
        );
        assert forall|a: Seq<char>, b: Seq<char>|
            has_edge(relation_edges(rels), a, b) <==> relates(rels, a, b) by {
            if relates(rels, a, b) {
                let i = choose|i: int|
                    0 <= i < rels.len() && #[trigger] rels[i].product_reference == a
                        && rels[i].relates_to_product_reference == b;
                if i < rels.len() - 1 {
                    assert(front[i].product_reference == a);
                    assert(relates(front, a, b));
                }
            }
            if relates(front, a, b) {
                let i = choose|i: int|
                    0 <= i < front.len() && #[trigger] front[i].product_reference == a
                        && front[i].relates_to_product_reference == b;
                assert(rels[i].product_reference == a);
            }
            if a == last.product_reference && b == last.relates_to_product_reference {
                assert(rels[rels.len() - 1].product_reference == a);
            }
        }
    } else {
        assert forall|a: Seq<char>, b: Seq<char>|
            has_edge(relation_edges(rels), a, b) <==> relates(rels, a, b) by {}
    }
}

/// The finding for a relationship that defines the product that it refers to.
pub open spec fn self_reference_finding(rel: RelationshipModel, i_r: int) -> Option<
    FindingModel,
> {
    if rel.product_reference == rel.full_product_name {
        Some(
            FindingModel {
                message: "Relationship references itself via product_reference"@,
                instance_path: "/product_tree/relationships/"@ + decimal(i_r as nat)
                    + "/product_reference"@,
            },
        )
    } else if rel.relates_to_product_reference == rel.full_product_name {
        Some(
            FindingModel {
                message: "Relationship references itself via relates_to_product_reference"@,
                instance_path: "/product_tree/relationships/"@ + decimal(i_r as nat)
                    + "/relates_to_product_reference"@,
            },
        )
    } else {
        None
    }
}

/// What each relationship gives by itself, in document order.
pub open spec fn self_reference_findings(rels: Seq<RelationshipModel>) -> Seq<
    Option<FindingModel>,
> {
    Seq::new(rels.len(), |i_r: int| self_reference_finding(rels[i_r], i_r))
}

/// The finding for a cycle that a search found.
pub open spec fn cycle_finding(cycle: Seq<Seq<char>>, index: usize) -> FindingModel {
    FindingModel {
        message: "Found product relationship cycle: "@ + join(cycle, " -> "@),
        instance_path: "/product_tree/relationships/"@ + decimal(index as nat),
    }
}

/// What the search from the source of each edge gives, in the order of the edges.
pub open spec fn cycle_findings(edges: Seq<EdgeModel>) -> Seq<Option<FindingModel>> {
    Seq::new(
        edges.len(),
        |p: int|
            match search(edges, edges[p].source, Seq::empty()) {
                Some(f) => Some(cycle_finding(f.cycle, f.index)),
                None => None,
            },
    )
}

/// The finding of the test for circular definitions. The first relationship that refers to
/// the product it defines fails the test. Where there is none, the first search that finds a
/// cycle does, the searches starting from the sources of the edges in the order in which the
/// relationships first gave them.
pub open spec fn outcome_6_1_03(doc: DocumentModel) -> Option<FindingModel> {
    match doc.product_tree {
        Some(tree) => {
            let own = first_some(self_reference_findings(tree.relationships));
            if own is Some {
                own
            } else {
                first_some(cycle_findings(relation_edges(tree.relationships)))
            }
        },
        None => None,
    }
}

/// Every cycle is found: a document whose relationships hold a cycle fails the test.
pub proof fn lemma_cycle_fails(doc: DocumentModel, c: Seq<Seq<char>>)
    requires
        doc.product_tree is Some,
        is_relationship_cycle(doc.product_tree->0.relationships, c),
    ensures
        outcome_6_1_03(doc) is Some,
{
    let rels = doc.product_tree->0.relationships;
    let edges = relation_edges(rels);
    if first_some(self_reference_findings(rels)) is None {
        lemma_relation_edges(rels);
        assert forall|i: int| 0 <= i < c.len() - 1 implies #[trigger] has_edge(
            edges,
            c[i],
            c[i + 1],
        ) by {
            assert(relates(rels, c[i], c[i + 1]));
        }
        assert(has_edge(edges, c[0int], c[0int + 1]));
        let p = choose|p: int|
            0 <= p < edges.len() && #[trigger] edges[p].source == c[0] && edges[p].target == c[1];
        if search(edges, c[0], Seq::empty()) is None {
            lemma_search_none(edges, c[0], Seq::empty(), c);
            assert(c[0] == c[c.len() - 1]);
        }
        assert(cycle_findings(edges)[p] is Some);
        lemma_first_some_none(cycle_findings(edges));
    }
}

/// Whether the relationships of a document are circular: one of them refers to the product
/// that it defines, or they hold a cycle.
pub open spec fn is_circular(doc: DocumentModel) -> bool {
    match doc.product_tree {
        Some(tree) => {
            ||| exists|i: int|
                0 <= i < tree.relationships.len() && self_reference_finding(
                    #[trigger] tree.relationships[i],
                    i,
                ) is Some
            ||| exists|c: Seq<Seq<char>>| is_relationship_cycle(tree.relationships, c)
        },
        None => false,
    }
}

/// The test fails exactly the documents whose relationships are circular.
pub proof fn lemma_fails_iff_circular(doc: DocumentModel)
    ensures
        outcome_6_1_03(doc) is Some <==> is_circular(doc),
{
    if let Some(tree) = doc.product_tree {
        let rels = tree.relationships;
        let own = self_reference_findings(rels);
        let edges = relation_edges(rels);
        lemma_first_some_none(own);
        lemma_first_some_none(cycle_findings(edges));
        lemma_relation_edges(rels);
        if first_some(own) is Some {
            let i = choose|i: int| 0 <= i < own.len() && own[i] is Some;
            assert(self_reference_finding(rels[i], i) is Some);
        } else {
            assert forall|i: int| 0 <= i < rels.len() implies self_reference_finding(
                #[trigger] rels[i],
                i,
            ) is None by {
                assert(own[i] is None);
            }
            if outcome_6_1_03(doc) is Some {
                let p = choose|p: int|
                    0 <= p < edges.len() && cycle_findings(edges)[p] is Some;
                lemma_found_is_cycle(edges, edges[p].source);
                let c = search(edges, edges[p].source, Seq::empty())->0.cycle;
                assert forall|i: int| 0 <= i < c.len() - 1 implies #[trigger] relates(
                    rels,
                    c[i],
                    c[i + 1],
                ) by {
                    assert(has_edge(edges, c[i], c[i + 1]));
                }
                assert(is_relationship_cycle(rels, c));
            }
            if exists|c: Seq<Seq<char>>| is_relationship_cycle(rels, c) {
                let c = choose|c: Seq<Seq<char>>| is_relationship_cycle(rels, c);
                lemma_cycle_fails(doc, c);
            }
        }
    }
}

fn self_reference_error(field: &str, i_r: usize) -> (r: ValidationError)
    ensures
        r@ == (FindingModel {
            message: "Relationship references itself via "@ + field@,
            instance_path: "/product_tree/relationships/"@ + decimal(i_r as nat) + "/"@ + field@,
        }),
{
    let mut message = String::from_str("Relationship references itself via ");
    message.append(field);
    let mut instance_path = String::from_str("/product_tree/relationships/");
    instance_path.append(decimal_string(i_r).as_str());
    instance_path.append("/");
    instance_path.append(field);
    ValidationError { message, instance_path }
}

/// Checks that no relationship refers to the product it defines, and builds the graph of
/// the relationships.
fn build_relation_map(rels: &Vec<Relationship>) -> (res: Result<RelationMap, ValidationError>)
    ensures
        match res {
            Ok(map) => {
                &&& first_some(self_reference_findings(views(rels@))) is None
                &&& map@ == relation_edges(views(rels@))
            },
            Err(e) => first_some(self_reference_findings(views(rels@))) == Some(e@),
        },
{
    let ghost models = views(rels@);
    let ghost findings = self_reference_findings(models);
    let mut map = RelationMap::new();
    let mut i_r: usize = 0;
    while i_r < rels.len()
        invariant
            0 <= i_r <= rels.len(),
            models == views(rels@),
            findings == self_reference_findings(models),
            forall|j: int| 0 <= j < i_r ==> findings[j] is None,
            map@ == relation_edges(models.take(i_r as int)),
        decreases rels.len() - i_r,
    {
        let r = &rels[i_r];
        let defined = r.get_full_product_name().get_product_id();
        if *r.get_product_reference() == *defined {
            let e = self_reference_error("product_reference", i_r);
            proof {
                reveal_strlit("Relationship references itself via ");
                reveal_strlit("product_reference");
                reveal_strlit("Relationship references itself via product_reference");
                reveal_strlit("/");
                reveal_strlit("/product_reference");
                assert(e@.message =~= findings[i_r as int]->0.message);
                assert(e@.instance_path =~= findings[i_r as int]->0.instance_path);
                lemma_first_some_at(findings, i_r as int);
            }
            return Err(e);
        } else if *r.get_relates_to_product_reference() == *defined {
            let e = self_reference_error("relates_to_product_reference", i_r);
            proof {
                reveal_strlit("Relationship references itself via ");
                reveal_strlit("relates_to_product_reference");
                reveal_strlit("Relationship references itself via relates_to_product_reference");
                reveal_strlit("/");
                reveal_strlit("/relates_to_product_reference");
                assert(e@.message =~= findings[i_r as int]->0.message);
                assert(e@.instance_path =~= findings[i_r as int]->0.instance_path);
                lemma_first_some_at(findings, i_r as int);
            }
            return Err(e);
        }
        proof {
            assert(models.take(i_r + 1).drop_last() =~= models.take(i_r as int));
            assert(models.take(i_r + 1).last() == models[i_r as int]);
        }
        map.insert(
            r.get_product_reference().clone(),
            r.get_relates_to_product_reference().clone(),
            i_r,
        );
        i_r += 1;
    }
    proof {
        lemma_first_some_none(findings);
        assert(models.take(rels.len() as int) =~= models);
    }
    Ok(map)
}

/// Makes the finding for a cycle.
pub fn cycle_error(cycle: &Vec<String>, index: usize) -> (r: ValidationError)
    ensures
        r@ == cycle_finding(texts(cycle@), index),
{
    let mut message = String::from_str("Found product relationship cycle: ");
    message.append(join_strings(cycle, " -> ").as_str());
    let mut instance_path = String::from_str("/product_tree/relationships/");
    instance_path.append(decimal_string(index).as_str());
    ValidationError { message, instance_path }
}

/// Circular definition of product ID: no relationship may refer to the product that it
/// defines, and the relationships may not form a cycle.
pub fn test_6_1_03_circular_definition_of_product_id<D: CsafTrait>(doc: &D) -> (res: Result<
    (),
    ValidationError,
>)
    ensures
        finding_of(res) == outcome_6_1_03(doc@),
        res is Err <==> is_circular(doc@),
{
    proof {
        lemma_fails_iff_circular(doc@);
    }
    if let Some(tree) = doc.get_product_tree() {
        let relation_map = match build_relation_map(tree.get_relationships()) {
            Ok(map) => map,
            Err(e) => {
                return Err(e);
            },
        };
        let edges = relation_map.edges();
        let ghost graph = relation_map@;
        let ghost findings = cycle_findings(graph);
        let mut p: usize = 0;
        while p < edges.len()
            invariant
                0 <= p <= edges.len(),
                views(edges@) == graph,
                graph == relation_map@,
                findings == cycle_findings(graph),
                outcome_6_1_03(doc@) == first_some(findings),
                outcome_6_1_03(doc@) is Some <==> is_circular(doc@),
                forall|q: int| 0 <= q < p ==> findings[q] is None,
            decreases edges.len() - p,
        {
            let mut visited: Vec<String> = Vec::new();
            assert(texts(visited@) =~= Seq::<Seq<char>>::empty());
            if let Some((_, cycle, index)) = find_cycle(
                &relation_map,
                edges[p].source.as_str(),
                &mut visited,
            ) {
                let e = cycle_error(&cycle, index);
                proof {
                    lemma_first_some_at(findings, p as int);
                }
                return Err(e);
            }
            p += 1;
        }
        proof {
            lemma_first_some_none(findings);
        }
    }
    Ok(())
}

} // verus!
