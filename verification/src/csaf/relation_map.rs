use crate::csaf::model::views;
use vstd::prelude::*;

verus! {

/// One edge of the relationship graph: from `source` to `target`, made by the relationship
/// at `index`.
pub struct EdgeModel {
    pub source: Seq<char>,
    pub target: Seq<char>,
    pub index: usize,
}

/// The position of the first edge from `source` to `target`, if there is one.
pub open spec fn position_of(edges: Seq<EdgeModel>, source: Seq<char>, target: Seq<char>) -> Option<
    int,
>
    decreases edges.len(),
{
    if edges.len() == 0 {
        None
    } else {
        match position_of(edges.drop_last(), source, target) {
            Some(p) => Some(p),
            None => if edges.last().source == source && edges.last().target == target {
                Some(edges.len() - 1)
            } else {
                None
            },
        }
    }
}

/// The edges after the edge from `source` to `target` is set to `index`: an edge between the
/// two keeps its place and takes the new index; a new edge goes to the end.
pub open spec fn with_edge(
    edges: Seq<EdgeModel>,
    source: Seq<char>,
    target: Seq<char>,
    index: usize,
) -> Seq<EdgeModel> {
    let edge = EdgeModel { source, target, index };
    match position_of(edges, source, target) {
        Some(p) => edges.update(p, edge),
        None => edges.push(edge),
    }
}

/// Whether no two edges join the same source to the same target.
pub open spec fn distinct_edges(edges: Seq<EdgeModel>) -> bool {
    forall|p: int, q: int|
        0 <= p < q < edges.len() ==> !(#[trigger] edges[p].source == #[trigger] edges[q].source
            && edges[p].target == edges[q].target)
}

/// Whether the graph has an edge from `a` to `b`.
pub open spec fn has_edge(edges: Seq<EdgeModel>, a: Seq<char>, b: Seq<char>) -> bool {
    exists|p: int| 0 <= p < edges.len() && #[trigger] edges[p].source == a && edges[p].target == b
}

/// `position_of` finds the first edge between the two nodes, and finds none only where
/// there is none.
pub proof fn lemma_position_of(edges: Seq<EdgeModel>, source: Seq<char>, target: Seq<char>)
    ensures
        match position_of(edges, source, target) {
            Some(p) => {
                &&& 0 <= p < edges.len()
                &&& edges[p].source == source
                &&& edges[p].target == target
                &&& forall|q: int|
                    0 <= q < p ==> !(#[trigger] edges[q].source == source && edges[q].target
                        == target)
            },
            None => forall|q: int|
                0 <= q < edges.len() ==> !(#[trigger] edges[q].source == source
                    && edges[q].target == target),
        },
    decreases edges.len(),
{
    if edges.len() > 0 {
        let front = edges.drop_last();
        lemma_position_of(front, source, target);
        assert forall|q: int| 0 <= q < front.len() implies front[q] == edges[q] by {}
        match position_of(front, source, target) {
            Some(p) => {
                assert(front[p] == edges[p]);
                assert forall|q: int| 0 <= q < p implies !(#[trigger] edges[q].source == source
                    && edges[q].target == target) by {
                    assert(front[q] == edges[q]);
                }
            },
            None => {
                assert forall|q: int| 0 <= q < edges.len() - 1 implies !(
                #[trigger] edges[q].source == source && edges[q].target == target) by {
                    assert(front[q] == edges[q]);
                }
            },
        }
    }
}

/// Setting an edge adds that edge to the graph and changes no other.
pub proof fn lemma_with_edge(
    edges: Seq<EdgeModel>,
    source: Seq<char>,
    target: Seq<char>,
    index: usize,
)
    ensures
        forall|a: Seq<char>, b: Seq<char>|
            has_edge(with_edge(edges, source, target, index), a, b) <==> has_edge(edges, a, b) || (a
                == source && b == target),
        distinct_edges(edges) ==> distinct_edges(with_edge(edges, source, target, index)),
{
    lemma_position_of(edges, source, target);
    let after = with_edge(edges, source, target, index);
    assert forall|a: Seq<char>, b: Seq<char>| has_edge(after, a, b) <==> has_edge(edges, a, b) || (a
        == source && b == target) by {
        if has_edge(after, a, b) {
            let p = choose|p: int|
                0 <= p < after.len() && #[trigger] after[p].source == a && after[p].target == b;
            if !(a == source && b == target) {
                assert(edges[p].source == a && edges[p].target == b);
            }
        }
        if has_edge(edges, a, b) {
            let p = choose|p: int|
                0 <= p < edges.len() && #[trigger] edges[p].source == a && edges[p].target == b;
            assert(after[p].source == a && after[p].target == b);
        }
        if a == source && b == target {
            match position_of(edges, source, target) {
                Some(p) => {
                    assert(after[p].source == a && after[p].target == b);
                },
                None => {
                    assert(after[edges.len() as int].source == a && after[edges.len() as int].target
                        == b);
                },
            }
        }
    }
    if distinct_edges(edges) {
        assert forall|p: int, q: int| 0 <= p < q < after.len() implies !(
        #[trigger] after[p].source == #[trigger] after[q].source && after[p].target
            == after[q].target) by {
            match position_of(edges, source, target) {
                Some(k) => {
                    assert(after[p].source == edges[p].source && after[p].target
                        == edges[p].target);
                    assert(after[q].source == edges[q].source && after[q].target
                        == edges[q].target);
                },
                None => {
                    if q < edges.len() {
                        assert(after[p] == edges[p] && after[q] == edges[q]);
                    } else {
                        assert(after[p] == edges[p]);
                    }
                },
            }
        }
    }
}

/// An edge of a `RelationMap`.
#[derive(Debug, PartialEq, Eq)]
pub struct RelationEdge {
    pub source: String,
    pub target: String,
    pub index: usize,
}

impl View for RelationEdge {
    type V = EdgeModel;

    open spec fn view(&self) -> EdgeModel {
        EdgeModel { source: self.source@, target: self.target@, index: self.index }
    }
}

/// The relationship graph: for each source and each target at most one relationship index,
/// kept in the order in which the edges first came.
#[derive(Debug, PartialEq, Eq)]
pub struct RelationMap {
    edges: Vec<RelationEdge>,
}

impl View for RelationMap {
    type V = Seq<EdgeModel>;

    closed spec fn view(&self) -> Seq<EdgeModel> {
        views(self.edges@)
    }
}

impl RelationMap {
    /// Whether the graph holds at most one edge for each source and target.
    pub open spec fn well_formed(&self) -> bool {
        distinct_edges(self@)
    }

    /// A graph without edges.
    pub fn new() -> (r: RelationMap)
        ensures
            r@ == Seq::<EdgeModel>::empty(),
            r.well_formed(),
    {
        let r = RelationMap { edges: Vec::new() };
        assert(r@ =~= Seq::<EdgeModel>::empty());
        r
    }

    /// Sets the edge from `source` to `target` to `index`.
    pub fn insert(&mut self, source: String, target: String, index: usize)
        ensures
            final(self)@ == with_edge(old(self)@, source@, target@, index),
            old(self).well_formed() ==> final(self).well_formed(),
    {
        let ghost before = self@;
        proof {
            lemma_with_edge(before, source@, target@, index);
        }
        let mut p: usize = 0;
        while p < self.edges.len()
            invariant
                0 <= p <= self.edges.len(),
                self@ == before,
                before == old(self)@,
                forall|q: int|
                    0 <= q < p ==> !(#[trigger] before[q].source == source@ && before[q].target
                        == target@),
            decreases self.edges.len() - p,
        {
            if self.edges[p].source == source && self.edges[p].target == target {
                proof {
                    lemma_position_of(before, source@, target@);
                    lemma_with_edge(before, source@, target@, index);
                    assert(before[p as int].source == source@);
                }
                self.edges.set(p, RelationEdge { source, target, index });
                assert(self@ =~= with_edge(before, source@, target@, index));
                return ;
            }
            p += 1;
        }
        proof {
            lemma_position_of(before, source@, target@);
        }
        self.edges.push(RelationEdge { source, target, index });
        assert(self@ =~= with_edge(before, source@, target@, index));
    }

    /// The edges, in the order in which they first came.
    pub fn edges(&self) -> (r: &Vec<RelationEdge>)
        ensures
            views(r@) == self@,
    {
        &self.edges
    }
}

} // verus!
