//! A graph of relationships between memories, with breadth-first path
//! search. Edge weights are held as `f32` bit patterns.
use vstd::prelude::*;
use vstd::set_lib::{lemma_int_range, lemma_len_subset, set_int_range};
use crate::text::str_eq;
use crate::types::{RelationshipType, relationship_bidirectional};

verus! {

/// One directed edge: from one memory to another, with its kind and weight.
#[derive(Debug)]
pub struct GraphEdge {
    /// The memory the edge leaves
    pub from: String,
    /// The memory the edge reaches
    pub to: String,
    /// The kind of relationship
    pub rel: RelationshipType,
    /// The weight, as an `f32` bit pattern
    pub weight: u32,
}

/// The view of an edge: its two ends, its kind and its weight.
pub type EdgeView = (Seq<char>, Seq<char>, RelationshipType, u32);

/// The view of an edge.
pub open spec fn edge_view(e: GraphEdge) -> EdgeView {
    (e.from@, e.to@, e.rel, e.weight)
}

/// The edges leaving `id`, in the order they were added, each as its
/// far end, kind and weight.
pub open spec fn adjacent(edges: Seq<EdgeView>, id: Seq<char>) -> Seq<(Seq<char>, RelationshipType, u32)>
    decreases edges.len(),
{
    if edges.len() == 0 {
        Seq::empty()
    } else {
        let e = edges.last();
        let rest = adjacent(edges.drop_last(), id);
        if e.0 == id {
            rest.push((e.1, e.2, e.3))
        } else {
            rest
        }
    }
}

/// Whether some edge leads from `a` to `b`.
pub open spec fn has_edge(edges: Seq<EdgeView>, a: Seq<char>, b: Seq<char>) -> bool {
    exists|i: int| 0 <= i < edges.len() && #[trigger] edges[i].0 == a && edges[i].1 == b
}

/// Whether `p` is a path without repeated memories from `start` to `end`
/// along the edges.
pub open spec fn is_simple_path(edges: Seq<EdgeView>, p: Seq<Seq<char>>, start: Seq<char>, end: Seq<char>) -> bool {
    &&& p.len() >= 1
    &&& p[0] == start
    &&& p.last() == end
    &&& p.no_duplicates()
    &&& forall|i: int| 0 <= i < p.len() - 1 ==> has_edge(edges, #[trigger] p[i], p[i + 1])
}

/// An edge turned around: from its target to its source.
pub open spec fn flipped(e: EdgeView) -> EdgeView {
    (e.1, e.0, e.2, e.3)
}

/// Whether the incoming edges are the outgoing ones turned around, one for
/// one and in the same order.
pub open spec fn paired(out: Seq<EdgeView>, inc: Seq<EdgeView>) -> bool {
    inc == out.map_values(|e: EdgeView| flipped(e))
}

/// How many times `e` occurs among the edges.
pub open spec fn edge_count(edges: Seq<EdgeView>, e: EdgeView) -> nat
    decreases edges.len(),
{
    if edges.len() == 0 {
        0
    } else {
        edge_count(edges.drop_last(), e) + if edges.last() == e {
            1nat
        } else {
            0nat
        }
    }
}

/// How many times `x` occurs in a list of adjacent memories.
pub open spec fn adjacent_count(s: Seq<(Seq<char>, RelationshipType, u32)>, x: (Seq<char>, RelationshipType, u32)) -> nat
    decreases s.len(),
{
    if s.len() == 0 {
        0
    } else {
        adjacent_count(s.drop_last(), x) + if s.last() == x {
            1nat
        } else {
            0nat
        }
    }
}

/// The number of times `(b, r, w)` is adjacent to `a` is the number of
/// edges `(a, b, r, w)`.
proof fn lemma_adjacent_count(edges: Seq<EdgeView>, a: Seq<char>, b: Seq<char>, r: RelationshipType, w: u32)
    ensures
        adjacent_count(adjacent(edges, a), (b, r, w)) == edge_count(edges, (a, b, r, w)),
    decreases edges.len(),
{
    if edges.len() > 0 {
        lemma_adjacent_count(edges.drop_last(), a, b, r, w);
        let e = edges.last();
        let rest = adjacent(edges.drop_last(), a);
        if e.0 == a {
            assert(rest.push((e.1, e.2, e.3)).drop_last() =~= rest);
        }
    }
}

/// Turning every edge around keeps the number of times each edge occurs,
/// turned around.
proof fn lemma_flipped_count(out: Seq<EdgeView>, e: EdgeView)
    ensures
        edge_count(out.map_values(|x: EdgeView| flipped(x)), flipped(e)) == edge_count(out, e),
    decreases out.len(),
{
    if out.len() > 0 {
        let f = out.map_values(|x: EdgeView| flipped(x));
        assert(f.drop_last() =~= out.drop_last().map_values(|x: EdgeView| flipped(x)));
        lemma_flipped_count(out.drop_last(), e);
        assert(f.last() == flipped(out.last()));
        assert(flipped(out.last()) == flipped(e) ==> out.last() == e);
    }
}

/// In a graph whose incoming edges are its outgoing ones turned around,
/// `(b, r, w)` leaves `a` exactly as many times as `(a, r, w)` reaches `b`.
pub proof fn lemma_paired_adjacency(out: Seq<EdgeView>, inc: Seq<EdgeView>, a: Seq<char>, b: Seq<char>, r: RelationshipType, w: u32)
    requires
        paired(out, inc),
    ensures
        adjacent_count(adjacent(out, a), (b, r, w)) == adjacent_count(adjacent(inc, b), (a, r, w)),
{
    lemma_adjacent_count(out, a, b, r, w);
    lemma_adjacent_count(inc, b, a, r, w);
    lemma_flipped_count(out, (a, b, r, w));
    assert(flipped((a, b, r, w)) == (b, a, r, w));
}

/// Whether `p` is a walk (memories may repeat) from `start` to `end` along
/// the edges.
pub open spec fn is_walk(edges: Seq<EdgeView>, p: Seq<Seq<char>>, start: Seq<char>, end: Seq<char>) -> bool {
    &&& p.len() >= 1
    &&& p[0] == start
    &&& p.last() == end
    &&& forall|i: int| 0 <= i < p.len() - 1 ==> has_edge(edges, #[trigger] p[i], p[i + 1])
}

/// Whether `x` is among the reached memories `vv` with a recorded path of
/// at most `bound` memories (`lens` holding the paths' lengths).
pub open spec fn reached_within(vv: Seq<Seq<char>>, lens: Seq<int>, x: Seq<char>, bound: int) -> bool {
    exists|w: int| 0 <= w < vv.len() && w < lens.len() && #[trigger] vv[w] == x && lens[w] <= bound
}

/// The lengths of recorded paths.
pub open spec fn lens_of(paths: Seq<Vec<String>>) -> Seq<int> {
    paths.map_values(|p: Vec<String>| p@.len() as int)
}

/// The reached memories after `cur` is expanded over the edges from index
/// `i` on: each edge that leaves `cur` adds its target when the target has
/// not been reached yet.
#[verifier::opaque]
pub open spec fn bfs_expand(out: Seq<EdgeView>, reached: Seq<Seq<char>>, cur: Seq<char>, i: int) -> Seq<Seq<char>>
    decreases out.len() - i,
{
    if i >= out.len() {
        reached
    } else {
        let next = if out[i].0 == cur && !reached.contains(out[i].1) {
            reached.push(out[i].1)
        } else {
            reached
        };
        bfs_expand(out, next, cur, i + 1)
    }
}

/// Whether the breadth-first visit takes `end` from its queue, where
/// `reached` holds the memories reached so far, in order, and those before
/// `head` have already been taken. A memory taken while fewer than
/// `max_depth` memories are reached is expanded; otherwise it is only
/// compared with `end`. (A visit never reaches more than one memory per
/// edge besides the first, so the bound on `head` cuts nothing off.)
#[verifier::opaque]
pub open spec fn bfs_finds(out: Seq<EdgeView>, reached: Seq<Seq<char>>, head: int, end: Seq<char>, max_depth: int) -> bool
    decreases out.len() + 1 - head,
{
    if head < 0 || head >= reached.len() || head > out.len() {
        false
    } else if reached[head] == end {
        true
    } else if reached.len() >= max_depth {
        bfs_finds(out, reached, head + 1, end, max_depth)
    } else {
        bfs_finds(out, bfs_expand(out, reached, reached[head], 0), head + 1, end, max_depth)
    }
}

/// Whether the breadth-first visit from `start`, which stops widening once
/// `max_depth` memories are reached, takes `end` from its queue.
pub open spec fn bfs_reaches(out: Seq<EdgeView>, start: Seq<char>, end: Seq<char>, max_depth: int) -> bool {
    bfs_finds(out, seq![start], 0, end, max_depth)
}

/// One step of `bfs_expand`: edge `i` is looked at, then the rest.
proof fn lemma_expand_step(out: Seq<EdgeView>, reached: Seq<Seq<char>>, cur: Seq<char>, i: int)
    ensures
        i >= out.len() ==> bfs_expand(out, reached, cur, i) == reached,
        i < out.len() ==> bfs_expand(out, reached, cur, i) == bfs_expand(
            out,
            if out[i].0 == cur && !reached.contains(out[i].1) {
                reached.push(out[i].1)
            } else {
                reached
            },
            cur,
            i + 1,
        ),
{
    reveal(bfs_expand);
}

/// One step of `bfs_finds`: the memory at `head` is taken from the queue.
proof fn lemma_finds_step(out: Seq<EdgeView>, reached: Seq<Seq<char>>, head: int, end: Seq<char>, max_depth: int)
    requires
        0 <= head,
        reached.len() <= out.len() + 1,
    ensures
        head >= reached.len() ==> !bfs_finds(out, reached, head, end, max_depth),
        head < reached.len() && reached[head] == end ==> bfs_finds(out, reached, head, end, max_depth),
        head < reached.len() && reached[head] != end && reached.len() >= max_depth ==> bfs_finds(
            out,
            reached,
            head,
            end,
            max_depth,
        ) == bfs_finds(out, reached, head + 1, end, max_depth),
        head < reached.len() && reached[head] != end && reached.len() < max_depth ==> bfs_finds(
            out,
            reached,
            head,
            end,
            max_depth,
        ) == bfs_finds(out, bfs_expand(out, reached, reached[head], 0), head + 1, end, max_depth),
{
    reveal(bfs_finds);
}

/// The views of the memory IDs of a path.
pub open spec fn ids_view(p: Seq<String>) -> Seq<Seq<char>> {
    p.map_values(|s: String| s@)
}

/// Relationships between memories, kept as outgoing and incoming edge
/// lists.
#[derive(Debug)]
pub struct RelationshipGraph {
    edges: Vec<GraphEdge>,
    reverse_edges: Vec<GraphEdge>,
}

impl RelationshipGraph {
    /// Every outgoing edge, in the order added.
    pub closed spec fn outgoing_edges(&self) -> Seq<EdgeView> {
        self.edges@.map_values(|e: GraphEdge| edge_view(e))
    }

    /// Every incoming edge (from its target, to its source), in the order
    /// added.
    pub closed spec fn incoming_edges(&self) -> Seq<EdgeView> {
        self.reverse_edges@.map_values(|e: GraphEdge| edge_view(e))
    }

    /// An empty graph.
    pub fn new() -> (r: RelationshipGraph)
        ensures
            r.outgoing_edges().len() == 0,
            r.incoming_edges().len() == 0,
            paired(r.outgoing_edges(), r.incoming_edges()),
    {
        let r = RelationshipGraph { edges: Vec::new(), reverse_edges: Vec::new() };
        assert(r.outgoing_edges() =~= Seq::<EdgeView>::empty());
        assert(r.incoming_edges() =~= Seq::<EdgeView>::empty());
        assert(r.outgoing_edges().map_values(|e: EdgeView| flipped(e)) =~= r.incoming_edges());
        r
    }

    /// Adds a relationship from `source` to `target`; a kind that holds both
    /// ways is also added from `target` to `source`. Each edge added leaving
    /// one memory is added, turned around, reaching the other, so the two
    /// edge lists stay paired.
    pub fn add_relationship(&mut self, source: &str, target: &str, rel_type: RelationshipType, weight: u32)
        ensures
            paired(old(self).outgoing_edges(), old(self).incoming_edges()) ==> paired(
                final(self).outgoing_edges(),
                final(self).incoming_edges(),
            ),
            !relationship_bidirectional(rel_type) ==> final(self).outgoing_edges() == old(self).outgoing_edges().push(
                (source@, target@, rel_type, weight),
            ) && final(self).incoming_edges() == old(self).incoming_edges().push(
                (target@, source@, rel_type, weight),
            ),
            relationship_bidirectional(rel_type) ==> final(self).outgoing_edges() == old(self).outgoing_edges().push(
                (source@, target@, rel_type, weight),
            ).push((target@, source@, rel_type, weight)) && final(self).incoming_edges()
                == old(self).incoming_edges().push((target@, source@, rel_type, weight)).push(
                (source@, target@, rel_type, weight),
            ),
    {
        let bidirectional = rel_type.is_bidirectional();
        let ghost out0 = self.outgoing_edges();
        let ghost in0 = self.incoming_edges();
        self.edges.push(GraphEdge {
            from: String::from_str(source),
            to: String::from_str(target),
            rel: rel_type.clone(),
            weight,
        });
        self.reverse_edges.push(GraphEdge {
            from: String::from_str(target),
            to: String::from_str(source),
            rel: rel_type.clone(),
            weight,
        });
        proof {
            assert(self.outgoing_edges() =~= out0.push((source@, target@, rel_type, weight)));
            assert(self.incoming_edges() =~= in0.push((target@, source@, rel_type, weight)));
        }
        if bidirectional {
            let ghost out1 = self.outgoing_edges();
            let ghost in1 = self.incoming_edges();
            self.edges.push(GraphEdge {
                from: String::from_str(target),
                to: String::from_str(source),
                rel: rel_type.clone(),
                weight,
            });
            self.reverse_edges.push(GraphEdge {
                from: String::from_str(source),
                to: String::from_str(target),
                rel: rel_type,
                weight,
            });
            proof {
                assert(self.outgoing_edges() =~= out1.push((target@, source@, rel_type, weight)));
                assert(self.incoming_edges() =~= in1.push((source@, target@, rel_type, weight)));
            }
        }
        proof {
            if paired(out0, in0) {
                let e = (source@, target@, rel_type, weight);
                let f = (target@, source@, rel_type, weight);
                assert(out0.push(e).map_values(|x: EdgeView| flipped(x)) =~= in0.push(f));
                if bidirectional {
                    assert(out0.push(e).push(f).map_values(|x: EdgeView| flipped(x)) =~= in0.push(f).push(e));
                }
            }
        }
    }

    /// The relationships leaving `memory_id`, in the order added.
    pub fn get_outgoing(&self, memory_id: &str) -> (r: Vec<(String, RelationshipType, u32)>)
        ensures
            r@.map_values(|x: (String, RelationshipType, u32)| (x.0@, x.1, x.2)) == adjacent(
                self.outgoing_edges(),
                memory_id@,
            ),
    {
        collect_adjacent(&self.edges, memory_id)
    }

    /// The relationships reaching `memory_id`, each as its source, kind and
    /// weight, in the order added.
    pub fn get_incoming(&self, memory_id: &str) -> (r: Vec<(String, RelationshipType, u32)>)
        ensures
            r@.map_values(|x: (String, RelationshipType, u32)| (x.0@, x.1, x.2)) == adjacent(
                self.incoming_edges(),
                memory_id@,
            ),
    {
        collect_adjacent(&self.reverse_edges, memory_id)
    }

    /// A path from `start` to `end` found by breadth-first search over the
    /// outgoing edges: the path by which `end` is first reached. Once
    /// `max_depth` memories have been reached, the search stops widening,
    /// so a path is found exactly when that bounded visit (`bfs_reaches`)
    /// takes `end` from its queue. A returned path starts at `start`, ends
    /// at `end`, follows edges, repeats no memory and is as short as any
    /// walk; `start` itself is found as the path `[start]`.
    #[verifier::spinoff_prover]
    #[verifier::rlimit(60)]
    pub fn find_path(&self, start: &str, end: &str, max_depth: usize) -> (r: Option<Vec<String>>)
        ensures
            r matches Some(p) ==> is_simple_path(self.outgoing_edges(), ids_view(p@), start@, end@),
            r matches Some(p) ==> forall|q: Seq<Seq<char>>|
                #[trigger] is_walk(self.outgoing_edges(), q, start@, end@) ==> q.len() >= p@.len(),
            start@ == end@ ==> (r matches Some(p) && ids_view(p@) == seq![start@]),
            r is None && self.outgoing_edges().len() + 1 < max_depth ==> forall|p: Seq<Seq<char>>|
                !#[trigger] is_simple_path(self.outgoing_edges(), p, start@, end@),
            r is Some <==> bfs_reaches(self.outgoing_edges(), start@, end@, max_depth as int),
    {
        let ghost out = self.outgoing_edges();
        let ne = self.edges.len();
        let mut visited: Vec<String> = Vec::new();
        let mut paths: Vec<Vec<String>> = Vec::new();
        visited.push(String::from_str(start));
        let mut first: Vec<String> = Vec::new();
        first.push(String::from_str(start));
        paths.push(first);
        let ghost mut witness: Seq<int> = Seq::empty();
        let mut head: usize = 0;
        let ghost full = ne + 1 < max_depth;
        let ghost mut cut: int = 0;
        let ghost mut parent: Seq<int> = Seq::empty();
        proof {
            assert(ids_view(paths@[0]@) =~= seq![start@]);
            assert(ids_view(visited@)[0] == start@);
            assert(ids_view(visited@) =~= seq![start@]);
            assert forall|k: int, m: int|
                0 <= k < paths@.len() && 0 <= m < paths@[k]@.len() implies ids_view(visited@).contains(
                    #[trigger] paths@[k]@[m]@,
                ) by {
                assert(paths@[k]@[m]@ == start@);
            }
        }
        while head < visited.len()
            invariant
                ne == self.edges@.len(),
                out == self.outgoing_edges(),
                out.len() == ne,
                visited@.len() == paths@.len(),
                head <= visited@.len() <= ne + 1,
                visited@.len() >= 1,
                visited@[0]@ == start@,
                ids_view(visited@).no_duplicates(),
                witness.len() + 1 == visited@.len(),
                forall|j: int| 0 <= j < witness.len() ==> 0 <= #[trigger] witness[j] < ne && out[witness[j]].1
                    == visited@[j + 1]@,
                forall|k: int|
                    0 <= k < paths@.len() ==> is_simple_path(out, ids_view(#[trigger] paths@[k]@), start@, visited@[k]@),
                forall|k: int, m: int|
                    0 <= k < paths@.len() && 0 <= m < paths@[k]@.len() ==> ids_view(visited@).contains(
                        #[trigger] paths@[k]@[m]@,
                    ),
                head == 0 ==> visited@.len() == 1,
                ids_view(paths@[0]@) == seq![start@],
                start@ == end@ ==> head == 0,
                full == (ne + 1 < max_depth),
                forall|j: int| 0 <= j < head ==> #[trigger] visited@[j]@ != end@,
                full ==> forall|j: int, e: int|
                    #![trigger out[e], visited@[j]]
                    0 <= j < head && 0 <= e < ne && out[e].0 == visited@[j]@ ==> ids_view(visited@).contains(out[e].1),
                0 <= cut <= head,
                cut < head ==> visited@.len() >= max_depth,
                forall|a: int, b: int| 0 <= a <= b < paths@.len() ==> #[trigger] paths@[a]@.len() <= #[trigger] paths@[b]@.len(),
                head < paths@.len() ==> forall|j: int| 0 <= j < paths@.len() ==> #[trigger] paths@[j]@.len() <= paths@[head as int]@.len() + 1,
                parent.len() + 1 == visited@.len(),
                forall|j: int| 0 <= j < parent.len() ==> 0 <= #[trigger] parent[j] < cut && paths@[j + 1]@.len()
                    == paths@[parent[j]]@.len() + 1,
                forall|j: int, e: int|
                    #![trigger out[e], visited@[j]]
                    0 <= j < cut && 0 <= e < ne && out[e].0 == visited@[j]@ ==> reached_within(
                        ids_view(visited@),
                        lens_of(paths@),
                        out[e].1,
                        paths@[j]@.len() as int + 1,
                    ),
                bfs_finds(out, ids_view(visited@), head as int, end@, max_depth as int) == bfs_reaches(
                    out,
                    start@,
                    end@,
                    max_depth as int,
                ),
            decreases ne + 1 - head,
        {
            let current = String::from_str(visited[head].as_str());
            let k = head;
            let ghost v0 = ids_view(visited@);
            proof {
                assert(v0[k as int] == current@);
                lemma_finds_step(out, v0, k as int, end@, max_depth as int);
            }
            head = head + 1;
            if str_eq(current.as_str(), end) {
                let p = copy_ids(&paths[k]);
                proof {
                    assert(ids_view(p@) == ids_view(paths@[k as int]@));
                    lemma_found_is_shortest(out, ids_view(visited@), lens_of(paths@), parent, cut, k as int, start@, end@);
                }
                return Some(p);
            }
            if visited.len() >= max_depth {
                continue;
            }
            proof {
                cut = k + 1;
            }
            let mut i: usize = 0;
            while i < ne
                invariant
                    ne == self.edges@.len(),
                    out == self.outgoing_edges(),
                    out.len() == ne,
                    i <= ne,
                    k < head <= visited@.len(),
                    visited@.len() == paths@.len(),
                    visited@.len() <= ne + 1,
                    visited@[0]@ == start@,
                    visited@[k as int]@ == current@,
                    ids_view(visited@).no_duplicates(),
                    witness.len() + 1 == visited@.len(),
                    forall|j: int| 0 <= j < witness.len() ==> 0 <= #[trigger] witness[j] < ne && out[witness[j]].1
                        == visited@[j + 1]@,
                    forall|q: int|
                        0 <= q < paths@.len() ==> is_simple_path(out, ids_view(#[trigger] paths@[q]@), start@, visited@[q]@),
                    ids_view(paths@[0]@) == seq![start@],
                    forall|q: int, m: int|
                        0 <= q < paths@.len() && 0 <= m < paths@[q]@.len() ==> ids_view(visited@).contains(
                            #[trigger] paths@[q]@[m]@,
                        ),
                    head == k + 1,
                    full == (ne + 1 < max_depth),
                    forall|j: int| 0 <= j < head ==> #[trigger] visited@[j]@ != end@,
                    full ==> forall|j: int, e: int|
                        #![trigger out[e], visited@[j]]
                        0 <= j < k && 0 <= e < ne && out[e].0 == visited@[j]@ ==> ids_view(visited@).contains(out[e].1),
                    full ==> forall|e: int|
                        0 <= e < i && #[trigger] out[e].0 == current@ ==> ids_view(visited@).contains(out[e].1),
                    cut == k + 1,
                    forall|a: int, b: int| 0 <= a <= b < paths@.len() ==> #[trigger] paths@[a]@.len() <= #[trigger] paths@[b]@.len(),
                    forall|j: int| 0 <= j < paths@.len() ==> #[trigger] paths@[j]@.len() <= paths@[k as int]@.len() + 1,
                    parent.len() + 1 == visited@.len(),
                    forall|j: int| 0 <= j < parent.len() ==> 0 <= #[trigger] parent[j] < cut && paths@[j + 1]@.len()
                        == paths@[parent[j]]@.len() + 1,
                    forall|j: int, e: int|
                        #![trigger out[e], visited@[j]]
                        0 <= j < k && 0 <= e < ne && out[e].0 == visited@[j]@ ==> reached_within(
                            ids_view(visited@),
                            lens_of(paths@),
                            out[e].1,
                            paths@[j]@.len() as int + 1,
                        ),
                    forall|e: int|
                        0 <= e < i && #[trigger] out[e].0 == current@ ==> reached_within(
                            ids_view(visited@),
                            lens_of(paths@),
                            out[e].1,
                            paths@[k as int]@.len() as int + 1,
                        ),
                    v0.len() <= ne + 1,
                    v0[k as int] == current@,
                    v0.len() < max_depth,
                    bfs_finds(out, v0, k as int, end@, max_depth as int) == bfs_reaches(out, start@, end@, max_depth as int),
                    bfs_expand(out, v0, current@, 0) == bfs_expand(out, ids_view(visited@), current@, i as int),
                decreases ne - i,
            {
                proof {
                    assert(out[i as int] == edge_view(self.edges@[i as int]));
                    lemma_expand_step(out, ids_view(visited@), current@, i as int);
                }
                if str_eq(self.edges[i].from.as_str(), current.as_str()) && !contains_id(
                    &visited,
                    self.edges[i].to.as_str(),
                ) {
                    let ghost vv = ids_view(visited@);
                    let ghost t = self.edges@[i as int].to@;
                    let ghost ls = lens_of(paths@);
                    let ghost paths0 = paths@;
                    let ghost visited0 = visited@;
                    proof {
                        lemma_visited_bounded(witness, i as int, ne as int, vv, out);
                    }
                    let base = copy_ids(&paths[k]);
                    let mut p = base;
                    let ghost pk = ids_view(paths@[k as int]@);
                    p.push(String::from_str(self.edges[i].to.as_str()));
                    visited.push(String::from_str(self.edges[i].to.as_str()));
                    proof {
                        witness = witness.push(i as int);
                        assert(ids_view(visited@) =~= vv.push(t));
                        lemma_push_keeps(vv, t);
                        assert(ids_view(p@) =~= pk.push(t));
                        assert(has_edge(out, pk.last(), t)) by {
                            assert(out[i as int].0 == current@);
                        }
                        assert(!pk.contains(t)) by {
                            if pk.contains(t) {
                                let m = choose|m: int| 0 <= m < pk.len() && pk[m] == t;
                                assert(paths@[k as int]@[m]@ == t);
                                assert(vv.contains(t));
                            }
                        }
                        lemma_extend_path(out, pk, start@, t);
                    }
                    paths.push(p);
                    proof {
                        assert forall|q: int, m: int|
                            0 <= q < paths@.len() && 0 <= m < paths@[q]@.len() implies ids_view(visited@).contains(
                                #[trigger] paths@[q]@[m]@,
                            ) by {
                            if q < paths@.len() - 1 {
                                assert(vv.contains(paths@[q]@[m]@));
                                let w = choose|w: int| 0 <= w < vv.len() && vv[w] == paths@[q]@[m]@;
                                assert(ids_view(visited@)[w] == vv[w]);
                            } else {
                                if m < pk.len() {
                                    assert(paths@[q]@[m]@ == pk[m]);
                                    assert(vv.contains(pk[m]));
                                    let w = choose|w: int| 0 <= w < vv.len() && vv[w] == pk[m];
                                    assert(ids_view(visited@)[w] == vv[w]);
                                } else {
                                    assert(ids_view(visited@)[vv.len() as int] == t);
                                }
                            }
                        }
                        parent = parent.push(k as int);
                        let ls2 = lens_of(paths@);
                        let vv2 = ids_view(visited@);
                        assert(ls2 =~= ls.push(paths@[k as int]@.len() as int + 1));
                        assert forall|x: Seq<char>, b: int| reached_within(vv, ls, x, b) implies #[trigger] reached_within(
                            vv2,
                            ls2,
                            x,
                            b,
                        ) by {
                            let w = choose|w: int| 0 <= w < vv.len() && w < ls.len() && #[trigger] vv[w] == x && ls[w] <= b;
                            assert(vv2[w] == vv[w] && ls2[w] == ls[w]);
                        }
                        assert(reached_within(vv2, ls2, t, paths@[k as int]@.len() as int + 1)) by {
                            assert(vv2[vv.len() as int] == t);
                        }
                        assert forall|j: int| 0 <= j < paths@.len() - 1 implies paths@[j] == paths0[j] by {}
                        assert forall|j: int| 0 <= j < visited@.len() - 1 implies visited@[j] == visited0[j] by {}
                    }
                } else {
                    proof {
                        if out[i as int].0 == current@ {
                            let vv = ids_view(visited@);
                            assert(vv.contains(out[i as int].1));
                            let w = choose|w: int| 0 <= w < vv.len() && vv[w] == out[i as int].1;
                            assert(lens_of(paths@)[w] == paths@[w]@.len());
                        }
                    }
                }
                i = i + 1;
            }
            proof {
                lemma_expand_step(out, ids_view(visited@), current@, i as int);
            }
        }
        proof {
            lemma_finds_step(out, ids_view(visited@), head as int, end@, max_depth as int);
            if full {
                let vv = ids_view(visited@);
                assert forall|j: int, e: int|
                    0 <= j < vv.len() && 0 <= e < out.len() && #[trigger] out[e].0 == #[trigger] vv[j] implies vv.contains(
                    out[e].1,
                ) by {
                    assert(vv[j] == visited@[j]@);
                }
                assert forall|p: Seq<Seq<char>>| !#[trigger] is_simple_path(out, p, start@, end@) by {
                    if is_simple_path(out, p, start@, end@) {
                        assert(vv[0] == start@);
                        lemma_closed_reaches(out, vv, p, (p.len() - 1) as nat);
                        let w = choose|w: int| 0 <= w < vv.len() && vv[w] == p[p.len() - 1];
                        assert(visited@[w]@ == end@);
                    }
                }
            }
        }
        None
    }
}

/// Pushing onto a sequence keeps what it contained and adds the new item.
proof fn lemma_push_keeps(s: Seq<Seq<char>>, t: Seq<char>)
    ensures
        s.push(t).contains(t),
        forall|x: Seq<char>| s.contains(x) ==> #[trigger] s.push(t).contains(x),
{
    assert(s.push(t)[s.len() as int] == t);
    assert forall|x: Seq<char>| s.contains(x) implies #[trigger] s.push(t).contains(x) by {
        let w = choose|w: int| 0 <= w < s.len() && s[w] == x;
        assert(s.push(t)[w] == x);
    }
}

/// When every edge leaving a memory of `vv` reaches a memory of `vv`, a path
/// that starts in `vv` stays in it.
proof fn lemma_closed_reaches(out: Seq<EdgeView>, vv: Seq<Seq<char>>, p: Seq<Seq<char>>, n: nat)
    requires
        p.len() >= 1,
        n < p.len(),
        vv.contains(p[0]),
        forall|i: int| 0 <= i < p.len() - 1 ==> has_edge(out, #[trigger] p[i], p[i + 1]),
        forall|j: int, e: int|
            0 <= j < vv.len() && 0 <= e < out.len() && #[trigger] out[e].0 == #[trigger] vv[j] ==> vv.contains(out[e].1),
    ensures
        vv.contains(p[n as int]),
    decreases n,
{
    if n > 0 {
        lemma_closed_reaches(out, vv, p, (n - 1) as nat);
        let m = n - 1;
        assert(has_edge(out, p[m], p[m + 1]));
        let e = choose|e: int| 0 <= e < out.len() && #[trigger] out[e].0 == p[m] && out[e].1 == p[m + 1];
        let j = choose|j: int| 0 <= j < vv.len() && vv[j] == p[m];
        assert(out[e].0 == vv[j]);
    }
}

impl Default for RelationshipGraph {
    /// An empty graph (same as `new`).
    fn default() -> (r: RelationshipGraph)
        ensures
            r.outgoing_edges().len() == 0,
            r.incoming_edges().len() == 0,
            paired(r.outgoing_edges(), r.incoming_edges()),
    {
        RelationshipGraph::new()
    }
}

/// Appending a new memory reached by an edge from the end of a simple path
/// gives a simple path.
proof fn lemma_extend_path(edges: Seq<EdgeView>, p: Seq<Seq<char>>, start: Seq<char>, t: Seq<char>)
    requires
        is_simple_path(edges, p, start, p.last()),
        has_edge(edges, p.last(), t),
        !p.contains(t),
    ensures
        is_simple_path(edges, p.push(t), start, t),
{
    let q = p.push(t);
    assert forall|i: int| 0 <= i < q.len() - 1 implies has_edge(edges, #[trigger] q[i], q[i + 1]) by {
        if i < p.len() - 1 {
            assert(q[i] == p[i] && q[i + 1] == p[i + 1]);
        } else {
            assert(q[i] == p.last());
        }
    }
    assert forall|a: int, b: int| 0 <= a < q.len() && 0 <= b < q.len() && a != b implies q[a] != q[b] by {
        if a < p.len() && b < p.len() {
        } else if a == p.len() {
            assert(q[b] == p[b]);
        } else {
            assert(q[a] == p[a]);
        }
    }
}

/// While a new memory `t` (the far end of edge `i`) is still unvisited,
/// fewer memories than edges have been reached besides the start.
proof fn lemma_visited_bounded(witness: Seq<int>, i: int, ne: int, vv: Seq<Seq<char>>, out: Seq<EdgeView>)
    requires
        0 <= i < ne,
        out.len() == ne,
        vv.no_duplicates(),
        witness.len() + 1 == vv.len(),
        forall|j: int| 0 <= j < witness.len() ==> 0 <= #[trigger] witness[j] < ne && out[witness[j]].1 == vv[j + 1],
        !vv.contains(out[i].1),
    ensures
        vv.len() <= ne,
{
    let w = witness.push(i);
    assert(w.no_duplicates()) by {
        assert forall|a: int, b: int| 0 <= a < w.len() && 0 <= b < w.len() && a != b implies w[a] != w[b] by {
            if a < witness.len() && b < witness.len() {
                if w[a] == w[b] {
                    assert(vv[a + 1] == vv[b + 1]);
                }
            } else if a == witness.len() {
                assert(vv[b + 1] == out[witness[b]].1);
                if w[a] == w[b] {
                    assert(vv.contains(out[i].1));
                }
            } else {
                assert(vv[a + 1] == out[witness[a]].1);
                if w[a] == w[b] {
                    assert(vv.contains(out[i].1));
                }
            }
        }
    }
    w.unique_seq_to_set();
    lemma_int_range(0, ne);
    assert(w.to_set().subset_of(set_int_range(0, ne)));
    lemma_len_subset(w.to_set(), set_int_range(0, ne));
}

/// A walk from `vv[0]` whose first `n` steps stay among memories whose
/// recorded paths have at most `bound` memories reaches, after `n` steps,
/// a memory recorded with a path of at most `n + 1` memories, when every
/// edge leaving such a memory reaches a memory recorded with a path one
/// longer at most.
proof fn lemma_walk_reached(
    out: Seq<EdgeView>,
    vv: Seq<Seq<char>>,
    ls: Seq<int>,
    q: Seq<Seq<char>>,
    n: nat,
    bound: int,
)
    requires
        vv.len() == ls.len(),
        vv.len() >= 1,
        ls[0] == 1,
        q.len() >= 1,
        q[0] == vv[0],
        n < q.len(),
        n <= bound,
        forall|i: int| 0 <= i < q.len() - 1 ==> has_edge(out, #[trigger] q[i], q[i + 1]),
        forall|j: int, e: int|
            #![trigger out[e], vv[j]]
            0 <= j < vv.len() && ls[j] <= bound && 0 <= e < out.len() && out[e].0 == vv[j] ==> reached_within(
                vv,
                ls,
                out[e].1,
                ls[j] + 1,
            ),
    ensures
        reached_within(vv, ls, q[n as int], n as int + 1),
    decreases n,
{
    if n == 0 {
        assert(vv[0] == q[0]);
    } else {
        let m = (n - 1) as nat;
        lemma_walk_reached(out, vv, ls, q, m, bound);
        let w = choose|w: int| 0 <= w < vv.len() && w < ls.len() && #[trigger] vv[w] == q[m as int] && ls[w] <= m as int + 1;
        assert(has_edge(out, q[m as int], q[m as int + 1]));
        let e = choose|e: int| 0 <= e < out.len() && #[trigger] out[e].0 == q[m as int] && out[e].1 == q[m as int + 1];
        assert(out[e].0 == vv[w]);
        assert(reached_within(vv, ls, out[e].1, ls[w] + 1));
        let w2 = choose|w2: int| 0 <= w2 < vv.len() && w2 < ls.len() && #[trigger] vv[w2] == out[e].1 && ls[w2] <= ls[w] + 1;
        assert(vv[w2] == q[n as int]);
    }
}

/// The path recorded for the memory at index `k` is a shortest one: every
/// walk from the start to it has at least as many memories.
proof fn lemma_found_is_shortest(
    out: Seq<EdgeView>,
    vv: Seq<Seq<char>>,
    ls: Seq<int>,
    parent: Seq<int>,
    cut: int,
    k: int,
    start: Seq<char>,
    end: Seq<char>,
)
    requires
        vv.len() == ls.len(),
        0 <= k < vv.len(),
        vv[0] == start,
        vv[k] == end,
        vv.no_duplicates(),
        ls[0] == 1,
        forall|a: int, b: int| 0 <= a <= b < ls.len() ==> #[trigger] ls[a] <= #[trigger] ls[b],
        parent.len() + 1 == vv.len(),
        forall|j: int| 0 <= j < parent.len() ==> 0 <= #[trigger] parent[j] < cut && ls[j + 1] == ls[parent[j]] + 1,
        forall|j: int, e: int|
            #![trigger out[e], vv[j]]
            0 <= j < cut && 0 <= e < out.len() && out[e].0 == vv[j] ==> reached_within(vv, ls, out[e].1, ls[j] + 1),
    ensures
        forall|q: Seq<Seq<char>>| #[trigger] is_walk(out, q, start, end) ==> q.len() >= ls[k],
{
    assert forall|q: Seq<Seq<char>>| #[trigger] is_walk(out, q, start, end) implies q.len() >= ls[k] by {
        if k > 0 && q.len() < ls[k] {
            let pk = parent[k - 1];
            let bound = ls[pk] - 1;
            assert forall|j: int, e: int|
                #![trigger out[e], vv[j]]
                0 <= j < vv.len() && ls[j] <= bound && 0 <= e < out.len() && out[e].0 == vv[j] implies reached_within(
                    vv,
                    ls,
                    out[e].1,
                    ls[j] + 1,
                ) by {
                if j >= pk {
                    assert(ls[pk] <= ls[j]);
                }
            }
            let n = (q.len() - 1) as nat;
            lemma_walk_reached(out, vv, ls, q, n, bound);
            let w = choose|w: int| 0 <= w < vv.len() && w < ls.len() && #[trigger] vv[w] == q[n as int] && ls[w] <= n as int + 1;
            assert(vv[w] == end);
            assert(w == k);
        }
        if k == 0 {
            assert(q.len() >= 1);
        }
    }
}

/// Whether `id` is among the IDs of `ids`.
fn contains_id(ids: &Vec<String>, id: &str) -> (r: bool)
    ensures
        r == ids_view(ids@).contains(id@),
{
    let n = ids.len();
    let mut i: usize = 0;
    while i < n
        invariant
            n == ids@.len(),
            i <= n,
            forall|j: int| 0 <= j < i ==> ids@[j]@ != id@,
        decreases n - i,
    {
        if str_eq(ids[i].as_str(), id) {
            assert(ids_view(ids@)[i as int] == id@);
            return true;
        }
        i = i + 1;
    }
    proof {
        if ids_view(ids@).contains(id@) {
            let j = choose|j: int| 0 <= j < ids_view(ids@).len() && ids_view(ids@)[j] == id@;
            assert(ids@[j]@ == id@);
        }
    }
    false
}

/// A copy of a list of IDs.
fn copy_ids(ids: &Vec<String>) -> (r: Vec<String>)
    ensures
        ids_view(r@) == ids_view(ids@),
{
    let n = ids.len();
    let mut out: Vec<String> = Vec::new();
    let mut i: usize = 0;
    while i < n
        invariant
            n == ids@.len(),
            i <= n,
            ids_view(out@) == ids_view(ids@.take(i as int)),
        decreases n - i,
    {
        let ghost before = out@;
        out.push(String::from_str(ids[i].as_str()));
        proof {
            assert(ids@.take(i + 1) =~= ids@.take(i as int).push(ids@[i as int]));
            assert(ids_view(ids@.take(i + 1)) =~= ids_view(ids@.take(i as int)).push(ids@[i as int]@));
            assert(ids_view(out@) =~= ids_view(before).push(ids@[i as int]@));
        }
        i = i + 1;
    }
    assert(ids@.take(n as int) =~= ids@);
    out
}

/// The edges of `edges` leaving `id`, as far end, kind and weight.
fn collect_adjacent(edges: &Vec<GraphEdge>, id: &str) -> (r: Vec<(String, RelationshipType, u32)>)
    ensures
        r@.map_values(|x: (String, RelationshipType, u32)| (x.0@, x.1, x.2)) == adjacent(
            edges@.map_values(|e: GraphEdge| edge_view(e)),
            id@,
        ),
{
    let n = edges.len();
    let ghost all = edges@.map_values(|e: GraphEdge| edge_view(e));
    let mut out: Vec<(String, RelationshipType, u32)> = Vec::new();
    let mut i: usize = 0;
    while i < n
        invariant
            n == edges@.len(),
            all == edges@.map_values(|e: GraphEdge| edge_view(e)),
            i <= n,
            out@.map_values(|x: (String, RelationshipType, u32)| (x.0@, x.1, x.2)) == adjacent(
                all.take(i as int),
                id@,
            ),
        decreases n - i,
    {
        let ghost before = out@.map_values(|x: (String, RelationshipType, u32)| (x.0@, x.1, x.2));
        proof {
            assert(all.take(i + 1).drop_last() =~= all.take(i as int));
            assert(all.take(i + 1).last() == edge_view(edges@[i as int]));
        }
        let e = &edges[i];
        if str_eq(e.from.as_str(), id) {
            out.push((String::from_str(e.to.as_str()), e.rel.clone(), e.weight));
            proof {
                assert(out@.map_values(|x: (String, RelationshipType, u32)| (x.0@, x.1, x.2)) =~= before.push(
                    (e.to@, e.rel, e.weight),
                ));
            }
        }
        i = i + 1;
    }
    assert(all.take(n as int) =~= all);
    out
}

} // verus!
