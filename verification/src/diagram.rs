//! The picture of a workspace: one box for each member that can be
//! published, one arrow from each member to each member that depends on
//! it. What is drawn and in which order is decided here; the drawing is
//! left to the caller.

use crate::graph::{place_of, CrateGraph};
use crate::query::names_place;
use crate::ident::PackageId;
use crate::metadata::{never_published, package_of, Package};
use crate::rank::{is_member_key, member_key, rank_keys};
use crate::topo::is_edge;
use crate::version::version_text;
use crate::workspace::{is_member, listed, position};
use vstd::prelude::*;
use vstd::string::StringExecFns;

verus! {

/// One box: the member it stands for and what is written in it.
#[derive(Debug, Clone, PartialEq, Eq)]
pub struct DiagramNode {
    pub id: PackageId,
    pub label: String,
}

/// One arrow between two boxes, given by their places among the boxes,
/// and what is written beside it.
#[derive(Debug, Clone, PartialEq, Eq)]
pub struct DiagramEdge {
    pub from: usize,
    pub to: usize,
    pub label: String,
}

/// The boxes and arrows of a workspace, in the order in which they are
/// drawn.
#[derive(Debug, Clone, PartialEq, Eq)]
pub struct Diagram {
    pub nodes: Vec<DiagramNode>,
    pub edges: Vec<DiagramEdge>,
}

/// A box as plain values: identity and label.
pub type NodeView = (Seq<char>, Seq<char>);

/// An arrow as plain values: from, to, label.
pub type EdgeView = (int, int, Seq<char>);

/// The package on line `t` of the ranked list.
pub open spec fn rank_package(graph: &CrateGraph, t: int) -> Package {
    package_of(graph.meta.packages@, graph.sorted@[t].0@)
}

/// The place among the members of the package on line `t` of the ranked
/// list.
pub open spec fn rank_place(graph: &CrateGraph, t: int) -> int {
    place_of(graph.crates@, graph.sorted@[t].0@)
}

/// The package on line `t` gets a box: it is not barred from publishing.
pub open spec fn shown(graph: &CrateGraph, t: int) -> bool {
    !never_published(rank_package(graph, t))
}

/// The lines from `from` on that get a box, last line first.
pub open spec fn boxes_from(graph: &CrateGraph, from: int) -> Seq<int>
    decreases graph.sorted@.len() - from,
{
    if from < 0 || from >= graph.sorted@.len() {
        Seq::empty()
    } else {
        let rest = boxes_from(graph, from + 1);
        if shown(graph, from) {
            rest.push(from)
        } else {
            rest
        }
    }
}

/// The place among the boxes of the box of line `t`.
pub open spec fn box_index(graph: &CrateGraph, t: int) -> int {
    boxes_from(graph, t + 1).len() as int
}

/// What is written in the box of a package: its name, and below it its
/// version.
pub open spec fn box_label(p: Package) -> Seq<char> {
    p.name@ + "\nv"@ + version_text(p.version@)
}

/// The box of line `t`.
pub open spec fn box_of(graph: &CrateGraph, t: int) -> NodeView {
    (graph.sorted@[t].0@, box_label(rank_package(graph, t)))
}

/// The boxes of the workspace, in the order in which they are drawn.
pub open spec fn boxes(graph: &CrateGraph) -> Seq<NodeView> {
    Seq::new(boxes_from(graph, 0).len(), |k: int| box_of(graph, boxes_from(graph, 0)[k]))
}

/// An arrow goes from the box of line `t` to the box of line `s`: both
/// have a box, and the package of `s` depends on that of `t`.
pub open spec fn linked(graph: &CrateGraph, s: int, t: int) -> bool {
    &&& shown(graph, s)
    &&& shown(graph, t)
    &&& s != t
    &&& is_edge(graph.ws_deps@, rank_place(graph, s), rank_place(graph, t))
}

/// The arrow from the box of line `t` to the box of line `s`, with the
/// version of the package of `t` beside it.
pub open spec fn arrow_of(graph: &CrateGraph, s: int, t: int) -> EdgeView {
    (box_index(graph, t), box_index(graph, s), version_text(rank_package(graph, t).version@))
}

/// The arrows that end at the box of line `s` and start at a line below
/// `bound`, in the order of the ranked list.
pub open spec fn arrows_into(graph: &CrateGraph, s: int, bound: nat) -> Seq<EdgeView>
    decreases bound,
{
    if bound == 0 {
        Seq::empty()
    } else {
        let rest = arrows_into(graph, s, (bound - 1) as nat);
        if linked(graph, s, bound - 1) {
            rest.push(arrow_of(graph, s, bound - 1))
        } else {
            rest
        }
    }
}

/// The arrows that end at a line below `bound`, line by line.
pub open spec fn arrows_upto(graph: &CrateGraph, bound: nat) -> Seq<EdgeView>
    decreases bound,
{
    if bound == 0 {
        Seq::empty()
    } else {
        arrows_upto(graph, (bound - 1) as nat) + arrows_into(
            graph,
            bound - 1,
            graph.sorted@.len(),
        )
    }
}

/// The boxes of a diagram as plain values.
pub open spec fn node_views(nodes: Seq<DiagramNode>) -> Seq<NodeView> {
    Seq::new(nodes.len(), |k: int| (nodes[k].id@, nodes[k].label@))
}

/// The arrows of a diagram as plain values.
pub open spec fn edge_views(edges: Seq<DiagramEdge>) -> Seq<EdgeView> {
    Seq::new(edges.len(), |k: int| (edges[k].from as int, edges[k].to as int, edges[k].label@))
}

/// The boxes from a line on are at most as many as the lines.
pub proof fn lemma_boxes_from(graph: &CrateGraph, from: int)
    requires
        0 <= from <= graph.sorted@.len(),
    ensures
        boxes_from(graph, from).len() <= graph.sorted@.len() - from,
        forall|k: int|
            0 <= k < boxes_from(graph, from).len() ==> from <= #[trigger] boxes_from(graph, from)[k]
                < graph.sorted@.len(),
    decreases graph.sorted@.len() - from,
{
    if from < graph.sorted@.len() {
        lemma_boxes_from(graph, from + 1);
    }
}

fn label_of(p: &Package) -> (label: String)
    ensures
        label@ == box_label(*p),
{
    let mut label = p.name.clone();
    label.append("\nv");
    label.append(p.version.to_text().as_str());
    label
}

impl CrateGraph {
    /// Every line of the ranked list names a member.
    pub proof fn lemma_ranked_are_members(&self, t: int)
        requires
            self.wf(),
            0 <= t < self.sorted@.len(),
        ensures
            self.sorted@.len() == self.crates@.len(),
            listed(self.crates@, self.sorted@[t].0@),
            is_member(&self.meta, self.sorted@[t].0@),
            0 <= rank_place(self, t) < self.crates@.len(),
            self.crates@[rank_place(self, t)]@ == self.sorted@[t].0@,
    {
        let keys = rank_keys(self.sorted@);
        assert(is_member_key(self.crates@, self.ws_deps@, self.crates@.len(), keys[t]));
        let i = choose|i: int|
            0 <= i < self.crates@.len() && keys[t] == #[trigger] member_key(
                self.crates@,
                self.ws_deps@,
                i,
            );
        assert(self.crates@[i]@ == self.sorted@[t].0@);
    }

    fn rank_tables(&self) -> (r: (Vec<usize>, Vec<bool>))
        requires
            self.wf(),
        ensures
            r.0@.len() == self.sorted@.len(),
            r.1@.len() == self.sorted@.len(),
            forall|t: int| 0 <= t < self.sorted@.len() ==> #[trigger] r.0@[t] == rank_place(self, t),
            forall|t: int| 0 <= t < self.sorted@.len() ==> #[trigger] r.1@[t] == shown(self, t),
    {
        let mut places: Vec<usize> = Vec::new();
        let mut flags: Vec<bool> = Vec::new();
        let mut t: usize = 0;
        while t < self.sorted.len()
            invariant
                t <= self.sorted@.len(),
                self.wf(),
                places@.len() == t,
                flags@.len() == t,
                forall|k: int| 0 <= k < t ==> #[trigger] places@[k] == rank_place(self, k),
                forall|k: int| 0 <= k < t ==> #[trigger] flags@[k] == shown(self, k),
            decreases self.sorted.len() - t,
        {
            proof {
                self.lemma_ranked_are_members(t as int);
            }
            let id = &self.sorted[t].0;
            let place: usize = match position(&self.crates, id) {
                Some(i) => i,
                None => vstd::pervasive::unreached(),
            };
            assert(place == rank_place(self, t as int));
            places.push(place);
            flags.push(!self.get_crate(id).is_never_published());
            t += 1;
        }
        (places, flags)
    }

    fn box_places(&self, flags: &Vec<bool>) -> (index: Vec<usize>)
        requires
            self.wf(),
            flags@.len() == self.sorted@.len(),
            forall|t: int| 0 <= t < self.sorted@.len() ==> #[trigger] flags@[t] == shown(self, t),
        ensures
            index@.len() == self.sorted@.len(),
            forall|t: int| 0 <= t < self.sorted@.len() ==> #[trigger] index@[t] == box_index(self, t),
    {
        let n: usize = self.sorted.len();
        let mut index: Vec<usize> = Vec::new();
        let mut k: usize = 0;
        while k < n
            invariant
                k <= n,
                index@.len() == k,
            decreases n - k,
        {
            index.push(0);
            k += 1;
        }
        let mut t: usize = n;
        let mut count: usize = 0;
        while t > 0
            invariant
                t <= n,
                n == self.sorted@.len(),
                index@.len() == n,
                flags@.len() == n,
                forall|k: int| 0 <= k < n ==> #[trigger] flags@[k] == shown(self, k),
                count == boxes_from(self, t as int).len(),
                forall|k: int| t <= k < n ==> #[trigger] index@[k] == box_index(self, k),
            decreases t,
        {
            t -= 1;
            index.set(t, count);
            proof {
                lemma_boxes_from(self, t as int);
            }
            if flags[t] {
                count += 1;
            }
        }
        index
    }

    /// The boxes and arrows of the workspace. The members that can be
    /// published get a box each, the last of the ranked list first. Each
    /// box gets an arrow from the box of every member that its member
    /// depends on; the arrows are listed box by box in rank order, those
    /// into one box in the rank order of where they start.
    pub fn diagram(&self) -> (d: Diagram)
        requires
            self.wf(),
        ensures
            node_views(d.nodes@) == boxes(self),
            edge_views(d.edges@) == arrows_upto(self, self.sorted@.len()),
    {
        let n: usize = self.sorted.len();
        let (places, flags) = self.rank_tables();
        let index = self.box_places(&flags);
        let mut nodes: Vec<DiagramNode> = Vec::new();
        let mut t: usize = n;
        while t > 0
            invariant
                t <= n,
                n == self.sorted@.len(),
                self.wf(),
                flags@.len() == n,
                forall|k: int| 0 <= k < n ==> #[trigger] flags@[k] == shown(self, k),
                nodes@.len() == boxes_from(self, t as int).len(),
                forall|k: int|
                    0 <= k < nodes@.len() ==> #[trigger] node_views(nodes@)[k] == box_of(
                        self,
                        boxes_from(self, t as int)[k],
                    ),
            decreases t,
        {
            t -= 1;
            let ghost before = node_views(nodes@);
            proof {
                self.lemma_ranked_are_members(t as int);
            }
            if flags[t] {
                let id = &self.sorted[t].0;
                nodes.push(DiagramNode { id: id.duplicate(), label: label_of(self.get_crate(id)) });
                proof {
                    let after = node_views(nodes@);
                    assert forall|k: int| 0 <= k < nodes@.len() implies #[trigger] after[k]
                        == box_of(self, boxes_from(self, t as int)[k]) by {
                        if k < before.len() {
                            assert(after[k] == before[k]);
                        }
                    }
                }
            }
        }
        assert(node_views(nodes@) =~= boxes(self));
        let mut edges: Vec<DiagramEdge> = Vec::new();
        let mut s: usize = 0;
        while s < n
            invariant
                s <= n,
                n == self.sorted@.len(),
                self.wf(),
                places@.len() == n,
                flags@.len() == n,
                index@.len() == n,
                forall|k: int| 0 <= k < n ==> #[trigger] places@[k] == rank_place(self, k),
                forall|k: int| 0 <= k < n ==> #[trigger] flags@[k] == shown(self, k),
                forall|k: int| 0 <= k < n ==> #[trigger] index@[k] == box_index(self, k),
                edge_views(edges@) == arrows_upto(self, s as nat),
            decreases n - s,
        {
            let ghost start = edge_views(edges@);
            let mut u: usize = 0;
            proof {
                self.lemma_ranked_are_members(s as int);
            }
            while u < n
                invariant
                    u <= n,
                    s < n,
                    n == self.sorted@.len(),
                    self.wf(),
                    places@.len() == n,
                    flags@.len() == n,
                    index@.len() == n,
                    places@[s as int] < self.crates@.len(),
                    forall|k: int| 0 <= k < n ==> #[trigger] places@[k] == rank_place(self, k),
                    forall|k: int| 0 <= k < n ==> #[trigger] flags@[k] == shown(self, k),
                    forall|k: int| 0 <= k < n ==> #[trigger] index@[k] == box_index(self, k),
                    edge_views(edges@) == start + arrows_into(self, s as int, u as nat),
                decreases n - u,
            {
                let ghost before = edge_views(edges@);
                let ghost row = arrows_into(self, s as int, u as nat);
                proof {
                    self.lemma_ranked_are_members(u as int);
                }
                let depends = names_place(&self.ws_deps[places[s]], places[u]);
                assert(depends == is_edge(
                    self.ws_deps@,
                    rank_place(self, s as int),
                    rank_place(self, u as int),
                ));
                if flags[s] && flags[u] && s != u && depends {
                    let label = self.get_crate(&self.sorted[u].0).version.to_text();
                    edges.push(DiagramEdge { from: index[u], to: index[s], label });
                    proof {
                        assert(linked(self, s as int, u as int));
                        assert(edge_views(edges@) =~= before.push(
                            arrow_of(self, s as int, u as int),
                        ));
                        assert(start + row.push(arrow_of(self, s as int, u as int)) =~= (start
                            + row).push(arrow_of(self, s as int, u as int)));
                    }
                }
                u += 1;
            }
            s += 1;
        }
        Diagram { nodes, edges }
    }
}

} // verus!
