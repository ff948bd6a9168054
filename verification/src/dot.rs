//! A picture of the graph: the nodes that are shown, each with its label,
//! and the edges between them. A hidden node is drawn as what stands for it.

use crate::context::ExecutionContext;
use crate::function::Function;
use crate::graph::{Graph, GraphView};
use vstd::prelude::*;

verus! {

/// A node of the picture: the number it is shown under, its name if it has
/// one, the name of its operator, and the records it has sent.
#[derive(Debug)]
pub struct DotNode {
    pub id: usize,
    pub name: Option<String>,
    pub operator_name: String,
    pub message_count: usize,
}

pub struct DotNodeView {
    pub id: usize,
    pub name: Option<Seq<char>>,
    pub operator_name: Seq<char>,
    pub message_count: usize,
}

impl View for DotNode {
    type V = DotNodeView;

    open spec fn view(&self) -> DotNodeView {
        DotNodeView {
            id: self.id,
            name: match self.name {
                Some(n) => Some(n@),
                None => None,
            },
            operator_name: self.operator_name@,
            message_count: self.message_count,
        }
    }
}

/// The picture of a graph: its nodes, and its edges from the number of a
/// dependency to the number of what depends on it.
#[derive(Debug)]
pub struct DotGraph {
    pub nodes: Vec<DotNode>,
    pub edges: Vec<(usize, usize)>,
}

/// The nodes of the picture among the first so many nodes of the graph.
pub open spec fn dot_nodes<F>(g: GraphView<F>, n: nat) -> Seq<DotNodeView>
    decreases n,
{
    if n == 0 || n > g.nodes.len() {
        Seq::empty()
    } else {
        let rest = dot_nodes(g, (n - 1) as nat);
        let info = g.nodes[n - 1].info;
        if info.shown {
            rest.push(
                DotNodeView {
                    id: info.relation_id,
                    name: info.name,
                    operator_name: info.operator_name,
                    message_count: info.message_count,
                },
            )
        } else {
            rest
        }
    }
}

/// The edges into a node from the first so many of its dependencies.
pub open spec fn dot_edges_of<F>(g: GraphView<F>, i: int, m: nat) -> Seq<(usize, usize)>
    decreases m,
{
    if m == 0 || !(0 <= i < g.nodes.len()) || m > g.nodes[i].info.deps.len() {
        Seq::empty()
    } else {
        dot_edges_of(g, i, (m - 1) as nat).push(
            (g.shown_relation_id(g.nodes[i].info.deps[m - 1]), g.nodes[i].info.relation_id),
        )
    }
}

/// The edges of the picture into the first so many nodes of the graph.
pub open spec fn dot_edges<F>(g: GraphView<F>, n: nat) -> Seq<(usize, usize)>
    decreases n,
{
    if n == 0 || n > g.nodes.len() {
        Seq::empty()
    } else {
        let rest = dot_edges(g, (n - 1) as nat);
        if g.nodes[n - 1].info.shown {
            rest + dot_edges_of(g, n - 1, g.nodes[n - 1].info.deps.len())
        } else {
            rest
        }
    }
}

/// The views of the nodes of a picture.
pub open spec fn node_views(nodes: Seq<DotNode>) -> Seq<DotNodeView> {
    Seq::new(nodes.len(), |j: int| nodes[j]@)
}

impl<F: Function> Graph<F> {
    /// The picture of the graph.
    pub fn dump_dot(&self) -> (d: DotGraph)
        ensures
            node_views(d.nodes@) == dot_nodes(self@, self@.nodes.len()),
            d.edges@ == dot_edges(self@, self@.nodes.len()),
    {
        let mut nodes: Vec<DotNode> = Vec::new();
        let mut edges: Vec<(usize, usize)> = Vec::new();
        let mut i: usize = 0;
        proof {
            assert(node_views(nodes@) =~= dot_nodes(self@, 0));
        }
        while i < self.nodes.len()
            invariant
                0 <= i <= self.nodes.len(),
                node_views(nodes@) == dot_nodes(self@, i as nat),
                edges@ == dot_edges(self@, i as nat),
            decreases self.nodes.len() - i,
        {
            let info = &self.nodes[i].info;
            if info.shown {
                let name = match &info.name {
                    Some(n) => Some(n.clone()),
                    None => None,
                };
                let ghost before = node_views(nodes@);
                let node = DotNode {
                    id: info.relation_id,
                    name,
                    operator_name: info.operator_name.clone(),
                    message_count: info.message_count,
                };
                nodes.push(node);
                proof {
                    assert(node_views(nodes@) =~= before.push(node@));
                }
                let ghost first = edges@;
                let mut j: usize = 0;
                while j < info.deps.len()
                    invariant
                        0 <= j <= info.deps.len(),
                        i < self.nodes.len(),
                        *info == self.nodes@[i as int].info,
                        edges@ == first + dot_edges_of(self@, i as int, j as nat),
                    decreases info.deps.len() - j,
                {
                    let from = self.shown_relation_id(info.deps[j]);
                    edges.push((from, info.relation_id));
                    proof {
                        let e = (from, info.relation_id);
                        assert(first + dot_edges_of(self@, i as int, j as nat).push(e) =~= (first
                            + dot_edges_of(self@, i as int, j as nat)).push(e));
                    }
                    j += 1;
                }
            }
            i += 1;
        }
        DotGraph { nodes, edges }
    }
}

impl<F: Function> ExecutionContext<F> {
    /// The picture of the graph: the nodes that are shown, each with the
    /// number of records it has sent since the graph was made, and the edges
    /// between them.
    pub fn dump_dot(&self) -> (d: DotGraph)
        ensures
            node_views(d.nodes@) == dot_nodes(self@.graph, self@.graph.nodes.len()),
            d.edges@ == dot_edges(self@.graph, self@.graph.nodes.len()),
    {
        self.graph.dump_dot()
    }
}

} // verus!
