use std::rc::Rc;
use vstd::prelude::*;

use crate::base_type::NamedBlock;

verus! {

/// An edge declaration whose endpoint types are resolved to node declarations.
pub struct SemanticEdge {
    pub from: Rc<NamedBlock>,
    pub to: Rc<NamedBlock>,
    pub named_block: NamedBlock,
}

/// A walker declaration whose node type is resolved.
pub struct SemanticWalker {
    pub name: String,
    pub node_type: Rc<NamedBlock>,
}

/// A node instance bound to its declaration.
pub struct SemanticNodeInst {
    pub varname: String,
    pub node_type: Rc<NamedBlock>,
}

/// An edge instance bound to its declaration and to the node instances it joins.
pub struct SemanticEdgeInst {
    pub edge_type: Rc<SemanticEdge>,
    pub from_var: Rc<SemanticNodeInst>,
    pub to_var: Rc<SemanticNodeInst>,
    pub weight: i64,
}

/// A walker instance bound to its declaration and to its start node instance.
pub struct SemanticWalkerInst {
    pub walker_type: Rc<SemanticWalker>,
    pub start_node: Rc<SemanticNodeInst>,
}

/// The resolved instances of one graph, in source order.
pub struct SemanticGraph {
    pub node_insts: Vec<Rc<SemanticNodeInst>>,
    pub edge_insts: Vec<Rc<SemanticEdgeInst>>,
    pub walker_insts: Vec<Rc<SemanticWalkerInst>>,
}

/// The resolved program: declarations of each kind in source order, and the graphs.
pub struct SemanticGlobal {
    pub nodes: Vec<Rc<NamedBlock>>,
    pub edges: Vec<Rc<SemanticEdge>>,
    pub walkers: Vec<Rc<SemanticWalker>>,
    pub graphs: Vec<SemanticGraph>,
}

/// The blocks behind a sequence of shared references.
pub open spec fn rc_blocks(v: Seq<Rc<NamedBlock>>) -> Seq<NamedBlock> {
    v.map_values(|r: Rc<NamedBlock>| *r)
}

/// `b` is one of the blocks of `bs`.
pub open spec fn block_in(bs: Seq<Rc<NamedBlock>>, b: NamedBlock) -> bool {
    exists|k: int| 0 <= k < bs.len() && *bs[k] == b
}

/// `n` is one of the node instances of `ns`.
pub open spec fn node_inst_in(ns: Seq<Rc<SemanticNodeInst>>, n: SemanticNodeInst) -> bool {
    exists|k: int| 0 <= k < ns.len() && *ns[k] == n
}

impl SemanticGraph {
    /// Every instance refers to the given declarations, and to node instances of this graph;
    /// every walker starts on a node of the type it walks.
    pub open spec fn wf_in(
        &self,
        nodes: Seq<Rc<NamedBlock>>,
        edges: Seq<Rc<SemanticEdge>>,
        walkers: Seq<Rc<SemanticWalker>>,
    ) -> bool {
        &&& forall|k: int|
            0 <= k < self.node_insts@.len() ==> block_in(
                nodes,
                *(#[trigger] self.node_insts@[k]).node_type,
            )
        &&& forall|k: int|
            0 <= k < self.edge_insts@.len() ==> {
                let e = #[trigger] self.edge_insts@[k];
                &&& exists|a: int| 0 <= a < edges.len() && *edges[a] == *e.edge_type
                &&& node_inst_in(self.node_insts@, *e.from_var)
                &&& node_inst_in(self.node_insts@, *e.to_var)
            }
        &&& forall|k: int|
            0 <= k < self.walker_insts@.len() ==> {
                let w = #[trigger] self.walker_insts@[k];
                &&& exists|a: int|
                    0 <= a < walkers.len() && *walkers[a] == *w.walker_type
                &&& node_inst_in(self.node_insts@, *w.start_node)
                &&& *w.start_node.node_type == *w.walker_type.node_type
            }
    }
}

impl SemanticGlobal {
    /// Names are unique within each kind of declaration, and every reference of the
    /// program lands on an entry of the program.
    pub open spec fn wf(&self) -> bool {
        &&& forall|i: int, j: int|
            0 <= i < j < self.nodes@.len() ==> (#[trigger] self.nodes@[i]).name@
                != (#[trigger] self.nodes@[j]).name@
        &&& forall|i: int, j: int|
            0 <= i < j < self.edges@.len() ==> (#[trigger] self.edges@[i]).named_block.name@
                != (#[trigger] self.edges@[j]).named_block.name@
        &&& forall|i: int, j: int|
            0 <= i < j < self.walkers@.len() ==> (#[trigger] self.walkers@[i]).name@
                != (#[trigger] self.walkers@[j]).name@
        &&& forall|i: int|
            0 <= i < self.edges@.len() ==> block_in(self.nodes@, *(#[trigger] self.edges@[i]).from)
                && block_in(self.nodes@, *self.edges@[i].to)
        &&& forall|i: int|
            0 <= i < self.walkers@.len() ==> block_in(
                self.nodes@,
                *(#[trigger] self.walkers@[i]).node_type,
            )
        &&& forall|g: int| 0 <= g < self.graphs@.len() ==> (#[trigger] self.graphs@[g]).wf_in(
                self.nodes@,
                self.edges@,
                self.walkers@,
            )
    }
}

} // verus!
