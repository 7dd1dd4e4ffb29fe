use std::rc::Rc;
use vstd::prelude::*;

use crate::base_type::{Edge, GeneralBlock, Graph, NamedBlock, NodeInst, Walker, WalkerInst, EdgeInst};
use crate::sem_type::{
    rc_blocks, SemanticEdge, SemanticEdgeInst, SemanticGlobal, SemanticGraph, SemanticNodeInst,
    SemanticWalker, SemanticWalkerInst,
};

verus! {

/// The category of a declaration.
#[derive(Debug, Clone, Copy, PartialEq, Eq, Structural)]
pub enum DeclKind {
    Node,
    Edge,
    Walker,
}

/// Why a program was rejected by the resolver.
#[derive(Debug, Clone)]
pub enum SemanticsError {
    /// Two declarations of one kind share a name.
    DuplicateDeclaration(DeclKind, String),
    /// Two node instances of the graph with this index share a variable name.
    DuplicateVariable(usize, String),
    /// A name that no declaration or variable carries.
    UndefinedReference(String),
    /// Start variable, the walker's node type, and the variable's node type.
    WalkerTypeMismatch(String, String, String),
}

// ---------------------------------------------------------------------------
// Names
// ---------------------------------------------------------------------------

/// The contents of a sequence of strings.
pub open spec fn views(v: Seq<String>) -> Seq<Seq<char>> {
    v.map_values(|s: String| s@)
}

/// No name occurs twice.
pub open spec fn distinct(s: Seq<Seq<char>>) -> bool {
    forall|i: int, j: int| 0 <= i < s.len() && 0 <= j < s.len() && i != j ==> s[i] != s[j]
}

/// The name `n` occurs at two positions.
pub open spec fn has_dup(s: Seq<Seq<char>>, n: Seq<char>) -> bool {
    exists|i: int, j: int| 0 <= i < s.len() && 0 <= j < s.len() && i != j && s[i] == n && s[j] == n
}

pub open spec fn block_names(bs: Seq<NamedBlock>) -> Seq<Seq<char>> {
    bs.map_values(|b: NamedBlock| b.name@)
}

pub open spec fn edge_names(es: Seq<Edge>) -> Seq<Seq<char>> {
    es.map_values(|e: Edge| e.named_block.name@)
}

pub open spec fn walker_names(ws: Seq<Walker>) -> Seq<Seq<char>> {
    ws.map_values(|w: Walker| w.name@)
}

/// The node-type name of each walker declaration.
pub open spec fn walker_types(ws: Seq<Walker>) -> Seq<Seq<char>> {
    ws.map_values(|w: Walker| w.node_type@)
}

pub open spec fn var_names(ns: Seq<NodeInst>) -> Seq<Seq<char>> {
    ns.map_values(|n: NodeInst| n.varname@)
}

pub open spec fn sem_edge_names(es: Seq<Rc<SemanticEdge>>) -> Seq<Seq<char>> {
    es.map_values(|e: Rc<SemanticEdge>| e.named_block.name@)
}

pub open spec fn sem_walker_names(ws: Seq<Rc<SemanticWalker>>) -> Seq<Seq<char>> {
    ws.map_values(|w: Rc<SemanticWalker>| w.name@)
}

/// The name of the node type of each resolved walker.
pub open spec fn sem_walker_types(ws: Seq<Rc<SemanticWalker>>) -> Seq<Seq<char>> {
    ws.map_values(|w: Rc<SemanticWalker>| w.node_type.name@)
}

// ---------------------------------------------------------------------------
// The blocks of a program, by kind, in source order
// ---------------------------------------------------------------------------

pub open spec fn node_decls(bs: Seq<GeneralBlock>) -> Seq<NamedBlock>
    decreases bs.len(),
{
    if bs.len() == 0 {
        Seq::empty()
    } else {
        let rest = node_decls(bs.drop_last());
        match bs.last() {
            GeneralBlock::NodeBlock(n) => rest.push(n.0),
            _ => rest,
        }
    }
}

pub open spec fn edge_decls(bs: Seq<GeneralBlock>) -> Seq<Edge>
    decreases bs.len(),
{
    if bs.len() == 0 {
        Seq::empty()
    } else {
        let rest = edge_decls(bs.drop_last());
        match bs.last() {
            GeneralBlock::EdgeBlock(e) => rest.push(e),
            _ => rest,
        }
    }
}

pub open spec fn walker_decls(bs: Seq<GeneralBlock>) -> Seq<Walker>
    decreases bs.len(),
{
    if bs.len() == 0 {
        Seq::empty()
    } else {
        let rest = walker_decls(bs.drop_last());
        match bs.last() {
            GeneralBlock::WalkerBlock(w) => rest.push(w),
            _ => rest,
        }
    }
}

pub open spec fn graph_decls(bs: Seq<GeneralBlock>) -> Seq<Graph>
    decreases bs.len(),
{
    if bs.len() == 0 {
        Seq::empty()
    } else {
        let rest = graph_decls(bs.drop_last());
        match bs.last() {
            GeneralBlock::GraphBlock(g) => rest.push(g),
            _ => rest,
        }
    }
}

// ---------------------------------------------------------------------------
// Acceptance and errors
// ---------------------------------------------------------------------------

pub open spec fn edge_inst_ok(en: Seq<Seq<char>>, vn: Seq<Seq<char>>, e: EdgeInst) -> bool {
    &&& en.contains(e.edge_type@)
    &&& vn.contains(e.from_varname@)
    &&& vn.contains(e.to_varname@)
}

/// The walker type and start variable resolve, and the variable has the walker's node type.
pub open spec fn walker_inst_ok(
    wn: Seq<Seq<char>>,
    wt: Seq<Seq<char>>,
    ns: Seq<NodeInst>,
    w: WalkerInst,
) -> bool {
    &&& wn.contains(w.walker_type@)
    &&& var_names(ns).contains(w.start_node@)
    &&& forall|a: int, b: int|
        0 <= a < wn.len() && 0 <= b < ns.len() && #[trigger] wn[a] == w.walker_type@
            && (#[trigger] ns[b]).varname@ == w.start_node@ ==> ns[b].node_type@ == wt[a]
}

/// A graph is accepted against the names of the node, edge and walker declarations
/// (`nn`, `en`, `wn`) and the node type of each walker (`wt`).
pub open spec fn graph_ok(
    nn: Seq<Seq<char>>,
    en: Seq<Seq<char>>,
    wn: Seq<Seq<char>>,
    wt: Seq<Seq<char>>,
    g: Graph,
) -> bool {
    let vn = var_names(g.node_insts@);
    &&& distinct(vn)
    &&& forall|k: int|
        0 <= k < g.node_insts@.len() ==> nn.contains((#[trigger] g.node_insts@[k]).node_type@)
    &&& forall|k: int| 0 <= k < g.edge_insts@.len() ==> edge_inst_ok(en, vn, #[trigger] g.edge_insts@[k])
    &&& forall|k: int|
        0 <= k < g.walker_insts@.len() ==> walker_inst_ok(wn, wt, g.node_insts@, #[trigger] g.walker_insts@[k])
}

/// The name `n` is referenced in the graph and resolves to nothing.
pub open spec fn graph_unresolved(
    nn: Seq<Seq<char>>,
    en: Seq<Seq<char>>,
    wn: Seq<Seq<char>>,
    g: Graph,
    n: Seq<char>,
) -> bool {
    let vn = var_names(g.node_insts@);
    ||| (exists|k: int|
        0 <= k < g.node_insts@.len() && (#[trigger] g.node_insts@[k]).node_type@ == n
            && !nn.contains(n))
    ||| (exists|k: int|
        0 <= k < g.edge_insts@.len() && ({
            let e = #[trigger] g.edge_insts@[k];
            ||| e.edge_type@ == n && !en.contains(n)
            ||| (e.from_varname@ == n || e.to_varname@ == n) && !vn.contains(n)
        }))
    ||| (exists|k: int|
        0 <= k < g.walker_insts@.len() && ({
            let w = #[trigger] g.walker_insts@[k];
            ||| w.walker_type@ == n && !wn.contains(n)
            ||| w.start_node@ == n && !vn.contains(n)
        }))
}

/// `e` describes a defect of the graph with index `gi`.
pub open spec fn graph_error(
    nn: Seq<Seq<char>>,
    en: Seq<Seq<char>>,
    wn: Seq<Seq<char>>,
    wt: Seq<Seq<char>>,
    g: Graph,
    gi: int,
    e: SemanticsError,
) -> bool {
    match e {
        SemanticsError::UndefinedReference(n) => graph_unresolved(nn, en, wn, g, n@),
        SemanticsError::DuplicateVariable(i, n) => i == gi && has_dup(var_names(g.node_insts@), n@),
        SemanticsError::WalkerTypeMismatch(v, x, y) => exists|k: int, a: int, b: int|
            0 <= k < g.walker_insts@.len() && 0 <= a < wn.len() && 0 <= b < g.node_insts@.len()
                && (#[trigger] g.walker_insts@[k]).walker_type@ == #[trigger] wn[a]
                && g.walker_insts@[k].start_node@ == v@ && (#[trigger] g.node_insts@[b]).varname@
                == v@ && wt[a] == x@ && g.node_insts@[b].node_type@ == y@ && x@ != y@,
        _ => false,
    }
}

/// A program is accepted: names are unique per kind and every reference resolves.
pub open spec fn program_ok(bs: Seq<GeneralBlock>) -> bool {
    let nn = block_names(node_decls(bs));
    let ed = edge_decls(bs);
    let wd = walker_decls(bs);
    let gs = graph_decls(bs);
    &&& distinct(nn)
    &&& distinct(edge_names(ed))
    &&& distinct(walker_names(wd))
    &&& forall|i: int|
        0 <= i < ed.len() ==> nn.contains((#[trigger] ed[i]).from@) && nn.contains(ed[i].to@)
    &&& forall|i: int| 0 <= i < wd.len() ==> nn.contains((#[trigger] wd[i]).node_type@)
    &&& forall|gi: int|
        0 <= gi < gs.len() ==> graph_ok(
            nn,
            edge_names(ed),
            walker_names(wd),
            walker_types(wd),
            #[trigger] gs[gi],
        )
}

/// `e` describes a defect of the program.
pub open spec fn program_error(bs: Seq<GeneralBlock>, e: SemanticsError) -> bool {
    let nn = block_names(node_decls(bs));
    let ed = edge_decls(bs);
    let wd = walker_decls(bs);
    let gs = graph_decls(bs);
    let in_graph = exists|gi: int|
        0 <= gi < gs.len() && graph_error(
            nn,
            edge_names(ed),
            walker_names(wd),
            walker_types(wd),
            #[trigger] gs[gi],
            gi,
            e,
        );
    match e {
        SemanticsError::DuplicateDeclaration(k, n) => match k {
            DeclKind::Node => has_dup(nn, n@),
            DeclKind::Edge => has_dup(edge_names(ed), n@),
            DeclKind::Walker => has_dup(walker_names(wd), n@),
        },
        SemanticsError::UndefinedReference(n) => {
            ||| (exists|i: int|
                0 <= i < ed.len() && ((#[trigger] ed[i]).from@ == n@ || ed[i].to@ == n@)
                    && !nn.contains(n@))
            ||| (exists|i: int|
                0 <= i < wd.len() && (#[trigger] wd[i]).node_type@ == n@ && !nn.contains(n@))
            ||| in_graph
        },
        _ => in_graph,
    }
}

// ---------------------------------------------------------------------------
// The error reported first
// ---------------------------------------------------------------------------

/// An error of the resolver, as plain values.
pub enum ErrV {
    Dup(DeclKind, Seq<char>),
    DupVar(int, Seq<char>),
    Undef(Seq<char>),
    Mismatch(Seq<char>, Seq<char>, Seq<char>),
}

pub open spec fn err_v(e: SemanticsError) -> ErrV {
    match e {
        SemanticsError::DuplicateDeclaration(k, n) => ErrV::Dup(k, n@),
        SemanticsError::DuplicateVariable(i, n) => ErrV::DupVar(i as int, n@),
        SemanticsError::UndefinedReference(n) => ErrV::Undef(n@),
        SemanticsError::WalkerTypeMismatch(v, x, y) => ErrV::Mismatch(v@, x@, y@),
    }
}

/// The first name of `s`, from position `i` on, that also occurs before it.
pub open spec fn first_dup(s: Seq<Seq<char>>, i: int) -> Option<Seq<char>>
    decreases s.len() - i,
{
    if i < 0 || i >= s.len() {
        None
    } else if s.take(i).contains(s[i]) {
        Some(s[i])
    } else {
        first_dup(s, i + 1)
    }
}

/// The first position of `x` in `s` from position `i` on, or -1.
pub open spec fn index_from(s: Seq<Seq<char>>, x: Seq<char>, i: int) -> int
    decreases s.len() - i,
{
    if i < 0 || i >= s.len() {
        -1
    } else if s[i] == x {
        i
    } else {
        index_from(s, x, i + 1)
    }
}

/// The first unresolved endpoint type of the edge declarations from position `i` on
/// (source type before target type).
pub open spec fn first_edge_decl_err(nn: Seq<Seq<char>>, ed: Seq<Edge>, i: int) -> Option<ErrV>
    decreases ed.len() - i,
{
    if i < 0 || i >= ed.len() {
        None
    } else if !nn.contains(ed[i].from@) {
        Some(ErrV::Undef(ed[i].from@))
    } else if !nn.contains(ed[i].to@) {
        Some(ErrV::Undef(ed[i].to@))
    } else {
        first_edge_decl_err(nn, ed, i + 1)
    }
}

/// The first unresolved node type of the walker declarations from position `i` on.
pub open spec fn first_walker_decl_err(nn: Seq<Seq<char>>, wd: Seq<Walker>, i: int) -> Option<ErrV>
    decreases wd.len() - i,
{
    if i < 0 || i >= wd.len() {
        None
    } else if !nn.contains(wd[i].node_type@) {
        Some(ErrV::Undef(wd[i].node_type@))
    } else {
        first_walker_decl_err(nn, wd, i + 1)
    }
}

/// Node instance statements in order: the type is resolved, then the variable is bound.
pub open spec fn first_node_inst_err(nn: Seq<Seq<char>>, ns: Seq<NodeInst>, gi: int, i: int) -> Option<
    ErrV,
>
    decreases ns.len() - i,
{
    if i < 0 || i >= ns.len() {
        None
    } else if !nn.contains(ns[i].node_type@) {
        Some(ErrV::Undef(ns[i].node_type@))
    } else if var_names(ns).take(i).contains(ns[i].varname@) {
        Some(ErrV::DupVar(gi, ns[i].varname@))
    } else {
        first_node_inst_err(nn, ns, gi, i + 1)
    }
}

/// Edge instances in order: edge type, source variable, target variable.
pub open spec fn first_edge_inst_err(
    en: Seq<Seq<char>>,
    vn: Seq<Seq<char>>,
    es: Seq<EdgeInst>,
    i: int,
) -> Option<ErrV>
    decreases es.len() - i,
{
    if i < 0 || i >= es.len() {
        None
    } else if !en.contains(es[i].edge_type@) {
        Some(ErrV::Undef(es[i].edge_type@))
    } else if !vn.contains(es[i].from_varname@) {
        Some(ErrV::Undef(es[i].from_varname@))
    } else if !vn.contains(es[i].to_varname@) {
        Some(ErrV::Undef(es[i].to_varname@))
    } else {
        first_edge_inst_err(en, vn, es, i + 1)
    }
}

/// Walker instances in order: walker type, start variable, then the type match.
pub open spec fn first_walker_inst_err(
    wn: Seq<Seq<char>>,
    wt: Seq<Seq<char>>,
    ns: Seq<NodeInst>,
    ws: Seq<WalkerInst>,
    i: int,
) -> Option<ErrV>
    decreases ws.len() - i,
{
    let vn = var_names(ns);
    if i < 0 || i >= ws.len() {
        None
    } else if !wn.contains(ws[i].walker_type@) {
        Some(ErrV::Undef(ws[i].walker_type@))
    } else if !vn.contains(ws[i].start_node@) {
        Some(ErrV::Undef(ws[i].start_node@))
    } else {
        let expected = wt[index_from(wn, ws[i].walker_type@, 0)];
        let actual = ns[index_from(vn, ws[i].start_node@, 0)].node_type@;
        if expected != actual {
            Some(ErrV::Mismatch(ws[i].start_node@, expected, actual))
        } else {
            first_walker_inst_err(wn, wt, ns, ws, i + 1)
        }
    }
}

/// The first defect of the graph with index `gi`: node instances, then edge instances,
/// then walker instances.
pub open spec fn graph_first_err(
    nn: Seq<Seq<char>>,
    en: Seq<Seq<char>>,
    wn: Seq<Seq<char>>,
    wt: Seq<Seq<char>>,
    g: Graph,
    gi: int,
) -> Option<ErrV> {
    let ns = g.node_insts@;
    if first_node_inst_err(nn, ns, gi, 0) is Some {
        first_node_inst_err(nn, ns, gi, 0)
    } else if first_edge_inst_err(en, var_names(ns), g.edge_insts@, 0) is Some {
        first_edge_inst_err(en, var_names(ns), g.edge_insts@, 0)
    } else {
        first_walker_inst_err(wn, wt, ns, g.walker_insts@, 0)
    }
}

/// The first defect among the graphs from position `i` on.
pub open spec fn graphs_first_err(
    nn: Seq<Seq<char>>,
    en: Seq<Seq<char>>,
    wn: Seq<Seq<char>>,
    wt: Seq<Seq<char>>,
    gs: Seq<Graph>,
    i: int,
) -> Option<ErrV>
    decreases gs.len() - i,
{
    if i < 0 || i >= gs.len() {
        None
    } else if graph_first_err(nn, en, wn, wt, gs[i], i) is Some {
        graph_first_err(nn, en, wn, wt, gs[i], i)
    } else {
        graphs_first_err(nn, en, wn, wt, gs, i + 1)
    }
}

/// The defect that the resolver reports: duplicate declarations (nodes, edges, walkers),
/// then edge declarations, walker declarations, and the graphs in source order.
pub open spec fn program_first_err(bs: Seq<GeneralBlock>) -> Option<ErrV> {
    let nn = block_names(node_decls(bs));
    let ed = edge_decls(bs);
    let wd = walker_decls(bs);
    if first_dup(nn, 0) is Some {
        Some(ErrV::Dup(DeclKind::Node, first_dup(nn, 0)->Some_0))
    } else if first_dup(edge_names(ed), 0) is Some {
        Some(ErrV::Dup(DeclKind::Edge, first_dup(edge_names(ed), 0)->Some_0))
    } else if first_dup(walker_names(wd), 0) is Some {
        Some(ErrV::Dup(DeclKind::Walker, first_dup(walker_names(wd), 0)->Some_0))
    } else if first_edge_decl_err(nn, ed, 0) is Some {
        first_edge_decl_err(nn, ed, 0)
    } else if first_walker_decl_err(nn, wd, 0) is Some {
        first_walker_decl_err(nn, wd, 0)
    } else {
        graphs_first_err(
            nn,
            edge_names(ed),
            walker_names(wd),
            walker_types(wd),
            graph_decls(bs),
            0,
        )
    }
}

/// Where `x` occurs in `s` from position `i` on, `index_from` finds a position holding it.
pub proof fn lemma_index_from(s: Seq<Seq<char>>, x: Seq<char>, i: int, k: int)
    requires
        0 <= i <= k < s.len(),
        s[k] == x,
    ensures
        i <= index_from(s, x, i) <= k,
        s[index_from(s, x, i)] == x,
    decreases k - i,
{
    if s[i] != x {
        lemma_index_from(s, x, i + 1, k);
    }
}

/// With distinct names, the position of a name is the one that `index_from` finds.
pub proof fn lemma_index_unique(s: Seq<Seq<char>>, x: Seq<char>, k: int)
    requires
        distinct(s),
        0 <= k < s.len(),
        s[k] == x,
    ensures
        index_from(s, x, 0) == k,
{
    lemma_index_from(s, x, 0, k);
}

// ---------------------------------------------------------------------------
// How the resolved program relates to its source
// ---------------------------------------------------------------------------

/// `b` is the declaration of `nd` named `name`.
pub open spec fn resolves(nd: Seq<NamedBlock>, name: Seq<char>, b: NamedBlock) -> bool {
    exists|k: int| 0 <= k < nd.len() && (#[trigger] nd[k]).name@ == name && nd[k] == b
}

pub open spec fn sem_edge_of(nd: Seq<NamedBlock>, e: Edge, s: SemanticEdge) -> bool {
    &&& s.named_block == e.named_block
    &&& resolves(nd, e.from@, *s.from)
    &&& resolves(nd, e.to@, *s.to)
}

pub open spec fn sem_walker_of(nd: Seq<NamedBlock>, w: Walker, s: SemanticWalker) -> bool {
    &&& s.name@ == w.name@
    &&& resolves(nd, w.node_type@, *s.node_type)
}

/// `x` is the node instance of `sn` whose source in `gn` is named `name`.
pub open spec fn resolves_var(
    gn: Seq<NodeInst>,
    sn: Seq<Rc<SemanticNodeInst>>,
    name: Seq<char>,
    x: SemanticNodeInst,
) -> bool {
    exists|b: int| 0 <= b < gn.len() && b < sn.len() && (#[trigger] gn[b]).varname@ == name && *sn[b] == x
}

pub open spec fn sem_edge_inst_of(
    es: Seq<Rc<SemanticEdge>>,
    gn: Seq<NodeInst>,
    sn: Seq<Rc<SemanticNodeInst>>,
    e: EdgeInst,
    x: SemanticEdgeInst,
) -> bool {
    &&& exists|a: int|
        0 <= a < es.len() && (#[trigger] es[a]).named_block.name@ == e.edge_type@ && *es[a]
            == *x.edge_type
    &&& resolves_var(gn, sn, e.from_varname@, *x.from_var)
    &&& resolves_var(gn, sn, e.to_varname@, *x.to_var)
    &&& x.weight == e.weight
}

pub open spec fn sem_walker_inst_of(
    ws: Seq<Rc<SemanticWalker>>,
    gn: Seq<NodeInst>,
    sn: Seq<Rc<SemanticNodeInst>>,
    w: WalkerInst,
    x: SemanticWalkerInst,
) -> bool {
    &&& exists|a: int|
        0 <= a < ws.len() && (#[trigger] ws[a]).name@ == w.walker_type@ && *ws[a] == *x.walker_type
    &&& resolves_var(gn, sn, w.start_node@, *x.start_node)
}

/// `s` is `g` with every name bound to its declaration or node instance.
pub open spec fn sem_graph_of(
    nd: Seq<NamedBlock>,
    es: Seq<Rc<SemanticEdge>>,
    ws: Seq<Rc<SemanticWalker>>,
    g: Graph,
    s: SemanticGraph,
) -> bool {
    &&& s.node_insts@.len() == g.node_insts@.len()
    &&& forall|k: int|
        0 <= k < g.node_insts@.len() ==> (#[trigger] s.node_insts@[k]).varname@
            == g.node_insts@[k].varname@ && resolves(
            nd,
            g.node_insts@[k].node_type@,
            *s.node_insts@[k].node_type,
        )
    &&& s.edge_insts@.len() == g.edge_insts@.len()
    &&& forall|k: int|
        0 <= k < g.edge_insts@.len() ==> sem_edge_inst_of(
            es,
            g.node_insts@,
            s.node_insts@,
            g.edge_insts@[k],
            *#[trigger] s.edge_insts@[k],
        )
    &&& s.walker_insts@.len() == g.walker_insts@.len()
    &&& forall|k: int|
        0 <= k < g.walker_insts@.len() ==> sem_walker_inst_of(
            ws,
            g.node_insts@,
            s.node_insts@,
            g.walker_insts@[k],
            *#[trigger] s.walker_insts@[k],
        )
}

/// The resolved program `ir` is the program `bs`, every name bound, orders kept.
pub open spec fn ir_of(bs: Seq<GeneralBlock>, ir: SemanticGlobal) -> bool {
    let nd = node_decls(bs);
    let ed = edge_decls(bs);
    let wd = walker_decls(bs);
    let gs = graph_decls(bs);
    &&& rc_blocks(ir.nodes@) == nd
    &&& ir.edges@.len() == ed.len()
    &&& forall|i: int| 0 <= i < ed.len() ==> sem_edge_of(nd, ed[i], *#[trigger] ir.edges@[i])
    &&& ir.walkers@.len() == wd.len()
    &&& forall|i: int| 0 <= i < wd.len() ==> sem_walker_of(nd, wd[i], *#[trigger] ir.walkers@[i])
    &&& ir.graphs@.len() == gs.len()
    &&& forall|gi: int|
        0 <= gi < gs.len() ==> sem_graph_of(nd, ir.edges@, ir.walkers@, gs[gi], #[trigger] ir.graphs@[gi])
}

// ---------------------------------------------------------------------------
// Lookups
// ---------------------------------------------------------------------------

/// The position of a string equal to `t`, if any.
pub fn index_of(names: &Vec<String>, t: &String) -> (r: Option<usize>)
    ensures
        match r {
            Some(k) => k < names@.len() && names@[k as int]@ == t@,
            None => !views(names@).contains(t@),
        },
{
    let mut i: usize = 0;
    while i < names.len()
        invariant
            i <= names@.len(),
            forall|j: int| 0 <= j < i ==> names@[j]@ != t@,
        decreases names@.len() - i,
    {
        if names[i] == *t {
            return Some(i);
        }
        i = i + 1;
    }
    proof {
        if views(names@).contains(t@) {
            let j = choose|j: int| 0 <= j < views(names@).len() && views(names@)[j] == t@;
            assert(names@[j]@ != t@);
        }
    }
    None
}

/// The position of a string that also occurs earlier, if any.
pub fn find_duplicate(names: &Vec<String>) -> (r: Option<usize>)
    ensures
        match r {
            Some(j) => j < names@.len() && has_dup(views(names@), names@[j as int]@) && first_dup(
                views(names@),
                0,
            ) == Some(names@[j as int]@),
            None => distinct(views(names@)) && first_dup(views(names@), 0) is None,
        },
{
    let ghost vs = views(names@);
    let mut j: usize = 0;
    while j < names.len()
        invariant
            vs == views(names@),
            first_dup(vs, 0) == first_dup(vs, j as int),
            j <= names@.len(),
            forall|a: int, b: int| 0 <= a < j && 0 <= b < j && a != b ==> names@[a]@ != names@[b]@,
        decreases names@.len() - j,
    {
        let mut i: usize = 0;
        while i < j
            invariant
                vs == views(names@),
                first_dup(vs, 0) == first_dup(vs, j as int),
                i <= j < names@.len(),
                forall|a: int| 0 <= a < i ==> names@[a]@ != names@[j as int]@,
            decreases j - i,
        {
            if names[i] == names[j] {
                proof {
                    assert(vs[i as int] == names@[j as int]@);
                    assert(vs[j as int] == names@[j as int]@);
                    assert(vs.take(j as int)[i as int] == vs[j as int]);
                    assert(vs.take(j as int).contains(vs[j as int]));
                    assert(first_dup(vs, j as int) == Some(vs[j as int]));
                }
                return Some(j);
            }
            i = i + 1;
        }
        proof {
            assert(!vs.take(j as int).contains(vs[j as int])) by {
                if vs.take(j as int).contains(vs[j as int]) {
                    let a = choose|a: int| 0 <= a < j && vs.take(j as int)[a] == vs[j as int];
                    assert(names@[a]@ == names@[j as int]@);
                }
            }
        }
        j = j + 1;
    }
    None
}

// ---------------------------------------------------------------------------
// Resolution
// ---------------------------------------------------------------------------

/// Sorts the blocks by kind, keeping source order within each kind.
fn split_blocks(general: Vec<GeneralBlock>) -> (r: (
    Vec<Rc<NamedBlock>>,
    Vec<Edge>,
    Vec<Walker>,
    Vec<Graph>,
))
    ensures
        rc_blocks(r.0@) == node_decls(general@),
        r.1@ == edge_decls(general@),
        r.2@ == walker_decls(general@),
        r.3@ == graph_decls(general@),
{
    let ghost all = general@;
    let mut rest = general;
    let mut nodes: Vec<Rc<NamedBlock>> = Vec::new();
    let mut edges: Vec<Edge> = Vec::new();
    let mut walkers: Vec<Walker> = Vec::new();
    let mut graphs: Vec<Graph> = Vec::new();
    let ghost mut i: int = 0;
    while rest.len() > 0
        invariant
            0 <= i <= all.len(),
            rest@ == all.skip(i),
            rc_blocks(nodes@) == node_decls(all.take(i)),
            edges@ == edge_decls(all.take(i)),
            walkers@ == walker_decls(all.take(i)),
            graphs@ == graph_decls(all.take(i)),
        decreases rest@.len(),
    {
        let b = rest.remove(0);
        proof {
            assert(all.take(i + 1).drop_last() =~= all.take(i));
            assert(all.take(i + 1).last() == b);
            assert(rest@ =~= all.skip(i + 1));
        }
        match b {
            GeneralBlock::NodeBlock(n) => {
                let ghost old_nodes = nodes@;
                nodes.push(Rc::new(n.0));
                assert(rc_blocks(nodes@) =~= rc_blocks(old_nodes).push(n.0));
            },
            GeneralBlock::EdgeBlock(e) => {
                edges.push(e);
            },
            GeneralBlock::WalkerBlock(w) => {
                walkers.push(w);
            },
            GeneralBlock::GraphBlock(g) => {
                graphs.push(g);
            },
        }
        proof {
            i = i + 1;
        }
    }
    assert(all.take(i) =~= all);
    (nodes, edges, walkers, graphs)
}

/// The names of a sequence of blocks.
fn names_of_blocks(bs: &Vec<Rc<NamedBlock>>) -> (r: Vec<String>)
    ensures
        views(r@) == block_names(rc_blocks(bs@)),
{
    let mut r: Vec<String> = Vec::new();
    let mut i: usize = 0;
    while i < bs.len()
        invariant
            i <= bs@.len(),
            views(r@) == block_names(rc_blocks(bs@)).take(i as int),
        decreases bs@.len() - i,
    {
        let ghost old_r = r@;
        r.push(bs[i].name.clone());
        proof {
            assert(block_names(rc_blocks(bs@))[i as int] == bs@[i as int].name@);
            assert(views(r@) =~= views(old_r).push(bs@[i as int].name@));
        }
        i = i + 1;
        assert(views(r@) =~= block_names(rc_blocks(bs@)).take(i as int));
    }
    assert(block_names(rc_blocks(bs@)).take(i as int) =~= block_names(rc_blocks(bs@)));
    r
}

/// Resolves the endpoint types of each edge declaration against the node declarations.
pub fn transform_edge_hashmap_to_semantic(
    node_types: &Vec<Rc<NamedBlock>>,
    node_names: &Vec<String>,
    edge_types: Vec<Edge>,
) -> (r: Result<Vec<Rc<SemanticEdge>>, SemanticsError>)
    requires
        views(node_names@) == block_names(rc_blocks(node_types@)),
    ensures
        match r {
            Ok(es) => {
                &&& es@.len() == edge_types@.len()
                &&& forall|i: int|
                    0 <= i < es@.len() ==> sem_edge_of(
                        rc_blocks(node_types@),
                        edge_types@[i],
                        *#[trigger] es@[i],
                    )
                &&& forall|i: int|
                    0 <= i < edge_types@.len() ==> views(node_names@).contains(
                        (#[trigger] edge_types@[i]).from@,
                    ) && views(node_names@).contains(edge_types@[i].to@)
                &&& first_edge_decl_err(views(node_names@), edge_types@, 0) is None
            },
            Err(SemanticsError::UndefinedReference(n)) => (exists|i: int|
                0 <= i < edge_types@.len() && ((#[trigger] edge_types@[i]).from@ == n@
                    || edge_types@[i].to@ == n@) && !views(node_names@).contains(n@))
                && first_edge_decl_err(views(node_names@), edge_types@, 0) == Some(
                ErrV::Undef(n@),
            ),
            Err(_) => false,
        },
{
    let ghost all = edge_types@;
    let ghost nd = rc_blocks(node_types@);
    assert(node_names@.len() == views(node_names@).len());
    assert(node_types@.len() == nd.len());
    let mut rest = edge_types;
    let mut out: Vec<Rc<SemanticEdge>> = Vec::new();
    while rest.len() > 0
        invariant
            out@.len() <= all.len(),
            rest@ == all.skip(out@.len() as int),
            all == edge_types@,
            first_edge_decl_err(views(node_names@), all, 0) == first_edge_decl_err(
                views(node_names@),
                all,
                out@.len() as int,
            ),
            node_names@.len() == node_types@.len(),
            views(node_names@) == block_names(nd),
            nd == rc_blocks(node_types@),
            forall|i: int| 0 <= i < out@.len() ==> sem_edge_of(nd, all[i], *#[trigger] out@[i]),
            forall|i: int|
                0 <= i < out@.len() ==> views(node_names@).contains((#[trigger] all[i]).from@)
                    && views(node_names@).contains(all[i].to@),
        decreases rest@.len(),
    {
        let ghost k = out@.len() as int;
        let edge = rest.remove(0);
        assert(edge == all[k]);
        assert(rest@ =~= all.skip(k + 1));
        let f = match index_of(node_names, &edge.from) {
            Some(f) => f,
            None => {
                return Err(SemanticsError::UndefinedReference(edge.from));
            },
        };
        let t = match index_of(node_names, &edge.to) {
            Some(t) => t,
            None => {
                assert(views(node_names@)[f as int] == edge.from@);
                return Err(SemanticsError::UndefinedReference(edge.to));
            },
        };
        proof {
            assert(views(node_names@)[f as int] == edge.from@);
            assert(views(node_names@)[t as int] == edge.to@);
            assert(nd[f as int] == *node_types@[f as int]);
            assert(nd[t as int] == *node_types@[t as int]);
        }
        let s = SemanticEdge {
            from: node_types[f].clone(),
            to: node_types[t].clone(),
            named_block: edge.named_block,
        };
        out.push(Rc::new(s));
    }
    Ok(out)
}

/// Resolves the node type of each walker declaration against the node declarations.
pub fn transform_walker_hashmap_to_semantic(
    node_types: &Vec<Rc<NamedBlock>>,
    node_names: &Vec<String>,
    walker_types: &Vec<Walker>,
) -> (r: Result<Vec<Rc<SemanticWalker>>, SemanticsError>)
    requires
        views(node_names@) == block_names(rc_blocks(node_types@)),
    ensures
        match r {
            Ok(ws) => {
                &&& ws@.len() == walker_types@.len()
                &&& forall|i: int|
                    0 <= i < ws@.len() ==> sem_walker_of(
                        rc_blocks(node_types@),
                        walker_types@[i],
                        *#[trigger] ws@[i],
                    )
                &&& forall|i: int|
                    0 <= i < walker_types@.len() ==> views(node_names@).contains(
                        (#[trigger] walker_types@[i]).node_type@,
                    )
                &&& first_walker_decl_err(views(node_names@), walker_types@, 0) is None
            },
            Err(SemanticsError::UndefinedReference(n)) => (exists|i: int|
                0 <= i < walker_types@.len() && (#[trigger] walker_types@[i]).node_type@ == n@
                    && !views(node_names@).contains(n@)) && first_walker_decl_err(
                views(node_names@),
                walker_types@,
                0,
            ) == Some(ErrV::Undef(n@)),
            Err(_) => false,
        },
{
    let ghost nd = rc_blocks(node_types@);
    assert(node_names@.len() == views(node_names@).len());
    assert(node_types@.len() == nd.len());
    let mut out: Vec<Rc<SemanticWalker>> = Vec::new();
    let mut i: usize = 0;
    while i < walker_types.len()
        invariant
            i <= walker_types@.len(),
            out@.len() == i,
            first_walker_decl_err(views(node_names@), walker_types@, 0) == first_walker_decl_err(
                views(node_names@),
                walker_types@,
                i as int,
            ),
            node_names@.len() == node_types@.len(),
            views(node_names@) == block_names(nd),
            nd == rc_blocks(node_types@),
            forall|j: int|
                0 <= j < i ==> sem_walker_of(nd, walker_types@[j], *#[trigger] out@[j]),
            forall|j: int|
                0 <= j < i ==> views(node_names@).contains(
                    (#[trigger] walker_types@[j]).node_type@,
                ),
        decreases walker_types@.len() - i,
    {
        let walker = &walker_types[i];
        let t = match index_of(node_names, &walker.node_type) {
            Some(t) => t,
            None => {
                return Err(SemanticsError::UndefinedReference(walker.node_type.clone()));
            },
        };
        proof {
            assert(views(node_names@)[t as int] == walker.node_type@);
            assert(nd[t as int] == *node_types@[t as int]);
        }
        out.push(Rc::new(SemanticWalker { name: walker.name.clone(), node_type: node_types[t].clone() }));
        i = i + 1;
    }
    Ok(out)
}

/// Resolves the instances of the graph with index `gi`.
fn transform_one_graph(
    gi: usize,
    node_types: &Vec<Rc<NamedBlock>>,
    node_names: &Vec<String>,
    walker_types: &Vec<Rc<SemanticWalker>>,
    walker_names: &Vec<String>,
    edge_types: &Vec<Rc<SemanticEdge>>,
    edge_names: &Vec<String>,
    g: &Graph,
) -> (r: Result<SemanticGraph, SemanticsError>)
    requires
        views(node_names@) == block_names(rc_blocks(node_types@)),
        views(walker_names@) == sem_walker_names(walker_types@),
        views(edge_names@) == sem_edge_names(edge_types@),
        distinct(views(node_names@)),
        distinct(views(walker_names@)),
        forall|a: int|
            0 <= a < walker_types@.len() ==> crate::sem_type::block_in(
                node_types@,
                *(#[trigger] walker_types@[a]).node_type,
            ),
    ensures
        match r {
            Ok(s) => {
                &&& graph_ok(
                    views(node_names@),
                    views(edge_names@),
                    views(walker_names@),
                    sem_walker_types(walker_types@),
                    *g,
                )
                &&& sem_graph_of(rc_blocks(node_types@), edge_types@, walker_types@, *g, s)
                &&& s.wf_in(node_types@, edge_types@, walker_types@)
                &&& graph_first_err(
                    views(node_names@),
                    views(edge_names@),
                    views(walker_names@),
                    sem_walker_types(walker_types@),
                    *g,
                    gi as int,
                ) is None
            },
            Err(e) => graph_first_err(
                views(node_names@),
                views(edge_names@),
                views(walker_names@),
                sem_walker_types(walker_types@),
                *g,
                gi as int,
            ) == Some(err_v(e)) && graph_error(
                views(node_names@),
                views(edge_names@),
                views(walker_names@),
                sem_walker_types(walker_types@),
                *g,
                gi as int,
                e,
            ),
        },
{
    let ghost nd = rc_blocks(node_types@);
    let ghost nn = views(node_names@);
    let ghost en = views(edge_names@);
    let ghost wn = views(walker_names@);
    let ghost wt = sem_walker_types(walker_types@);
    let ghost vn = var_names(g.node_insts@);
    assert(node_names@.len() == nn.len() && node_types@.len() == nd.len());
    assert(edge_names@.len() == en.len() && edge_types@.len() == sem_edge_names(edge_types@).len());
    assert(walker_names@.len() == wn.len() && walker_types@.len() == wt.len());
    // Node instances.
    let ghost ns = g.node_insts@;
    let mut sem_nodes: Vec<Rc<SemanticNodeInst>> = Vec::new();
    let mut vnames: Vec<String> = Vec::new();
    let mut k: usize = 0;
    assert(views(vnames@) =~= vn.take(0));
    while k < g.node_insts.len()
        invariant
            k <= g.node_insts@.len(),
            sem_nodes@.len() == k,
            ns == g.node_insts@,
            views(vnames@) == vn.take(k as int),
            vnames@.len() == k,
            distinct(views(vnames@)),
            first_node_inst_err(nn, ns, gi as int, 0) == first_node_inst_err(nn, ns, gi as int, k as int),
            vn == var_names(g.node_insts@),
            nd == rc_blocks(node_types@),
            nn == views(node_names@),
            node_names@.len() == node_types@.len(),
            nn == block_names(nd),
            forall|j: int|
                0 <= j < k ==> (#[trigger] sem_nodes@[j]).varname@ == g.node_insts@[j].varname@
                    && resolves(nd, g.node_insts@[j].node_type@, *sem_nodes@[j].node_type)
                    && nn.contains(g.node_insts@[j].node_type@)
                    && crate::sem_type::block_in(node_types@, *sem_nodes@[j].node_type),
        decreases g.node_insts@.len() - k,
    {
        let inst = &g.node_insts[k];
        let t = match index_of(node_names, &inst.node_type) {
            Some(t) => t,
            None => {
                assert(g.node_insts@[k as int].node_type@ == inst.node_type@);
                return Err(SemanticsError::UndefinedReference(inst.node_type.clone()));
            },
        };
        proof {
            assert(nn[t as int] == inst.node_type@);
            assert(nd[t as int] == *node_types@[t as int]);
            assert(block_names(nd)[t as int] == nd[t as int].name@);
            assert(g.node_insts@[k as int] == *inst);
        }
        assert(nn.contains(ns[k as int].node_type@)) by {
            assert(nn[t as int] == ns[k as int].node_type@);
        }
        assert(vn[k as int] == inst.varname@);
        match index_of(&vnames, &inst.varname) {
            Some(j) => {
                proof {
                    assert(vn.take(k as int).contains(ns[k as int].varname@)) by {
                        assert(views(vnames@)[j as int] == inst.varname@);
                    }
                    assert(vn[j as int] == views(vnames@)[j as int]);
                    assert(has_dup(vn, inst.varname@));
                }
                return Err(SemanticsError::DuplicateVariable(gi, inst.varname.clone()));
            },
            None => {},
        }
        assert(!vn.take(k as int).contains(ns[k as int].varname@));
        let ghost old_vnames = views(vnames@);
        vnames.push(inst.varname.clone());
        proof {
            assert(views(vnames@) =~= old_vnames.push(inst.varname@));
            assert(views(vnames@) =~= vn.take(k + 1));
            assert forall|a: int, b: int|
                0 <= a < views(vnames@).len() && 0 <= b < views(vnames@).len() && a != b implies views(
                vnames@,
            )[a] != views(vnames@)[b] by {
                if a == k as int {
                    if views(vnames@)[a] == views(vnames@)[b] {
                        assert(old_vnames[b] == views(vnames@)[b]);
                        assert(old_vnames.contains(inst.varname@));
                    }
                } else if b == k as int {
                    if views(vnames@)[a] == views(vnames@)[b] {
                        assert(old_vnames[a] == views(vnames@)[a]);
                        assert(old_vnames.contains(inst.varname@));
                    }
                } else {
                    assert(old_vnames[a] == views(vnames@)[a] && old_vnames[b] == views(vnames@)[b]);
                }
            }
        }
        let x = SemanticNodeInst { varname: inst.varname.clone(), node_type: node_types[t].clone() };
        assert(*x.node_type == nd[t as int]);
        assert(resolves(nd, g.node_insts@[k as int].node_type@, *x.node_type));
        assert(crate::sem_type::block_in(node_types@, *x.node_type));
        assert(nn.contains(g.node_insts@[k as int].node_type@));
        assert(x.varname@ == g.node_insts@[k as int].varname@);
        let ghost xg = x;
        let ghost old_nodes = sem_nodes@;
        sem_nodes.push(Rc::new(x));
        assert(*sem_nodes@[k as int] == xg);
        assert(forall|j: int| 0 <= j < k ==> sem_nodes@[j] == old_nodes[j]);
        k = k + 1;
    }
    assert(vn.len() == g.node_insts@.len());
    assert(vn.take(k as int) =~= vn);
    assert(vnames@.len() == g.node_insts@.len());
    // Edge instances.
    let mut sem_edges: Vec<Rc<SemanticEdgeInst>> = Vec::new();
    let mut k: usize = 0;
    while k < g.edge_insts.len()
        invariant
            k <= g.edge_insts@.len(),
            sem_edges@.len() == k,
            ns == g.node_insts@,
            first_node_inst_err(nn, ns, gi as int, 0) is None,
            first_edge_inst_err(en, vn, g.edge_insts@, 0) == first_edge_inst_err(
                en,
                vn,
                g.edge_insts@,
                k as int,
            ),
            vn == var_names(g.node_insts@),
            wn == views(walker_names@),
            wt == sem_walker_types(walker_types@),
            sem_nodes@.len() == g.node_insts@.len(),
            views(vnames@) == vn,
            distinct(vn),
            forall|j: int|
                0 <= j < sem_nodes@.len() ==> (#[trigger] sem_nodes@[j]).varname@ == g.node_insts@[j].varname@
                    && resolves(nd, g.node_insts@[j].node_type@, *sem_nodes@[j].node_type)
                    && nn.contains(g.node_insts@[j].node_type@)
                    && crate::sem_type::block_in(node_types@, *sem_nodes@[j].node_type),
            nd == rc_blocks(node_types@),
            nn == views(node_names@),
            forall|a: int|
                0 <= a < walker_types@.len() ==> crate::sem_type::block_in(
                    node_types@,
                    *(#[trigger] walker_types@[a]).node_type,
                ),
            vnames@.len() == g.node_insts@.len(),
            en == views(edge_names@),
            edge_names@.len() == edge_types@.len(),
            en == sem_edge_names(edge_types@),
            forall|j: int| 0 <= j < k ==> edge_inst_ok(en, vn, #[trigger] g.edge_insts@[j]),
            forall|j: int|
                0 <= j < k ==> sem_edge_inst_of(
                    edge_types@,
                    g.node_insts@,
                    sem_nodes@,
                    g.edge_insts@[j],
                    *#[trigger] sem_edges@[j],
                ) && (exists|a: int|
                    0 <= a < edge_types@.len() && *edge_types@[a] == *sem_edges@[j].edge_type)
                    && crate::sem_type::node_inst_in(sem_nodes@, *sem_edges@[j].from_var)
                    && crate::sem_type::node_inst_in(sem_nodes@, *sem_edges@[j].to_var),
        decreases g.edge_insts@.len() - k,
    {
        let e = &g.edge_insts[k];
        assert(g.edge_insts@[k as int] == *e);
        let et = match index_of(edge_names, &e.edge_type) {
            Some(et) => et,
            None => {
                return Err(SemanticsError::UndefinedReference(e.edge_type.clone()));
            },
        };
        assert(en[et as int] == e.edge_type@);
        let f = match index_of(&vnames, &e.from_varname) {
            Some(f) => f,
            None => {
                assert(!vn.contains(e.from_varname@));
                assert(g.edge_insts@[k as int].from_varname@ == e.from_varname@);
                assert(graph_unresolved(nn, en, wn, *g, e.from_varname@));
                return Err(SemanticsError::UndefinedReference(e.from_varname.clone()));
            },
        };
        assert(views(vnames@)[f as int] == e.from_varname@);
        let t = match index_of(&vnames, &e.to_varname) {
            Some(t) => t,
            None => {
                assert(!vn.contains(e.to_varname@));
                assert(graph_unresolved(nn, en, wn, *g, e.to_varname@));
                return Err(SemanticsError::UndefinedReference(e.to_varname.clone()));
            },
        };
        proof {
            assert(en[et as int] == e.edge_type@);
            assert(views(vnames@)[f as int] == e.from_varname@);
            assert(views(vnames@)[t as int] == e.to_varname@);
            assert(g.node_insts@[f as int].varname@ == e.from_varname@);
            assert(g.node_insts@[t as int].varname@ == e.to_varname@);
        }
        let x = SemanticEdgeInst {
            edge_type: edge_types[et].clone(),
            from_var: sem_nodes[f].clone(),
            to_var: sem_nodes[t].clone(),
            weight: e.weight,
        };
        assert(sem_edge_inst_of(edge_types@, g.node_insts@, sem_nodes@, g.edge_insts@[k as int], x));
        assert(edge_inst_ok(en, vn, g.edge_insts@[k as int]));
        assert(*edge_types@[et as int] == *x.edge_type);
        assert(crate::sem_type::node_inst_in(sem_nodes@, *x.from_var));
        assert(crate::sem_type::node_inst_in(sem_nodes@, *x.to_var));
        let ghost xg = x;
        let ghost old_edges = sem_edges@;
        sem_edges.push(Rc::new(x));
        assert(*sem_edges@[k as int] == xg);
        assert(forall|j: int| 0 <= j < k ==> sem_edges@[j] == old_edges[j]);
        k = k + 1;
    }
    assert(sem_edges@.len() == g.edge_insts@.len());
    assert(forall|j: int|
        0 <= j < g.edge_insts@.len() ==> sem_edge_inst_of(
            edge_types@,
            g.node_insts@,
            sem_nodes@,
            g.edge_insts@[j],
            *#[trigger] sem_edges@[j],
        ));
    // Walker instances.
    let mut sem_walkers: Vec<Rc<SemanticWalkerInst>> = Vec::new();
    let mut k: usize = 0;
    while k < g.walker_insts.len()
        invariant
            k <= g.walker_insts@.len(),
            sem_walkers@.len() == k,
            ns == g.node_insts@,
            first_node_inst_err(nn, ns, gi as int, 0) is None,
            first_edge_inst_err(en, vn, g.edge_insts@, 0) is None,
            first_walker_inst_err(wn, wt, ns, g.walker_insts@, 0) == first_walker_inst_err(
                wn,
                wt,
                ns,
                g.walker_insts@,
                k as int,
            ),
            vn == var_names(g.node_insts@),
            sem_nodes@.len() == g.node_insts@.len(),
            views(vnames@) == vn,
            distinct(vn),
            vnames@.len() == g.node_insts@.len(),
            wn == views(walker_names@),
            wt == sem_walker_types(walker_types@),
            walker_names@.len() == walker_types@.len(),
            wn == sem_walker_names(walker_types@),
            distinct(wn),
            distinct(block_names(nd)),
            nn == block_names(nd),
            en == views(edge_names@),
            forall|j: int|
                0 <= j < g.edge_insts@.len() ==> edge_inst_ok(en, vn, #[trigger] g.edge_insts@[j]),
            forall|wj: int|
                0 <= wj < k ==> walker_inst_ok(wn, wt, g.node_insts@, #[trigger] g.walker_insts@[wj]),
            forall|j: int|
                0 <= j < g.edge_insts@.len() ==> sem_edge_inst_of(
                    edge_types@,
                    g.node_insts@,
                    sem_nodes@,
                    g.edge_insts@[j],
                    *#[trigger] sem_edges@[j],
                ) && (exists|a: int|
                    0 <= a < edge_types@.len() && *edge_types@[a] == *sem_edges@[j].edge_type)
                    && crate::sem_type::node_inst_in(sem_nodes@, *sem_edges@[j].from_var)
                    && crate::sem_type::node_inst_in(sem_nodes@, *sem_edges@[j].to_var),
            sem_edges@.len() == g.edge_insts@.len(),
            forall|j: int|
                0 <= j < sem_nodes@.len() ==> (#[trigger] sem_nodes@[j]).varname@ == g.node_insts@[j].varname@
                    && resolves(nd, g.node_insts@[j].node_type@, *sem_nodes@[j].node_type)
                    && nn.contains(g.node_insts@[j].node_type@)
                    && crate::sem_type::block_in(node_types@, *sem_nodes@[j].node_type),
            nd == rc_blocks(node_types@),
            nn == views(node_names@),
            forall|a: int|
                0 <= a < walker_types@.len() ==> crate::sem_type::block_in(
                    node_types@,
                    *(#[trigger] walker_types@[a]).node_type,
                ),

            forall|j: int|
                0 <= j < k ==> sem_walker_inst_of(
                    walker_types@,
                    g.node_insts@,
                    sem_nodes@,
                    g.walker_insts@[j],
                    *#[trigger] sem_walkers@[j],
                ) && (exists|a: int|
                    0 <= a < walker_types@.len() && *walker_types@[a]
                        == *sem_walkers@[j].walker_type)
                    && crate::sem_type::node_inst_in(sem_nodes@, *sem_walkers@[j].start_node)
                    && *sem_walkers@[j].start_node.node_type == *sem_walkers@[j].walker_type.node_type,
        decreases g.walker_insts@.len() - k,
    {
        let w = &g.walker_insts[k];
        assert(g.walker_insts@[k as int] == *w);
        let a = match index_of(walker_names, &w.walker_type) {
            Some(a) => a,
            None => {
                return Err(SemanticsError::UndefinedReference(w.walker_type.clone()));
            },
        };
        assert(wn[a as int] == w.walker_type@);
        let b = match index_of(&vnames, &w.start_node) {
            Some(b) => b,
            None => {
                assert(!vn.contains(w.start_node@));
                assert(g.walker_insts@[k as int].start_node@ == w.start_node@);
                assert(graph_unresolved(nn, en, wn, *g, w.start_node@));
                return Err(SemanticsError::UndefinedReference(w.start_node.clone()));
            },
        };
        proof {
            assert(wn[a as int] == w.walker_type@);
            assert(views(vnames@)[b as int] == w.start_node@);
            assert(b < g.node_insts@.len());
            assert(vn.len() == g.node_insts@.len());
            assert(vn[b as int] == g.node_insts@[b as int].varname@);
            assert(g.node_insts@[b as int].varname@ == w.start_node@);
            assert(wt[a as int] == walker_types@[a as int].node_type.name@);
        }
        proof {
            lemma_index_unique(wn, w.walker_type@, a as int);
            lemma_index_unique(vn, w.start_node@, b as int);
        }
        let expected = &walker_types[a].node_type.name;
        let actual = &g.node_insts[b].node_type;
        if !(*expected == *actual) {
            return Err(
                SemanticsError::WalkerTypeMismatch(
                    w.start_node.clone(),
                    expected.clone(),
                    actual.clone(),
                ),
            );
        }
        proof {
            assert forall|a2: int, b2: int|
                0 <= a2 < wn.len() && 0 <= b2 < g.node_insts@.len() && #[trigger] wn[a2]
                    == w.walker_type@ && (#[trigger] g.node_insts@[b2]).varname@
                    == w.start_node@ implies g.node_insts@[b2].node_type@ == wt[a2] by {
                assert(vn[b2] == g.node_insts@[b2].varname@);
                assert(a2 == a as int);
                assert(b2 == b as int);
            }
            // The walker's node type and the start node's type are one declaration.
            let t1 = choose|t1: int|
                0 <= t1 < nd.len() && (#[trigger] nd[t1]).name@ == g.node_insts@[b as int].node_type@
                    && nd[t1] == *sem_nodes@[b as int].node_type;
            let t2 = choose|t2: int|
                0 <= t2 < node_types@.len() && *node_types@[t2] == *walker_types@[a as int].node_type;
            assert(nd[t2] == *node_types@[t2]);
            assert(block_names(nd)[t1] == block_names(nd)[t2]);
            assert(t1 == t2);
        }
        let x = SemanticWalkerInst {
            walker_type: walker_types[a].clone(),
            start_node: sem_nodes[b].clone(),
        };
        assert(sem_walker_inst_of(
            walker_types@,
            g.node_insts@,
            sem_nodes@,
            g.walker_insts@[k as int],
            x,
        ));
        assert(walker_inst_ok(wn, wt, g.node_insts@, g.walker_insts@[k as int]));
        assert(crate::sem_type::node_inst_in(sem_nodes@, *x.start_node));
        assert(*x.start_node.node_type == *x.walker_type.node_type);
        let ghost xg = x;
        let ghost old_walkers = sem_walkers@;
        sem_walkers.push(Rc::new(x));
        assert(*sem_walkers@[k as int] == xg);
        assert(forall|j: int| 0 <= j < k ==> sem_walkers@[j] == old_walkers[j]);
        k = k + 1;
    }
    let ghost sem_nodes_g = sem_nodes@;
    let ghost sem_edges_g = sem_edges@;
    let s = SemanticGraph { node_insts: sem_nodes, edge_insts: sem_edges, walker_insts: sem_walkers };
    assert(distinct(vn));
    assert forall|k: int|
        0 <= k < g.node_insts@.len() implies nn.contains((#[trigger] g.node_insts@[k]).node_type@) by {
        assert(s.node_insts@[k] == sem_nodes_g[k]);
    }
    assert forall|k: int| 0 <= k < g.edge_insts@.len() implies edge_inst_ok(en, vn, #[trigger] g.edge_insts@[k]) by {
        assert(s.edge_insts@[k] == sem_edges_g[k]);
    }
    assert(forall|k: int|
        0 <= k < g.walker_insts@.len() ==> walker_inst_ok(wn, wt, g.node_insts@, #[trigger] g.walker_insts@[k]));
    assert(graph_ok(nn, en, wn, wt, *g));
    assert(sem_graph_of(nd, edge_types@, walker_types@, *g, s));
    assert(s.wf_in(node_types@, edge_types@, walker_types@));
    Ok(s)
}

/// Resolves the instances of every graph, in source order.
pub fn transform_graph_to_semantic(
    node_types: &Vec<Rc<NamedBlock>>,
    node_names: &Vec<String>,
    walker_types: &Vec<Rc<SemanticWalker>>,
    walker_names: &Vec<String>,
    edge_types: &Vec<Rc<SemanticEdge>>,
    edge_names: &Vec<String>,
    graphs: &Vec<Graph>,
) -> (r: Result<Vec<SemanticGraph>, SemanticsError>)
    requires
        views(node_names@) == block_names(rc_blocks(node_types@)),
        views(walker_names@) == sem_walker_names(walker_types@),
        views(edge_names@) == sem_edge_names(edge_types@),
        distinct(views(node_names@)),
        distinct(views(walker_names@)),
        forall|a: int|
            0 <= a < walker_types@.len() ==> crate::sem_type::block_in(
                node_types@,
                *(#[trigger] walker_types@[a]).node_type,
            ),
    ensures
        match r {
            Ok(gs) => {
                &&& gs@.len() == graphs@.len()
                &&& forall|gi: int|
                    0 <= gi < graphs@.len() ==> graph_ok(
                        views(node_names@),
                        views(edge_names@),
                        views(walker_names@),
                        sem_walker_types(walker_types@),
                        #[trigger] graphs@[gi],
                    )
                &&& forall|gi: int|
                    0 <= gi < graphs@.len() ==> sem_graph_of(
                        rc_blocks(node_types@),
                        edge_types@,
                        walker_types@,
                        graphs@[gi],
                        #[trigger] gs@[gi],
                    ) && gs@[gi].wf_in(node_types@, edge_types@, walker_types@)
                &&& graphs_first_err(
                    views(node_names@),
                    views(edge_names@),
                    views(walker_names@),
                    sem_walker_types(walker_types@),
                    graphs@,
                    0,
                ) is None
            },
            Err(e) => graphs_first_err(
                views(node_names@),
                views(edge_names@),
                views(walker_names@),
                sem_walker_types(walker_types@),
                graphs@,
                0,
            ) == Some(err_v(e)) && exists|gi: int|
                0 <= gi < graphs@.len() && graph_error(
                    views(node_names@),
                    views(edge_names@),
                    views(walker_names@),
                    sem_walker_types(walker_types@),
                    #[trigger] graphs@[gi],
                    gi,
                    e,
                ),
        },
{
    let mut out: Vec<SemanticGraph> = Vec::new();
    let mut gi: usize = 0;
    while gi < graphs.len()
        invariant
            gi <= graphs@.len(),
            out@.len() == gi,
            graphs_first_err(
                views(node_names@),
                views(edge_names@),
                views(walker_names@),
                sem_walker_types(walker_types@),
                graphs@,
                0,
            ) == graphs_first_err(
                views(node_names@),
                views(edge_names@),
                views(walker_names@),
                sem_walker_types(walker_types@),
                graphs@,
                gi as int,
            ),
            views(node_names@) == block_names(rc_blocks(node_types@)),
            views(walker_names@) == sem_walker_names(walker_types@),
            views(edge_names@) == sem_edge_names(edge_types@),
            distinct(views(node_names@)),
            distinct(views(walker_names@)),
            forall|a: int|
                0 <= a < walker_types@.len() ==> crate::sem_type::block_in(
                    node_types@,
                    *(#[trigger] walker_types@[a]).node_type,
                ),
            forall|j: int|
                0 <= j < gi ==> graph_ok(
                    views(node_names@),
                    views(edge_names@),
                    views(walker_names@),
                    sem_walker_types(walker_types@),
                    #[trigger] graphs@[j],
                ),
            forall|j: int|
                0 <= j < gi ==> sem_graph_of(
                    rc_blocks(node_types@),
                    edge_types@,
                    walker_types@,
                    graphs@[j],
                    #[trigger] out@[j],
                ) && out@[j].wf_in(node_types@, edge_types@, walker_types@),
        decreases graphs@.len() - gi,
    {
        let sg = transform_one_graph(
            gi,
            node_types,
            node_names,
            walker_types,
            walker_names,
            edge_types,
            edge_names,
            &graphs[gi],
        );
        match sg {
            Ok(sg) => {
                out.push(sg);
            },
            Err(e) => {
                return Err(e);
            },
        }
        gi = gi + 1;
    }
    Ok(out)
}

/// The names of a sequence of edge declarations.
fn names_of_edges(es: &Vec<Edge>) -> (r: Vec<String>)
    ensures
        views(r@) == edge_names(es@),
{
    let mut r: Vec<String> = Vec::new();
    let mut i: usize = 0;
    while i < es.len()
        invariant
            i <= es@.len(),
            views(r@) == edge_names(es@).take(i as int),
        decreases es@.len() - i,
    {
        let ghost old_r = r@;
        r.push(es[i].named_block.name.clone());
        proof {
            assert(views(r@) =~= views(old_r).push(es@[i as int].named_block.name@));
        }
        i = i + 1;
        assert(views(r@) =~= edge_names(es@).take(i as int));
    }
    assert(edge_names(es@).take(i as int) =~= edge_names(es@));
    r
}

/// The names of a sequence of walker declarations.
fn names_of_walkers(ws: &Vec<Walker>) -> (r: Vec<String>)
    ensures
        views(r@) == walker_names(ws@),
{
    let mut r: Vec<String> = Vec::new();
    let mut i: usize = 0;
    while i < ws.len()
        invariant
            i <= ws@.len(),
            views(r@) == walker_names(ws@).take(i as int),
        decreases ws@.len() - i,
    {
        let ghost old_r = r@;
        r.push(ws[i].name.clone());
        proof {
            assert(views(r@) =~= views(old_r).push(ws@[i as int].name@));
        }
        i = i + 1;
        assert(views(r@) =~= walker_names(ws@).take(i as int));
    }
    assert(walker_names(ws@).take(i as int) =~= walker_names(ws@));
    r
}

/// A graph that carries a defect is not accepted.
pub proof fn lemma_graph_error_rejects(
    nn: Seq<Seq<char>>,
    en: Seq<Seq<char>>,
    wn: Seq<Seq<char>>,
    wt: Seq<Seq<char>>,
    g: Graph,
    gi: int,
    e: SemanticsError,
)
    requires
        graph_error(nn, en, wn, wt, g, gi, e),
    ensures
        !graph_ok(nn, en, wn, wt, g),
{
    let vn = var_names(g.node_insts@);
    match e {
        SemanticsError::UndefinedReference(n) => {
            if exists|k: int|
                0 <= k < g.node_insts@.len() && (#[trigger] g.node_insts@[k]).node_type@ == n@
                    && !nn.contains(n@) {
                let k = choose|k: int|
                    0 <= k < g.node_insts@.len() && (#[trigger] g.node_insts@[k]).node_type@ == n@
                        && !nn.contains(n@);
                assert(!nn.contains(g.node_insts@[k].node_type@));
            } else if exists|k: int|
                0 <= k < g.edge_insts@.len() && ({
                    let x = #[trigger] g.edge_insts@[k];
                    ||| x.edge_type@ == n@ && !en.contains(n@)
                    ||| (x.from_varname@ == n@ || x.to_varname@ == n@) && !vn.contains(n@)
                }) {
                let k = choose|k: int|
                    0 <= k < g.edge_insts@.len() && ({
                        let x = #[trigger] g.edge_insts@[k];
                        ||| x.edge_type@ == n@ && !en.contains(n@)
                        ||| (x.from_varname@ == n@ || x.to_varname@ == n@) && !vn.contains(n@)
                    });
                assert(!edge_inst_ok(en, vn, g.edge_insts@[k]));
            } else {
                let k = choose|k: int|
                    0 <= k < g.walker_insts@.len() && ({
                        let x = #[trigger] g.walker_insts@[k];
                        ||| x.walker_type@ == n@ && !wn.contains(n@)
                        ||| x.start_node@ == n@ && !vn.contains(n@)
                    });
                assert(!walker_inst_ok(wn, wt, g.node_insts@, g.walker_insts@[k]));
            }
        },
        SemanticsError::DuplicateVariable(i, n) => {
            assert(!distinct(vn));
        },
        SemanticsError::WalkerTypeMismatch(v, x, y) => {
            let (k, a, b) = choose|k: int, a: int, b: int|
                0 <= k < g.walker_insts@.len() && 0 <= a < wn.len() && 0 <= b < g.node_insts@.len()
                    && (#[trigger] g.walker_insts@[k]).walker_type@ == #[trigger] wn[a]
                    && g.walker_insts@[k].start_node@ == v@ && (#[trigger] g.node_insts@[b]).varname@
                    == v@ && wt[a] == x@ && g.node_insts@[b].node_type@ == y@ && x@ != y@;
            assert(!walker_inst_ok(wn, wt, g.node_insts@, g.walker_insts@[k]));
        },
        _ => {},
    }
}

/// A program that carries a defect is not accepted.
pub proof fn lemma_program_error_rejects(bs: Seq<GeneralBlock>, e: SemanticsError)
    requires
        program_error(bs, e),
    ensures
        !program_ok(bs),
{
    let nn = block_names(node_decls(bs));
    let ed = edge_decls(bs);
    let wd = walker_decls(bs);
    let gs = graph_decls(bs);
    let in_graph = exists|gi: int|
        0 <= gi < gs.len() && graph_error(
            nn,
            edge_names(ed),
            walker_names(wd),
            walker_types(wd),
            #[trigger] gs[gi],
            gi,
            e,
        );
    if in_graph {
        let gi = choose|gi: int|
            0 <= gi < gs.len() && graph_error(
                nn,
                edge_names(ed),
                walker_names(wd),
                walker_types(wd),
                #[trigger] gs[gi],
                gi,
                e,
            );
        lemma_graph_error_rejects(nn, edge_names(ed), walker_names(wd), walker_types(wd), gs[gi], gi, e);
    } else {
        match e {
            SemanticsError::UndefinedReference(n) => {
                if exists|i: int|
                    0 <= i < ed.len() && ((#[trigger] ed[i]).from@ == n@ || ed[i].to@ == n@)
                        && !nn.contains(n@) {
                    let i = choose|i: int|
                        0 <= i < ed.len() && ((#[trigger] ed[i]).from@ == n@ || ed[i].to@ == n@)
                            && !nn.contains(n@);
                    assert(!(nn.contains(ed[i].from@) && nn.contains(ed[i].to@)));
                } else {
                    let i = choose|i: int|
                        0 <= i < wd.len() && (#[trigger] wd[i]).node_type@ == n@ && !nn.contains(n@);
                    assert(!nn.contains(wd[i].node_type@));
                }
            },
            _ => {},
        }
    }
}

/// Resolves a parsed program: sorts its blocks by kind, checks that names are unique
/// within each kind, and binds every reference to its declaration or node instance.
pub fn semantic_analysis(general: Vec<GeneralBlock>) -> (r: Result<SemanticGlobal, SemanticsError>)
    ensures
        match r {
            Ok(ir) => program_ok(general@) && program_first_err(general@) is None && ir_of(
                general@,
                ir,
            ) && ir.wf(),
            Err(e) => !program_ok(general@) && program_error(general@, e) && program_first_err(
                general@,
            ) == Some(err_v(e)),
        },
{
    let ghost bs = general@;
    let (nodes, edges, walkers, graphs) = split_blocks(general);
    let ghost nd = node_decls(bs);
    let ghost ed = edge_decls(bs);
    let ghost wd = walker_decls(bs);
    let ghost gs = graph_decls(bs);
    let node_names = names_of_blocks(&nodes);
    match find_duplicate(&node_names) {
        Some(j) => {
            let e = SemanticsError::DuplicateDeclaration(DeclKind::Node, node_names[j].clone());
            proof {
                lemma_program_error_rejects(bs, e);
            }
            return Err(e);
        },
        None => {},
    }
    let edge_list = names_of_edges(&edges);
    match find_duplicate(&edge_list) {
        Some(j) => {
            let e = SemanticsError::DuplicateDeclaration(DeclKind::Edge, edge_list[j].clone());
            proof {
                lemma_program_error_rejects(bs, e);
            }
            return Err(e);
        },
        None => {},
    }
    let walker_list = names_of_walkers(&walkers);
    match find_duplicate(&walker_list) {
        Some(j) => {
            let e = SemanticsError::DuplicateDeclaration(DeclKind::Walker, walker_list[j].clone());
            proof {
                lemma_program_error_rejects(bs, e);
            }
            return Err(e);
        },
        None => {},
    }
    let sem_edges = match transform_edge_hashmap_to_semantic(&nodes, &node_names, edges) {
        Ok(es) => es,
        Err(e) => {
            proof {
                lemma_program_error_rejects(bs, e);
            }
            return Err(e);
        },
    };
    let sem_walkers = match transform_walker_hashmap_to_semantic(&nodes, &node_names, &walkers) {
        Ok(ws) => ws,
        Err(e) => {
            proof {
                lemma_program_error_rejects(bs, e);
            }
            return Err(e);
        },
    };
    proof {
        assert(sem_edge_names(sem_edges@) =~= edge_names(ed)) by {
            assert forall|i: int| 0 <= i < ed.len() implies sem_edge_names(sem_edges@)[i]
                == edge_names(ed)[i] by {
                assert(sem_edge_of(nd, ed[i], *sem_edges@[i]));
            }
        }
        assert(sem_walker_names(sem_walkers@) =~= walker_names(wd)) by {
            assert forall|i: int| 0 <= i < wd.len() implies sem_walker_names(sem_walkers@)[i]
                == walker_names(wd)[i] by {
                assert(sem_walker_of(nd, wd[i], *sem_walkers@[i]));
            }
        }
        assert(sem_walker_types(sem_walkers@) =~= walker_types(wd)) by {
            assert forall|i: int| 0 <= i < wd.len() implies sem_walker_types(sem_walkers@)[i]
                == walker_types(wd)[i] by {
                assert(sem_walker_of(nd, wd[i], *sem_walkers@[i]));
                let k = choose|k: int|
                    0 <= k < nd.len() && (#[trigger] nd[k]).name@ == wd[i].node_type@ && nd[k]
                        == *sem_walkers@[i].node_type;
            }
        }
        assert forall|a: int| 0 <= a < sem_walkers@.len() implies crate::sem_type::block_in(
            nodes@,
            *(#[trigger] sem_walkers@[a]).node_type,
        ) by {
            assert(sem_walker_of(nd, wd[a], *sem_walkers@[a]));
            let k = choose|k: int|
                0 <= k < nd.len() && (#[trigger] nd[k]).name@ == wd[a].node_type@ && nd[k]
                    == *sem_walkers@[a].node_type;
            assert(nd[k] == *nodes@[k]);
        }
    }
    let sem_graphs = match transform_graph_to_semantic(
        &nodes,
        &node_names,
        &sem_walkers,
        &walker_list,
        &sem_edges,
        &edge_list,
        &graphs,
    ) {
        Ok(gs) => gs,
        Err(e) => {
            proof {
                lemma_program_error_rejects(bs, e);
            }
            return Err(e);
        },
    };
    let ir = SemanticGlobal { nodes, edges: sem_edges, walkers: sem_walkers, graphs: sem_graphs };
    proof {
        assert forall|i: int, j: int| 0 <= i < j < ir.nodes@.len() implies (#[trigger] ir.nodes@[i]).name@
            != (#[trigger] ir.nodes@[j]).name@ by {
            assert(views(node_names@)[i] == block_names(nd)[i]);
            assert(views(node_names@)[j] == block_names(nd)[j]);
            assert(nd[i] == *ir.nodes@[i] && nd[j] == *ir.nodes@[j]);
        }
        assert forall|i: int, j: int| 0 <= i < j < ir.edges@.len() implies (#[trigger] ir.edges@[i]).named_block.name@
            != (#[trigger] ir.edges@[j]).named_block.name@ by {
            assert(sem_edge_names(ir.edges@)[i] == views(edge_list@)[i]);
            assert(sem_edge_names(ir.edges@)[j] == views(edge_list@)[j]);
        }
        assert forall|i: int, j: int| 0 <= i < j < ir.walkers@.len() implies (#[trigger] ir.walkers@[i]).name@
            != (#[trigger] ir.walkers@[j]).name@ by {
            assert(sem_walker_names(ir.walkers@)[i] == views(walker_list@)[i]);
            assert(sem_walker_names(ir.walkers@)[j] == views(walker_list@)[j]);
        }
        assert forall|i: int| 0 <= i < ir.edges@.len() implies crate::sem_type::block_in(
            ir.nodes@,
            *(#[trigger] ir.edges@[i]).from,
        ) && crate::sem_type::block_in(ir.nodes@, *ir.edges@[i].to) by {
            assert(sem_edge_of(nd, ed[i], *ir.edges@[i]));
            let k = choose|k: int|
                0 <= k < nd.len() && (#[trigger] nd[k]).name@ == ed[i].from@ && nd[k]
                    == *ir.edges@[i].from;
            assert(nd[k] == *ir.nodes@[k]);
            let k2 = choose|k: int|
                0 <= k < nd.len() && (#[trigger] nd[k]).name@ == ed[i].to@ && nd[k]
                    == *ir.edges@[i].to;
            assert(nd[k2] == *ir.nodes@[k2]);
        }
        assert forall|gi: int| 0 <= gi < ir.graphs@.len() implies (#[trigger] ir.graphs@[gi]).wf_in(
            ir.nodes@,
            ir.edges@,
            ir.walkers@,
        ) by {
            assert(sem_graph_of(nd, ir.edges@, ir.walkers@, gs[gi], ir.graphs@[gi]));
        }
        assert forall|gi: int| 0 <= gi < gs.len() implies graph_ok(
            block_names(nd),
            edge_names(ed),
            walker_names(wd),
            walker_types(wd),
            #[trigger] gs[gi],
        ) by {
            assert(graph_ok(
                views(node_names@),
                views(edge_list@),
                views(walker_list@),
                sem_walker_types(ir.walkers@),
                gs[gi],
            ));
        }
    }
    Ok(ir)
}

/// Moving blocks of different kinds past each other changes nothing: acceptance, the
/// defects reported and the resolved program depend only on the blocks of each kind,
/// in source order.
pub proof fn lemma_interleaving_irrelevant(b1: Seq<GeneralBlock>, b2: Seq<GeneralBlock>)
    requires
        node_decls(b1) == node_decls(b2),
        edge_decls(b1) == edge_decls(b2),
        walker_decls(b1) == walker_decls(b2),
        graph_decls(b1) == graph_decls(b2),
    ensures
        program_ok(b1) == program_ok(b2),
        forall|e: SemanticsError| #[trigger] program_error(b1, e) == program_error(b2, e),
        forall|ir: SemanticGlobal| #[trigger] ir_of(b1, ir) == ir_of(b2, ir),
{
}

/// `t` is `s` reordered: position `i` of `t` holds position `f(i)` of `s`, and `g` maps
/// back.
pub open spec fn reorders<A>(
    s: Seq<A>,
    t: Seq<A>,
    f: spec_fn(int) -> int,
    g: spec_fn(int) -> int,
) -> bool {
    &&& s.len() == t.len()
    &&& forall|i: int|
        0 <= i < t.len() ==> 0 <= #[trigger] f(i) < s.len() && t[i] == s[f(i)] && g(f(i)) == i
    &&& forall|j: int|
        0 <= j < s.len() ==> 0 <= #[trigger] g(j) < t.len() && s[j] == t[g(j)] && f(g(j)) == j
}

proof fn lemma_reorder_names(
    s: Seq<Seq<char>>,
    t: Seq<Seq<char>>,
    f: spec_fn(int) -> int,
    g: spec_fn(int) -> int,
)
    requires
        reorders(s, t, f, g),
    ensures
        distinct(s) == distinct(t),
        forall|x: Seq<char>| #[trigger] s.contains(x) == t.contains(x),
{
    assert forall|x: Seq<char>| #[trigger] s.contains(x) == t.contains(x) by {
        if s.contains(x) {
            let j = choose|j: int| 0 <= j < s.len() && s[j] == x;
            assert(t[g(j)] == x);
        }
        if t.contains(x) {
            let i = choose|i: int| 0 <= i < t.len() && t[i] == x;
            assert(s[f(i)] == x);
        }
    }
    if distinct(s) {
        assert forall|i: int, j: int|
            0 <= i < t.len() && 0 <= j < t.len() && i != j implies t[i] != t[j] by {
            assert(g(f(i)) == i && g(f(j)) == j);
        }
    }
    if distinct(t) {
        assert forall|i: int, j: int|
            0 <= i < s.len() && 0 <= j < s.len() && i != j implies s[i] != s[j] by {
            assert(f(g(i)) == i && f(g(j)) == j);
        }
    }
}

proof fn lemma_graph_ok_reorder(
    nn1: Seq<Seq<char>>,
    en1: Seq<Seq<char>>,
    wn1: Seq<Seq<char>>,
    wt1: Seq<Seq<char>>,
    nn2: Seq<Seq<char>>,
    en2: Seq<Seq<char>>,
    wn2: Seq<Seq<char>>,
    wt2: Seq<Seq<char>>,
    fw: spec_fn(int) -> int,
    gw: spec_fn(int) -> int,
    g: Graph,
)
    requires
        forall|x: Seq<char>| #[trigger] nn1.contains(x) == nn2.contains(x),
        forall|x: Seq<char>| #[trigger] en1.contains(x) == en2.contains(x),
        reorders(wn1, wn2, fw, gw),
        reorders(wt1, wt2, fw, gw),
        wn1.len() == wt1.len(),
    ensures
        graph_ok(nn1, en1, wn1, wt1, g) == graph_ok(nn2, en2, wn2, wt2, g),
{
    lemma_reorder_names(wn1, wn2, fw, gw);
    let ns = g.node_insts@;
    assert forall|k: int| 0 <= k < g.walker_insts@.len() implies walker_inst_ok(
        wn1,
        wt1,
        ns,
        #[trigger] g.walker_insts@[k],
    ) == walker_inst_ok(wn2, wt2, ns, g.walker_insts@[k]) by {
        let w = g.walker_insts@[k];
        if walker_inst_ok(wn1, wt1, ns, w) {
            assert forall|a: int, b: int|
                0 <= a < wn2.len() && 0 <= b < ns.len() && #[trigger] wn2[a] == w.walker_type@
                    && (#[trigger] ns[b]).varname@ == w.start_node@ implies ns[b].node_type@
                == wt2[a] by {
                assert(wn1[fw(a)] == wn2[a]);
                assert(wt1[fw(a)] == wt2[a]);
            }
        }
        if walker_inst_ok(wn2, wt2, ns, w) {
            assert forall|a: int, b: int|
                0 <= a < wn1.len() && 0 <= b < ns.len() && #[trigger] wn1[a] == w.walker_type@
                    && (#[trigger] ns[b]).varname@ == w.start_node@ implies ns[b].node_type@
                == wt1[a] by {
                assert(wn2[gw(a)] == wn1[a]);
                assert(wt2[gw(a)] == wt1[a]);
            }
        }
    }
}

/// Reordering the declarations within each kind, and the graphs, changes neither whether
/// the program is accepted nor what its declarations resolve to: the resolved node, edge
/// and walker declarations come out in the same reordering.
pub proof fn lemma_reordering_keeps_meaning(
    b1: Seq<GeneralBlock>,
    b2: Seq<GeneralBlock>,
    fnd: spec_fn(int) -> int,
    gnd: spec_fn(int) -> int,
    fed: spec_fn(int) -> int,
    ged: spec_fn(int) -> int,
    fwd: spec_fn(int) -> int,
    gwd: spec_fn(int) -> int,
    fgs: spec_fn(int) -> int,
    ggs: spec_fn(int) -> int,
)
    requires
        reorders(node_decls(b1), node_decls(b2), fnd, gnd),
        reorders(edge_decls(b1), edge_decls(b2), fed, ged),
        reorders(walker_decls(b1), walker_decls(b2), fwd, gwd),
        reorders(graph_decls(b1), graph_decls(b2), fgs, ggs),
    ensures
        program_ok(b1) == program_ok(b2),
        forall|ir1: SemanticGlobal, ir2: SemanticGlobal|
            program_ok(b1) && #[trigger] ir_of(b1, ir1) && #[trigger] ir_of(b2, ir2) ==> {
                &&& reorders(rc_blocks(ir1.nodes@), rc_blocks(ir2.nodes@), fnd, gnd)
                &&& forall|i: int|
                    0 <= i < ir2.edges@.len() ==> *#[trigger] ir2.edges@[i] == *ir1.edges@[fed(i)]
                &&& forall|i: int|
                    0 <= i < ir2.walkers@.len() ==> (#[trigger] ir2.walkers@[i]).name@
                        == ir1.walkers@[fwd(i)].name@ && *ir2.walkers@[i].node_type
                        == *ir1.walkers@[fwd(i)].node_type
            },
{
    let nd1 = node_decls(b1);
    let nd2 = node_decls(b2);
    let ed1 = edge_decls(b1);
    let ed2 = edge_decls(b2);
    let wd1 = walker_decls(b1);
    let wd2 = walker_decls(b2);
    let gs1 = graph_decls(b1);
    let gs2 = graph_decls(b2);
    let nn1 = block_names(nd1);
    let nn2 = block_names(nd2);
    assert(reorders(nn1, nn2, fnd, gnd));
    assert(reorders(edge_names(ed1), edge_names(ed2), fed, ged));
    assert(reorders(walker_names(wd1), walker_names(wd2), fwd, gwd));
    assert(reorders(walker_types(wd1), walker_types(wd2), fwd, gwd));
    lemma_reorder_names(nn1, nn2, fnd, gnd);
    lemma_reorder_names(edge_names(ed1), edge_names(ed2), fed, ged);
    lemma_reorder_names(walker_names(wd1), walker_names(wd2), fwd, gwd);
    let ok_edges1 = forall|i: int|
        0 <= i < ed1.len() ==> nn1.contains((#[trigger] ed1[i]).from@) && nn1.contains(ed1[i].to@);
    let ok_edges2 = forall|i: int|
        0 <= i < ed2.len() ==> nn2.contains((#[trigger] ed2[i]).from@) && nn2.contains(ed2[i].to@);
    if ok_edges1 {
        assert forall|i: int| 0 <= i < ed2.len() implies nn2.contains((#[trigger] ed2[i]).from@)
            && nn2.contains(ed2[i].to@) by {
            assert(ed2[i] == ed1[fed(i)]);
        }
    }
    if ok_edges2 {
        assert forall|i: int| 0 <= i < ed1.len() implies nn1.contains((#[trigger] ed1[i]).from@)
            && nn1.contains(ed1[i].to@) by {
            assert(ed1[i] == ed2[ged(i)]);
        }
    }
    let ok_walkers1 = forall|i: int| 0 <= i < wd1.len() ==> nn1.contains((#[trigger] wd1[i]).node_type@);
    let ok_walkers2 = forall|i: int| 0 <= i < wd2.len() ==> nn2.contains((#[trigger] wd2[i]).node_type@);
    if ok_walkers1 {
        assert forall|i: int| 0 <= i < wd2.len() implies nn2.contains((#[trigger] wd2[i]).node_type@) by {
            assert(wd2[i] == wd1[fwd(i)]);
        }
    }
    if ok_walkers2 {
        assert forall|i: int| 0 <= i < wd1.len() implies nn1.contains((#[trigger] wd1[i]).node_type@) by {
            assert(wd1[i] == wd2[gwd(i)]);
        }
    }
    assert forall|g: Graph| #[trigger] graph_ok(nn1, edge_names(ed1), walker_names(wd1), walker_types(wd1), g)
        == graph_ok(nn2, edge_names(ed2), walker_names(wd2), walker_types(wd2), g) by {
        lemma_graph_ok_reorder(
            nn1,
            edge_names(ed1),
            walker_names(wd1),
            walker_types(wd1),
            nn2,
            edge_names(ed2),
            walker_names(wd2),
            walker_types(wd2),
            fwd,
            gwd,
            g,
        );
    }
    let ok_graphs1 = forall|gi: int|
        0 <= gi < gs1.len() ==> graph_ok(nn1, edge_names(ed1), walker_names(wd1), walker_types(wd1), #[trigger] gs1[gi]);
    let ok_graphs2 = forall|gi: int|
        0 <= gi < gs2.len() ==> graph_ok(nn2, edge_names(ed2), walker_names(wd2), walker_types(wd2), #[trigger] gs2[gi]);
    if ok_graphs1 {
        assert forall|gi: int| 0 <= gi < gs2.len() implies graph_ok(
            nn2,
            edge_names(ed2),
            walker_names(wd2),
            walker_types(wd2),
            #[trigger] gs2[gi],
        ) by {
            assert(gs2[gi] == gs1[fgs(gi)]);
        }
    }
    if ok_graphs2 {
        assert forall|gi: int| 0 <= gi < gs1.len() implies graph_ok(
            nn1,
            edge_names(ed1),
            walker_names(wd1),
            walker_types(wd1),
            #[trigger] gs1[gi],
        ) by {
            assert(gs1[gi] == gs2[ggs(gi)]);
        }
    }
    assert forall|ir1: SemanticGlobal, ir2: SemanticGlobal|
        program_ok(b1) && #[trigger] ir_of(b1, ir1) && #[trigger] ir_of(b2, ir2) implies {
            &&& reorders(rc_blocks(ir1.nodes@), rc_blocks(ir2.nodes@), fnd, gnd)
            &&& forall|i: int|
                0 <= i < ir2.edges@.len() ==> *#[trigger] ir2.edges@[i] == *ir1.edges@[fed(i)]
            &&& forall|i: int|
                0 <= i < ir2.walkers@.len() ==> (#[trigger] ir2.walkers@[i]).name@
                    == ir1.walkers@[fwd(i)].name@ && *ir2.walkers@[i].node_type
                    == *ir1.walkers@[fwd(i)].node_type
        } by {
        assert forall|i: int| 0 <= i < ir2.edges@.len() implies *#[trigger] ir2.edges@[i]
            == *ir1.edges@[fed(i)] by {
            let e = ed2[i];
            assert(e == ed1[fed(i)]);
            let x2 = *ir2.edges@[i];
            let x1 = *ir1.edges@[fed(i)];
            assert(sem_edge_of(nd2, e, x2));
            assert(sem_edge_of(nd1, e, x1));
            lemma_resolves_unique(nd1, nd2, fnd, gnd, e.from@, *x1.from, *x2.from);
            lemma_resolves_unique(nd1, nd2, fnd, gnd, e.to@, *x1.to, *x2.to);
        }
        assert forall|i: int| 0 <= i < ir2.walkers@.len() implies (#[trigger] ir2.walkers@[i]).name@
            == ir1.walkers@[fwd(i)].name@ && *ir2.walkers@[i].node_type
            == *ir1.walkers@[fwd(i)].node_type by {
            let w = wd2[i];
            assert(w == wd1[fwd(i)]);
            let x2 = *ir2.walkers@[i];
            let x1 = *ir1.walkers@[fwd(i)];
            assert(sem_walker_of(nd2, w, x2));
            assert(sem_walker_of(nd1, w, x1));
            lemma_resolves_unique(nd1, nd2, fnd, gnd, w.node_type@, *x1.node_type, *x2.node_type);
        }
    }
}

/// With unique names, a name resolves to one block, whatever the order of the blocks.
proof fn lemma_resolves_unique(
    nd1: Seq<NamedBlock>,
    nd2: Seq<NamedBlock>,
    f: spec_fn(int) -> int,
    g: spec_fn(int) -> int,
    name: Seq<char>,
    x1: NamedBlock,
    x2: NamedBlock,
)
    requires
        reorders(nd1, nd2, f, g),
        distinct(block_names(nd1)),
        resolves(nd1, name, x1),
        resolves(nd2, name, x2),
    ensures
        x1 == x2,
{
    let k1 = choose|k: int| 0 <= k < nd1.len() && (#[trigger] nd1[k]).name@ == name && nd1[k] == x1;
    let k2 = choose|k: int| 0 <= k < nd2.len() && (#[trigger] nd2[k]).name@ == name && nd2[k] == x2;
    assert(nd2[k2] == nd1[f(k2)]);
    assert(block_names(nd1)[k1] == block_names(nd1)[f(k2)]);
}

/// `y` is the resolved graph `x` again: the same instances, in the same order, bound to
/// equal declarations and to instances of the same names.
pub open spec fn same_sem_graph(x: SemanticGraph, y: SemanticGraph) -> bool {
    &&& x.node_insts@.len() == y.node_insts@.len()
    &&& forall|k: int|
        0 <= k < x.node_insts@.len() ==> (#[trigger] x.node_insts@[k]).varname@
            == y.node_insts@[k].varname@ && *x.node_insts@[k].node_type
            == *y.node_insts@[k].node_type
    &&& x.edge_insts@.len() == y.edge_insts@.len()
    &&& forall|k: int|
        0 <= k < x.edge_insts@.len() ==> {
            let a = #[trigger] x.edge_insts@[k];
            let b = y.edge_insts@[k];
            &&& *a.edge_type == *b.edge_type
            &&& a.from_var.varname@ == b.from_var.varname@
            &&& a.to_var.varname@ == b.to_var.varname@
            &&& a.weight == b.weight
        }
    &&& x.walker_insts@.len() == y.walker_insts@.len()
    &&& forall|k: int|
        0 <= k < x.walker_insts@.len() ==> {
            let a = #[trigger] x.walker_insts@[k];
            let b = y.walker_insts@[k];
            &&& a.walker_type.name@ == b.walker_type.name@
            &&& *a.walker_type.node_type == *b.walker_type.node_type
            &&& a.start_node.varname@ == b.start_node.varname@
        }
}

/// Under the reordering of `lemma_reordering_keeps_meaning`, each resolved graph of the
/// reordered program is the corresponding resolved graph of the first one; when the graphs
/// keep their order (`fgs` the identity), the resolved graphs come out in the same order.
pub proof fn lemma_reordering_keeps_graphs(
    b1: Seq<GeneralBlock>,
    b2: Seq<GeneralBlock>,
    fnd: spec_fn(int) -> int,
    gnd: spec_fn(int) -> int,
    fed: spec_fn(int) -> int,
    ged: spec_fn(int) -> int,
    fwd: spec_fn(int) -> int,
    gwd: spec_fn(int) -> int,
    fgs: spec_fn(int) -> int,
    ggs: spec_fn(int) -> int,
    ir1: SemanticGlobal,
    ir2: SemanticGlobal,
)
    requires
        reorders(node_decls(b1), node_decls(b2), fnd, gnd),
        reorders(edge_decls(b1), edge_decls(b2), fed, ged),
        reorders(walker_decls(b1), walker_decls(b2), fwd, gwd),
        reorders(graph_decls(b1), graph_decls(b2), fgs, ggs),
        program_ok(b1),
        ir_of(b1, ir1),
        ir_of(b2, ir2),
    ensures
        ir1.graphs@.len() == ir2.graphs@.len(),
        forall|i: int|
            0 <= i < ir2.graphs@.len() ==> same_sem_graph(
                ir1.graphs@[fgs(i)],
                #[trigger] ir2.graphs@[i],
            ),
{
    lemma_reordering_keeps_meaning(b1, b2, fnd, gnd, fed, ged, fwd, gwd, fgs, ggs);
    let nd1 = node_decls(b1);
    let nd2 = node_decls(b2);
    let ed1 = edge_decls(b1);
    let wd1 = walker_decls(b1);
    let gs1 = graph_decls(b1);
    let gs2 = graph_decls(b2);
    assert forall|i: int| 0 <= i < ir2.graphs@.len() implies same_sem_graph(
        ir1.graphs@[fgs(i)],
        #[trigger] ir2.graphs@[i],
    ) by {
        let g = gs2[i];
        assert(g == gs1[fgs(i)]);
        let s1 = ir1.graphs@[fgs(i)];
        let s2 = ir2.graphs@[i];
        assert(sem_graph_of(nd1, ir1.edges@, ir1.walkers@, g, s1));
        assert(sem_graph_of(nd2, ir2.edges@, ir2.walkers@, g, s2));
        let gn = g.node_insts@;
        assert forall|k: int| 0 <= k < s1.node_insts@.len() implies (#[trigger] s1.node_insts@[k]).varname@
            == s2.node_insts@[k].varname@ && *s1.node_insts@[k].node_type
            == *s2.node_insts@[k].node_type by {
            assert(s2.node_insts@[k].varname@ == gn[k].varname@);
            lemma_resolves_unique(
                nd1,
                nd2,
                fnd,
                gnd,
                gn[k].node_type@,
                *s1.node_insts@[k].node_type,
                *s2.node_insts@[k].node_type,
            );
        }
        assert forall|k: int| 0 <= k < s1.edge_insts@.len() implies {
            let a = #[trigger] s1.edge_insts@[k];
            let b = s2.edge_insts@[k];
            &&& *a.edge_type == *b.edge_type
            &&& a.from_var.varname@ == b.from_var.varname@
            &&& a.to_var.varname@ == b.to_var.varname@
            &&& a.weight == b.weight
        } by {
            let e = g.edge_insts@[k];
            let x1 = *s1.edge_insts@[k];
            let x2 = *s2.edge_insts@[k];
            assert(sem_edge_inst_of(ir1.edges@, gn, s1.node_insts@, e, x1));
            assert(sem_edge_inst_of(ir2.edges@, gn, s2.node_insts@, e, x2));
            let a1 = choose|a: int|
                0 <= a < ir1.edges@.len() && (#[trigger] ir1.edges@[a]).named_block.name@
                    == e.edge_type@ && *ir1.edges@[a] == *x1.edge_type;
            let a2 = choose|a: int|
                0 <= a < ir2.edges@.len() && (#[trigger] ir2.edges@[a]).named_block.name@
                    == e.edge_type@ && *ir2.edges@[a] == *x2.edge_type;
            assert(*ir2.edges@[a2] == *ir1.edges@[fed(a2)]);
            assert(sem_edge_of(nd1, ed1[a1], *ir1.edges@[a1]));
            assert(sem_edge_of(nd1, ed1[fed(a2)], *ir1.edges@[fed(a2)]));
            assert(edge_names(ed1)[a1] == edge_names(ed1)[fed(a2)]);
            let bf1 = choose|b: int|
                0 <= b < gn.len() && b < s1.node_insts@.len() && (#[trigger] gn[b]).varname@
                    == e.from_varname@ && *s1.node_insts@[b] == *x1.from_var;
            let bf2 = choose|b: int|
                0 <= b < gn.len() && b < s2.node_insts@.len() && (#[trigger] gn[b]).varname@
                    == e.from_varname@ && *s2.node_insts@[b] == *x2.from_var;
            assert(s1.node_insts@[bf1].varname@ == gn[bf1].varname@);
            assert(s2.node_insts@[bf2].varname@ == gn[bf2].varname@);
            let bt1 = choose|b: int|
                0 <= b < gn.len() && b < s1.node_insts@.len() && (#[trigger] gn[b]).varname@
                    == e.to_varname@ && *s1.node_insts@[b] == *x1.to_var;
            let bt2 = choose|b: int|
                0 <= b < gn.len() && b < s2.node_insts@.len() && (#[trigger] gn[b]).varname@
                    == e.to_varname@ && *s2.node_insts@[b] == *x2.to_var;
            assert(s1.node_insts@[bt1].varname@ == gn[bt1].varname@);
            assert(s2.node_insts@[bt2].varname@ == gn[bt2].varname@);
        }
        assert forall|k: int| 0 <= k < s1.walker_insts@.len() implies {
            let a = #[trigger] s1.walker_insts@[k];
            let b = s2.walker_insts@[k];
            &&& a.walker_type.name@ == b.walker_type.name@
            &&& *a.walker_type.node_type == *b.walker_type.node_type
            &&& a.start_node.varname@ == b.start_node.varname@
        } by {
            let w = g.walker_insts@[k];
            let x1 = *s1.walker_insts@[k];
            let x2 = *s2.walker_insts@[k];
            assert(sem_walker_inst_of(ir1.walkers@, gn, s1.node_insts@, w, x1));
            assert(sem_walker_inst_of(ir2.walkers@, gn, s2.node_insts@, w, x2));
            let a1 = choose|a: int|
                0 <= a < ir1.walkers@.len() && (#[trigger] ir1.walkers@[a]).name@ == w.walker_type@
                    && *ir1.walkers@[a] == *x1.walker_type;
            let a2 = choose|a: int|
                0 <= a < ir2.walkers@.len() && (#[trigger] ir2.walkers@[a]).name@ == w.walker_type@
                    && *ir2.walkers@[a] == *x2.walker_type;
            assert(ir2.walkers@[a2].name@ == ir1.walkers@[fwd(a2)].name@);
            assert(sem_walker_of(nd1, wd1[a1], *ir1.walkers@[a1]));
            assert(sem_walker_of(nd1, wd1[fwd(a2)], *ir1.walkers@[fwd(a2)]));
            assert(walker_names(wd1)[a1] == walker_names(wd1)[fwd(a2)]);
            let b1s = choose|b: int|
                0 <= b < gn.len() && b < s1.node_insts@.len() && (#[trigger] gn[b]).varname@
                    == w.start_node@ && *s1.node_insts@[b] == *x1.start_node;
            let b2s = choose|b: int|
                0 <= b < gn.len() && b < s2.node_insts@.len() && (#[trigger] gn[b]).varname@
                    == w.start_node@ && *s2.node_insts@[b] == *x2.start_node;
            assert(s1.node_insts@[b1s].varname@ == gn[b1s].varname@);
            assert(s2.node_insts@[b2s].varname@ == gn[b2s].varname@);
        }
    }
}

} // verus!
