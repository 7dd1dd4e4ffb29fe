use std::rc::Rc;
use vstd::prelude::*;

use crate::base_type::fields_size;
use crate::sem_type::{SemanticEdgeInst, SemanticNodeInst};

verus! {

/// Why no assignment of node instances to cores was produced.
#[derive(Debug, Clone)]
pub enum DataMappingError {
    /// An edge endpoint names no node instance of the graph.
    NodeNotFound(String),
    /// The constraint system has no solution.
    NoSolutionFound,
    /// The byte size of the named block does not fit in 64 bits.
    SizeOverflow(String),
    /// A proposed assignment breaks the range or capacity constraints.
    InvalidModel,
}

/// The node instances placed on one core.
pub struct PIMCoreAssignment {
    pub nodes: Vec<Rc<SemanticNodeInst>>,
}

/// An edge instance as the partitioner sees it: endpoint positions, byte cost, affinity.
#[derive(Debug, Clone, Copy, PartialEq, Eq, Structural)]
pub struct EdgeTerm {
    pub from: usize,
    pub to: usize,
    pub size: i64,
    pub weight: i64,
}

/// The capacity-constrained placement problem of one graph, as plain values.
#[derive(Debug, Clone)]
pub struct PartitionProblem {
    /// Byte size of the declared type of each node instance.
    pub node_sizes: Vec<i64>,
    pub edges: Vec<EdgeTerm>,
    /// Number of cores `K`.
    pub core_num: i64,
    /// Capacity `C` of each core, in bytes.
    pub core_size: i64,
}

impl PartitionProblem {
    pub open spec fn wf(&self) -> bool {
        &&& self.core_num >= 1
        &&& self.core_size >= 0
        &&& forall|i: int| 0 <= i < self.node_sizes@.len() ==> #[trigger] self.node_sizes@[i] >= 0
        &&& forall|k: int|
            0 <= k < self.edges@.len() ==> (#[trigger] self.edges@[k]).from < self.node_sizes@.len()
                && self.edges@[k].to < self.node_sizes@.len() && self.edges@[k].size >= 0
    }
}

// ---------------------------------------------------------------------------
// The load and objective model
// ---------------------------------------------------------------------------

/// Bytes that the node instances placed on core `j` contribute.
pub open spec fn node_load(sizes: Seq<i64>, x: Seq<i64>, j: int) -> int
    decreases sizes.len(),
{
    if sizes.len() == 0 {
        0
    } else {
        node_load(sizes.drop_last(), x, j) + if x[sizes.len() - 1] == j {
            sizes.last() as int
        } else {
            0
        }
    }
}

/// Bytes that the edges with an endpoint on core `j` contribute.
pub open spec fn edge_load(es: Seq<EdgeTerm>, x: Seq<i64>, j: int) -> int
    decreases es.len(),
{
    if es.len() == 0 {
        0
    } else {
        let e = es.last();
        edge_load(es.drop_last(), x, j) + if x[e.from as int] == j || x[e.to as int] == j {
            e.size as int
        } else {
            0
        }
    }
}

/// The modelled memory footprint of core `j` under assignment `x`.
pub open spec fn load(p: PartitionProblem, x: Seq<i64>, j: int) -> int {
    node_load(p.node_sizes@, x, j) + edge_load(p.edges@, x, j)
}

/// Total weight of the edges whose endpoints share a core.
pub open spec fn affinity(es: Seq<EdgeTerm>, x: Seq<i64>) -> int
    decreases es.len(),
{
    if es.len() == 0 {
        0
    } else {
        let e = es.last();
        affinity(es.drop_last(), x) + if x[e.from as int] == x[e.to as int] {
            e.weight as int
        } else {
            0
        }
    }
}

/// `x` places every node instance on one of the `K` cores.
pub open spec fn in_range(p: PartitionProblem, x: Seq<i64>) -> bool {
    &&& x.len() == p.node_sizes@.len()
    &&& forall|i: int| 0 <= i < x.len() ==> 0 <= #[trigger] x[i] < p.core_num
}

/// `x` is a placement that keeps every core within its capacity.
pub open spec fn feasible(p: PartitionProblem, x: Seq<i64>) -> bool {
    &&& in_range(p, x)
    &&& forall|j: int| 0 <= j < p.core_num ==> #[trigger] load(p, x, j) <= p.core_size
}

/// The positions of the node instances that `x` places on core `j`, in order.
pub open spec fn bucket_indices(x: Seq<i64>, j: int) -> Seq<int>
    decreases x.len(),
{
    if x.len() == 0 {
        Seq::empty()
    } else {
        let rest = bucket_indices(x.drop_last(), j);
        if x.last() == j {
            rest.push(x.len() - 1)
        } else {
            rest
        }
    }
}

/// The node instances that `x` places on core `j`, in order.
pub open spec fn bucket(u: Seq<Rc<SemanticNodeInst>>, x: Seq<i64>, j: int) -> Seq<
    Rc<SemanticNodeInst>,
> {
    bucket_indices(x, j).map_values(|i: int| u[i])
}

proof fn lemma_node_load_prefix(sizes: Seq<i64>, x: Seq<i64>, j: int, i: int)
    requires
        0 <= i <= sizes.len(),
        forall|k: int| 0 <= k < sizes.len() ==> #[trigger] sizes[k] >= 0,
    ensures
        0 <= node_load(sizes.take(i), x, j) <= node_load(sizes, x, j),
    decreases sizes.len(),
{
    if sizes.len() > 0 {
        if i == sizes.len() {
            assert(sizes.take(i) =~= sizes);
            lemma_node_load_prefix(sizes.drop_last(), x, j, i - 1);
            assert(sizes.drop_last().take(i - 1) =~= sizes.drop_last());
        } else {
            lemma_node_load_prefix(sizes.drop_last(), x, j, i);
            assert(sizes.drop_last().take(i) =~= sizes.take(i));
        }
    }
}

proof fn lemma_edge_load_prefix(es: Seq<EdgeTerm>, x: Seq<i64>, j: int, i: int)
    requires
        0 <= i <= es.len(),
        forall|k: int| 0 <= k < es.len() ==> (#[trigger] es[k]).size >= 0,
    ensures
        0 <= edge_load(es.take(i), x, j) <= edge_load(es, x, j),
    decreases es.len(),
{
    if es.len() > 0 {
        if i == es.len() {
            assert(es.take(i) =~= es);
            lemma_edge_load_prefix(es.drop_last(), x, j, i - 1);
            assert(es.drop_last().take(i - 1) =~= es.drop_last());
        } else {
            lemma_edge_load_prefix(es.drop_last(), x, j, i);
            assert(es.drop_last().take(i) =~= es.take(i));
        }
    }
}

/// Whether the modelled load of core `j` stays within capacity; stops once it does not.
fn core_load_within(p: &PartitionProblem, x: &Vec<i64>, j: i64) -> (r: bool)
    requires
        p.wf(),
        in_range(*p, x@),
    ensures
        r == (load(*p, x@, j as int) <= p.core_size),
{
    let mut acc: i128 = 0;
    let mut i: usize = 0;
    while i < p.node_sizes.len()
        invariant
            p.wf(),
            in_range(*p, x@),
            i <= p.node_sizes@.len(),
            acc as int == node_load(p.node_sizes@.take(i as int), x@, j as int),
            0 <= acc <= p.core_size,
        decreases p.node_sizes@.len() - i,
    {
        proof {
            assert(p.node_sizes@.take(i + 1).drop_last() =~= p.node_sizes@.take(i as int));
        }
        if x[i] == j {
            acc = acc + p.node_sizes[i] as i128;
        }
        i = i + 1;
        if acc > p.core_size as i128 {
            proof {
                lemma_node_load_prefix(p.node_sizes@, x@, j as int, i as int);
                lemma_edge_load_prefix(p.edges@, x@, j as int, 0);
            }
            return false;
        }
    }
    assert(p.node_sizes@.take(i as int) =~= p.node_sizes@);
    let ghost nl = acc as int;
    let mut k: usize = 0;
    while k < p.edges.len()
        invariant
            p.wf(),
            in_range(*p, x@),
            k <= p.edges@.len(),
            nl == node_load(p.node_sizes@, x@, j as int),
            acc as int == nl + edge_load(p.edges@.take(k as int), x@, j as int),
            0 <= acc <= p.core_size,
        decreases p.edges@.len() - k,
    {
        proof {
            assert(p.edges@.take(k + 1).drop_last() =~= p.edges@.take(k as int));
        }
        let e = p.edges[k];
        assert(e == p.edges@[k as int]);
        if x[e.from] == j || x[e.to] == j {
            acc = acc + e.size as i128;
        }
        k = k + 1;
        if acc > p.core_size as i128 {
            proof {
                lemma_edge_load_prefix(p.edges@, x@, j as int, k as int);
            }
            return false;
        }
    }
    assert(p.edges@.take(k as int) =~= p.edges@);
    true
}

/// Whether `x` places every node instance on a core and keeps every core within capacity.
pub fn is_feasible(p: &PartitionProblem, x: &Vec<i64>) -> (r: bool)
    requires
        p.wf(),
    ensures
        r == feasible(*p, x@),
{
    if x.len() != p.node_sizes.len() {
        return false;
    }
    let mut i: usize = 0;
    while i < x.len()
        invariant
            i <= x@.len(),
            forall|k: int| 0 <= k < i ==> 0 <= #[trigger] x@[k] < p.core_num,
        decreases x@.len() - i,
    {
        if x[i] < 0 || x[i] >= p.core_num {
            return false;
        }
        i = i + 1;
    }
    let mut j: i64 = 0;
    while j < p.core_num
        invariant
            p.wf(),
            in_range(*p, x@),
            0 <= j <= p.core_num,
            forall|c: int| 0 <= c < j ==> #[trigger] load(*p, x@, c) <= p.core_size,
        decreases p.core_num - j,
    {
        if !core_load_within(p, x, j) {
            return false;
        }
        j = j + 1;
    }
    true
}

/// The affinity that `x` achieves: total weight of the edges kept on one core.
pub fn objective(p: &PartitionProblem, x: &Vec<i64>) -> (r: i128)
    requires
        p.wf(),
        in_range(*p, x@),
    ensures
        r as int == affinity(p.edges@, x@),
{
    let mut acc: i128 = 0;
    let mut k: usize = 0;
    while k < p.edges.len()
        invariant
            p.wf(),
            in_range(*p, x@),
            k <= p.edges@.len(),
            acc as int == affinity(p.edges@.take(k as int), x@),
            -(k as int) * 0x8000_0000_0000_0000 <= acc <= (k as int) * 0x8000_0000_0000_0000,
        decreases p.edges@.len() - k,
    {
        proof {
            assert(p.edges@.take(k + 1).drop_last() =~= p.edges@.take(k as int));
            assert((k + 1) as int * 0x8000_0000_0000_0000 <= 0xffff_ffff_ffff_ffff as int
                * 0x8000_0000_0000_0000) by (nonlinear_arith)
                requires
                    k + 1 <= 0xffff_ffff_ffff_ffff,
            ;
            assert((k + 1) as int * 0x8000_0000_0000_0000 == (k as int) * 0x8000_0000_0000_0000
                + 0x8000_0000_0000_0000) by (nonlinear_arith);
        }
        let e = p.edges[k];
        assert(e == p.edges@[k as int]);
        if x[e.from] == x[e.to] {
            acc = acc + e.weight as i128;
        }
        k = k + 1;
        assert((k as int) * 0x8000_0000_0000_0000 == (k - 1) as int * 0x8000_0000_0000_0000
            + 0x8000_0000_0000_0000) by (nonlinear_arith);
    }
    assert(p.edges@.take(k as int) =~= p.edges@);
    acc
}

// ---------------------------------------------------------------------------
// Buckets
// ---------------------------------------------------------------------------

/// A position is in bucket `j` exactly when `x` places it on `j`; positions come in
/// increasing order.
pub proof fn lemma_bucket_indices(x: Seq<i64>, j: int)
    ensures
        forall|t: int| #[trigger]
            bucket_indices(x, j).contains(t) <==> 0 <= t < x.len() && x[t] == j,
        forall|a: int, b: int|
            0 <= a < b < bucket_indices(x, j).len() ==> bucket_indices(x, j)[a]
                < bucket_indices(x, j)[b],
        forall|a: int|
            0 <= a < bucket_indices(x, j).len() ==> 0 <= #[trigger] bucket_indices(x, j)[a]
                < x.len(),
    decreases x.len(),
{
    if x.len() > 0 {
        lemma_bucket_indices(x.drop_last(), j);
        let rest = bucket_indices(x.drop_last(), j);
        let b = bucket_indices(x, j);
        let n = x.len() - 1;
        assert forall|t: int| #[trigger] b.contains(t) <==> 0 <= t < x.len() && x[t] == j by {
            assert(rest.contains(t) <==> 0 <= t < n && x.drop_last()[t] == j);
            if 0 <= t < n {
                assert(x.drop_last()[t] == x[t]);
            }
            if x.last() == j {
                assert(b == rest.push(n));
                if b.contains(t) {
                    let a = choose|a: int| 0 <= a < b.len() && b[a] == t;
                    if a < rest.len() {
                        assert(rest[a] == t);
                    }
                }
                if rest.contains(t) {
                    let a = choose|a: int| 0 <= a < rest.len() && rest[a] == t;
                    assert(b[a] == t);
                }
                if t == n {
                    assert(b[rest.len() as int] == t);
                }
            }
        }
    }
}

/// Buckets built from an in-range assignment partition the node instances: each
/// position lies in the bucket of its core and in no other.
pub proof fn lemma_buckets_partition(x: Seq<i64>, k: int, i: int)
    requires
        forall|t: int| 0 <= t < x.len() ==> 0 <= #[trigger] x[t] < k,
        0 <= i < x.len(),
    ensures
        0 <= x[i] < k,
        bucket_indices(x, x[i] as int).contains(i),
        forall|j: int| j != x[i] ==> !(#[trigger] bucket_indices(x, j)).contains(i),
{
    lemma_bucket_indices(x, x[i] as int);
    assert forall|j: int| j != x[i] implies !(#[trigger] bucket_indices(x, j)).contains(i) by {
        lemma_bucket_indices(x, j);
    }
}

/// Turns a solver outcome into buckets: `None` means that the constraint system was
/// found unsatisfiable; `Some(x)` places node instance `i` on core `x[i]`.
pub fn construct_result(
    unions: &Vec<Rc<SemanticNodeInst>>,
    p: &PartitionProblem,
    model: Option<Vec<i64>>,
) -> (r: Result<Vec<PIMCoreAssignment>, DataMappingError>)
    requires
        p.wf(),
        unions@.len() == p.node_sizes@.len(),
    ensures
        match model {
            None => r is Err && r->Err_0 is NoSolutionFound,
            Some(x) => if feasible(*p, x@) {
                r is Ok && {
                    let bs = r->Ok_0;
                    &&& bs@.len() == p.core_num
                    &&& forall|j: int|
                        0 <= j < bs@.len() ==> (#[trigger] bs@[j]).nodes@ == bucket(unions@, x@, j)
                    &&& forall|j: int| 0 <= j < p.core_num ==> #[trigger] load(*p, x@, j) <= p.core_size
                }
            } else {
                r is Err && r->Err_0 is InvalidModel
            },
        },
{
    let x = match model {
        None => {
            return Err(DataMappingError::NoSolutionFound);
        },
        Some(x) => x,
    };
    if !is_feasible(p, &x) {
        return Err(DataMappingError::InvalidModel);
    }
    let mut out: Vec<PIMCoreAssignment> = Vec::new();
    let mut j: i64 = 0;
    while j < p.core_num
        invariant
            p.wf(),
            feasible(*p, x@),
            unions@.len() == x@.len(),
            0 <= j <= p.core_num,
            out@.len() == j,
            forall|c: int| 0 <= c < j ==> (#[trigger] out@[c]).nodes@ == bucket(unions@, x@, c),
        decreases p.core_num - j,
    {
        let mut nodes: Vec<Rc<SemanticNodeInst>> = Vec::new();
        let mut i: usize = 0;
        while i < x.len()
            invariant
                unions@.len() == x@.len(),
                i <= x@.len(),
                nodes@ == bucket(unions@, x@.take(i as int), j as int),
            decreases x@.len() - i,
        {
            proof {
                assert(x@.take(i + 1).drop_last() =~= x@.take(i as int));
            }
            if x[i] == j {
                nodes.push(unions[i].clone());
            }
            i = i + 1;
            assert(nodes@ =~= bucket(unions@, x@.take(i as int), j as int));
        }
        assert(x@.take(i as int) =~= x@);
        out.push(PIMCoreAssignment { nodes });
        j = j + 1;
    }
    Ok(out)
}

// ---------------------------------------------------------------------------
// Encoding a graph
// ---------------------------------------------------------------------------

/// `i` is the first position of `u` whose variable is named `name`.
pub open spec fn first_var(u: Seq<Rc<SemanticNodeInst>>, name: Seq<char>, i: int) -> bool {
    &&& 0 <= i < u.len()
    &&& u[i].varname@ == name
    &&& forall|k: int| 0 <= k < i ==> (#[trigger] u[k]).varname@ != name
}

/// No node instance of `u` is named `name`.
pub open spec fn var_missing(u: Seq<Rc<SemanticNodeInst>>, name: Seq<char>) -> bool {
    forall|k: int| 0 <= k < u.len() ==> (#[trigger] u[k]).varname@ != name
}

/// The sizes of every node type and edge type of the graph fit in 64 bits, and every edge
/// endpoint names a node instance.
pub open spec fn encodable(u: Seq<Rc<SemanticNodeInst>>, es: Seq<Rc<SemanticEdgeInst>>) -> bool {
    &&& forall|i: int| 0 <= i < u.len() ==> fields_size((#[trigger] u[i]).node_type.fields@) <= i64::MAX
    &&& forall|k: int|
        0 <= k < es.len() ==> fields_size((#[trigger] es[k]).edge_type.named_block.fields@)
            <= i64::MAX && !var_missing(u, es[k].from_var.varname@) && !var_missing(
            u,
            es[k].to_var.varname@,
        )
}

/// `p` is the placement problem of the node instances `u` and edge instances `es`.
pub open spec fn encodes(
    u: Seq<Rc<SemanticNodeInst>>,
    es: Seq<Rc<SemanticEdgeInst>>,
    core_size: i64,
    core_num: i64,
    p: PartitionProblem,
) -> bool {
    &&& p.core_size == core_size
    &&& p.core_num == core_num
    &&& p.node_sizes@.len() == u.len()
    &&& forall|i: int|
        0 <= i < u.len() ==> p.node_sizes@[i] == fields_size((#[trigger] u[i]).node_type.fields@)
    &&& p.edges@.len() == es.len()
    &&& forall|k: int|
        0 <= k < es.len() ==> {
            let t = #[trigger] p.edges@[k];
            &&& first_var(u, es[k].from_var.varname@, t.from as int)
            &&& first_var(u, es[k].to_var.varname@, t.to as int)
            &&& t.size == fields_size(es[k].edge_type.named_block.fields@)
            &&& t.weight == es[k].weight
        }
}

/// The position of the first node instance named `target`.
pub fn find_node_with_name(nodes: &Vec<Rc<SemanticNodeInst>>, target: &String) -> (r: Result<
    usize,
    DataMappingError,
>)
    ensures
        match r {
            Ok(i) => first_var(nodes@, target@, i as int),
            Err(DataMappingError::NodeNotFound(n)) => var_missing(nodes@, target@) && n@ == target@,
            Err(_) => false,
        },
{
    let mut i: usize = 0;
    while i < nodes.len()
        invariant
            i <= nodes@.len(),
            forall|k: int| 0 <= k < i ==> (#[trigger] nodes@[k]).varname@ != target@,
        decreases nodes@.len() - i,
    {
        if nodes[i].varname == *target {
            return Ok(i);
        }
        i = i + 1;
    }
    Err(DataMappingError::NodeNotFound(target.clone()))
}

/// Builds the placement problem of a graph: the byte size of each node instance, and for
/// each edge instance the positions of its endpoints, its byte size and its weight.
pub fn encode_partition(
    unions: &Vec<Rc<SemanticNodeInst>>,
    edges: &Vec<Rc<SemanticEdgeInst>>,
    core_size: i64,
    core_num: i64,
) -> (r: Result<PartitionProblem, DataMappingError>)
    requires
        core_num >= 1,
        core_size >= 0,
        forall|i: int| 0 <= i < unions@.len() ==> (#[trigger] unions@[i]).node_type.wf(),
        forall|k: int| 0 <= k < edges@.len() ==> (#[trigger] edges@[k]).edge_type.named_block.wf(),
    ensures
        match r {
            Ok(p) => encodable(unions@, edges@) && p.wf() && encodes(
                unions@,
                edges@,
                core_size,
                core_num,
                p,
            ),
            Err(DataMappingError::NodeNotFound(n)) => exists|k: int|
                0 <= k < edges@.len() && ((#[trigger] edges@[k]).from_var.varname@ == n@
                    || edges@[k].to_var.varname@ == n@) && var_missing(unions@, n@),
            Err(DataMappingError::SizeOverflow(n)) => (exists|i: int|
                0 <= i < unions@.len() && (#[trigger] unions@[i]).node_type.name@ == n@
                    && fields_size(unions@[i].node_type.fields@) > i64::MAX) || (exists|k: int|
                0 <= k < edges@.len() && (#[trigger] edges@[k]).edge_type.named_block.name@ == n@
                    && fields_size(edges@[k].edge_type.named_block.fields@) > i64::MAX),
            Err(_) => false,
        },
{
    let mut node_sizes: Vec<i64> = Vec::new();
    let mut i: usize = 0;
    while i < unions.len()
        invariant
            i <= unions@.len(),
            node_sizes@.len() == i,
            forall|k: int| 0 <= k < unions@.len() ==> (#[trigger] unions@[k]).node_type.wf(),
            forall|k: int|
                0 <= k < i ==> node_sizes@[k] == fields_size((#[trigger] unions@[k]).node_type.fields@)
                    && fields_size(unions@[k].node_type.fields@) <= i64::MAX,
            forall|k: int| 0 <= k < i ==> #[trigger] node_sizes@[k] >= 0,
        decreases unions@.len() - i,
    {
        proof {
            crate::base_type::lemma_fields_size_prefix(unions@[i as int].node_type.fields@, 0);
        }
        match unions[i].node_type.checked_size_byte() {
            Some(s) => {
                node_sizes.push(s);
            },
            None => {
                return Err(DataMappingError::SizeOverflow(unions[i].node_type.name.clone()));
            },
        }
        i = i + 1;
    }
    let mut terms: Vec<EdgeTerm> = Vec::new();
    let mut k: usize = 0;
    while k < edges.len()
        invariant
            k <= edges@.len(),
            terms@.len() == k,
            node_sizes@.len() == unions@.len(),
            forall|k: int| 0 <= k < node_sizes@.len() ==> #[trigger] node_sizes@[k] >= 0,
            forall|k: int|
                0 <= k < unions@.len() ==> node_sizes@[k] == fields_size((#[trigger] unions@[k]).node_type.fields@)
                    && fields_size(unions@[k].node_type.fields@) <= i64::MAX,
            forall|e: int| 0 <= e < edges@.len() ==> (#[trigger] edges@[e]).edge_type.named_block.wf(),
            forall|e: int|
                0 <= e < k ==> {
                    let t = #[trigger] terms@[e];
                    &&& first_var(unions@, edges@[e].from_var.varname@, t.from as int)
                    &&& first_var(unions@, edges@[e].to_var.varname@, t.to as int)
                    &&& t.size == fields_size(edges@[e].edge_type.named_block.fields@)
                    &&& t.weight == edges@[e].weight
                    &&& t.size >= 0
                },
            forall|e: int|
                0 <= e < k ==> fields_size((#[trigger] edges@[e]).edge_type.named_block.fields@)
                    <= i64::MAX && !var_missing(unions@, edges@[e].from_var.varname@)
                    && !var_missing(unions@, edges@[e].to_var.varname@),
        decreases edges@.len() - k,
    {
        let e = &edges[k];
        let from = match find_node_with_name(unions, &e.from_var.varname) {
            Ok(f) => f,
            Err(err) => {
                return Err(err);
            },
        };
        let to = match find_node_with_name(unions, &e.to_var.varname) {
            Ok(t) => t,
            Err(err) => {
                return Err(err);
            },
        };
        proof {
            crate::base_type::lemma_fields_size_prefix(e.edge_type.named_block.fields@, 0);
        }
        let size = match e.edge_type.named_block.checked_size_byte() {
            Some(s) => s,
            None => {
                return Err(DataMappingError::SizeOverflow(e.edge_type.named_block.name.clone()));
            },
        };
        terms.push(EdgeTerm { from, to, size, weight: e.weight });
        k = k + 1;
    }
    Ok(PartitionProblem { node_sizes, edges: terms, core_num, core_size })
}

// ---------------------------------------------------------------------------
// Relabeling
// ---------------------------------------------------------------------------

/// `(u2, e2)` is `(u1, e1)` with every variable name `n` renamed to `f(n)`.
pub open spec fn relabeled(
    u1: Seq<Rc<SemanticNodeInst>>,
    e1: Seq<Rc<SemanticEdgeInst>>,
    u2: Seq<Rc<SemanticNodeInst>>,
    e2: Seq<Rc<SemanticEdgeInst>>,
    f: spec_fn(Seq<char>) -> Seq<char>,
) -> bool {
    &&& u1.len() == u2.len()
    &&& forall|i: int|
        0 <= i < u1.len() ==> (#[trigger] u2[i]).varname@ == f(u1[i].varname@) && *u2[i].node_type
            == *u1[i].node_type
    &&& e1.len() == e2.len()
    &&& forall|k: int|
        0 <= k < e1.len() ==> {
            let a = e1[k];
            let b = #[trigger] e2[k];
            &&& b.from_var.varname@ == f(a.from_var.varname@)
            &&& b.to_var.varname@ == f(a.to_var.varname@)
            &&& *b.edge_type == *a.edge_type
            &&& b.weight == a.weight
        }
}

proof fn lemma_first_var_relabeled(
    u1: Seq<Rc<SemanticNodeInst>>,
    u2: Seq<Rc<SemanticNodeInst>>,
    f: spec_fn(Seq<char>) -> Seq<char>,
    n: Seq<char>,
    i1: int,
    i2: int,
)
    requires
        forall|a: Seq<char>, b: Seq<char>| #[trigger] f(a) == #[trigger] f(b) ==> a == b,
        u1.len() == u2.len(),
        forall|i: int| 0 <= i < u1.len() ==> (#[trigger] u2[i]).varname@ == f(u1[i].varname@),
        first_var(u1, n, i1),
        first_var(u2, f(n), i2),
    ensures
        i1 == i2,
{
    if i2 < i1 {
        assert(u2[i2].varname@ == f(u1[i2].varname@));
        assert(u1[i2].varname@ != n);
    } else if i1 < i2 {
        assert(u2[i1].varname@ == f(u1[i1].varname@));
        assert(u2[i1].varname@ != f(n));
    }
}

/// Renaming the node instances of a graph, injectively, leaves the placement problem
/// unchanged: every assignment has the same feasibility and the same objective value, so
/// the optimum is the same.
pub proof fn lemma_relabel_same_objective(
    u1: Seq<Rc<SemanticNodeInst>>,
    e1: Seq<Rc<SemanticEdgeInst>>,
    u2: Seq<Rc<SemanticNodeInst>>,
    e2: Seq<Rc<SemanticEdgeInst>>,
    f: spec_fn(Seq<char>) -> Seq<char>,
    core_size: i64,
    core_num: i64,
    pa: PartitionProblem,
    pb: PartitionProblem,
)
    requires
        forall|a: Seq<char>, b: Seq<char>| #[trigger] f(a) == #[trigger] f(b) ==> a == b,
        relabeled(u1, e1, u2, e2, f),
        encodes(u1, e1, core_size, core_num, pa),
        encodes(u2, e2, core_size, core_num, pb),
    ensures
        pa.node_sizes@ == pb.node_sizes@,
        pa.edges@ == pb.edges@,
        forall|x: Seq<i64>|
            affinity(pa.edges@, x) == affinity(pb.edges@, x) && #[trigger] feasible(pa, x)
                == feasible(pb, x),
{
    assert(pa.node_sizes@ =~= pb.node_sizes@) by {
        assert forall|i: int| 0 <= i < u1.len() implies pa.node_sizes@[i] == pb.node_sizes@[i] by {
            assert(*u2[i].node_type == *u1[i].node_type);
        }
    }
    assert(pa.edges@ =~= pb.edges@) by {
        assert forall|k: int| 0 <= k < e1.len() implies pa.edges@[k] == pb.edges@[k] by {
            let a = e1[k];
            let b = e2[k];
            assert(b.from_var.varname@ == f(a.from_var.varname@));
            let t1 = pa.edges@[k];
            let t2 = pb.edges@[k];
            lemma_first_var_relabeled(u1, u2, f, a.from_var.varname@, t1.from as int, t2.from as int);
            lemma_first_var_relabeled(u1, u2, f, a.to_var.varname@, t1.to as int, t2.to as int);
        }
    }
    assert forall|x: Seq<i64>| #[trigger] feasible(pa, x) == feasible(pb, x) by {
        assert forall|j: int| load(pa, x, j) == load(pb, x, j) by {}
    }
}

} // verus!
