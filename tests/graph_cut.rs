use dspimc::graph_cut::{
    construct_result, encode_partition, find_node_with_name, is_feasible, objective,
    DataMappingError, PartitionProblem,
};
use dspimc::parser::parse_str;
use dspimc::sem_type::SemanticGraph;
use dspimc::semantics_analysis::semantic_analysis;

fn graph_of(src: &str) -> SemanticGraph {
    let mut ir = semantic_analysis(parse_str(src).unwrap()).unwrap();
    ir.graphs.remove(0)
}

fn problem_of(src: &str, core_size: i64, core_num: i64) -> (SemanticGraph, PartitionProblem) {
    let g = graph_of(src);
    let p = encode_partition(&g.node_insts, &g.edge_insts, core_size, core_num).unwrap();
    (g, p)
}

/// Every assignment of `n` nodes to `k` cores.
fn all_assignments(n: usize, k: i64) -> Vec<Vec<i64>> {
    let mut out = vec![vec![]];
    for _ in 0..n {
        let mut next = vec![];
        for a in &out {
            for c in 0..k {
                let mut b = a.clone();
                b.push(c);
                next.push(b);
            }
        }
        out = next;
    }
    out
}

/// The best objective over all feasible assignments, with the assignments reaching it.
fn best(p: &PartitionProblem) -> Option<(i128, Vec<Vec<i64>>)> {
    let mut best: Option<(i128, Vec<Vec<i64>>)> = None;
    for x in all_assignments(p.node_sizes.len(), p.core_num) {
        if !is_feasible(p, &x) {
            continue;
        }
        let v = objective(p, &x);
        match &mut best {
            Some((b, xs)) if *b == v => xs.push(x),
            Some((b, _)) if *b > v => {}
            _ => best = Some((v, vec![x])),
        }
    }
    best
}

const TEN: &str = "node T { a: int64; b: char[2]; }; \
                   graph { node T h1, h2, h3; };";

#[test]
fn forced_split_scenario() {
    let (g, p) = problem_of(TEN, 10, 3);
    assert_eq!(p.node_sizes, vec![10, 10, 10]);
    let (v, xs) = best(&p).unwrap();
    assert_eq!(v, 0);
    for x in &xs {
        let buckets = construct_result(&g.node_insts, &p, Some(x.clone())).unwrap();
        assert_eq!(buckets.len(), 3);
        for b in &buckets {
            assert_eq!(b.nodes.len(), 1);
        }
    }
    assert_eq!(xs.len(), 6);
}

#[test]
fn affinity_scenario() {
    let src = "node T { a: int32; b: char; }; edge L T T { }; \
               graph { node T h1, h2, h3; edge L h1 h2 7; edge L h2 h3 5; };";
    let (g, p) = problem_of(src, 10, 3);
    assert_eq!(p.node_sizes, vec![5, 5, 5]);
    let (v, xs) = best(&p).unwrap();
    assert_eq!(v, 7);
    for x in &xs {
        assert_eq!(x[0], x[1]);
        let buckets = construct_result(&g.node_insts, &p, Some(x.clone())).unwrap();
        let together = buckets
            .iter()
            .any(|b| b.nodes.iter().any(|n| n.varname == "h1") && b.nodes.iter().any(|n| n.varname == "h2"));
        assert!(together);
    }
}

#[test]
fn edges_cost_on_both_endpoint_cores() {
    let src = "node T { a: int8; }; edge L T T { w: int32; }; \
               graph { node T h1, h2; edge L h1 h2 1; };";
    let (_, p) = problem_of(src, 5, 2);
    assert_eq!(p.edges[0].size, 4);
    assert!(is_feasible(&p, &vec![0, 1]));
    assert!(!is_feasible(&p, &vec![0, 0]));
    let (_, p) = problem_of(src, 6, 2);
    assert!(is_feasible(&p, &vec![0, 0]));
    assert_eq!(objective(&p, &vec![0, 0]), 1);
    assert_eq!(objective(&p, &vec![1, 0]), 0);
}

#[test]
fn buckets_partition_the_nodes() {
    let (g, p) = problem_of("node T { a: int8; }; graph { node T a, b, c, d; };", 100, 3);
    let buckets = construct_result(&g.node_insts, &p, Some(vec![2, 0, 2, 1])).unwrap();
    let names: Vec<Vec<String>> =
        buckets.iter().map(|b| b.nodes.iter().map(|n| n.varname.clone()).collect()).collect();
    assert_eq!(names, vec![vec!["b"], vec!["d"], vec!["a", "c"]]);
}

#[test]
fn empty_bucket_when_a_core_is_unused() {
    let (g, p) = problem_of("node T { a: int8; }; graph { node T a; };", 1, 2);
    let buckets = construct_result(&g.node_insts, &p, Some(vec![1])).unwrap();
    assert_eq!(buckets.len(), 2);
    assert!(buckets[0].nodes.is_empty());
    assert_eq!(buckets[1].nodes.len(), 1);
}

#[test]
fn decoding_errors() {
    let (g, p) = problem_of(TEN, 10, 3);
    assert!(matches!(construct_result(&g.node_insts, &p, None), Err(DataMappingError::NoSolutionFound)));
    assert!(matches!(
        construct_result(&g.node_insts, &p, Some(vec![0, 0, 1])),
        Err(DataMappingError::InvalidModel)
    ));
    assert!(matches!(
        construct_result(&g.node_insts, &p, Some(vec![0, 1, 3])),
        Err(DataMappingError::InvalidModel)
    ));
    assert!(matches!(
        construct_result(&g.node_insts, &p, Some(vec![0, 1])),
        Err(DataMappingError::InvalidModel)
    ));
}

#[test]
fn infeasible_when_capacity_too_small() {
    let (_, p) = problem_of(TEN, 9, 3);
    assert!(best(&p).is_none());
}

#[test]
fn relabeling_keeps_the_problem() {
    let a = "node T { a: int8; }; edge L T T { }; \
             graph { node T h1, h2, h3; edge L h1 h2 7; edge L h3 h2 5; };";
    let b = "node T { a: int8; }; edge L T T { }; \
             graph { node T x, y, z; edge L x y 7; edge L z y 5; };";
    let (_, pa) = problem_of(a, 2, 2);
    let (_, pb) = problem_of(b, 2, 2);
    assert_eq!(pa.node_sizes, pb.node_sizes);
    assert_eq!(pa.edges, pb.edges);
    assert_eq!(best(&pa).unwrap().0, best(&pb).unwrap().0);
}

#[test]
fn endpoint_lookup() {
    let g = graph_of("node T { }; graph { node T a, b; };");
    assert_eq!(find_node_with_name(&g.node_insts, &String::from("b")).unwrap(), 1);
    assert!(matches!(
        find_node_with_name(&g.node_insts, &String::from("q")),
        Err(DataMappingError::NodeNotFound(n)) if n == "q"
    ));
}

#[test]
fn encoding_reports_missing_endpoint() {
    let full = graph_of("node T { }; edge L T T { }; graph { node T a, b; edge L a b 1; };");
    let only_a = vec![full.node_insts[0].clone()];
    assert!(matches!(
        encode_partition(&only_a, &full.edge_insts, 1, 1),
        Err(DataMappingError::NodeNotFound(n)) if n == "b"
    ));
}
