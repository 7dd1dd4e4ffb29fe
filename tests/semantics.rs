use dspimc::parser::parse_str;
use dspimc::semantics_analysis::{semantic_analysis, DeclKind, SemanticsError};

fn analyze(src: &str) -> Result<dspimc::sem_type::SemanticGlobal, SemanticsError> {
    semantic_analysis(parse_str(src).expect("Parsing error"))
}

#[test]
fn walker_type_mismatch_scenario() {
    let src = "node A { x: int8; }; node B { y: int16; }; edge R A B { w: int32; }; \
               walker W : A; graph { node B b1; walker W b1; };";
    match analyze(src) {
        Err(SemanticsError::WalkerTypeMismatch(v, expected, actual)) => {
            assert_eq!(v, "b1");
            assert_eq!(expected, "A");
            assert_eq!(actual, "B");
        }
        Err(e) => panic!("{:?}", e),
        Ok(_) => panic!("accepted"),
    }
}

#[test]
fn node_list_expansion_scenario() {
    let ir = analyze("node A { x: int8; }; graph { node A h1, h2, h3; };").unwrap();
    let g = &ir.graphs[0];
    assert_eq!(g.node_insts.len(), 3);
    for (i, n) in ["h1", "h2", "h3"].iter().enumerate() {
        assert_eq!(g.node_insts[i].varname, *n);
        assert_eq!(g.node_insts[i].node_type.name, "A");
    }
}

#[test]
fn resolved_references_land_on_declarations() {
    let src = "node A { x: int8; }; node B { y: int16[4]; }; edge R A B { w: int32; }; \
               walker W : B; graph { node A a1; node B b1, b2; edge R a1 b2 3; walker W b1; };";
    let ir = analyze(src).unwrap();
    assert_eq!(ir.nodes.len(), 2);
    assert_eq!(ir.edges.len(), 1);
    assert_eq!(ir.walkers.len(), 1);
    assert_eq!(ir.walkers[0].name, "W");
    assert_eq!(ir.walkers[0].node_type.name, "B");
    let g = &ir.graphs[0];
    let e = &g.edge_insts[0];
    assert_eq!(e.edge_type.named_block.name, "R");
    assert_eq!(e.from_var.varname, "a1");
    assert_eq!(e.to_var.varname, "b2");
    assert_eq!(e.to_var.node_type.name, "B");
    assert_eq!(e.weight, 3);
    let w = &g.walker_insts[0];
    assert_eq!(w.start_node.varname, "b1");
    assert_eq!(w.start_node.node_type.name, w.walker_type.node_type.name);
}

#[test]
fn edge_endpoint_types_are_not_checked() {
    let src = "node A { x: int8; }; node B { y: int8; }; edge R A B { }; \
               graph { node B b1; node A a1; edge R b1 a1 1; };";
    assert!(analyze(src).is_ok());
}

#[test]
fn duplicate_declarations() {
    assert!(matches!(
        analyze("node A { }; node A { x: int8; };"),
        Err(SemanticsError::DuplicateDeclaration(DeclKind::Node, n)) if n == "A"
    ));
    assert!(matches!(
        analyze("node A { }; edge E A A { }; edge E A A { };"),
        Err(SemanticsError::DuplicateDeclaration(DeclKind::Edge, n)) if n == "E"
    ));
    assert!(matches!(
        analyze("node A { }; walker W : A; walker W : A;"),
        Err(SemanticsError::DuplicateDeclaration(DeclKind::Walker, n)) if n == "W"
    ));
}

#[test]
fn same_name_in_different_kinds_is_fine() {
    assert!(analyze("node X { }; edge X X X { }; walker X : X;").is_ok());
}

#[test]
fn duplicate_variable() {
    assert!(matches!(
        analyze("node A { }; graph { }; graph { node A a; node A b, a; };"),
        Err(SemanticsError::DuplicateVariable(1, n)) if n == "a"
    ));
}

#[test]
fn undefined_references() {
    let cases = [
        ("edge E A A { };", "A"),
        ("walker W : Z;", "Z"),
        ("graph { node Q q; };", "Q"),
        ("node A { }; graph { node A a; edge E a a 1; };", "E"),
        ("node A { }; edge E A A { }; graph { node A a; edge E a z 1; };", "z"),
        ("node A { }; graph { node A a; walker W a; };", "W"),
        ("node A { }; walker W : A; graph { walker W a; };", "a"),
    ];
    for (src, name) in cases {
        match analyze(src) {
            Err(SemanticsError::UndefinedReference(n)) => assert_eq!(n, name, "{}", src),
            Err(e) => panic!("{}: {:?}", src, e),
            Ok(_) => panic!("{}: accepted", src),
        }
    }
}

#[test]
fn interleaving_blocks_of_different_kinds_gives_same_ir() {
    let a = "node A { x: int8; }; graph { node A a1, a2; }; edge E A A { w: char; }; \
             walker W : A; node B { };";
    let b = "walker W : A; node A { x: int8; }; edge E A A { w: char; }; node B { }; \
             graph { node A a1, a2; };";
    let ia = analyze(a).unwrap();
    let ib = analyze(b).unwrap();
    let names = |ir: &dspimc::sem_type::SemanticGlobal| -> Vec<String> {
        ir.nodes.iter().map(|n| n.name.clone()).collect()
    };
    assert_eq!(names(&ia), names(&ib));
    assert_eq!(ia.edges[0].named_block.name, ib.edges[0].named_block.name);
    assert_eq!(ia.walkers[0].name, ib.walkers[0].name);
    assert_eq!(ia.graphs.len(), ib.graphs.len());
    assert_eq!(ia.graphs[0].node_insts[1].varname, ib.graphs[0].node_insts[1].varname);
}

#[test]
fn reordering_within_a_kind_keeps_meaning() {
    let a = "node A { x: int8; }; node B { y: char; }; edge E A B { }; edge F B A { }; \
             walker V : A; walker W : B; graph { node A a1; walker V a1; }; graph { node B b; };";
    let b = "node B { y: char; }; node A { x: int8; }; edge F B A { }; edge E A B { }; \
             walker W : B; walker V : A; graph { node B b; }; graph { node A a1; walker V a1; };";
    let ia = analyze(a).unwrap();
    let ib = analyze(b).unwrap();
    assert_eq!(ia.nodes[0].name, ib.nodes[1].name);
    assert_eq!(ia.edges[0].named_block.name, ib.edges[1].named_block.name);
    assert_eq!(ia.edges[0].from.name, ib.edges[1].from.name);
    assert_eq!(ia.walkers[1].node_type.name, ib.walkers[0].node_type.name);
    assert_eq!(ia.graphs[0].walker_insts.len(), ib.graphs[1].walker_insts.len());
    let bad_a = "node A { }; walker W : A; graph { node A a; walker W q; };";
    let bad_b = "graph { node A a; walker W q; }; walker W : A; node A { };";
    assert!(analyze(bad_a).is_err());
    assert!(analyze(bad_b).is_err());
}

#[test]
fn duplicate_declaration_comes_before_unresolved_references() {
    assert!(matches!(
        analyze("edge E Q Q { }; node A { }; node A { }; graph { node Z z; };"),
        Err(SemanticsError::DuplicateDeclaration(DeclKind::Node, n)) if n == "A"
    ));
}

#[test]
fn duplicate_variable_before_a_later_undefined_type() {
    assert!(matches!(
        analyze("node A { }; graph { node A a; node A a; node Z b; };"),
        Err(SemanticsError::DuplicateVariable(0, n)) if n == "a"
    ));
    assert!(matches!(
        analyze("node A { }; graph { node A a; node Z b; node A a; };"),
        Err(SemanticsError::UndefinedReference(n)) if n == "Z"
    ));
}

#[test]
fn node_type_reported_before_edge_type() {
    assert!(matches!(
        analyze("graph { edge Q a a 1; node Z a; };"),
        Err(SemanticsError::UndefinedReference(n)) if n == "Z"
    ));
}

#[test]
fn unresolved_endpoint_before_walker_mismatch() {
    let src = "node A { }; node B { }; edge E A A { }; walker W : A; \
               graph { walker W b; node B b; edge E b zz 1; };";
    assert!(matches!(analyze(src), Err(SemanticsError::UndefinedReference(n)) if n == "zz"));
}
