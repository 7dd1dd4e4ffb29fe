use dspimc::base_type::{GeneralBlock, PIMBaseType, PIMType};
use dspimc::parser::parse_str;

fn single_node_fields(src: &str) -> Vec<dspimc::base_type::PIMField> {
    let blocks = parse_str(src).expect("Parsing error");
    assert_eq!(blocks.len(), 1);
    match &blocks[0] {
        GeneralBlock::NodeBlock(n) => n.0.fields.clone(),
        other => panic!("{:?}", other),
    }
}

#[test]
fn test_type() {
    let fields = single_node_fields("node t { a: int8; b: int64 [30]; };");
    assert!(fields[0].pim_type == PIMType::Basic(PIMBaseType::Int8));
    assert!(fields[1].pim_type == PIMType::Array(PIMBaseType::Int64, 30));
}

#[test]
fn test_block() {
    let fields = single_node_fields("node nd {hello: int16; goodbye: float;};");
    assert!(fields[0].pim_type == PIMType::Basic(PIMBaseType::Int16));
    assert!(fields[0].varname == "hello");
    assert!(fields[1].pim_type == PIMType::Basic(PIMBaseType::Float));
    assert!(fields[1].varname == "goodbye");
}

#[test]
pub fn test_graph() {
    let blocks = parse_str("graph { node Hello h1, h2, h3; };").expect("Parsing Error");
    let node_list = match &blocks[0] {
        GeneralBlock::GraphBlock(g) => g.node_insts.clone(),
        other => panic!("{:?}", other),
    };
    assert_eq!(node_list[0].varname, "h1");
    assert_eq!(node_list[1].varname, "h2");
    assert_eq!(node_list[2].varname, "h3");
    assert_eq!(node_list[0].node_type, "Hello");

    let graph = parse_str("graph {};").expect("Parsing Error");
    assert_eq!(graph.len(), 1);
    let graph = parse_str(
        "graph { node Hello h1,h2,h3; edge Hedge h1 h2 7; edge Hedge h2 h3 5; node Hello h4;};",
    )
    .expect("Parsing Error");
    match &graph[0] {
        GeneralBlock::GraphBlock(g) => {
            assert_eq!(g.node_insts.len(), 4);
            assert_eq!(g.node_insts[3].varname, "h4");
            assert_eq!(g.edge_insts.len(), 2);
            assert_eq!(g.edge_insts[0].edge_type, "Hedge");
            assert_eq!(g.edge_insts[0].from_varname, "h1");
            assert_eq!(g.edge_insts[0].to_varname, "h2");
            assert_eq!(g.edge_insts[0].weight, 7);
            assert_eq!(g.edge_insts[1].weight, 5);
        }
        other => panic!("{:?}", other),
    }
}

#[test]
fn blocks_come_in_source_order() {
    let src = "walker W : A; graph { node A a1; walker W a1; }; node A { x: char; }; \
               edge E A A { };";
    let blocks = parse_str(src).unwrap();
    assert_eq!(blocks.len(), 4);
    assert!(matches!(&blocks[0], GeneralBlock::WalkerBlock(w) if w.name == "W" && w.node_type == "A"));
    assert!(matches!(&blocks[1], GeneralBlock::GraphBlock(g) if g.walker_insts.len() == 1
        && g.walker_insts[0].walker_type == "W" && g.walker_insts[0].start_node == "a1"));
    assert!(matches!(&blocks[2], GeneralBlock::NodeBlock(_)));
    assert!(matches!(&blocks[3], GeneralBlock::EdgeBlock(e) if e.from == "A" && e.to == "A"
        && e.named_block.name == "E" && e.named_block.fields.is_empty()));
}

#[test]
fn empty_program_and_comments() {
    assert!(parse_str("").unwrap().is_empty());
    assert!(parse_str("  \n\t// only a comment, ünïcödé\n").unwrap().is_empty());
    let fields = single_node_fields("node n { // the fields\n  v: double; // trailing\n};");
    assert_eq!(fields.len(), 1);
    assert_eq!(fields[0].varname, "v");
}

#[test]
fn negative_and_large_weights() {
    let blocks =
        parse_str("graph { edge E a b -9223372036854775808; edge E b a 9223372036854775807; };")
            .unwrap();
    match &blocks[0] {
        GeneralBlock::GraphBlock(g) => {
            assert_eq!(g.edge_insts[0].weight, i64::MIN);
            assert_eq!(g.edge_insts[1].weight, i64::MAX);
        }
        other => panic!("{:?}", other),
    }
}

#[test]
fn rejects_out_of_range_literal() {
    let e = parse_str("graph { edge E a b 9223372036854775808; };").unwrap_err();
    assert_eq!(e.offset, 19);
    assert_eq!(e.message, "integer literal out of range");
}

#[test]
fn rejects_zero_and_huge_array_counts() {
    assert!(parse_str("node n { a: int8[0]; };").is_err());
    assert!(parse_str("node n { a: int8[-3]; };").is_err());
    assert!(parse_str("node n { a: int8[2147483648]; };").is_err());
    assert!(parse_str("node n { a: int8[2147483647]; };").is_ok());
}

#[test]
fn rejects_unknown_character() {
    let e = parse_str("node n { a: int8; }; $").unwrap_err();
    assert_eq!(e.offset, 21);
    assert_eq!((e.line, e.column), (0, 21));
    assert_eq!(e.message, "unexpected character `$`");
}

#[test]
fn rejects_unexpected_token_with_location() {
    let e = parse_str("node n { a int8; };").unwrap_err();
    assert_eq!(e.offset, 11);
    assert_eq!(e.message, "unexpected token `int8`");
    let e = parse_str("node n { a: int8; }").unwrap_err();
    assert_eq!(e.offset, 19);
    assert_eq!(e.message, "unexpected end of input");
    let e = parse_str("node A {\n  x: int32\n};").unwrap_err();
    assert_eq!((e.line, e.column), (2, 0));
    assert_eq!(e.message, "unexpected token `}`");
    let e = parse_str("node A { x: int8[0]; };").unwrap_err();
    assert_eq!(e.message, "unexpected token `0`");
    assert_eq!(e.offset, 17);
    let e = parse_str("graph { edge E a 7 b 1; };").unwrap_err();
    assert_eq!(e.message, "unexpected token `7`");
    let e = parse_str("walker w: graph;").unwrap_err();
    assert_eq!(e.message, "unexpected token `graph`");
    assert_eq!(e.offset, 10);
}

#[test]
fn keywords_are_not_identifiers() {
    assert!(parse_str("node node { a: int8; };").is_err());
    assert!(parse_str("node n { int8: int8; };").is_err());
    let fields = single_node_fields("node n { int8x: int8; _y2: char; };");
    assert_eq!(fields[0].varname, "int8x");
    assert_eq!(fields[1].varname, "_y2");
}
