use dspimc::base_type::{NamedBlock, PIMBaseType, PIMField, PIMType};
use dspimc::code_gen::{decimal_string, TypeCodeGen};
use dspimc::parser::parse_str;
use dspimc::semantics_analysis::semantic_analysis;

#[test]
pub fn code_gen_test_node_code_gen() {
    let _node = NamedBlock {
        name: String::from("TestNode"),
        fields: vec![PIMField {
            varname: String::from("field"),
            pim_type: PIMType::Basic(PIMBaseType::Char),
        }],
    };
    _node.type_code();
}

#[test]
pub fn type_code_test_node_code_gen() {
    let _node = NamedBlock {
        name: String::from("TestNode"),
        fields: vec![PIMField {
            varname: String::from("field"),
            pim_type: PIMType::Basic(PIMBaseType::Char),
        }],
    };
    _node.type_code();
}

#[test]
fn node_struct_text() {
    let node = NamedBlock {
        name: String::from("TestNode"),
        fields: vec![
            PIMField { varname: String::from("field"), pim_type: PIMType::Basic(PIMBaseType::Char) },
            PIMField {
                varname: String::from("arr"),
                pim_type: PIMType::Array(PIMBaseType::Int64, 30),
            },
        ],
    };
    assert_eq!(
        node.type_code(),
        "typedef struct _TestNode { \n\tchar field;\n\tint64_t arr[30];\n} TestNode"
    );
}

#[test]
fn base_type_names() {
    assert_eq!(PIMBaseType::Int8.type_code(), "int8_t");
    assert_eq!(PIMBaseType::Int16.type_code(), "int16_t");
    assert_eq!(PIMBaseType::Int32.type_code(), "int32_t");
    assert_eq!(PIMBaseType::Int64.type_code(), "int64_t");
    assert_eq!(PIMBaseType::Float.type_code(), "float");
    assert_eq!(PIMBaseType::Double.type_code(), "double");
    assert_eq!(PIMBaseType::Char.type_code(), "char");
}

#[test]
fn minimal_node_scenario() {
    let blocks = parse_str("node A { x: int32; };").unwrap();
    let ir = semantic_analysis(blocks).unwrap();
    assert_eq!(ir.nodes.len(), 1);
    assert_eq!(ir.nodes[0].name, "A");
    assert_eq!(ir.nodes[0].fields.len(), 1);
    assert_eq!(ir.nodes[0].fields[0].varname, "x");
    assert_eq!(dspimc::base_type::Size::size_byte(&ir.nodes[0].fields[0]), 4);
    let text = ir.nodes[0].type_code();
    assert!(text.contains("int32_t x;"));
    assert_eq!(text, "typedef struct _A { \n\tint32_t x;\n} A");
}

#[test]
fn edge_with_endpoints_scenario() {
    let src = "node A { x: int8; }; node B { y: int16; }; edge R A B { w: int32; };";
    let ir = semantic_analysis(parse_str(src).unwrap()).unwrap();
    assert_eq!(ir.edges.len(), 1);
    let r = &ir.edges[0];
    assert_eq!(r.named_block.name, "R");
    assert_eq!(r.from.name, "A");
    assert_eq!(r.to.name, "B");
    assert_eq!(r.type_code(), "typedef struct _R {\n\tint32_t w;\n\tA from;\n\tB to;\n} R");
}

#[test]
fn decimal_numerals() {
    assert_eq!(decimal_string(0), "0");
    assert_eq!(decimal_string(7), "7");
    assert_eq!(decimal_string(30), "30");
    assert_eq!(decimal_string(-45), "-45");
    assert_eq!(decimal_string(i64::MAX), "9223372036854775807");
    assert_eq!(decimal_string(i64::MIN), "-9223372036854775808");
}
