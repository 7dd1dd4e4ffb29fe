use dspimc::base_type::{
    transform_node_inst, NamedBlock, PIMBaseType, PIMField, PIMType, Size,
};

#[test]
fn primitive_sizes() {
    assert_eq!(PIMBaseType::Int8.size_byte(), 1);
    assert_eq!(PIMBaseType::Int16.size_byte(), 2);
    assert_eq!(PIMBaseType::Int32.size_byte(), 4);
    assert_eq!(PIMBaseType::Int64.size_byte(), 8);
    assert_eq!(PIMBaseType::Float.size_byte(), 4);
    assert_eq!(PIMBaseType::Double.size_byte(), 8);
    assert_eq!(PIMBaseType::Char.size_byte(), 1);
}

#[test]
fn array_size_is_count_times_element() {
    assert_eq!(PIMType::Array(PIMBaseType::Int64, 30).size_byte(), 240);
    assert_eq!(PIMType::Array(PIMBaseType::Char, 1).size_byte(), 1);
    assert_eq!(PIMType::Array(PIMBaseType::Double, 2147483647).size_byte(), 17179869176);
}

#[test]
fn block_size_is_sum_without_padding() {
    let b = NamedBlock {
        name: String::from("B"),
        fields: vec![
            PIMField { varname: String::from("a"), pim_type: PIMType::Basic(PIMBaseType::Char) },
            PIMField { varname: String::from("b"), pim_type: PIMType::Basic(PIMBaseType::Int64) },
            PIMField {
                varname: String::from("c"),
                pim_type: PIMType::Array(PIMBaseType::Int16, 3),
            },
        ],
    };
    assert_eq!(b.size_byte(), 15);
    assert_eq!(b.checked_size_byte(), Some(15));
    let empty = NamedBlock { name: String::from("E"), fields: vec![] };
    assert_eq!(empty.size_byte(), 0);
}

#[test]
fn node_list_expands_in_order() {
    let names = vec![String::from("h1"), String::from("h2"), String::from("h3")];
    let insts = transform_node_inst("A", &names);
    assert_eq!(insts.len(), 3);
    for (i, n) in ["h1", "h2", "h3"].iter().enumerate() {
        assert_eq!(insts[i].varname, *n);
        assert_eq!(insts[i].node_type, "A");
    }
    assert!(transform_node_inst("A", &vec![]).is_empty());
}
