use vstd::prelude::*;

verus! {

/// Anything that occupies a fixed number of bytes in device memory.
pub trait Size {
    /// The byte size, as a mathematical integer.
    spec fn spec_size_byte(&self) -> int;

    /// Whether `size_byte` can compute the size without leaving `i64`.
    spec fn size_computable(&self) -> bool;

    fn size_byte(&self) -> (r: i64)
        requires
            self.size_computable(),
        ensures
            r as int == self.spec_size_byte(),
    ;
}

/// A primitive (scalar) field type.
#[derive(Debug, Clone, Copy, PartialEq, Eq, Structural)]
pub enum PIMBaseType {
    Int8,
    Int16,
    Int32,
    Int64,
    Float,
    Double,
    Char,
}

impl PIMBaseType {
    /// Byte size of the primitive: 1, 2, 4, 8, 4, 8, 1.
    pub open spec fn spec_size(self) -> int {
        match self {
            PIMBaseType::Int8 => 1,
            PIMBaseType::Int16 => 2,
            PIMBaseType::Int32 => 4,
            PIMBaseType::Int64 => 8,
            PIMBaseType::Float => 4,
            PIMBaseType::Double => 8,
            PIMBaseType::Char => 1,
        }
    }
}

impl Size for PIMBaseType {
    open spec fn spec_size_byte(&self) -> int {
        self.spec_size()
    }

    open spec fn size_computable(&self) -> bool {
        true
    }

    fn size_byte(&self) -> (r: i64) {
        match self {
            PIMBaseType::Int8 => 1,
            PIMBaseType::Int16 => 2,
            PIMBaseType::Int32 => 4,
            PIMBaseType::Int64 => 8,
            PIMBaseType::Float => 4,
            PIMBaseType::Double => 8,
            PIMBaseType::Char => 1,
        }
    }
}

/// A field type: a primitive, or a fixed-length array of a primitive.
#[derive(Debug, Clone, Copy, PartialEq, Eq, Structural)]
pub enum PIMType {
    Basic(PIMBaseType),
    Array(PIMBaseType, i32),
}

impl PIMType {
    /// Byte size: the primitive size, times the count for an array.
    pub open spec fn spec_size(self) -> int {
        match self {
            PIMType::Basic(t) => t.spec_size(),
            PIMType::Array(t, n) => n * t.spec_size(),
        }
    }

    /// An array holds at least one element.
    pub open spec fn wf(self) -> bool {
        match self {
            PIMType::Basic(_) => true,
            PIMType::Array(_, n) => n >= 1,
        }
    }
}

impl Size for PIMType {
    open spec fn spec_size_byte(&self) -> int {
        self.spec_size()
    }

    open spec fn size_computable(&self) -> bool {
        true
    }

    fn size_byte(&self) -> (r: i64) {
        match self {
            PIMType::Basic(t) => t.size_byte(),
            PIMType::Array(t, num) => {
                let s = t.size_byte();
                assert(-0x8000_0000 <= *num as int <= 0x7fff_ffff);
                assert(1 <= s <= 8);
                assert(-0x4_0000_0000 <= (*num as int) * (s as int) <= 0x4_0000_0000)
                    by (nonlinear_arith)
                    requires
                        -0x8000_0000 <= *num as int <= 0x7fff_ffff,
                        1 <= s <= 8,
                ;
                (*num as i64) * s
            },
        }
    }
}

/// A named field of a block.
#[derive(Debug, Clone)]
pub struct PIMField {
    pub varname: String,
    pub pim_type: PIMType,
}

impl Size for PIMField {
    open spec fn spec_size_byte(&self) -> int {
        self.pim_type.spec_size()
    }

    open spec fn size_computable(&self) -> bool {
        true
    }

    fn size_byte(&self) -> (r: i64) {
        self.pim_type.size_byte()
    }
}

/// Sum of the byte sizes of a sequence of fields, with no padding.
pub open spec fn fields_size(fields: Seq<PIMField>) -> int
    decreases fields.len(),
{
    if fields.len() == 0 {
        0
    } else {
        fields_size(fields.drop_last()) + fields.last().pim_type.spec_size()
    }
}

/// Every field type of the sequence is well formed.
pub open spec fn fields_wf(fields: Seq<PIMField>) -> bool {
    forall|i: int| 0 <= i < fields.len() ==> (#[trigger] fields[i]).pim_type.wf()
}

/// A well-formed field has a positive size.
pub proof fn lemma_field_size_positive(f: PIMField)
    requires
        f.pim_type.wf(),
    ensures
        f.pim_type.spec_size() >= 1,
{
    match f.pim_type {
        PIMType::Basic(_) => {},
        PIMType::Array(t, n) => {
            assert(n * t.spec_size() >= 1) by (nonlinear_arith)
                requires
                    n >= 1,
                    t.spec_size() >= 1,
            ;
        },
    }
}

/// Over well-formed fields, the size of a prefix never exceeds the size of the whole.
pub proof fn lemma_fields_size_prefix(fields: Seq<PIMField>, i: int)
    requires
        fields_wf(fields),
        0 <= i <= fields.len(),
    ensures
        0 <= fields_size(fields.take(i)) <= fields_size(fields),
    decreases fields.len(),
{
    if fields.len() > 0 {
        lemma_field_size_positive(fields.last());
        assert(fields_wf(fields.drop_last()));
        if i == fields.len() {
            assert(fields.take(i) =~= fields);
            lemma_fields_size_prefix(fields.drop_last(), i - 1);
            assert(fields.drop_last().take(i - 1) =~= fields.drop_last());
        } else {
            lemma_fields_size_prefix(fields.drop_last(), i);
            assert(fields.drop_last().take(i) =~= fields.take(i));
        }
    }
}

/// A block of fields, tagged with a name.
#[derive(Debug, Clone)]
pub struct NamedBlock {
    pub name: String,
    pub fields: Vec<PIMField>,
}

impl NamedBlock {
    /// Every array field holds at least one element.
    pub open spec fn wf(&self) -> bool {
        fields_wf(self.fields@)
    }

    /// The byte size of the block, or `None` where it does not fit in `i64`.
    pub fn checked_size_byte(&self) -> (r: Option<i64>)
        requires
            self.wf(),
        ensures
            r == (if fields_size(self.fields@) <= i64::MAX {
                Some(fields_size(self.fields@) as i64)
            } else {
                None::<i64>
            }),
    {
        let mut acc: i64 = 0;
        let mut i: usize = 0;
        while i < self.fields.len()
            invariant
                self.wf(),
                i <= self.fields@.len(),
                acc as int == fields_size(self.fields@.take(i as int)),
                acc >= 0,
            decreases self.fields@.len() - i,
        {
            proof {
                assert(self.fields@.take(i + 1).drop_last() =~= self.fields@.take(i as int));
                lemma_fields_size_prefix(self.fields@, i + 1);
                lemma_field_size_positive(self.fields@[i as int]);
            }
            let s = self.fields[i].size_byte();
            if s > i64::MAX - acc {
                proof {
                    lemma_fields_size_prefix(self.fields@, i + 1);
                }
                return None;
            }
            acc = acc + s;
            i = i + 1;
        }
        assert(self.fields@.take(i as int) =~= self.fields@);
        Some(acc)
    }
}

impl Size for NamedBlock {
    open spec fn spec_size_byte(&self) -> int {
        fields_size(self.fields@)
    }

    open spec fn size_computable(&self) -> bool {
        self.wf() && fields_size(self.fields@) <= i64::MAX
    }

    fn size_byte(&self) -> (r: i64) {
        proof {
            lemma_fields_size_prefix(self.fields@, 0);
        }
        match self.checked_size_byte() {
            Some(s) => s,
            None => 0,
        }
    }
}

/// A node declaration.
#[derive(Debug, Clone)]
pub struct Node(pub NamedBlock);

/// An edge declaration: a block plus the names of its endpoint node types.
#[derive(Debug, Clone)]
pub struct Edge {
    pub from: String,
    pub to: String,
    pub named_block: NamedBlock,
}

/// A walker declaration: a name and the node type it walks.
#[derive(Debug, Clone)]
pub struct Walker {
    pub name: String,
    pub node_type: String,
}

/// An instance of a node type, bound to a variable.
#[derive(Debug, Clone)]
pub struct NodeInst {
    pub node_type: String,
    pub varname: String,
}

/// One node instance of type `node_type` for each name of `token_list`, in order.
pub fn transform_node_inst(node_type: &str, token_list: &Vec<String>) -> (r: Vec<NodeInst>)
    ensures
        r@.len() == token_list@.len(),
        forall|i: int|
            0 <= i < r@.len() ==> (#[trigger] r@[i]).node_type@ == node_type@ && r@[i].varname@
                == token_list@[i]@,
{
    let mut r: Vec<NodeInst> = Vec::new();
    let mut i: usize = 0;
    while i < token_list.len()
        invariant
            i <= token_list@.len(),
            r@.len() == i,
            forall|k: int|
                0 <= k < i ==> (#[trigger] r@[k]).node_type@ == node_type@ && r@[k].varname@
                    == token_list@[k]@,
        decreases token_list@.len() - i,
    {
        r.push(NodeInst { node_type: String::from_str(node_type), varname: token_list[i].clone() });
        i = i + 1;
    }
    r
}

/// An instance of an edge type between two node variables, with an affinity weight.
#[derive(Debug, Clone)]
pub struct EdgeInst {
    pub edge_type: String,
    pub from_varname: String,
    pub to_varname: String,
    pub weight: i64,
}

/// An instance of a walker type, started on a node variable.
#[derive(Debug, Clone)]
pub struct WalkerInst {
    pub walker_type: String,
    pub start_node: String,
}

/// The instances of one graph, in source order.
#[derive(Debug, Clone)]
pub struct Graph {
    pub node_insts: Vec<NodeInst>,
    pub edge_insts: Vec<EdgeInst>,
    pub walker_insts: Vec<WalkerInst>,
}

/// A top-level block of a program.
#[derive(Debug, Clone)]
pub enum GeneralBlock {
    NodeBlock(Node),
    EdgeBlock(Edge),
    WalkerBlock(Walker),
    GraphBlock(Graph),
}

} // verus!
