use vstd::prelude::*;

use crate::base_type::{
    fields_wf, transform_node_inst, Edge, EdgeInst, GeneralBlock, Graph, NamedBlock, Node,
    NodeInst, PIMBaseType, PIMField, PIMType, Walker, WalkerInst,
};
use crate::code_gen::{decimal, decimal_string};
use crate::lexer::{
    chars_of, is_digit, lex, offsets_v, string_from_chars, tokenize, toks_v, Keyword, TokV, Token,
};
use crate::semantics_analysis::views;

verus! {

// ---------------------------------------------------------------------------
// What a parsed program holds, as plain values
// ---------------------------------------------------------------------------

pub struct FieldV {
    pub name: Seq<char>,
    pub ty: PIMType,
}

pub struct BlockV {
    pub name: Seq<char>,
    pub fields: Seq<FieldV>,
}

pub struct NodeInstV {
    pub node_type: Seq<char>,
    pub varname: Seq<char>,
}

pub struct EdgeInstV {
    pub edge_type: Seq<char>,
    pub from: Seq<char>,
    pub to: Seq<char>,
    pub weight: int,
}

pub struct WalkerInstV {
    pub walker_type: Seq<char>,
    pub start: Seq<char>,
}

pub struct GraphV {
    pub nodes: Seq<NodeInstV>,
    pub edges: Seq<EdgeInstV>,
    pub walkers: Seq<WalkerInstV>,
}

pub enum TopV {
    Node(BlockV),
    /// The block, then the names of the source and target node types.
    Edge(BlockV, Seq<char>, Seq<char>),
    /// The walker's name, then its node type.
    Walker(Seq<char>, Seq<char>),
    Graph(GraphV),
}

pub open spec fn field_v(f: PIMField) -> FieldV {
    FieldV { name: f.varname@, ty: f.pim_type }
}

pub open spec fn fields_v(fs: Seq<PIMField>) -> Seq<FieldV> {
    fs.map_values(|f: PIMField| field_v(f))
}

pub open spec fn block_v(b: NamedBlock) -> BlockV {
    BlockV { name: b.name@, fields: fields_v(b.fields@) }
}

pub open spec fn node_inst_v(n: NodeInst) -> NodeInstV {
    NodeInstV { node_type: n.node_type@, varname: n.varname@ }
}

pub open spec fn edge_inst_v(e: EdgeInst) -> EdgeInstV {
    EdgeInstV {
        edge_type: e.edge_type@,
        from: e.from_varname@,
        to: e.to_varname@,
        weight: e.weight as int,
    }
}

pub open spec fn walker_inst_v(w: WalkerInst) -> WalkerInstV {
    WalkerInstV { walker_type: w.walker_type@, start: w.start_node@ }
}

pub open spec fn graph_v(g: Graph) -> GraphV {
    GraphV {
        nodes: g.node_insts@.map_values(|n: NodeInst| node_inst_v(n)),
        edges: g.edge_insts@.map_values(|e: EdgeInst| edge_inst_v(e)),
        walkers: g.walker_insts@.map_values(|w: WalkerInst| walker_inst_v(w)),
    }
}

pub open spec fn top_v(b: GeneralBlock) -> TopV {
    match b {
        GeneralBlock::NodeBlock(n) => TopV::Node(block_v(n.0)),
        GeneralBlock::EdgeBlock(e) => TopV::Edge(block_v(e.named_block), e.from@, e.to@),
        GeneralBlock::WalkerBlock(w) => TopV::Walker(w.name@, w.node_type@),
        GeneralBlock::GraphBlock(g) => TopV::Graph(graph_v(g)),
    }
}

pub open spec fn tops_v(bs: Seq<GeneralBlock>) -> Seq<TopV> {
    bs.map_values(|b: GeneralBlock| top_v(b))
}

/// Every declared block of the program is well formed (array counts are positive).
pub open spec fn blocks_wf(bs: Seq<GeneralBlock>) -> bool {
    forall|i: int|
        0 <= i < bs.len() ==> match #[trigger] bs[i] {
            GeneralBlock::NodeBlock(n) => n.0.wf(),
            GeneralBlock::EdgeBlock(e) => e.named_block.wf(),
            _ => true,
        }
}

// ---------------------------------------------------------------------------
// The grammar, over tokens
// ---------------------------------------------------------------------------

pub open spec fn is_sym(ts: Seq<TokV>, i: int, c: char) -> bool {
    0 <= i < ts.len() && ts[i] == TokV::Sym(c)
}

pub open spec fn is_kw(ts: Seq<TokV>, i: int, k: Keyword) -> bool {
    0 <= i < ts.len() && ts[i] == TokV::Kw(k)
}

pub open spec fn is_ident(ts: Seq<TokV>, i: int) -> bool {
    0 <= i < ts.len() && ts[i] is Ident
}

pub open spec fn ident_at(ts: Seq<TokV>, i: int) -> Seq<char> {
    ts[i]->Ident_0
}

pub open spec fn base_of(k: Keyword) -> Option<PIMBaseType> {
    match k {
        Keyword::Int8 => Some(PIMBaseType::Int8),
        Keyword::Int16 => Some(PIMBaseType::Int16),
        Keyword::Int32 => Some(PIMBaseType::Int32),
        Keyword::Int64 => Some(PIMBaseType::Int64),
        Keyword::Float => Some(PIMBaseType::Float),
        Keyword::Double => Some(PIMBaseType::Double),
        Keyword::Char => Some(PIMBaseType::Char),
        _ => None,
    }
}

/// Number of tokens a field type takes.
pub open spec fn type_len(t: PIMType) -> int {
    match t {
        PIMType::Basic(_) => 1,
        PIMType::Array(_, _) => 4,
    }
}

/// field_type := base_type | base_type "[" INT "]", the count in `[1, 2^31 - 1]`. An error
/// holds the position of the first token that does not fit.
pub open spec fn p_type(ts: Seq<TokV>, i: int) -> Result<PIMType, int> {
    if 0 <= i < ts.len() && ts[i] is Kw && base_of(ts[i]->Kw_0) is Some {
        let b = base_of(ts[i]->Kw_0)->Some_0;
        if is_sym(ts, i + 1, '[') {
            if !(i + 2 < ts.len() && ts[i + 2] is Int && 1 <= ts[i + 2]->Int_0 <= i32::MAX) {
                Err(i + 2)
            } else if !is_sym(ts, i + 3, ']') {
                Err(i + 3)
            } else {
                Ok(PIMType::Array(b, ts[i + 2]->Int_0 as i32))
            }
        } else {
            Ok(PIMType::Basic(b))
        }
    } else {
        Err(i)
    }
}

/// field_list := (IDENT ":" field_type ";")*; ends before the first token that does not
/// start a field. Returns the fields, appended to `acc`, and the position after them.
pub open spec fn p_fields(ts: Seq<TokV>, i: int, acc: Seq<FieldV>) -> Result<(Seq<FieldV>, int), int>
    decreases ts.len() - i,
{
    if is_ident(ts, i) {
        if is_sym(ts, i + 1, ':') {
            match p_type(ts, i + 2) {
                Ok(t) => {
                    let j = i + 2 + type_len(t);
                    if is_sym(ts, j, ';') {
                        p_fields(ts, j + 1, acc.push(FieldV { name: ident_at(ts, i), ty: t }))
                    } else {
                        Err(j)
                    }
                },
                Err(k) => Err(k),
            }
        } else {
            Err(i + 1)
        }
    } else {
        Ok((acc, i))
    }
}

/// "{" field_list "}" ";"
pub open spec fn p_body(ts: Seq<TokV>, i: int) -> Result<(Seq<FieldV>, int), int> {
    if is_sym(ts, i, '{') {
        match p_fields(ts, i + 1, Seq::empty()) {
            Ok((fs, j)) => if !is_sym(ts, j, '}') {
                Err(j)
            } else if !is_sym(ts, j + 1, ';') {
                Err(j + 1)
            } else {
                Ok((fs, j + 2))
            },
            Err(k) => Err(k),
        }
    } else {
        Err(i)
    }
}

/// ident_list := IDENT ("," IDENT)*, appended to `acc`.
pub open spec fn p_idents(ts: Seq<TokV>, i: int, acc: Seq<Seq<char>>) -> Result<
    (Seq<Seq<char>>, int),
    int,
>
    decreases ts.len() - i,
{
    if is_ident(ts, i) {
        let acc2 = acc.push(ident_at(ts, i));
        if is_sym(ts, i + 1, ',') {
            p_idents(ts, i + 2, acc2)
        } else {
            Ok((acc2, i + 1))
        }
    } else {
        Err(i)
    }
}

pub open spec fn empty_graph() -> GraphV {
    GraphV { nodes: Seq::empty(), edges: Seq::empty(), walkers: Seq::empty() }
}

/// The node instances of one `node` statement.
pub open spec fn node_stmt_insts(ty: Seq<char>, names: Seq<Seq<char>>) -> Seq<NodeInstV> {
    names.map_values(|v: Seq<char>| NodeInstV { node_type: ty, varname: v })
}

/// The first position among `i + 1 ..= i + n` (for `n` up to 3) whose token is not an
/// identifier, if any.
pub open spec fn first_non_ident(ts: Seq<TokV>, i: int, n: int) -> Option<int> {
    if n >= 1 && !is_ident(ts, i + 1) {
        Some(i + 1)
    } else if n >= 2 && !is_ident(ts, i + 2) {
        Some(i + 2)
    } else if n >= 3 && !is_ident(ts, i + 3) {
        Some(i + 3)
    } else {
        None
    }
}

/// graph_body := graph_stmt*, added to `g`; ends before the first token that does not
/// start a statement.
pub open spec fn p_stmts(ts: Seq<TokV>, i: int, g: GraphV) -> Result<(GraphV, int), int>
    decreases ts.len() - i,
    via p_stmts_decreases
{
    if is_kw(ts, i, Keyword::Node) {
        if is_ident(ts, i + 1) {
            match p_idents(ts, i + 2, Seq::empty()) {
                Ok((names, j)) => if is_sym(ts, j, ';') {
                    p_stmts(
                        ts,
                        j + 1,
                        GraphV {
                            nodes: g.nodes + node_stmt_insts(ident_at(ts, i + 1), names),
                            ..g
                        },
                    )
                } else {
                    Err(j)
                },
                Err(k) => Err(k),
            }
        } else {
            Err(i + 1)
        }
    } else if is_kw(ts, i, Keyword::Edge) {
        if first_non_ident(ts, i, 3) is Some {
            Err(first_non_ident(ts, i, 3)->Some_0)
        } else if !(i + 4 < ts.len() && ts[i + 4] is Int) {
            Err(i + 4)
        } else if !is_sym(ts, i + 5, ';') {
            Err(i + 5)
        } else {
            let e = EdgeInstV {
                edge_type: ident_at(ts, i + 1),
                from: ident_at(ts, i + 2),
                to: ident_at(ts, i + 3),
                weight: ts[i + 4]->Int_0,
            };
            p_stmts(ts, i + 6, GraphV { edges: g.edges.push(e), ..g })
        }
    } else if is_kw(ts, i, Keyword::Walker) {
        if first_non_ident(ts, i, 2) is Some {
            Err(first_non_ident(ts, i, 2)->Some_0)
        } else if !is_sym(ts, i + 3, ';') {
            Err(i + 3)
        } else {
            let w = WalkerInstV { walker_type: ident_at(ts, i + 1), start: ident_at(ts, i + 2) };
            p_stmts(ts, i + 4, GraphV { walkers: g.walkers.push(w), ..g })
        }
    } else {
        Ok((g, i))
    }
}

/// program := block*, appended to `acc`; the whole token sequence must be consumed. An
/// error holds the position of the first token that does not fit (the length of `ts` when
/// the input ends too early).
pub open spec fn p_blocks(ts: Seq<TokV>, i: int, acc: Seq<TopV>) -> Result<Seq<TopV>, int>
    decreases ts.len() - i,
    via p_blocks_decreases
{
    if i < 0 || i >= ts.len() {
        Ok(acc)
    } else if is_kw(ts, i, Keyword::Node) {
        if is_ident(ts, i + 1) {
            match p_body(ts, i + 2) {
                Ok((fs, j)) => p_blocks(
                    ts,
                    j,
                    acc.push(TopV::Node(BlockV { name: ident_at(ts, i + 1), fields: fs })),
                ),
                Err(k) => Err(k),
            }
        } else {
            Err(i + 1)
        }
    } else if is_kw(ts, i, Keyword::Edge) {
        if first_non_ident(ts, i, 3) is Some {
            Err(first_non_ident(ts, i, 3)->Some_0)
        } else {
            match p_body(ts, i + 4) {
                Ok((fs, j)) => p_blocks(
                    ts,
                    j,
                    acc.push(
                        TopV::Edge(
                            BlockV { name: ident_at(ts, i + 1), fields: fs },
                            ident_at(ts, i + 2),
                            ident_at(ts, i + 3),
                        ),
                    ),
                ),
                Err(k) => Err(k),
            }
        }
    } else if is_kw(ts, i, Keyword::Walker) {
        if !is_ident(ts, i + 1) {
            Err(i + 1)
        } else if !is_sym(ts, i + 2, ':') {
            Err(i + 2)
        } else if !is_ident(ts, i + 3) {
            Err(i + 3)
        } else if !is_sym(ts, i + 4, ';') {
            Err(i + 4)
        } else {
            p_blocks(ts, i + 5, acc.push(TopV::Walker(ident_at(ts, i + 1), ident_at(ts, i + 3))))
        }
    } else if is_kw(ts, i, Keyword::Graph) {
        if is_sym(ts, i + 1, '{') {
            match p_stmts(ts, i + 2, empty_graph()) {
                Ok((g, j)) => if !is_sym(ts, j, '}') {
                    Err(j)
                } else if !is_sym(ts, j + 1, ';') {
                    Err(j + 1)
                } else {
                    p_blocks(ts, j + 2, acc.push(TopV::Graph(g)))
                },
                Err(k) => Err(k),
            }
        } else {
            Err(i + 1)
        }
    } else {
        Err(i)
    }
}

/// The blocks of a token sequence, in source order, or the position of the first token
/// that does not fit.
pub open spec fn parse_tokens(ts: Seq<TokV>) -> Result<Seq<TopV>, int> {
    p_blocks(ts, 0, Seq::empty())
}

pub open spec fn keyword_text(k: Keyword) -> Seq<char> {
    match k {
        Keyword::Node => "node"@,
        Keyword::Edge => "edge"@,
        Keyword::Walker => "walker"@,
        Keyword::Graph => "graph"@,
        Keyword::Int8 => "int8"@,
        Keyword::Int16 => "int16"@,
        Keyword::Int32 => "int32"@,
        Keyword::Int64 => "int64"@,
        Keyword::Float => "float"@,
        Keyword::Double => "double"@,
        Keyword::Char => "char"@,
    }
}

/// How a token is written.
pub open spec fn tok_text(t: TokV) -> Seq<char> {
    match t {
        TokV::Ident(s) => s,
        TokV::Int(v) => decimal(v),
        TokV::Kw(k) => keyword_text(k),
        TokV::Sym(c) => seq![c],
    }
}

/// The message of a lexical error at position `p`.
pub open spec fn lex_error_message(cs: Seq<char>, p: int) -> Seq<char> {
    if is_digit(cs[p]) || cs[p] == '-' {
        "integer literal out of range"@
    } else {
        "unexpected character `"@ + seq![cs[p]] + "`"@
    }
}

/// The blocks of a source text, in source order; or the position (in characters) where it
/// stops being a program, with a message naming what was found there.
pub open spec fn parse_text(s: Seq<char>) -> Result<Seq<TopV>, (int, Seq<char>)> {
    match lex(s) {
        Err(p) => Err((p, lex_error_message(s, p))),
        Ok((ts, offs)) => match parse_tokens(ts) {
            Ok(bs) => Ok(bs),
            Err(k) => if 0 <= k < ts.len() {
                Err((offs[k], "unexpected token `"@ + tok_text(ts[k]) + "`"@))
            } else {
                Err((s.len() as int, "unexpected end of input"@))
            },
        },
    }
}

/// Line and column of position `p` of `s`, both counted from 0.
pub open spec fn line_col(s: Seq<char>, p: int) -> (int, int)
    decreases p,
{
    if p <= 0 {
        (0, 0)
    } else {
        let (l, c) = line_col(s, p - 1);
        if s[p - 1] == '\n' {
            (l + 1, 0)
        } else {
            (l, c + 1)
        }
    }
}

// ---------------------------------------------------------------------------
// Positions only move forward
// ---------------------------------------------------------------------------

proof fn lemma_p_fields_pos(ts: Seq<TokV>, i: int, acc: Seq<FieldV>)
    ensures
        p_fields(ts, i, acc) matches Ok((_, j)) ==> i <= j,
    decreases ts.len() - i,
{
    if is_ident(ts, i) && is_sym(ts, i + 1, ':') {
        match p_type(ts, i + 2) {
            Ok(t) => {
                let j = i + 2 + type_len(t);
                if is_sym(ts, j, ';') {
                    lemma_p_fields_pos(ts, j + 1, acc.push(FieldV { name: ident_at(ts, i), ty: t }));
                }
            },
            Err(_) => {},
        }
    }
}

proof fn lemma_p_idents_pos(ts: Seq<TokV>, i: int, acc: Seq<Seq<char>>)
    ensures
        p_idents(ts, i, acc) matches Ok((_, j)) ==> i < j,
    decreases ts.len() - i,
{
    if is_ident(ts, i) && is_sym(ts, i + 1, ',') {
        lemma_p_idents_pos(ts, i + 2, acc.push(ident_at(ts, i)));
    }
}

#[via_fn]
proof fn p_stmts_decreases(ts: Seq<TokV>, i: int, g: GraphV) {
    lemma_p_idents_pos(ts, i + 2, Seq::empty());
}

proof fn lemma_p_stmts_pos(ts: Seq<TokV>, i: int, g: GraphV)
    ensures
        p_stmts(ts, i, g) matches Ok((_, j)) ==> i <= j,
    decreases ts.len() - i,
{
    if is_kw(ts, i, Keyword::Node) {
        if is_ident(ts, i + 1) {
            lemma_p_idents_pos(ts, i + 2, Seq::empty());
            match p_idents(ts, i + 2, Seq::empty()) {
                Ok((names, j)) => if is_sym(ts, j, ';') {
                    lemma_p_stmts_pos(
                        ts,
                        j + 1,
                        GraphV {
                            nodes: g.nodes + node_stmt_insts(ident_at(ts, i + 1), names),
                            ..g
                        },
                    );
                },
                Err(_) => {},
            }
        }
    } else if is_kw(ts, i, Keyword::Edge) {
        if first_non_ident(ts, i, 3) is None && i + 4 < ts.len() && ts[i + 4] is Int && is_sym(
            ts,
            i + 5,
            ';',
        ) {
            let e = EdgeInstV {
                edge_type: ident_at(ts, i + 1),
                from: ident_at(ts, i + 2),
                to: ident_at(ts, i + 3),
                weight: ts[i + 4]->Int_0,
            };
            lemma_p_stmts_pos(ts, i + 6, GraphV { edges: g.edges.push(e), ..g });
        }
    } else if is_kw(ts, i, Keyword::Walker) {
        if first_non_ident(ts, i, 2) is None && is_sym(ts, i + 3, ';') {
            let w = WalkerInstV { walker_type: ident_at(ts, i + 1), start: ident_at(ts, i + 2) };
            lemma_p_stmts_pos(ts, i + 4, GraphV { walkers: g.walkers.push(w), ..g });
        }
    }
}

#[via_fn]
proof fn p_blocks_decreases(ts: Seq<TokV>, i: int, acc: Seq<TopV>) {
    lemma_p_fields_pos(ts, i + 3, Seq::empty());
    lemma_p_fields_pos(ts, i + 5, Seq::empty());
    lemma_p_stmts_pos(ts, i + 2, empty_graph());
}

// ---------------------------------------------------------------------------
// The parser
// ---------------------------------------------------------------------------

/// Why a source text is not a program.
#[derive(Debug, Clone)]
pub struct ParseError {
    /// Character offset where the text stops being a program.
    pub offset: usize,
    /// Line of that offset, counted from 0.
    pub line: usize,
    /// Column of that offset, in characters, counted from 0.
    pub column: usize,
    /// What was found there.
    pub message: String,
}

fn sym_at(ts: &Vec<Token>, i: usize, c: char) -> (r: bool)
    ensures
        r == is_sym(toks_v(ts@), i as int, c),
{
    assert(toks_v(ts@).len() == ts@.len());
    if i < ts.len() {
        match &ts[i] {
            Token::Sym(d) => *d == c,
            _ => false,
        }
    } else {
        false
    }
}

fn kw_at(ts: &Vec<Token>, i: usize, k: Keyword) -> (r: bool)
    ensures
        r == is_kw(toks_v(ts@), i as int, k),
{
    assert(toks_v(ts@).len() == ts@.len());
    if i < ts.len() {
        match &ts[i] {
            Token::Kw(j) => *j == k,
            _ => false,
        }
    } else {
        false
    }
}

fn ident_tok(ts: &Vec<Token>, i: usize) -> (r: Option<String>)
    ensures
        r is Some == is_ident(toks_v(ts@), i as int),
        r matches Some(s) ==> s@ == ident_at(toks_v(ts@), i as int),
{
    assert(toks_v(ts@).len() == ts@.len());
    if i < ts.len() {
        match &ts[i] {
            Token::Ident(s) => Some(s.clone()),
            _ => None,
        }
    } else {
        None
    }
}

fn int_tok(ts: &Vec<Token>, i: usize) -> (r: Option<i64>)
    ensures
        r is Some == (i < ts@.len() && toks_v(ts@)[i as int] is Int),
        r matches Some(v) ==> toks_v(ts@)[i as int] == TokV::Int(v as int),
{
    assert(toks_v(ts@).len() == ts@.len());
    if i < ts.len() {
        match &ts[i] {
            Token::Int(v) => Some(*v),
            _ => None,
        }
    } else {
        None
    }
}

fn base_of_kw(k: Keyword) -> (r: Option<PIMBaseType>)
    ensures
        r == base_of(k),
{
    match k {
        Keyword::Int8 => Some(PIMBaseType::Int8),
        Keyword::Int16 => Some(PIMBaseType::Int16),
        Keyword::Int32 => Some(PIMBaseType::Int32),
        Keyword::Int64 => Some(PIMBaseType::Int64),
        Keyword::Float => Some(PIMBaseType::Float),
        Keyword::Double => Some(PIMBaseType::Double),
        Keyword::Char => Some(PIMBaseType::Char),
        _ => None,
    }
}

fn parse_type(ts: &Vec<Token>, i: usize) -> (r: Result<PIMType, usize>)
    ensures
        match r {
            Ok(t) => p_type(toks_v(ts@), i as int) == Ok::<PIMType, int>(t),
            Err(k) => p_type(toks_v(ts@), i as int) == Err::<PIMType, int>(k as int),
        },
{
    assert(toks_v(ts@).len() == ts@.len());
    if i >= ts.len() {
        return Err(i);
    }
    let b = match &ts[i] {
        Token::Kw(k) => match base_of_kw(*k) {
            Some(b) => b,
            None => {
                return Err(i);
            },
        },
        _ => {
            return Err(i);
        },
    };
    if sym_at(ts, i + 1, '[') {
        match int_tok(ts, i + 2) {
            Some(n) => if !(1 <= n && n <= 0x7fff_ffff) {
                Err(i + 2)
            } else if !sym_at(ts, i + 3, ']') {
                Err(i + 3)
            } else {
                Ok(PIMType::Array(b, n as i32))
            },
            None => Err(i + 2),
        }
    } else {
        Ok(PIMType::Basic(b))
    }
}

fn parse_fields(ts: &Vec<Token>, i: usize) -> (r: Result<(Vec<PIMField>, usize), usize>)
    requires
        i <= ts@.len(),
    ensures
        match r {
            Ok((fs, j)) => p_fields(toks_v(ts@), i as int, Seq::empty()) == Ok::<(Seq<FieldV>, int), int>(
                (fields_v(fs@), j as int),
            ) && j <= ts@.len() && fields_wf(fs@),
            Err(k) => p_fields(toks_v(ts@), i as int, Seq::empty()) == Err::<(Seq<FieldV>, int), int>(k as int) && k <= ts@.len(),
        },
{
    let ghost tv = toks_v(ts@);
    assert(tv.len() == ts@.len());
    let n = ts.len();
    let mut acc: Vec<PIMField> = Vec::new();
    let mut pos = i;
    assert(fields_v(acc@) =~= Seq::<FieldV>::empty());
    while pos < ts.len()
        invariant
            tv == toks_v(ts@),
            tv.len() == ts@.len(),
            n == ts@.len(),
            pos <= ts@.len(),
            p_fields(tv, pos as int, fields_v(acc@)) == p_fields(tv, i as int, Seq::empty()),
            fields_wf(acc@),
        decreases ts@.len() - pos,
    {
        let name = match ident_tok(ts, pos) {
            Some(name) => name,
            None => {
                return Ok((acc, pos));
            },
        };
        if !sym_at(ts, pos + 1, ':') {
            return Err(pos + 1);
        }
        let t = match parse_type(ts, pos + 2) {
            Ok(t) => t,
            Err(k) => {
                return Err(k);
            },
        };
        let j = match t {
            PIMType::Basic(_) => pos + 3,
            PIMType::Array(_, _) => pos + 6,
        };
        if !sym_at(ts, j, ';') {
            return Err(j);
        }
        let ghost old_acc = acc@;
        let f = PIMField { varname: name, pim_type: t };
        acc.push(f);
        assert(fields_v(acc@) =~= fields_v(old_acc).push(field_v(f)));
        assert(fields_wf(acc@)) by {
            assert(acc@[old_acc.len() as int] == f);
        }
        pos = j + 1;
    }
    Ok((acc, pos))
}

fn parse_body(ts: &Vec<Token>, i: usize) -> (r: Result<(Vec<PIMField>, usize), usize>)
    requires
        i <= ts@.len(),
    ensures
        match r {
            Ok((fs, j)) => p_body(toks_v(ts@), i as int) == Ok::<(Seq<FieldV>, int), int>((fields_v(fs@), j as int)) && j
                <= ts@.len() && fields_wf(fs@),
            Err(k) => p_body(toks_v(ts@), i as int) == Err::<(Seq<FieldV>, int), int>(k as int) && k <= ts@.len(),
        },
{
    assert(toks_v(ts@).len() == ts@.len());
    let n = ts.len();
    if !sym_at(ts, i, '{') {
        return Err(i);
    }
    let (fs, j) = match parse_fields(ts, i + 1) {
        Ok(r) => r,
        Err(k) => {
            return Err(k);
        },
    };
    if !sym_at(ts, j, '}') {
        return Err(j);
    }
    if !sym_at(ts, j + 1, ';') {
        return Err(j + 1);
    }
    Ok((fs, j + 2))
}

fn parse_idents(ts: &Vec<Token>, i: usize) -> (r: Result<(Vec<String>, usize), usize>)
    requires
        i <= ts@.len(),
    ensures
        match r {
            Ok((ns, j)) => p_idents(toks_v(ts@), i as int, Seq::empty()) == Ok::<(Seq<Seq<char>>, int), int>(
                (views(ns@), j as int),
            ) && j <= ts@.len(),
            Err(k) => p_idents(toks_v(ts@), i as int, Seq::empty()) == Err::<(Seq<Seq<char>>, int), int>(k as int) && k <= ts@.len(),
        },
{
    let ghost tv = toks_v(ts@);
    assert(tv.len() == ts@.len());
    let n = ts.len();
    let mut acc: Vec<String> = Vec::new();
    let mut pos = i;
    assert(views(acc@) =~= Seq::<Seq<char>>::empty());
    loop
        invariant
            tv == toks_v(ts@),
            tv.len() == ts@.len(),
            n == ts@.len(),
            pos <= ts@.len(),
            p_idents(tv, pos as int, views(acc@)) == p_idents(tv, i as int, Seq::empty()),
        decreases ts@.len() - pos,
    {
        let name = match ident_tok(ts, pos) {
            Some(name) => name,
            None => {
                return Err(pos);
            },
        };
        let ghost old_acc = acc@;
        acc.push(name);
        assert(views(acc@) =~= views(old_acc).push(ident_at(tv, pos as int)));
        if sym_at(ts, pos + 1, ',') {
            pos = pos + 2;
        } else {
            return Ok((acc, pos + 1));
        }
    }
}

fn parse_stmts(ts: &Vec<Token>, i: usize) -> (r: Result<(Graph, usize), usize>)
    requires
        i <= ts@.len(),
    ensures
        match r {
            Ok((g, j)) => p_stmts(toks_v(ts@), i as int, empty_graph()) == Ok::<(GraphV, int), int>(
                (graph_v(g), j as int),
            ) && j <= ts@.len(),
            Err(k) => p_stmts(toks_v(ts@), i as int, empty_graph()) == Err::<(GraphV, int), int>(k as int) && k <= ts@.len(),
        },
{
    let ghost tv = toks_v(ts@);
    assert(tv.len() == ts@.len());
    let n = ts.len();
    let mut g = Graph { node_insts: Vec::new(), edge_insts: Vec::new(), walker_insts: Vec::new() };
    let mut pos = i;
    assert(graph_v(g).nodes =~= empty_graph().nodes);
    assert(graph_v(g).edges =~= empty_graph().edges);
    assert(graph_v(g).walkers =~= empty_graph().walkers);
    loop
        invariant
            tv == toks_v(ts@),
            tv.len() == ts@.len(),
            n == ts@.len(),
            pos <= ts@.len(),
            p_stmts(tv, pos as int, graph_v(g)) == p_stmts(tv, i as int, empty_graph()),
        decreases ts@.len() - pos,
    {
        let ghost gv = graph_v(g);
        if kw_at(ts, pos, Keyword::Node) {
            let ty = match ident_tok(ts, pos + 1) {
                Some(ty) => ty,
                None => {
                    return Err(pos + 1);
                },
            };
            let (names, j) = match parse_idents(ts, pos + 2) {
                Ok(r) => r,
                Err(k) => {
                    return Err(k);
                },
            };
            if !sym_at(ts, j, ';') {
                return Err(j);
            }
            let mut insts = transform_node_inst(ty.as_str(), &names);
            let ghost ins = insts@;
            g.node_insts.append(&mut insts);
            proof {
                let added = node_stmt_insts(ident_at(tv, pos + 1), views(names@));
                assert(graph_v(g).nodes =~= gv.nodes + added) by {
                    assert forall|k: int| 0 <= k < added.len() implies graph_v(g).nodes[gv.nodes.len()
                        + k] == added[k] by {
                        assert(g.node_insts@[gv.nodes.len() + k] == ins[k]);
                    }
                }
                assert(graph_v(g).edges =~= gv.edges);
                assert(graph_v(g).walkers =~= gv.walkers);
                lemma_p_idents_pos(tv, pos + 2, Seq::empty());
            }
            pos = j + 1;
        } else if kw_at(ts, pos, Keyword::Edge) {
            let et = match ident_tok(ts, pos + 1) {
                Some(s) => s,
                None => {
                    return Err(pos + 1);
                },
            };
            let from = match ident_tok(ts, pos + 2) {
                Some(s) => s,
                None => {
                    return Err(pos + 2);
                },
            };
            let to = match ident_tok(ts, pos + 3) {
                Some(s) => s,
                None => {
                    return Err(pos + 3);
                },
            };
            let weight = match int_tok(ts, pos + 4) {
                Some(w) => w,
                None => {
                    return Err(pos + 4);
                },
            };
            if !sym_at(ts, pos + 5, ';') {
                return Err(pos + 5);
            }
            let e = EdgeInst { edge_type: et, from_varname: from, to_varname: to, weight };
            g.edge_insts.push(e);
            proof {
                assert(graph_v(g).nodes =~= gv.nodes);
                assert(graph_v(g).edges =~= gv.edges.push(edge_inst_v(e)));
                assert(graph_v(g).walkers =~= gv.walkers);
            }
            pos = pos + 6;
        } else if kw_at(ts, pos, Keyword::Walker) {
            let wt = match ident_tok(ts, pos + 1) {
                Some(s) => s,
                None => {
                    return Err(pos + 1);
                },
            };
            let start = match ident_tok(ts, pos + 2) {
                Some(s) => s,
                None => {
                    return Err(pos + 2);
                },
            };
            if !sym_at(ts, pos + 3, ';') {
                return Err(pos + 3);
            }
            let w = WalkerInst { walker_type: wt, start_node: start };
            g.walker_insts.push(w);
            proof {
                assert(graph_v(g).nodes =~= gv.nodes);
                assert(graph_v(g).edges =~= gv.edges);
                assert(graph_v(g).walkers =~= gv.walkers.push(walker_inst_v(w)));
            }
            pos = pos + 4;
        } else {
            return Ok((g, pos));
        }
    }
}

/// Parses a token sequence into its blocks, in source order; on failure, the position of
/// the token where parsing stopped (the length of `ts` for a premature end).
pub fn parse_tokens_exec(ts: &Vec<Token>) -> (r: Result<Vec<GeneralBlock>, usize>)
    ensures
        match r {
            Ok(bs) => parse_tokens(toks_v(ts@)) == Ok::<Seq<TopV>, int>(tops_v(bs@)) && blocks_wf(bs@),
            Err(k) => parse_tokens(toks_v(ts@)) == Err::<Seq<TopV>, int>(k as int) && k <= ts@.len(),
        },
{
    let ghost tv = toks_v(ts@);
    assert(tv.len() == ts@.len());
    let n = ts.len();
    let mut acc: Vec<GeneralBlock> = Vec::new();
    let mut pos: usize = 0;
    assert(tops_v(acc@) =~= Seq::<TopV>::empty());
    while pos < ts.len()
        invariant
            tv == toks_v(ts@),
            tv.len() == ts@.len(),
            n == ts@.len(),
            pos <= ts@.len(),
            p_blocks(tv, pos as int, tops_v(acc@)) == parse_tokens(tv),
            blocks_wf(acc@),
        decreases ts@.len() - pos,
    {
        let ghost old_acc = acc@;
        let b;
        if kw_at(ts, pos, Keyword::Node) {
            let name = match ident_tok(ts, pos + 1) {
                Some(s) => s,
                None => {
                    return Err(pos + 1);
                },
            };
            let (fs, j) = match parse_body(ts, pos + 2) {
                Ok(r) => r,
                Err(k) => {
                    return Err(k);
                },
            };
            proof {
                lemma_p_fields_pos(tv, pos + 3, Seq::empty());
            }
            b = GeneralBlock::NodeBlock(Node(NamedBlock { name, fields: fs }));
            pos = j;
        } else if kw_at(ts, pos, Keyword::Edge) {
            let name = match ident_tok(ts, pos + 1) {
                Some(s) => s,
                None => {
                    return Err(pos + 1);
                },
            };
            let from = match ident_tok(ts, pos + 2) {
                Some(s) => s,
                None => {
                    return Err(pos + 2);
                },
            };
            let to = match ident_tok(ts, pos + 3) {
                Some(s) => s,
                None => {
                    return Err(pos + 3);
                },
            };
            let (fs, j) = match parse_body(ts, pos + 4) {
                Ok(r) => r,
                Err(k) => {
                    return Err(k);
                },
            };
            proof {
                lemma_p_fields_pos(tv, pos + 5, Seq::empty());
            }
            b = GeneralBlock::EdgeBlock(
                Edge { from, to, named_block: NamedBlock { name, fields: fs } },
            );
            pos = j;
        } else if kw_at(ts, pos, Keyword::Walker) {
            let name = match ident_tok(ts, pos + 1) {
                Some(s) => s,
                None => {
                    return Err(pos + 1);
                },
            };
            if !sym_at(ts, pos + 2, ':') {
                return Err(pos + 2);
            }
            let node_type = match ident_tok(ts, pos + 3) {
                Some(s) => s,
                None => {
                    return Err(pos + 3);
                },
            };
            if !sym_at(ts, pos + 4, ';') {
                return Err(pos + 4);
            }
            b = GeneralBlock::WalkerBlock(Walker { name, node_type });
            pos = pos + 5;
        } else if kw_at(ts, pos, Keyword::Graph) {
            if !sym_at(ts, pos + 1, '{') {
                return Err(pos + 1);
            }
            let (g, j) = match parse_stmts(ts, pos + 2) {
                Ok(r) => r,
                Err(k) => {
                    return Err(k);
                },
            };
            if !sym_at(ts, j, '}') {
                return Err(j);
            }
            if !sym_at(ts, j + 1, ';') {
                return Err(j + 1);
            }
            proof {
                lemma_p_stmts_pos(tv, pos + 2, empty_graph());
            }
            b = GeneralBlock::GraphBlock(g);
            pos = j + 2;
        } else {
            return Err(pos);
        }
        acc.push(b);
        assert(tops_v(acc@) =~= tops_v(old_acc).push(top_v(b)));
        assert(blocks_wf(acc@)) by {
            assert(acc@[old_acc.len() as int] == b);
        }
    }
    Ok(acc)
}

/// How a token is written.
fn token_text(t: &Token) -> (r: String)
    ensures
        r@ == tok_text(t.view_tok()),
{
    match t {
        Token::Ident(s) => s.clone(),
        Token::Int(v) => decimal_string(*v),
        Token::Kw(k) => String::from_str(
            match k {
                Keyword::Node => "node",
                Keyword::Edge => "edge",
                Keyword::Walker => "walker",
                Keyword::Graph => "graph",
                Keyword::Int8 => "int8",
                Keyword::Int16 => "int16",
                Keyword::Int32 => "int32",
                Keyword::Int64 => "int64",
                Keyword::Float => "float",
                Keyword::Double => "double",
                Keyword::Char => "char",
            },
        ),
        Token::Sym(c) => {
            let cs = vec![*c];
            assert(cs@ =~= seq![*c]);
            string_from_chars(&cs)
        },
    }
}

/// Line and column of position `p` of `cs`, both counted from 0.
fn line_col_exec(cs: &Vec<char>, p: usize) -> (r: (usize, usize))
    requires
        p <= cs@.len(),
    ensures
        line_col(cs@, p as int) == (r.0 as int, r.1 as int),
{
    let mut line: usize = 0;
    let mut col: usize = 0;
    let mut i: usize = 0;
    while i < p
        invariant
            p <= cs@.len(),
            i <= p,
            line <= i && col <= i,
            line_col(cs@, i as int) == (line as int, col as int),
        decreases p - i,
    {
        if cs[i] == '\n' {
            line = line + 1;
            col = 0;
        } else {
            col = col + 1;
        }
        i = i + 1;
    }
    (line, col)
}

/// Parses a source text into its top-level blocks, in source order. On failure, the error
/// holds the position (in characters, and as line and column counted from 0) of the first
/// character or token that does not fit, and a message naming it.
pub fn parse_str(content: &str) -> (r: Result<Vec<GeneralBlock>, ParseError>)
    ensures
        match r {
            Ok(bs) => parse_text(content@) == Ok::<Seq<TopV>, (int, Seq<char>)>(tops_v(bs@))
                && blocks_wf(bs@),
            Err(e) => parse_text(content@) == Err::<Seq<TopV>, (int, Seq<char>)>(
                (e.offset as int, e.message@),
            ) && line_col(content@, e.offset as int) == (e.line as int, e.column as int),
        },
{
    let cs = chars_of(content);
    let (ts, offs) = match tokenize(&cs) {
        Ok(r) => r,
        Err(p) => {
            let c = cs[p];
            let message = if ('0' <= c && c <= '9') || c == '-' {
                String::from_str("integer literal out of range")
            } else {
                let mut m = String::from_str("unexpected character `");
                let one = vec![c];
                assert(one@ =~= seq![c]);
                let t = string_from_chars(&one);
                m.append(t.as_str());
                m.append("`");
                m
            };
            let (line, column) = line_col_exec(&cs, p);
            return Err(ParseError { offset: p, line, column, message });
        },
    };
    match parse_tokens_exec(&ts) {
        Ok(bs) => Ok(bs),
        Err(k) => {
            if k < offs.len() {
                let mut message = String::from_str("unexpected token `");
                let t = token_text(&ts[k]);
                message.append(t.as_str());
                message.append("`");
                assert(offsets_v(offs@)[k as int] == offs@[k as int] as int);
                assert(toks_v(ts@)[k as int] == ts@[k as int].view_tok());
                let (line, column) = line_col_exec(&cs, offs[k]);
                Err(ParseError { offset: offs[k], line, column, message })
            } else {
                let (line, column) = line_col_exec(&cs, cs.len());
                Err(
                    ParseError {
                        offset: cs.len(),
                        line,
                        column,
                        message: String::from_str("unexpected end of input"),
                    },
                )
            }
        },
    }
}

} // verus!
