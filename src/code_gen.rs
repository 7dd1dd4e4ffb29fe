use vstd::prelude::*;

use crate::base_type::{NamedBlock, PIMBaseType, PIMField, PIMType};
use crate::lexer::string_from_chars;
use crate::sem_type::SemanticEdge;

verus! {

// ---------------------------------------------------------------------------
// Decimal numerals
// ---------------------------------------------------------------------------

pub open spec fn digit_char(d: int) -> char {
    if d == 0 {
        '0'
    } else if d == 1 {
        '1'
    } else if d == 2 {
        '2'
    } else if d == 3 {
        '3'
    } else if d == 4 {
        '4'
    } else if d == 5 {
        '5'
    } else if d == 6 {
        '6'
    } else if d == 7 {
        '7'
    } else if d == 8 {
        '8'
    } else {
        '9'
    }
}

/// The decimal digits of a natural number, most significant first.
pub open spec fn nat_digits(n: nat) -> Seq<char>
    decreases n,
{
    if n < 10 {
        seq![digit_char(n as int)]
    } else {
        nat_digits(n / 10) + seq![digit_char((n % 10) as int)]
    }
}

/// The decimal numeral of an integer, with a leading `-` when negative.
pub open spec fn decimal(n: int) -> Seq<char> {
    if n < 0 {
        seq!['-'] + nat_digits((-n) as nat)
    } else {
        nat_digits(n as nat)
    }
}

fn digit_of_value(d: u64) -> (r: char)
    requires
        d < 10,
    ensures
        r == digit_char(d as int),
{
    if d == 0 {
        '0'
    } else if d == 1 {
        '1'
    } else if d == 2 {
        '2'
    } else if d == 3 {
        '3'
    } else if d == 4 {
        '4'
    } else if d == 5 {
        '5'
    } else if d == 6 {
        '6'
    } else if d == 7 {
        '7'
    } else if d == 8 {
        '8'
    } else {
        '9'
    }
}

fn push_digits(n: u64, out: &mut Vec<char>)
    ensures
        final(out)@ == old(out)@ + nat_digits(n as nat),
    decreases n,
{
    if n >= 10 {
        push_digits(n / 10, out);
    }
    out.push(digit_of_value(n % 10));
    assert(final(out)@ =~= old(out)@ + nat_digits(n as nat));
}

/// The decimal numeral of a natural number.
pub fn natural_string(n: u64) -> (r: String)
    ensures
        r@ == nat_digits(n as nat),
{
    let mut cs: Vec<char> = Vec::new();
    push_digits(n, &mut cs);
    assert(cs@ =~= nat_digits(n as nat));
    string_from_chars(&cs)
}

/// The decimal numeral of `n`.
pub fn decimal_string(n: i64) -> (r: String)
    ensures
        r@ == decimal(n as int),
{
    let mut cs: Vec<char> = Vec::new();
    if n < 0 {
        cs.push('-');
        let m: u64 = if n == i64::MIN {
            0x8000_0000_0000_0000
        } else {
            (-n) as u64
        };
        push_digits(m, &mut cs);
    } else {
        push_digits(n as u64, &mut cs);
    }
    assert(cs@ =~= decimal(n as int));
    string_from_chars(&cs)
}

// ---------------------------------------------------------------------------
// C declarations
// ---------------------------------------------------------------------------

/// `parts`, with `sep` between consecutive parts.
pub open spec fn join(parts: Seq<Seq<char>>, sep: Seq<char>) -> Seq<char>
    decreases parts.len(),
{
    if parts.len() == 0 {
        Seq::empty()
    } else if parts.len() == 1 {
        parts[0]
    } else {
        join(parts.drop_last(), sep) + sep + parts.last()
    }
}

pub open spec fn base_code(b: PIMBaseType) -> Seq<char> {
    match b {
        PIMBaseType::Int8 => "int8_t"@,
        PIMBaseType::Int16 => "int16_t"@,
        PIMBaseType::Int32 => "int32_t"@,
        PIMBaseType::Int64 => "int64_t"@,
        PIMBaseType::Char => "char"@,
        PIMBaseType::Float => "float"@,
        PIMBaseType::Double => "double"@,
    }
}

/// `T name;` for a scalar, `T name[N];` for an array.
pub open spec fn field_code(f: PIMField) -> Seq<char> {
    match f.pim_type {
        PIMType::Basic(t) => base_code(t) + " "@ + f.varname@ + ";"@,
        PIMType::Array(t, n) => base_code(t) + " "@ + f.varname@ + "["@ + decimal(n as int)
            + "];"@,
    }
}

pub open spec fn field_codes(fs: Seq<PIMField>) -> Seq<Seq<char>> {
    fs.map_values(|f: PIMField| field_code(f))
}

/// `typedef struct _N` and `opener`, then one member line per entry of `members`, then
/// `} N`.
pub open spec fn struct_code(name: Seq<char>, opener: Seq<char>, members: Seq<Seq<char>>) -> Seq<
    char,
> {
    "typedef struct _"@ + name + opener + join(members, "\n\t"@) + "\n} "@ + name
}

/// A node block opens its member list with ` { ` and a newline.
pub open spec fn block_code(b: NamedBlock) -> Seq<char> {
    struct_code(b.name@, " { \n\t"@, field_codes(b.fields@))
}

/// The fields of the edge, then a `from` member and a `to` member of the endpoint types.
pub open spec fn edge_code(e: SemanticEdge) -> Seq<char> {
    struct_code(
        e.named_block.name@,
        " {\n\t"@,
        field_codes(e.named_block.fields@).push(e.from.name@ + " from;"@).push(
            e.to.name@ + " to;"@,
        ),
    )
}

/// Appends `parts` to `out`, with `sep` between consecutive parts.
pub(crate) fn append_joined(out: &mut String, parts: &Vec<String>, sep: &str)
    ensures
        final(out)@ == old(out)@ + join(crate::semantics_analysis::views(parts@), sep@),
{
    let ghost vs = crate::semantics_analysis::views(parts@);
    let ghost start = out@;
    let mut i: usize = 0;
    while i < parts.len()
        invariant
            vs == crate::semantics_analysis::views(parts@),
            i <= parts@.len(),
            out@ == start + join(vs.take(i as int), sep@),
        decreases parts@.len() - i,
    {
        proof {
            assert(vs.take(i + 1).drop_last() =~= vs.take(i as int));
            assert(vs.take(i + 1).last() == parts@[i as int]@);
        }
        if i > 0 {
            out.append(sep);
        }
        out.append(parts[i].as_str());
        proof {
            if i == 0 {
                assert(join(vs.take(1), sep@) == vs.take(1)[0]);
                assert(start + join(vs.take(0), sep@) =~= start);
            }
            assert(out@ =~= start + join(vs.take(i + 1), sep@));
        }
        i = i + 1;
    }
    assert(vs.take(i as int) =~= vs);
}

fn struct_text(name: &String, opener: &str, members: &Vec<String>) -> (r: String)
    ensures
        r@ == struct_code(name@, opener@, crate::semantics_analysis::views(members@)),
{
    let mut r = String::new();
    r.append("typedef struct _");
    r.append(name.as_str());
    r.append(opener);
    append_joined(&mut r, members, "\n\t");
    r.append("\n} ");
    r.append(name.as_str());
    assert(r@ =~= struct_code(name@, opener@, crate::semantics_analysis::views(members@)));
    r
}

fn field_texts(fs: &Vec<PIMField>) -> (r: Vec<String>)
    ensures
        crate::semantics_analysis::views(r@) == field_codes(fs@),
{
    let mut r: Vec<String> = Vec::new();
    let mut i: usize = 0;
    while i < fs.len()
        invariant
            i <= fs@.len(),
            crate::semantics_analysis::views(r@) == field_codes(fs@).take(i as int),
        decreases fs@.len() - i,
    {
        let ghost old_r = r@;
        let t = fs[i].type_code();
        r.push(t);
        proof {
            assert(crate::semantics_analysis::views(r@) =~= crate::semantics_analysis::views(
                old_r,
            ).push(t@));
        }
        i = i + 1;
        assert(crate::semantics_analysis::views(r@) =~= field_codes(fs@).take(i as int));
    }
    assert(field_codes(fs@).take(i as int) =~= field_codes(fs@));
    r
}

/// C text for a type of the language.
pub trait TypeCodeGen {
    spec fn spec_type_code(&self) -> Seq<char>;

    fn type_code(&self) -> (r: String)
        ensures
            r@ == self.spec_type_code(),
    ;
}

impl TypeCodeGen for PIMBaseType {
    open spec fn spec_type_code(&self) -> Seq<char> {
        base_code(*self)
    }

    fn type_code(&self) -> (r: String) {
        String::from_str(
            match self {
                PIMBaseType::Int8 => "int8_t",
                PIMBaseType::Int16 => "int16_t",
                PIMBaseType::Int32 => "int32_t",
                PIMBaseType::Int64 => "int64_t",
                PIMBaseType::Char => "char",
                PIMBaseType::Float => "float",
                PIMBaseType::Double => "double",
            },
        )
    }
}

impl TypeCodeGen for PIMField {
    open spec fn spec_type_code(&self) -> Seq<char> {
        field_code(*self)
    }

    fn type_code(&self) -> (r: String) {
        match &self.pim_type {
            PIMType::Basic(t) => {
                let mut r = t.type_code();
                r.append(" ");
                r.append(self.varname.as_str());
                r.append(";");
                r
            },
            PIMType::Array(t, n) => {
                let mut r = t.type_code();
                r.append(" ");
                r.append(self.varname.as_str());
                r.append("[");
                let d = decimal_string(*n as i64);
                r.append(d.as_str());
                r.append("];");
                r
            },
        }
    }
}

impl TypeCodeGen for NamedBlock {
    open spec fn spec_type_code(&self) -> Seq<char> {
        block_code(*self)
    }

    fn type_code(&self) -> (r: String) {
        let members = field_texts(&self.fields);
        struct_text(&self.name, " { \n\t", &members)
    }
}

impl TypeCodeGen for SemanticEdge {
    open spec fn spec_type_code(&self) -> Seq<char> {
        edge_code(*self)
    }

    fn type_code(&self) -> (r: String) {
        let mut members = field_texts(&self.named_block.fields);
        let ghost fm = members@;
        let mut from = self.from.name.clone();
        from.append(" from;");
        let mut to = self.to.name.clone();
        to.append(" to;");
        members.push(from);
        members.push(to);
        assert(crate::semantics_analysis::views(members@) =~= field_codes(
            self.named_block.fields@,
        ).push(self.from.name@ + " from;"@).push(self.to.name@ + " to;"@)) by {
            assert(crate::semantics_analysis::views(fm) == field_codes(self.named_block.fields@));
        }
        struct_text(&self.named_block.name, " {\n\t", &members)
    }
}

} // verus!
