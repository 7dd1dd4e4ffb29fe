use vstd::prelude::*;
use vstd::std_specs::iter::IteratorSpec;

verus! {

/// A reserved word of the language.
#[derive(Debug, Clone, Copy, PartialEq, Eq, Structural)]
pub enum Keyword {
    Node,
    Edge,
    Walker,
    Graph,
    Int8,
    Int16,
    Int32,
    Int64,
    Float,
    Double,
    Char,
}

/// A token, as the grammar sees it.
pub enum TokV {
    Ident(Seq<char>),
    Int(int),
    Kw(Keyword),
    Sym(char),
}

/// A token of the source text.
#[derive(Debug, Clone)]
pub enum Token {
    Ident(String),
    Int(i64),
    Kw(Keyword),
    Sym(char),
}

impl Token {
    pub open spec fn view_tok(&self) -> TokV {
        match self {
            Token::Ident(s) => TokV::Ident(s@),
            Token::Int(v) => TokV::Int(*v as int),
            Token::Kw(k) => TokV::Kw(*k),
            Token::Sym(c) => TokV::Sym(*c),
        }
    }
}

pub open spec fn toks_v(ts: Seq<Token>) -> Seq<TokV> {
    ts.map_values(|t: Token| t.view_tok())
}

// ---------------------------------------------------------------------------
// Character classes
// ---------------------------------------------------------------------------

pub open spec fn is_digit(c: char) -> bool {
    '0' <= c <= '9'
}

pub open spec fn is_ident_start(c: char) -> bool {
    ('a' <= c <= 'z') || ('A' <= c <= 'Z') || c == '_'
}

pub open spec fn is_ident_char(c: char) -> bool {
    is_ident_start(c) || is_digit(c)
}

pub open spec fn is_space(c: char) -> bool {
    c == ' ' || c == '\t' || c == '\n' || c == '\r'
}

pub open spec fn is_symbol(c: char) -> bool {
    c == '{' || c == '}' || c == ';' || c == ':' || c == '[' || c == ']' || c == ','
}

pub open spec fn digit_of(c: char) -> int {
    if c == '1' {
        1
    } else if c == '2' {
        2
    } else if c == '3' {
        3
    } else if c == '4' {
        4
    } else if c == '5' {
        5
    } else if c == '6' {
        6
    } else if c == '7' {
        7
    } else if c == '8' {
        8
    } else if c == '9' {
        9
    } else {
        0
    }
}

// ---------------------------------------------------------------------------
// The lexical grammar
// ---------------------------------------------------------------------------

/// Number of identifier characters from position `i` on.
pub open spec fn ident_len(cs: Seq<char>, i: int) -> nat
    decreases cs.len() - i,
{
    if 0 <= i < cs.len() && is_ident_char(cs[i]) {
        1 + ident_len(cs, i + 1)
    } else {
        0
    }
}

/// Number of decimal digits from position `i` on.
pub open spec fn digit_len(cs: Seq<char>, i: int) -> nat
    decreases cs.len() - i,
{
    if 0 <= i < cs.len() && is_digit(cs[i]) {
        1 + digit_len(cs, i + 1)
    } else {
        0
    }
}

/// Number of characters from position `i` up to the end of the line.
pub open spec fn line_len(cs: Seq<char>, i: int) -> nat
    decreases cs.len() - i,
{
    if 0 <= i < cs.len() && cs[i] != '\n' {
        1 + line_len(cs, i + 1)
    } else {
        0
    }
}

/// The value of a string of decimal digits.
pub open spec fn digits_value(s: Seq<char>) -> int
    decreases s.len(),
{
    if s.len() == 0 {
        0
    } else {
        digits_value(s.drop_last()) * 10 + digit_of(s.last())
    }
}

pub open spec fn keyword_of(w: Seq<char>) -> Option<Keyword> {
    if w == "node"@ {
        Some(Keyword::Node)
    } else if w == "edge"@ {
        Some(Keyword::Edge)
    } else if w == "walker"@ {
        Some(Keyword::Walker)
    } else if w == "graph"@ {
        Some(Keyword::Graph)
    } else if w == "int8"@ {
        Some(Keyword::Int8)
    } else if w == "int16"@ {
        Some(Keyword::Int16)
    } else if w == "int32"@ {
        Some(Keyword::Int32)
    } else if w == "int64"@ {
        Some(Keyword::Int64)
    } else if w == "float"@ {
        Some(Keyword::Float)
    } else if w == "double"@ {
        Some(Keyword::Double)
    } else if w == "char"@ {
        Some(Keyword::Char)
    } else {
        None
    }
}

/// The tokens of `cs` from position `i` on, appended to `acc`, with the position where each
/// starts appended to `offs`; or the position of a character that starts no token, or of
/// an integer literal outside the 64-bit signed range. Whitespace separates tokens, `//`
/// starts a comment that runs to the end of the line, and an identifier or a number takes
/// as many characters as it can.
pub open spec fn lex_from(cs: Seq<char>, i: int, acc: Seq<TokV>, offs: Seq<int>) -> Result<
    (Seq<TokV>, Seq<int>),
    int,
>
    decreases cs.len() - i,
    via lex_from_decreases
{
    if i < 0 || i >= cs.len() {
        Ok((acc, offs))
    } else if is_space(cs[i]) {
        lex_from(cs, i + 1, acc, offs)
    } else if cs[i] == '/' && i + 1 < cs.len() && cs[i + 1] == '/' {
        lex_from(cs, i + 2 + line_len(cs, i + 2), acc, offs)
    } else if is_ident_start(cs[i]) {
        let n = ident_len(cs, i);
        let w = cs.subrange(i, i + n);
        let t = match keyword_of(w) {
            Some(k) => TokV::Kw(k),
            None => TokV::Ident(w),
        };
        lex_from(cs, i + n, acc.push(t), offs.push(i))
    } else if is_digit(cs[i]) || (cs[i] == '-' && i + 1 < cs.len() && is_digit(cs[i + 1])) {
        let a = if cs[i] == '-' {
            i + 1
        } else {
            i
        };
        let n = digit_len(cs, a);
        let v = digits_value(cs.subrange(a, a + n));
        let value = if cs[i] == '-' {
            -v
        } else {
            v
        };
        if i64::MIN <= value <= i64::MAX {
            lex_from(cs, a + n, acc.push(TokV::Int(value)), offs.push(i))
        } else {
            Err(i)
        }
    } else if is_symbol(cs[i]) {
        lex_from(cs, i + 1, acc.push(TokV::Sym(cs[i])), offs.push(i))
    } else {
        Err(i)
    }
}

/// The tokens of the whole text, with their start positions.
pub open spec fn lex(cs: Seq<char>) -> Result<(Seq<TokV>, Seq<int>), int> {
    lex_from(cs, 0, Seq::empty(), Seq::empty())
}

pub open spec fn offsets_v(offs: Seq<usize>) -> Seq<int> {
    offs.map_values(|o: usize| o as int)
}

proof fn lemma_ident_len_bound(cs: Seq<char>, i: int)
    requires
        0 <= i <= cs.len(),
    ensures
        i + ident_len(cs, i) <= cs.len(),
    decreases cs.len() - i,
{
    if i < cs.len() {
        lemma_ident_len_bound(cs, i + 1);
    }
}

proof fn lemma_digit_len_bound(cs: Seq<char>, i: int)
    requires
        0 <= i <= cs.len(),
    ensures
        i + digit_len(cs, i) <= cs.len(),
    decreases cs.len() - i,
{
    if i < cs.len() {
        lemma_digit_len_bound(cs, i + 1);
    }
}

proof fn lemma_line_len_bound(cs: Seq<char>, i: int)
    requires
        0 <= i <= cs.len(),
    ensures
        i + line_len(cs, i) <= cs.len(),
    decreases cs.len() - i,
{
    if i < cs.len() {
        lemma_line_len_bound(cs, i + 1);
    }
}

#[via_fn]
proof fn lex_from_decreases(cs: Seq<char>, i: int, acc: Seq<TokV>, offs: Seq<int>) {
    if 0 <= i < cs.len() {
        if i + 2 <= cs.len() {
            lemma_line_len_bound(cs, i + 2);
        }
        lemma_ident_len_bound(cs, i);
        if is_ident_start(cs[i]) {
            assert(ident_len(cs, i) == 1 + ident_len(cs, i + 1));
        }
        let a = if cs[i] == '-' {
            i + 1
        } else {
            i
        };
        if a < cs.len() {
            lemma_digit_len_bound(cs, a);
            if is_digit(cs[a]) {
                assert(digit_len(cs, a) == 1 + digit_len(cs, a + 1));
            }
        }
    }
}


proof fn lemma_digits_value_prefix(s: Seq<char>, k: int)
    requires
        0 <= k <= s.len(),
    ensures
        0 <= digits_value(s.take(k)) <= digits_value(s),
    decreases s.len(),
{
    if s.len() > 0 {
        if k == s.len() {
            assert(s.take(k) =~= s);
            lemma_digits_value_prefix(s.drop_last(), k - 1);
            assert(s.drop_last().take(k - 1) =~= s.drop_last());
        } else {
            lemma_digits_value_prefix(s.drop_last(), k);
            assert(s.drop_last().take(k) =~= s.take(k));
        }
    }
}

// ---------------------------------------------------------------------------
// The lexer
// ---------------------------------------------------------------------------

/// Relies on `String::push`, which appends one character to the end of the string.
pub assume_specification[ String::push ](s: &mut String, ch: char)
    ensures
        final(s)@ == old(s)@.push(ch),
;

/// The characters of a text, in order.
pub(crate) fn chars_of(s: &str) -> (r: Vec<char>)
    ensures
        r@ == s@,
{
    broadcast use vstd::string::group_string_axioms;

    let mut it = s.chars();
    let mut r: Vec<char> = Vec::new();
    loop
        invariant
            r@ + it.remaining() == s@,
            it.decrease() is Some,
        decreases it.decrease()->0,
    {
        let ghost before = it.remaining();
        match it.next() {
            Some(c) => {
                r.push(c);
                assert(r@ + it.remaining() =~= s@) by {
                    assert(before == seq![c] + it.remaining());
                }
            },
            None => {
                assert(r@ =~= s@);
                return r;
            },
        }
    }
}

/// The string made of these characters.
pub(crate) fn string_from_chars(cs: &Vec<char>) -> (r: String)
    ensures
        r@ == cs@,
{
    let mut r = String::new();
    let mut i: usize = 0;
    while i < cs.len()
        invariant
            i <= cs@.len(),
            r@ == cs@.take(i as int),
        decreases cs@.len() - i,
    {
        r.push(cs[i]);
        i = i + 1;
        assert(r@ =~= cs@.take(i as int));
    }
    assert(cs@.take(i as int) =~= cs@);
    r
}

/// Whether the characters of `w` are those of `lit`.
fn chars_eq(w: &Vec<char>, lit: &str) -> (r: bool)
    ensures
        r == (w@ == lit@),
{
    let n = lit.unicode_len();
    if w.len() != n {
        return false;
    }
    let mut i: usize = 0;
    while i < n
        invariant
            n == lit@.len(),
            w@.len() == n,
            i <= n,
            forall|k: int| 0 <= k < i ==> w@[k] == lit@[k],
        decreases n - i,
    {
        if w[i] != lit.get_char(i) {
            return false;
        }
        i = i + 1;
    }
    assert(w@ =~= lit@);
    true
}

fn keyword_of_chars(w: &Vec<char>) -> (r: Option<Keyword>)
    ensures
        r == keyword_of(w@),
{
    if chars_eq(w, "node") {
        Some(Keyword::Node)
    } else if chars_eq(w, "edge") {
        Some(Keyword::Edge)
    } else if chars_eq(w, "walker") {
        Some(Keyword::Walker)
    } else if chars_eq(w, "graph") {
        Some(Keyword::Graph)
    } else if chars_eq(w, "int8") {
        Some(Keyword::Int8)
    } else if chars_eq(w, "int16") {
        Some(Keyword::Int16)
    } else if chars_eq(w, "int32") {
        Some(Keyword::Int32)
    } else if chars_eq(w, "int64") {
        Some(Keyword::Int64)
    } else if chars_eq(w, "float") {
        Some(Keyword::Float)
    } else if chars_eq(w, "double") {
        Some(Keyword::Double)
    } else if chars_eq(w, "char") {
        Some(Keyword::Char)
    } else {
        None
    }
}

fn digit_value(c: char) -> (r: i128)
    ensures
        r == digit_of(c),
{
    if c == '1' {
        1
    } else if c == '2' {
        2
    } else if c == '3' {
        3
    } else if c == '4' {
        4
    } else if c == '5' {
        5
    } else if c == '6' {
        6
    } else if c == '7' {
        7
    } else if c == '8' {
        8
    } else if c == '9' {
        9
    } else {
        0
    }
}

fn is_digit_char(c: char) -> (r: bool)
    ensures
        r == is_digit(c),
{
    '0' <= c && c <= '9'
}

fn is_ident_start_char(c: char) -> (r: bool)
    ensures
        r == is_ident_start(c),
{
    ('a' <= c && c <= 'z') || ('A' <= c && c <= 'Z') || c == '_'
}

/// Splits `cs` into tokens, with the position in `cs` where each token starts; on failure,
/// the position of the character where lexing stopped.
pub fn tokenize(cs: &Vec<char>) -> (r: Result<(Vec<Token>, Vec<usize>), usize>)
    ensures
        match r {
            Ok((ts, offs)) => {
                &&& lex(cs@) == Ok::<(Seq<TokV>, Seq<int>), int>((toks_v(ts@), offsets_v(offs@)))
                &&& offs@.len() == ts@.len()
                &&& forall|k: int| 0 <= k < offs@.len() ==> #[trigger] offs@[k] < cs@.len()
            },
            Err(p) => lex(cs@) == Err::<(Seq<TokV>, Seq<int>), int>(p as int) && p < cs@.len(),
        },
{
    let mut ts: Vec<Token> = Vec::new();
    let mut offs: Vec<usize> = Vec::new();
    let mut i: usize = 0;
    let n = cs.len();
    assert(toks_v(ts@) =~= Seq::<TokV>::empty());
    assert(offsets_v(offs@) =~= Seq::<int>::empty());
    while i < n
        invariant
            n == cs@.len(),
            i <= n,
            lex_from(cs@, i as int, toks_v(ts@), offsets_v(offs@)) == lex(cs@),
            offs@.len() == ts@.len(),
            forall|k: int| 0 <= k < offs@.len() ==> #[trigger] offs@[k] < cs@.len(),
        decreases n - i,
    {
        let c = cs[i];
        if c == ' ' || c == '\t' || c == '\n' || c == '\r' {
            i = i + 1;
        } else if c == '/' && i + 1 < n && cs[i + 1] == '/' {
            let mut j: usize = i + 2;
            while j < n && cs[j] != '\n'
                invariant
                    n == cs@.len(),
                    i + 2 <= j <= n,
                    line_len(cs@, i + 2) == (j - (i + 2)) + line_len(cs@, j as int),
                decreases n - j,
            {
                j = j + 1;
            }
            i = j;
        } else if is_ident_start_char(c) {
            let mut w: Vec<char> = Vec::new();
            let mut j: usize = i;
            while j < n && (is_ident_start_char(cs[j]) || is_digit_char(cs[j]))
                invariant
                    n == cs@.len(),
                    i <= j <= n,
                    w@ == cs@.subrange(i as int, j as int),
                    ident_len(cs@, i as int) == (j - i) + ident_len(cs@, j as int),
                decreases n - j,
            {
                w.push(cs[j]);
                j = j + 1;
                assert(w@ =~= cs@.subrange(i as int, j as int));
            }
            let ghost old_ts = ts@;
            let ghost old_offs = offs@;
            let t = match keyword_of_chars(&w) {
                Some(k) => Token::Kw(k),
                None => Token::Ident(string_from_chars(&w)),
            };
            ts.push(t);
            offs.push(i);
            assert(toks_v(ts@) =~= toks_v(old_ts).push(t.view_tok()));
            assert(offsets_v(offs@) =~= offsets_v(old_offs).push(i as int));
            i = j;
        } else if is_digit_char(c) || (c == '-' && i + 1 < n && is_digit_char(cs[i + 1])) {
            let neg = c == '-';
            let a: usize = if neg {
                i + 1
            } else {
                i
            };
            let mut v: i128 = 0;
            let mut j: usize = a;
            while j < n && is_digit_char(cs[j])
                invariant
                    n == cs@.len(),
                    i < n,
                    c == cs@[i as int],
                    !is_space(c),
                    !(c == '/' && i + 1 < n && cs@[i + 1] == '/'),
                    !is_ident_start(c),
                    is_digit(c) || (c == '-' && i + 1 < n && is_digit(cs@[i + 1])),
                    neg == (c == '-'),
                    a == (if neg { i + 1 } else { i as int }),
                    lex_from(cs@, i as int, toks_v(ts@), offsets_v(offs@)) == lex(cs@),
                    a <= j <= n,
                    digit_len(cs@, a as int) == (j - a) + digit_len(cs@, j as int),
                    v == digits_value(cs@.subrange(a as int, j as int)),
                    0 <= v <= 0x8000_0000_0000_0000,
                decreases n - j,
            {
                proof {
                    assert(cs@.subrange(a as int, j + 1).drop_last() =~= cs@.subrange(
                        a as int,
                        j as int,
                    ));
                }
                v = v * 10 + digit_value(cs[j]);
                j = j + 1;
                if v > 0x8000_0000_0000_0000 {
                    proof {
                        lemma_digit_len_bound(cs@, a as int);
                        let full = cs@.subrange(a as int, a + digit_len(cs@, a as int));
                        assert(full.take(j - a) =~= cs@.subrange(a as int, j as int));
                        lemma_digits_value_prefix(full, j - a);
                    }
                    return Err(i);
                }
            }
            proof {
                assert(digit_len(cs@, j as int) == 0);
            }
            let value: i128 = if neg {
                -v
            } else {
                v
            };
            if value > 0x7fff_ffff_ffff_ffff {
                return Err(i);
            }
            let ghost old_ts = ts@;
            let ghost old_offs = offs@;
            let t = Token::Int(value as i64);
            ts.push(t);
            offs.push(i);
            assert(toks_v(ts@) =~= toks_v(old_ts).push(t.view_tok()));
            assert(offsets_v(offs@) =~= offsets_v(old_offs).push(i as int));
            i = j;
        } else if c == '{' || c == '}' || c == ';' || c == ':' || c == '[' || c == ']' || c == ',' {
            let ghost old_ts = ts@;
            let ghost old_offs = offs@;
            let t = Token::Sym(c);
            ts.push(t);
            offs.push(i);
            assert(toks_v(ts@) =~= toks_v(old_ts).push(t.view_tok()));
            assert(offsets_v(offs@) =~= offsets_v(old_offs).push(i as int));
            i = i + 1;
        } else {
            return Err(i);
        }
    }
    Ok((ts, offs))
}

} // verus!
