//! The grammar of ChimeraScript, and the parser that reads a script into its
//! syntax tree.
//!
//! Each `*_spec` function states what a piece of the grammar matches at a
//! position of the text, and what it gives; the executable parser does the
//! same and its contract says so. Between tokens, white space and comments
//! (`// ...` to the end of the line, `/* ... */`) are skipped.
use vstd::prelude::*;
use crate::abstract_syntax_tree::{
    AssertCommand, AssertCommandV, AssertSubCommand, AssignmentExpr, BlockContents, BlockV, Decorator, DecoratorV,
    Expression, ExpressionV, Function, FunctionV, HTTPVerb, HttpAssignment, HttpCommand, HttpCommandV, KeyValuePair,
    ListCommand, ListCommandOperations, ListExpression, ListExpressionV, ListOpV, MutateListOperations, Statement,
    StatementV, Teardown, Value, ValueV, assignments_view, pairs_view, values_view, ChimeraScriptAST,
    functions_view,
};
use crate::err_handle::ChimeraCompileError;
use crate::literal::{Float, FloatV, Literal, LiteralV, NumberKind, NumberV};
use crate::text::{chars_to_string, parse_i64, parse_i64_text, parse_u64, parse_u64_text};

verus! {

// ---------------------------------------------------------------------------
// Characters and white space
// ---------------------------------------------------------------------------

pub open spec fn is_ws(c: char) -> bool {
    c == ' ' || c == '\t' || c == '\n' || c == '\r'
}

pub open spec fn is_alnum(c: char) -> bool {
    ('a' <= c && c <= 'z') || ('A' <= c && c <= 'Z') || ('0' <= c && c <= '9')
}

/// A character of a variable name or a request parameter name.
pub open spec fn is_name_char(c: char) -> bool {
    is_alnum(c) || c == '_' || c == '-'
}

/// A character of a function name, a decorator, or a piece of a request path.
pub open spec fn is_word_char(c: char) -> bool {
    is_alnum(c) || c == '_' || c == '-' || c == '.' || c == '~'
}

/// A character of the plain text of a string: anything but `"` and `(`.
pub open spec fn is_text_char(c: char) -> bool {
    c != '"' && c != '('
}

pub open spec fn is_digit_char(c: char) -> bool {
    '0' <= c && c <= '9'
}

/// `lit` is found at position `i` of `s`.
pub open spec fn at(s: Seq<char>, i: int, lit: Seq<char>) -> bool {
    &&& 0 <= i
    &&& i + lit.len() <= s.len()
    &&& s.subrange(i, i + lit.len()) == lit
}

/// The end of the run of name characters from `i`.
pub open spec fn name_end(s: Seq<char>, i: int) -> int
    decreases s.len() - i,
{
    if 0 <= i < s.len() && is_name_char(s[i]) { name_end(s, i + 1) } else { i }
}

pub open spec fn word_end(s: Seq<char>, i: int) -> int
    decreases s.len() - i,
{
    if 0 <= i < s.len() && is_word_char(s[i]) { word_end(s, i + 1) } else { i }
}

pub open spec fn text_end(s: Seq<char>, i: int) -> int
    decreases s.len() - i,
{
    if 0 <= i < s.len() && is_text_char(s[i]) { text_end(s, i + 1) } else { i }
}

pub open spec fn digits_end(s: Seq<char>, i: int) -> int
    decreases s.len() - i,
{
    if 0 <= i < s.len() && is_digit_char(s[i]) { digits_end(s, i + 1) } else { i }
}

/// The position of the line feed that ends the line of `i`, or the end of the text.
pub open spec fn line_end(s: Seq<char>, i: int) -> int
    decreases s.len() - i,
{
    if 0 <= i < s.len() && s[i] != '\n' { line_end(s, i + 1) } else { i }
}

/// The position after the `*/` that closes a comment, looking from `i`.
pub open spec fn comment_end(s: Seq<char>, i: int) -> Option<int>
    decreases s.len() - i,
{
    if i < 0 || i + 1 >= s.len() {
        None
    } else if s[i] == '*' && s[i + 1] == '/' {
        Some(i + 2)
    } else {
        comment_end(s, i + 1)
    }
}

/// The position after the white space and comments at `i`.
pub open spec fn skip(s: Seq<char>, i: int) -> int
    decreases s.len() - i,
{
    if i < 0 || i >= s.len() {
        i
    } else if is_ws(s[i]) {
        skip(s, i + 1)
    } else if at(s, i, seq!['/', '/']) {
        let j = line_end(s, i + 2);
        if i < j <= s.len() { skip(s, j) } else { i }
    } else if at(s, i, seq!['/', '*']) {
        match comment_end(s, i + 2) {
            Some(j) => if i < j <= s.len() { skip(s, j) } else { i },
            None => i,
        }
    } else {
        i
    }
}

proof fn lemma_run_bounds(s: Seq<char>, i: int)
    requires
        0 <= i <= s.len(),
    ensures
        i <= name_end(s, i) <= s.len(),
        i <= word_end(s, i) <= s.len(),
        i <= text_end(s, i) <= s.len(),
        i <= digits_end(s, i) <= s.len(),
        i <= line_end(s, i) <= s.len(),
        forall|k: int| i <= k < name_end(s, i) ==> is_name_char(#[trigger] s[k]),
        forall|k: int| i <= k < word_end(s, i) ==> is_word_char(#[trigger] s[k]),
        forall|k: int| i <= k < text_end(s, i) ==> is_text_char(#[trigger] s[k]),
        forall|k: int| i <= k < digits_end(s, i) ==> is_digit_char(#[trigger] s[k]),
    decreases s.len() - i,
{
    if i < s.len() {
        lemma_run_bounds(s, i + 1);
    }
}

proof fn lemma_skip_bounds(s: Seq<char>, i: int)
    requires
        0 <= i <= s.len(),
    ensures
        i <= skip(s, i) <= s.len(),
    decreases s.len() - i,
{
    if i < s.len() {
        if is_ws(s[i]) {
            lemma_skip_bounds(s, i + 1);
        } else if at(s, i, seq!['/', '/']) {
            lemma_run_bounds(s, i + 2);
            lemma_skip_bounds(s, line_end(s, i + 2));
        } else if at(s, i, seq!['/', '*']) {
            lemma_comment_end_bounds(s, i + 2);
            match comment_end(s, i + 2) {
                Some(j) => if i < j <= s.len() { lemma_skip_bounds(s, j); },
                None => {},
            }
        }
    }
}

proof fn lemma_comment_end_bounds(s: Seq<char>, i: int)
    requires
        0 <= i,
    ensures
        comment_end(s, i) matches Some(j) ==> i + 2 <= j <= s.len(),
    decreases s.len() - i,
{
    if i + 1 < s.len() && !(s[i] == '*' && s[i + 1] == '/') {
        lemma_comment_end_bounds(s, i + 1);
    }
}

// ---------------------------------------------------------------------------
// Executable scanning
// ---------------------------------------------------------------------------

/// Whether `lit` is found at position `i` of `s`.
pub fn at_exec(s: &Vec<char>, i: usize, lit: &str) -> (r: bool)
    ensures
        r == at(s@, i as int, lit@),
{
    let l = crate::text::str_to_chars(lit);
    if l.len() > s.len() || i > s.len() - l.len() {
        return false;
    }
    let mut k: usize = 0;
    while k < l.len()
        invariant
            k <= l.len(),
            l@ == lit@,
            i + l.len() <= s.len(),
            forall|m: int| 0 <= m < k ==> s@[i + m] == l@[m],
        decreases l.len() - k,
    {
        if s[i + k] != l[k] {
            assert(s@.subrange(i as int, i + l.len())[k as int] != lit@[k as int]);
            return false;
        }
        k = k + 1;
    }
    assert(s@.subrange(i as int, i + l.len()) =~= lit@);
    true
}

fn is_name_char_exec(c: char) -> (r: bool)
    ensures
        r == is_name_char(c),
{
    ('a' <= c && c <= 'z') || ('A' <= c && c <= 'Z') || ('0' <= c && c <= '9') || c == '_' || c == '-'
}

fn is_word_char_exec(c: char) -> (r: bool)
    ensures
        r == is_word_char(c),
{
    ('a' <= c && c <= 'z') || ('A' <= c && c <= 'Z') || ('0' <= c && c <= '9') || c == '_' || c == '-' || c == '.'
        || c == '~'
}

/// The end of the run of name characters from `i`; see [`name_end`].
fn name_end_exec(s: &Vec<char>, i: usize) -> (r: usize)
    requires
        i <= s.len(),
    ensures
        r == name_end(s@, i as int),
{
    let mut k = i;
    while k < s.len() && is_name_char_exec(s[k])
        invariant
            i <= k <= s.len(),
            name_end(s@, k as int) == name_end(s@, i as int),
        decreases s.len() - k,
    {
        k = k + 1;
    }
    k
}

fn word_end_exec(s: &Vec<char>, i: usize) -> (r: usize)
    requires
        i <= s.len(),
    ensures
        r == word_end(s@, i as int),
{
    let mut k = i;
    while k < s.len() && is_word_char_exec(s[k])
        invariant
            i <= k <= s.len(),
            word_end(s@, k as int) == word_end(s@, i as int),
        decreases s.len() - k,
    {
        k = k + 1;
    }
    k
}

fn text_end_exec(s: &Vec<char>, i: usize) -> (r: usize)
    requires
        i <= s.len(),
    ensures
        r == text_end(s@, i as int),
{
    let mut k = i;
    while k < s.len() && s[k] != '"' && s[k] != '('
        invariant
            i <= k <= s.len(),
            text_end(s@, k as int) == text_end(s@, i as int),
        decreases s.len() - k,
    {
        k = k + 1;
    }
    k
}

fn digits_end_exec(s: &Vec<char>, i: usize) -> (r: usize)
    requires
        i <= s.len(),
    ensures
        r == digits_end(s@, i as int),
{
    let mut k = i;
    while k < s.len() && '0' <= s[k] && s[k] <= '9'
        invariant
            i <= k <= s.len(),
            digits_end(s@, k as int) == digits_end(s@, i as int),
        decreases s.len() - k,
    {
        k = k + 1;
    }
    k
}

/// Skips white space and comments; see [`skip`].
pub fn skip_exec(s: &Vec<char>, i: usize) -> (r: usize)
    requires
        i <= s.len(),
    ensures
        r == skip(s@, i as int),
        i <= r <= s.len(),
{
    proof { lemma_skip_bounds(s@, i as int); }
    let mut k = i;
    loop
        invariant
            i <= k <= s.len(),
            skip(s@, k as int) == skip(s@, i as int),
        decreases s.len() - k,
    {
        if k >= s.len() {
            return k;
        }
        let c = s[k];
        if c == ' ' || c == '\t' || c == '\n' || c == '\r' {
            k = k + 1;
        } else if at_exec(s, k, "//") {
            proof { reveal_strlit("//"); assert("//"@ =~= seq!['/', '/']); }
            let mut j = k + 2;
            while j < s.len() && s[j] != '\n'
                invariant
                    k + 2 <= j <= s.len(),
                    line_end(s@, j as int) == line_end(s@, k + 2),
                decreases s.len() - j,
            {
                j = j + 1;
            }
            k = j;
        } else if at_exec(s, k, "/*") {
            proof { reveal_strlit("/*"); assert("/*"@ =~= seq!['/', '*']); reveal_strlit("//"); assert("//"@ =~= seq!['/', '/']); }
            let mut j = k + 2;
            while j < s.len() && j + 1 < s.len() && !(s[j] == '*' && s[j + 1] == '/')
                invariant
                    k + 2 <= j <= s.len(),
                    comment_end(s@, j as int) == comment_end(s@, k + 2),
                decreases s.len() - j,
            {
                j = j + 1;
            }
            if j < s.len() && j + 1 < s.len() {
                proof { lemma_comment_end_bounds(s@, k + 2); }
                k = j + 2;
            } else {
                return k;
            }
        } else {
            proof {
                reveal_strlit("//");
                reveal_strlit("/*");
                assert("//"@ =~= seq!['/', '/']);
                assert("/*"@ =~= seq!['/', '*']);
            }
            return k;
        }
    }
}

/// The characters `s[a..b]` as a `String`.
pub fn sub_string(s: &Vec<char>, a: usize, b: usize) -> (r: String)
    requires
        a <= b <= s.len(),
    ensures
        r@ == s@.subrange(a as int, b as int),
{
    let mut out: Vec<char> = Vec::new();
    let mut k = a;
    while k < b
        invariant
            a <= k <= b <= s.len(),
            out@ == s@.subrange(a as int, k as int),
        decreases b - k,
    {
        out.push(s[k]);
        k = k + 1;
        assert(out@ =~= s@.subrange(a as int, k as int));
    }
    chars_to_string(&out)
}

// ---------------------------------------------------------------------------
// Values
// ---------------------------------------------------------------------------

/// What a piece of the grammar gives at a position: `Ok(Some((v, end)))` when
/// it matches up to `end`, `Ok(None)` when it does not match, `Err((message,
/// position))` when it matches but a number in it does not fit its type.
pub type Parsed<T> = Result<Option<(T, int)>, (Seq<char>, int)>;

/// The end of a variable path `name(.name)*` whose first name ends at `p`.
pub open spec fn nested_end(s: Seq<char>, p: int) -> int
    decreases s.len() - p,
{
    if 0 <= p < s.len() && s[p] == '.' && name_end(s, p + 1) > p + 1 && name_end(s, p + 1) <= s.len() {
        nested_end(s, name_end(s, p + 1))
    } else {
        p
    }
}

/// `(name.path)` right at `j`: the variable path, and the position after `)`.
pub open spec fn var_at(s: Seq<char>, j: int) -> Option<(Seq<char>, int)> {
    if 0 <= j < s.len() && s[j] == '(' && name_end(s, j + 1) > j + 1 {
        let e = nested_end(s, name_end(s, j + 1));
        if j + 1 <= e < s.len() && s[e] == ')' { Some((s.subrange(j + 1, e), e + 1)) } else { None }
    } else {
        None
    }
}

/// A variable value: `(name)` or `(name.field.0)`.
pub open spec fn var_spec(s: Seq<char>, i: int) -> Option<(Seq<char>, int)> {
    var_at(s, skip(s, i))
}

/// A quoted string without `(` in it: its text.
pub open spec fn quote_spec(s: Seq<char>, i: int) -> Option<(Seq<char>, int)> {
    let j = skip(s, i);
    if 0 <= j < s.len() && s[j] == '"' {
        let k = text_end(s, j + 1);
        if j + 1 <= k < s.len() && s[k] == '"' { Some((s.subrange(j + 1, k), k + 1)) } else { None }
    } else {
        None
    }
}

/// The parts of a formatted string from `p` on, after the parts `acc`.
pub open spec fn fmt_parts(s: Seq<char>, p: int, acc: Seq<ValueV>) -> Option<(Seq<ValueV>, int)>
    decreases s.len() - p,
{
    if p < 0 || p >= s.len() {
        None
    } else if s[p] == '"' {
        if acc.len() > 0 { Some((acc, p + 1)) } else { None }
    } else if s[p] == '(' {
        match var_at(s, p) {
            Some((n, q)) => if p < q <= s.len() { fmt_parts(s, q, acc.push(ValueV::Var(n))) } else { None },
            None => None,
        }
    } else {
        let q = text_end(s, p);
        if p < q <= s.len() { fmt_parts(s, q, acc.push(ValueV::Lit(LiteralV::Str(s.subrange(p, q))))) } else { None }
    }
}

/// A formatted string: a quoted string of plain text and `(variable)` parts,
/// at least one of them.
pub open spec fn fmt_spec(s: Seq<char>, i: int) -> Option<(Seq<ValueV>, int)> {
    let j = skip(s, i);
    if 0 <= j < s.len() && s[j] == '"' { fmt_parts(s, j + 1, Seq::empty()) } else { None }
}

/// A number: `-`? digits `.` digits is a float, decoded by `fl`; `-` digits a
/// signed integer; digits an unsigned integer. Outside `strict` mode numbers
/// that do not fit are read as zero and floats are not decoded.
#[verifier::opaque]
pub open spec fn number_spec(s: Seq<char>, i: int, strict: bool, fl: spec_fn(Seq<char>) -> FloatV) -> Parsed<NumberV> {
    let j = skip(s, i);
    let neg = 0 <= j < s.len() && s[j] == '-';
    let a = if neg { j + 1 } else { j };
    let d = digits_end(s, a);
    if d == a {
        Ok(None)
    } else if 0 <= d < s.len() && s[d] == '.' && digits_end(s, d + 1) > d + 1 {
        let e = digits_end(s, d + 1);
        if strict {
            Ok(Some((NumberV::F64(fl(s.subrange(j, e))), e)))
        } else {
            Ok(Some((NumberV::F64(FloatV { bits: 0, shown: Seq::empty() }), e)))
        }
    } else if neg {
        match parse_i64_text(s.subrange(j, d)) {
            Some(v) => Ok(Some((NumberV::I64(v), d))),
            None => if strict { Err(("Failed to parse a signed number"@, j)) } else { Ok(Some((NumberV::I64(0), d))) },
        }
    } else {
        match parse_u64_text(s.subrange(j, d)) {
            Some(v) => Ok(Some((NumberV::U64(v), d))),
            None => if strict { Err(("Failed to parse an unsigned number"@, j)) } else { Ok(Some((NumberV::U64(0), d))) },
        }
    }
}

/// A literal: a quoted string, a number, `true`/`True`, `false`/`False`, `null`/`Null`.
#[verifier::opaque]
pub open spec fn literal_spec(s: Seq<char>, i: int, strict: bool, fl: spec_fn(Seq<char>) -> FloatV) -> Parsed<LiteralV> {
    match quote_spec(s, i) {
        Some((t, k)) => Ok(Some((LiteralV::Str(t), k))),
        None => match number_spec(s, i, strict, fl) {
            Err(e) => Err(e),
            Ok(Some((n, k))) => Ok(Some((LiteralV::Number(n), k))),
            Ok(None) => {
                let j = skip(s, i);
                if at(s, j, "true"@) || at(s, j, "True"@) {
                    Ok(Some((LiteralV::Bool(true), j + 4)))
                } else if at(s, j, "false"@) || at(s, j, "False"@) {
                    Ok(Some((LiteralV::Bool(false), j + 5)))
                } else if at(s, j, "null"@) || at(s, j, "Null"@) {
                    Ok(Some((LiteralV::Null, j + 4)))
                } else {
                    Ok(None)
                }
            },
        },
    }
}

/// A value: a literal, a variable, or a formatted string.
#[verifier::opaque]
pub open spec fn value_spec(s: Seq<char>, i: int, strict: bool, fl: spec_fn(Seq<char>) -> FloatV) -> Parsed<ValueV> {
    match literal_spec(s, i, strict, fl) {
        Err(e) => Err(e),
        Ok(Some((l, k))) => Ok(Some((ValueV::Lit(l), k))),
        Ok(None) => match var_spec(s, i) {
            Some((n, k)) => Ok(Some((ValueV::Var(n), k))),
            None => match fmt_spec(s, i) {
                Some((vs, k)) => Ok(Some((ValueV::Fmt(vs), k))),
                None => Ok(None),
            },
        },
    }
}

// ---------------------------------------------------------------------------
// Decoding floats
// ---------------------------------------------------------------------------

/// Some call of `f` on a string holding `t` returned a float that views as `r`.
pub open spec fn decodes<F: Fn(&str) -> Float>(f: F, t: Seq<char>, r: FloatV) -> bool {
    exists|a: &str, b: Float| a@ == t && #[trigger] call_ensures(f, (a,), b) && b@ == r
}

/// `f` can be called on any string, and gives the same float for the same text.
pub open spec fn decoder_ok<F: Fn(&str) -> Float>(f: F) -> bool {
    &&& forall|a: &str| call_requires(f, (a,))
    &&& forall|t: Seq<char>, r1: FloatV, r2: FloatV| decodes(f, t, r1) && decodes(f, t, r2) ==> r1 == r2
}

/// The float `f` gives for a text.
pub open spec fn decoded<F: Fn(&str) -> Float>(f: F) -> spec_fn(Seq<char>) -> FloatV {
    |t: Seq<char>| choose|r: FloatV| decodes(f, t, r)
}

/// The float of a literal's text, decoded by `float_of`.
fn decode_float<F: Fn(&str) -> Float>(float_of: &F, text: &str) -> (r: Float)
    requires
        decoder_ok(*float_of),
    ensures
        r@ == decoded(*float_of)(text@),
{
    let f = float_of(text);
    proof {
        assert(decodes(*float_of, text@, f@));
        let c = choose|r: FloatV| decodes(*float_of, text@, r);
        assert(decodes(*float_of, text@, c));
    }
    f
}

/// An executable parse matches a parse of the grammar: the same value, end
/// and error.
pub open spec fn same<T: View>(r: Result<Option<(T, usize)>, (String, usize)>, p: Parsed<T::V>) -> bool {
    match p {
        Ok(Some((v, k))) => r matches Ok(Some((t, q))) && t@ == v && q == k,
        Ok(None) => r matches Ok(None),
        Err((m, k)) => r matches Err((msg, q)) && msg@ == m && q == k,
    }
}

/// Reads a number; see [`number_spec`].
fn number_exec<F: Fn(&str) -> Float>(s: &Vec<char>, i: usize, strict: bool, float_of: &F) -> (r: Result<Option<(NumberKind, usize)>, (String, usize)>)
    requires
        i <= s.len(),
        decoder_ok(*float_of),
    ensures
        same(r, number_spec(s@, i as int, strict, decoded(*float_of))),
        r matches Ok(Some((_, k))) ==> i <= k <= s.len(),
{
    reveal(number_spec);
    let j = skip_exec(s, i);
    let neg = j < s.len() && s[j] == '-';
    let a = if neg { j + 1 } else { j };
    let d = digits_end_exec(s, a);
    proof { lemma_run_bounds(s@, a as int); }
    if d == a {
        return Ok(None);
    }
    if d < s.len() && s[d] == '.' {
        let e = digits_end_exec(s, d + 1);
        proof { lemma_run_bounds(s@, d + 1); }
        if e > d + 1 {
            if strict {
                let text = sub_string(s, j, e);
                let f = decode_float(float_of, text.as_str());
                return Ok(Some((NumberKind::F64(f), e)));
            } else {
                let f = Float::new(0, String::new());
                assert(f@ =~= (FloatV { bits: 0, shown: Seq::empty() }));
                return Ok(Some((NumberKind::F64(f), e)));
            }
        }
    }
    let text = sub_string(s, j, d);
    if neg {
        match parse_i64(text.as_str()) {
            Some(v) => Ok(Some((NumberKind::I64(v), d))),
            None => if strict {
                proof { reveal_strlit("Failed to parse a signed number"); }
                Err(("Failed to parse a signed number".to_owned(), j))
            } else {
                Ok(Some((NumberKind::I64(0), d)))
            },
        }
    } else {
        match parse_u64(text.as_str()) {
            Some(v) => Ok(Some((NumberKind::U64(v), d))),
            None => if strict {
                proof { reveal_strlit("Failed to parse an unsigned number"); }
                Err(("Failed to parse an unsigned number".to_owned(), j))
            } else {
                Ok(Some((NumberKind::U64(0), d)))
            },
        }
    }
}

/// The end of a variable path; see [`nested_end`].
fn nested_end_exec(s: &Vec<char>, p: usize) -> (r: usize)
    requires
        p <= s.len(),
    ensures
        r == nested_end(s@, p as int),
        p <= r <= s.len(),
{
    let mut k = p;
    loop
        invariant
            p <= k <= s.len(),
            nested_end(s@, k as int) == nested_end(s@, p as int),
        decreases s.len() - k,
    {
        if k < s.len() && s[k] == '.' {
            let n = name_end_exec(s, k + 1);
            proof { lemma_run_bounds(s@, k + 1); }
            if n > k + 1 {
                k = n;
            } else {
                return k;
            }
        } else {
            return k;
        }
    }
}

/// `(name.path)` right at `j`; see [`var_at`].
fn var_at_exec(s: &Vec<char>, j: usize) -> (r: Option<(String, usize)>)
    requires
        j <= s.len(),
    ensures
        match var_at(s@, j as int) {
            Some((n, k)) => r matches Some((t, q)) && t@ == n && q == k,
            None => r is None,
        },
        r matches Some((_, k)) ==> j < k <= s.len(),
{
    if j < s.len() && s[j] == '(' {
        let n = name_end_exec(s, j + 1);
        proof { lemma_run_bounds(s@, j + 1); }
        if n > j + 1 {
            let e = nested_end_exec(s, n);
            if e < s.len() && s[e] == ')' {
                return Some((sub_string(s, j + 1, e), e + 1));
            }
        }
    }
    None
}

fn var_exec(s: &Vec<char>, i: usize) -> (r: Option<(String, usize)>)
    requires
        i <= s.len(),
    ensures
        match var_spec(s@, i as int) {
            Some((n, k)) => r matches Some((t, q)) && t@ == n && q == k,
            None => r is None,
        },
        r matches Some((_, k)) ==> i < k <= s.len(),
{
    let j = skip_exec(s, i);
    var_at_exec(s, j)
}

fn quote_exec(s: &Vec<char>, i: usize) -> (r: Option<(String, usize)>)
    requires
        i <= s.len(),
    ensures
        match quote_spec(s@, i as int) {
            Some((n, k)) => r matches Some((t, q)) && t@ == n && q == k,
            None => r is None,
        },
        r matches Some((_, k)) ==> i < k <= s.len(),
{
    let j = skip_exec(s, i);
    if j < s.len() && s[j] == '"' {
        let k = text_end_exec(s, j + 1);
        proof { lemma_run_bounds(s@, j + 1); }
        if k < s.len() && s[k] == '"' {
            return Some((sub_string(s, j + 1, k), k + 1));
        }
    }
    None
}

fn fmt_exec(s: &Vec<char>, i: usize) -> (r: Option<(Vec<Value>, usize)>)
    requires
        i <= s.len(),
    ensures
        match fmt_spec(s@, i as int) {
            Some((vs, k)) => r matches Some((t, q)) && crate::abstract_syntax_tree::values_view(t@) == vs && q == k,
            None => r is None,
        },
        r matches Some((_, k)) ==> i < k <= s.len(),
{
    let j = skip_exec(s, i);
    if !(j < s.len() && s[j] == '"') {
        return None;
    }
    let mut parts: Vec<Value> = Vec::new();
    let mut p = j + 1;
    assert(crate::abstract_syntax_tree::values_view(parts@) =~= Seq::<ValueV>::empty());
    loop
        invariant
            i <= j,
            j + 1 <= p <= s.len(),
            fmt_spec(s@, i as int) == fmt_parts(s@, p as int, crate::abstract_syntax_tree::values_view(parts@)),
        decreases s.len() - p,
    {
        let ghost acc = crate::abstract_syntax_tree::values_view(parts@);
        if p >= s.len() {
            return None;
        }
        if s[p] == '"' {
            if parts.len() > 0 {
                return Some((parts, p + 1));
            } else {
                return None;
            }
        } else if s[p] == '(' {
            match var_at_exec(s, p) {
                Some((n, q)) => {
                    if p < q && q <= s.len() {
                        let ghost nv = n@;
                        parts.push(Value::Variable(n));
                        assert(crate::abstract_syntax_tree::values_view(parts@) =~= acc.push(ValueV::Var(nv)));
                        p = q;
                    } else {
                        return None;
                    }
                },
                None => {
                    return None;
                },
            }
        } else {
            let q = text_end_exec(s, p);
            proof {
                lemma_run_bounds(s@, p as int);
                lemma_run_bounds(s@, p + 1);
                assert(is_text_char(s@[p as int]));
                assert(q > p);
            }
            let t = sub_string(s, p, q);
            let ghost tv = t@;
            parts.push(Value::Literal(Literal::String(t)));
            assert(crate::abstract_syntax_tree::values_view(parts@) =~= acc.push(ValueV::Lit(LiteralV::Str(tv))));
            p = q;
        }
    }
}

fn literal_exec<F: Fn(&str) -> Float>(s: &Vec<char>, i: usize, strict: bool, float_of: &F) -> (r: Result<Option<(Literal, usize)>, (String, usize)>)
    requires
        i <= s.len(),
        decoder_ok(*float_of),
    ensures
        same(r, literal_spec(s@, i as int, strict, decoded(*float_of))),
        r matches Ok(Some((_, k))) ==> i <= k <= s.len(),
{
    reveal(literal_spec);
    match quote_exec(s, i) {
        Some((t, k)) => return Ok(Some((Literal::String(t), k))),
        None => {},
    }
    match number_exec(s, i, strict, float_of) {
        Err(e) => return Err(e),
        Ok(Some((n, k))) => return Ok(Some((Literal::Number(n), k))),
        Ok(None) => {},
    }
    let j = skip_exec(s, i);
    proof {
        reveal_strlit("true");
        reveal_strlit("True");
        reveal_strlit("false");
        reveal_strlit("False");
        reveal_strlit("null");
        reveal_strlit("Null");
    }
    if at_exec(s, j, "true") || at_exec(s, j, "True") {
        Ok(Some((Literal::Bool(true), j + 4)))
    } else if at_exec(s, j, "false") || at_exec(s, j, "False") {
        Ok(Some((Literal::Bool(false), j + 5)))
    } else if at_exec(s, j, "null") || at_exec(s, j, "Null") {
        Ok(Some((Literal::Null, j + 4)))
    } else {
        Ok(None)
    }
}

fn value_exec<F: Fn(&str) -> Float>(s: &Vec<char>, i: usize, strict: bool, float_of: &F) -> (r: Result<Option<(Value, usize)>, (String, usize)>)
    requires
        i <= s.len(),
        decoder_ok(*float_of),
    ensures
        same(r, value_spec(s@, i as int, strict, decoded(*float_of))),
        r matches Ok(Some((_, k))) ==> i <= k <= s.len(),
{
    reveal(value_spec);
    match literal_exec(s, i, strict, float_of) {
        Err(e) => return Err(e),
        Ok(Some((l, k))) => return Ok(Some((Value::Literal(l), k))),
        Ok(None) => {},
    }
    match var_exec(s, i) {
        Some((n, k)) => return Ok(Some((Value::Variable(n), k))),
        None => {},
    }
    match fmt_exec(s, i) {
        Some((vs, k)) => {
            proof { crate::abstract_syntax_tree::lemma_fmt_view(&vs); }
            Ok(Some((Value::FormattedString(vs), k)))
        },
        None => Ok(None),
    }
}

// ---------------------------------------------------------------------------
// Words and names
// ---------------------------------------------------------------------------

/// The keyword or symbol `w` after white space: the position after it.
pub open spec fn word(s: Seq<char>, i: int, w: Seq<char>) -> Option<int> {
    let j = skip(s, i);
    if at(s, j, w) { Some(j + w.len()) } else { None }
}

/// A name (of a variable or a request parameter) after white space.
pub open spec fn name_tok(s: Seq<char>, i: int) -> Option<(Seq<char>, int)> {
    let j = skip(s, i);
    let n = name_end(s, j);
    if 0 <= j < n <= s.len() { Some((s.subrange(j, n), n)) } else { None }
}

/// A word (a function name or a decorator) after white space.
pub open spec fn word_tok(s: Seq<char>, i: int) -> Option<(Seq<char>, int)> {
    let j = skip(s, i);
    let n = word_end(s, j);
    if 0 <= j < n <= s.len() { Some((s.subrange(j, n), n)) } else { None }
}

// ---------------------------------------------------------------------------
// Assertions
// ---------------------------------------------------------------------------

/// The comparison of an assertion.
pub open spec fn sub_spec(s: Seq<char>, i: int) -> Option<(AssertSubCommand, int)> {
    let j = skip(s, i);
    if at(s, j, "EQUALS"@) {
        Some((AssertSubCommand::Equals, j + 6))
    } else if at(s, j, "GTE"@) {
        Some((AssertSubCommand::GTE, j + 3))
    } else if at(s, j, "GT"@) {
        Some((AssertSubCommand::GT, j + 2))
    } else if at(s, j, "LTE"@) {
        Some((AssertSubCommand::LTE, j + 3))
    } else if at(s, j, "LT"@) {
        Some((AssertSubCommand::LT, j + 2))
    } else if at(s, j, "STATUS"@) {
        Some((AssertSubCommand::Status, j + 6))
    } else if at(s, j, "LENGTH"@) {
        Some((AssertSubCommand::Length, j + 6))
    } else if at(s, j, "CONTAINS"@) {
        Some((AssertSubCommand::Contains, j + 8))
    } else {
        None
    }
}

/// `ASSERT [NOT] COMPARISON value value [message]`, the message a quoted or
/// a formatted string.
#[verifier::opaque]
pub open spec fn assert_spec(s: Seq<char>, i: int, strict: bool, fl: spec_fn(Seq<char>) -> FloatV) -> Parsed<AssertCommandV> {
    match word(s, i, "ASSERT"@) {
        None => Ok(None),
        Some(a) => {
            let (negate, b) = match word(s, a, "NOT"@) {
                Some(b) => (true, b),
                None => (false, a),
            };
            match sub_spec(s, b) {
                None => Ok(None),
                Some((sub, c)) => match value_spec(s, c, strict, fl) {
                    Err(e) => Err(e),
                    Ok(None) => Ok(None),
                    Ok(Some((l, d))) => match value_spec(s, d, strict, fl) {
                        Err(e) => Err(e),
                        Ok(None) => Ok(None),
                        Ok(Some((r, e))) => {
                            let (msg, f) = match quote_spec(s, e) {
                                Some((m, f)) => (Some(ValueV::Lit(LiteralV::Str(m))), f),
                                None => match fmt_spec(s, e) {
                                    Some((vs, f)) => (Some(ValueV::Fmt(vs)), f),
                                    None => (None, e),
                                },
                            };
                            Ok(Some((AssertCommandV {
                                negate_assertion: negate,
                                subcommand: sub,
                                left_value: l,
                                right_value: r,
                                error_message: msg,
                            }, f)))
                        },
                    },
                },
            }
        },
    }
}

// ---------------------------------------------------------------------------
// Web requests
// ---------------------------------------------------------------------------

pub open spec fn verb_spec(s: Seq<char>, i: int) -> Option<(HTTPVerb, int)> {
    let j = skip(s, i);
    if at(s, j, "GET"@) {
        Some((HTTPVerb::Get, j + 3))
    } else if at(s, j, "PUT"@) {
        Some((HTTPVerb::Put, j + 3))
    } else if at(s, j, "POST"@) {
        Some((HTTPVerb::Post, j + 4))
    } else if at(s, j, "DELETE"@) {
        Some((HTTPVerb::Delete, j + 6))
    } else {
        None
    }
}

/// The pieces of a path from `p` on: runs of `/` and words gather into one
/// string, and a `(variable)` ends the string before it.
pub open spec fn path_parts(s: Seq<char>, p: int, acc: Seq<ValueV>, buf: Seq<char>) -> (Seq<ValueV>, int)
    decreases s.len() - p,
{
    if 0 <= p < s.len() && s[p] == '/' {
        path_parts(s, p + 1, acc, buf.push('/'))
    } else if 0 <= p < s.len() && is_word_char(s[p]) && p < word_end(s, p) <= s.len() {
        path_parts(s, word_end(s, p), acc, buf + s.subrange(p, word_end(s, p)))
    } else if 0 <= p < s.len() && s[p] == '(' {
        match var_at(s, p) {
            Some((n, q)) => if p < q <= s.len() {
                path_parts(s, q, acc.push(ValueV::Lit(LiteralV::Str(buf))).push(ValueV::Var(n)), Seq::empty())
            } else {
                path_end(acc, buf, p)
            },
            None => path_end(acc, buf, p),
        }
    } else {
        path_end(acc, buf, p)
    }
}

/// The end of a path: the gathered string, when there is one, is its last piece.
pub open spec fn path_end(acc: Seq<ValueV>, buf: Seq<char>, p: int) -> (Seq<ValueV>, int) {
    (if buf.len() > 0 { acc.push(ValueV::Lit(LiteralV::Str(buf))) } else { acc }, p)
}

/// A path: `/` followed by words, `/` and `(variables)`, with no space in it.
pub open spec fn path_spec(s: Seq<char>, i: int) -> Option<(Seq<ValueV>, int)> {
    let j = skip(s, i);
    if 0 <= j < s.len() && s[j] == '/' { Some(path_parts(s, j, Seq::empty(), Seq::empty())) } else { None }
}

/// `name SEP value`, with `=` for a query or body parameter, `:` for a header,
/// `=>` for an option.
#[verifier::opaque]
pub open spec fn pair_spec(s: Seq<char>, i: int, sep: Seq<char>, strict: bool, fl: spec_fn(Seq<char>) -> FloatV) -> Parsed<(Seq<char>, ValueV)> {
    match name_tok(s, i) {
        None => Ok(None),
        Some((n, a)) => match word(s, a, sep) {
            None => Ok(None),
            Some(b) => match value_spec(s, b, strict, fl) {
                Err(e) => Err(e),
                Ok(None) => Ok(None),
                Ok(Some((v, c))) => Ok(Some(((n, v), c))),
            },
        },
    }
}

/// As many `name SEP value` pairs as follow `p`, after the pairs `acc`.
pub open spec fn pairs_loop(s: Seq<char>, p: int, sep: Seq<char>, acc: Seq<(Seq<char>, ValueV)>, strict: bool, fl: spec_fn(Seq<char>) -> FloatV) -> Parsed<Seq<(Seq<char>, ValueV)>>
    decreases s.len() - p,
{
    match pair_spec(s, p, sep, strict, fl) {
        Err(e) => Err(e),
        Ok(Some((a, k))) => if p < k <= s.len() { pairs_loop(s, k, sep, acc.push(a), strict, fl) } else { Ok(Some((acc, p))) },
        Ok(None) => Ok(Some((acc, p))),
    }
}

/// A query parameter `name=value`, where the value may also be a bare word
/// (letters, digits, `_` and `-`), read as a string.
pub open spec fn query_pair_spec(s: Seq<char>, i: int, strict: bool, fl: spec_fn(Seq<char>) -> FloatV) -> Parsed<(Seq<char>, ValueV)> {
    match pair_spec(s, i, "="@, strict, fl) {
        Ok(None) => match name_tok(s, i) {
            None => Ok(None),
            Some((n, a)) => match word(s, a, "="@) {
                None => Ok(None),
                Some(b) => match name_tok(s, b) {
                    None => Ok(None),
                    Some((v, c)) => Ok(Some(((n, ValueV::Lit(LiteralV::Str(v))), c))),
                },
            },
        },
        other => other,
    }
}

/// As many `& name=value` as follow `p`, after the parameters `acc`.
pub open spec fn query_loop(s: Seq<char>, p: int, acc: Seq<(Seq<char>, ValueV)>, strict: bool, fl: spec_fn(Seq<char>) -> FloatV) -> Parsed<Seq<(Seq<char>, ValueV)>>
    decreases s.len() - p,
{
    match word(s, p, "&"@) {
        None => Ok(Some((acc, p))),
        Some(a) => match query_pair_spec(s, a, strict, fl) {
            Err(e) => Err(e),
            Ok(Some((q, k))) => if p < k <= s.len() { query_loop(s, k, acc.push(q), strict, fl) } else { Ok(Some((acc, p))) },
            Ok(None) => Ok(Some((acc, p))),
        },
    }
}

/// The query parameters, `? name=value (& name=value)*`, when they follow `i`;
/// none otherwise.
#[verifier::opaque]
pub open spec fn query_spec(s: Seq<char>, i: int, strict: bool, fl: spec_fn(Seq<char>) -> FloatV) -> Parsed<Seq<(Seq<char>, ValueV)>> {
    match word(s, i, "?"@) {
        None => Ok(Some((Seq::empty(), i))),
        Some(a) => match query_pair_spec(s, a, strict, fl) {
            Err(e) => Err(e),
            Ok(Some((q, k))) => query_loop(s, k, seq![q], strict, fl),
            Ok(None) => Ok(Some((Seq::empty(), i))),
        },
    }
}

/// `VERB path [query] (name=value)* (name:value)* (name=>value)*`.
#[verifier::opaque]
pub open spec fn http_spec(s: Seq<char>, i: int, strict: bool, fl: spec_fn(Seq<char>) -> FloatV) -> Parsed<HttpCommandV> {
    match verb_spec(s, i) {
        None => Ok(None),
        Some((verb, a)) => match path_spec(s, a) {
            None => Ok(None),
            Some((path, b)) => match query_spec(s, b, strict, fl) {
                Err(e) => Err(e),
                Ok(None) => Ok(None),
                Ok(Some((qs, c))) => match pairs_loop(s, c, "="@, Seq::empty(), strict, fl) {
                    Err(e) => Err(e),
                    Ok(None) => Ok(None),
                    Ok(Some((asg, d))) => match pairs_loop(s, d, ":"@, Seq::empty(), strict, fl) {
                        Err(e) => Err(e),
                        Ok(None) => Ok(None),
                        Ok(Some((hs, e))) => match pairs_loop(s, e, "=>"@, Seq::empty(), strict, fl) {
                            Err(e) => Err(e),
                            Ok(None) => Ok(None),
                            Ok(Some((kv, f))) => Ok(Some((HttpCommandV {
                                verb,
                                path,
                                query_params: qs,
                                http_assignments: asg,
                                headers: hs,
                                key_val_pairs: kv,
                            }, f))),
                        },
                    },
                },
            },
        },
    }
}

// ---------------------------------------------------------------------------
// Lists
// ---------------------------------------------------------------------------

/// As many `, value` as follow `p`, after the values `acc`.
pub open spec fn list_loop(s: Seq<char>, p: int, acc: Seq<ValueV>, strict: bool, fl: spec_fn(Seq<char>) -> FloatV) -> Parsed<Seq<ValueV>>
    decreases s.len() - p,
{
    match word(s, p, ","@) {
        None => Ok(Some((acc, p))),
        Some(a) => match value_spec(s, a, strict, fl) {
            Err(e) => Err(e),
            Ok(Some((v, k))) => if p < k <= s.len() { list_loop(s, k, acc.push(v), strict, fl) } else { Ok(Some((acc, p))) },
            Ok(None) => Ok(Some((acc, p))),
        },
    }
}

/// `LIST NEW [values]`, or `LIST APPEND|REMOVE (list) value`, or
/// `LIST LENGTH|POP (list)`; a command with a value it does not take, or
/// without one it needs, is refused.
#[verifier::opaque]
pub open spec fn list_spec(s: Seq<char>, i: int, strict: bool, fl: spec_fn(Seq<char>) -> FloatV) -> Parsed<ListExpressionV> {
    match word(s, i, "LIST"@) {
        None => Ok(None),
        Some(a) => match word(s, a, "NEW"@) {
            Some(b) => match word(s, b, "["@) {
                None => Ok(None),
                Some(c) => {
                    let items = match value_spec(s, c, strict, fl) {
                        Err(e) => Err(e),
                        Ok(None) => Ok(Some((Seq::empty(), c))),
                        Ok(Some((v, k))) => list_loop(s, k, seq![v], strict, fl),
                    };
                    match items {
                        Err(e) => Err(e),
                        Ok(None) => Ok(None),
                        Ok(Some((vs, d))) => match word(s, d, "]"@) {
                            None => Ok(None),
                            Some(e) => Ok(Some((ListExpressionV::New(vs), e))),
                        },
                    }
                },
            },
            None => {
                let j = skip(s, a);
                let cmd: Option<(int, int)> = if at(s, j, "APPEND"@) {
                    Some((0, j + 6))
                } else if at(s, j, "REMOVE"@) {
                    Some((1, j + 6))
                } else if at(s, j, "LENGTH"@) {
                    Some((2, j + 6))
                } else if at(s, j, "POP"@) {
                    Some((3, j + 3))
                } else {
                    None
                };
                match cmd {
                    None => Ok(None),
                    Some((c, b)) => match var_spec(s, b) {
                        None => Ok(None),
                        Some((name, d)) => match value_spec(s, d, strict, fl) {
                            Err(e) => Err(e),
                            Ok(Some((v, e))) => if c == 0 {
                                Ok(Some((ListExpressionV::Command(name, ListOpV::Append(v)), e)))
                            } else if c == 1 {
                                Ok(Some((ListExpressionV::Command(name, ListOpV::Remove(v)), e)))
                            } else if strict {
                                Err(("Invalid list command when using a value"@, j))
                            } else {
                                Ok(Some((ListExpressionV::Command(name, ListOpV::Length), e)))
                            },
                            Ok(None) => if c == 2 {
                                Ok(Some((ListExpressionV::Command(name, ListOpV::Length), d)))
                            } else if c == 3 {
                                Ok(Some((ListExpressionV::Command(name, ListOpV::Pop), d)))
                            } else if strict {
                                Err(("Invalid list command when not using a value"@, j))
                            } else {
                                Ok(Some((ListExpressionV::Command(name, ListOpV::Pop), d)))
                            },
                        },
                    },
                }
            },
        },
    }
}

// ---------------------------------------------------------------------------
// Expressions and statements
// ---------------------------------------------------------------------------

/// `LITERAL literal`, a web request, a list expression, or `FORMAT_STR "..."`.
#[verifier::opaque]
pub open spec fn expression_spec(s: Seq<char>, i: int, strict: bool, fl: spec_fn(Seq<char>) -> FloatV) -> Parsed<ExpressionV> {
    match word(s, i, "LITERAL"@) {
        Some(a) => match literal_spec(s, a, strict, fl) {
            Err(e) => Err(e),
            Ok(None) => Ok(None),
            Ok(Some((l, k))) => Ok(Some((ExpressionV::Lit(l), k))),
        },
        None => match http_spec(s, i, strict, fl) {
            Err(e) => Err(e),
            Ok(Some((h, k))) => Ok(Some((ExpressionV::Http(h), k))),
            Ok(None) => match list_spec(s, i, strict, fl) {
                Err(e) => Err(e),
                Ok(Some((l, k))) => Ok(Some((ExpressionV::List(l), k))),
                Ok(None) => match word(s, i, "FORMAT_STR"@) {
                    None => Ok(None),
                    Some(a) => match fmt_spec(s, a) {
                        None => Ok(None),
                        Some((vs, k)) => Ok(Some((ExpressionV::Fmt(vs), k))),
                    },
                },
            },
        },
    }
}

/// A statement: an assertion, `var name = expression`, `PRINT value`, or an
/// expression; then `;`.
#[verifier::opaque]
pub open spec fn statement_spec(s: Seq<char>, i: int, strict: bool, fl: spec_fn(Seq<char>) -> FloatV) -> Parsed<StatementV> {
    let body: Parsed<StatementV> = match assert_spec(s, i, strict, fl) {
        Err(e) => Err(e),
        Ok(Some((a, k))) => Ok(Some((StatementV::Assert(a), k))),
        Ok(None) => match word(s, i, "var"@) {
            Some(a) => match name_tok(s, a) {
                None => Ok(None),
                Some((n, b)) => match word(s, b, "="@) {
                    None => Ok(None),
                    Some(c) => match expression_spec(s, c, strict, fl) {
                        Err(e) => Err(e),
                        Ok(None) => Ok(None),
                        Ok(Some((e, k))) => Ok(Some((StatementV::Assign(n, e), k))),
                    },
                },
            },
            None => match word(s, i, "PRINT"@) {
                Some(a) => match value_spec(s, a, strict, fl) {
                    Err(e) => Err(e),
                    Ok(None) => Ok(None),
                    Ok(Some((v, k))) => Ok(Some((StatementV::Print(v), k))),
                },
                None => match expression_spec(s, i, strict, fl) {
                    Err(e) => Err(e),
                    Ok(None) => Ok(None),
                    Ok(Some((e, k))) => Ok(Some((StatementV::Expr(e), k))),
                },
            },
        },
    };
    match body {
        Err(e) => Err(e),
        Ok(None) => Ok(None),
        Ok(Some((st, k))) => match word(s, k, ";"@) {
            None => Ok(None),
            Some(e) => Ok(Some((st, e))),
        },
    }
}

// ---------------------------------------------------------------------------
// Functions and scripts
// ---------------------------------------------------------------------------

/// As many statements as follow `p`, after the statements `acc`.
pub open spec fn statements_loop(s: Seq<char>, p: int, acc: Seq<StatementV>, strict: bool, fl: spec_fn(Seq<char>) -> FloatV) -> Parsed<Seq<StatementV>>
    decreases s.len() - p,
{
    match statement_spec(s, p, strict, fl) {
        Err(e) => Err(e),
        Ok(Some((st, k))) => if p < k <= s.len() { statements_loop(s, k, acc.push(st), strict, fl) } else { Ok(Some((acc, p))) },
        Ok(None) => Ok(Some((acc, p))),
    }
}

/// `teardown { statements }`.
#[verifier::opaque]
pub open spec fn teardown_spec(s: Seq<char>, i: int, strict: bool, fl: spec_fn(Seq<char>) -> FloatV) -> Parsed<Seq<StatementV>> {
    match word(s, i, "teardown"@) {
        None => Ok(None),
        Some(a) => match word(s, a, "{"@) {
            None => Ok(None),
            Some(b) => match statements_loop(s, b, Seq::empty(), strict, fl) {
                Err(e) => Err(e),
                Ok(None) => Ok(None),
                Ok(Some((sts, c))) => match word(s, c, "}"@) {
                    None => Ok(None),
                    Some(d) => Ok(Some((sts, d))),
                },
            },
        },
    }
}

/// A decorator: `key=value` or `key`.
pub open spec fn decorator_spec(s: Seq<char>, i: int) -> Option<(DecoratorV, int)> {
    match word_tok(s, i) {
        None => None,
        Some((k, a)) => match word(s, a, "="@) {
            Some(b) => match word_tok(s, b) {
                Some((v, c)) => Some((DecoratorV::KeyValue(k, v), c)),
                None => Some((DecoratorV::Key(k), a)),
            },
            None => Some((DecoratorV::Key(k), a)),
        },
    }
}

/// As many `, decorator` as follow `p`, after the decorators `acc`.
pub open spec fn decorators_loop(s: Seq<char>, p: int, acc: Seq<DecoratorV>) -> (Seq<DecoratorV>, int)
    decreases s.len() - p,
{
    match word(s, p, ","@) {
        None => (acc, p),
        Some(a) => match decorator_spec(s, a) {
            Some((d, k)) => if p < k <= s.len() { decorators_loop(s, k, acc.push(d)) } else { (acc, p) },
            None => (acc, p),
        },
    }
}

/// `[decorator, decorator, ...]`.
pub open spec fn decorators_spec(s: Seq<char>, i: int) -> Option<(Seq<DecoratorV>, int)> {
    match word(s, i, "["@) {
        None => None,
        Some(a) => match decorator_spec(s, a) {
            None => None,
            Some((d, b)) => {
                let (ds, c) = decorators_loop(s, b, seq![d]);
                match word(s, c, "]"@) {
                    None => None,
                    Some(e) => Some((ds, e)),
                }
            },
        },
    }
}

/// `[decorators] case name() { entries }`.
pub open spec fn function_spec(s: Seq<char>, i: int, strict: bool, fl: spec_fn(Seq<char>) -> FloatV) -> Parsed<FunctionV>
    decreases s.len() - i, 0int,
{
    let (decorators, a) = match decorators_spec(s, i) {
        Some((ds, a)) => (ds, a),
        None => (Seq::empty(), i),
    };
    match word(s, a, "case"@) {
        None => Ok(None),
        Some(b) => match word_tok(s, b) {
            None => Ok(None),
            Some((name, c)) => match word(s, c, "("@) {
                None => Ok(None),
                Some(d) => match word(s, d, ")"@) {
                    None => Ok(None),
                    Some(e) => match word(s, e, "{"@) {
                        None => Ok(None),
                        Some(f) => if i < f <= s.len() {
                            match block_loop(s, f, Seq::empty(), strict, fl) {
                                Err(err) => Err(err),
                                Ok(None) => Ok(None),
                                Ok(Some((block, g))) => match word(s, g, "}"@) {
                                    None => Ok(None),
                                    Some(h) => Ok(Some((FunctionV { decorators, name, block }, h))),
                                },
                            }
                        } else {
                            Ok(None)
                        },
                    },
                },
            },
        },
    }
}

/// As many block entries (statements, teardown blocks, nested functions) as
/// follow `p`, after the entries `acc`.
pub open spec fn block_loop(s: Seq<char>, p: int, acc: Seq<BlockV>, strict: bool, fl: spec_fn(Seq<char>) -> FloatV) -> Parsed<Seq<BlockV>>
    decreases s.len() - p, 1int,
{
    match statement_spec(s, p, strict, fl) {
        Err(e) => Err(e),
        Ok(Some((st, k))) => if p < k <= s.len() {
            block_loop(s, k, acc.push(BlockV::Statement(st)), strict, fl)
        } else {
            Ok(Some((acc, p)))
        },
        Ok(None) => match teardown_spec(s, p, strict, fl) {
            Err(e) => Err(e),
            Ok(Some((ts, k))) => if p < k <= s.len() {
                block_loop(s, k, acc.push(BlockV::Teardown(ts)), strict, fl)
            } else {
                Ok(Some((acc, p)))
            },
            Ok(None) => if 0 <= p <= s.len() {
                match function_spec(s, p, strict, fl) {
                    Err(e) => Err(e),
                    Ok(Some((f, k))) => if p < k <= s.len() {
                        block_loop(s, k, acc.push(BlockV::Function(f)), strict, fl)
                    } else {
                        Ok(Some((acc, p)))
                    },
                    Ok(None) => Ok(Some((acc, p))),
                }
            } else {
                Ok(Some((acc, p)))
            },
        },
    }
}

// ---------------------------------------------------------------------------
// How far the reading of an invalid text got
// ---------------------------------------------------------------------------

/// The later of two positions.
pub open spec fn later(a: int, b: int) -> int {
    if a < b { b } else { a }
}

/// Where the reading of a value from `i` that cannot be read stopped: in a
/// variable, where its `)` (or its first name) was expected; in a quoted
/// string, where its closing `"` was expected; else the value's start.
pub open spec fn value_fail_reach(s: Seq<char>, i: int) -> int {
    let j = skip(s, i);
    if 0 <= j < s.len() && s[j] == '(' {
        if name_end(s, j + 1) > j + 1 { nested_end(s, name_end(s, j + 1)) } else { j + 1 }
    } else if 0 <= j < s.len() && s[j] == '"' {
        text_end(s, j + 1)
    } else {
        j
    }
}

/// Where the reading of an assertion from `i` stopped: the place where the
/// first part that could not be read was expected; after a whole assertion,
/// the place of its `;`.
pub open spec fn assert_reach(s: Seq<char>, i: int, fl: spec_fn(Seq<char>) -> FloatV) -> int {
    match word(s, i, "ASSERT"@) {
        None => skip(s, i),
        Some(a) => {
            let b = match word(s, a, "NOT"@) {
                Some(b) => b,
                None => a,
            };
            match sub_spec(s, b) {
                None => skip(s, b),
                Some((_, c)) => match value_spec(s, c, false, fl) {
                    Ok(Some((_, d))) => match value_spec(s, d, false, fl) {
                        Ok(Some((_, e))) => match quote_spec(s, e) {
                            Some((_, f)) => skip(s, f),
                            None => match fmt_spec(s, e) {
                                Some((_, f)) => skip(s, f),
                                None => skip(s, e),
                            },
                        },
                        _ => value_fail_reach(s, d),
                    },
                    _ => value_fail_reach(s, c),
                },
            }
        },
    }
}

/// Where the reading of a `name SEP value` pair from `p` stopped.
pub open spec fn pair_reach(s: Seq<char>, p: int, sep: Seq<char>, fl: spec_fn(Seq<char>) -> FloatV) -> int {
    match name_tok(s, p) {
        None => skip(s, p),
        Some((_, a)) => match word(s, a, sep) {
            None => skip(s, a),
            Some(b) => match value_spec(s, b, false, fl) {
                Ok(Some((_, c))) => skip(s, c),
                _ => value_fail_reach(s, b),
            },
        },
    }
}

/// Where the reading of the parts that may follow a web request ending at
/// `k` stopped: a query parameter after `?` or `&`, a `name=value`, a
/// `name:value` or a `name=>value`; without any, the place after the request.
pub open spec fn request_tail_reach(s: Seq<char>, k: int, fl: spec_fn(Seq<char>) -> FloatV) -> int {
    let q = match word(s, k, "?"@) {
        Some(a) => pair_reach(s, a, "="@, fl),
        None => match word(s, k, "&"@) {
            Some(a) => pair_reach(s, a, "="@, fl),
            None => skip(s, k),
        },
    };
    later(later(q, pair_reach(s, k, "="@, fl)), later(pair_reach(s, k, ":"@, fl), pair_reach(s, k, "=>"@, fl)))
}

/// Where the reading of an expression from `i` stopped: for a literal, after
/// `LITERAL`; for a web request, after its verb, or in what may follow it;
/// after any other whole expression, the place of what follows it; else its start.
pub open spec fn expression_reach(s: Seq<char>, i: int, fl: spec_fn(Seq<char>) -> FloatV) -> int {
    match word(s, i, "LITERAL"@) {
        Some(a) => match literal_spec(s, a, false, fl) {
            Ok(Some((_, k))) => skip(s, k),
            _ => value_fail_reach(s, a),
        },
        None => match verb_spec(s, i) {
            Some((_, a)) => match http_spec(s, i, false, fl) {
                Ok(Some((_, k))) => request_tail_reach(s, k, fl),
                _ => skip(s, a),
            },
            None => match expression_spec(s, i, false, fl) {
                Ok(Some((_, k))) => skip(s, k),
                _ => skip(s, i),
            },
        },
    }
}

/// Where the reading of a statement from `i` stopped: the place where the
/// first part that could not be read was expected; after a whole statement
/// without its `;`, the place of the `;`.
pub open spec fn statement_reach(s: Seq<char>, i: int, fl: spec_fn(Seq<char>) -> FloatV) -> int {
    match word(s, i, "ASSERT"@) {
        Some(_) => assert_reach(s, i, fl),
        None => match word(s, i, "var"@) {
            Some(a) => match name_tok(s, a) {
                None => skip(s, a),
                Some((_, b)) => match word(s, b, "="@) {
                    None => skip(s, b),
                    Some(c) => expression_reach(s, c, fl),
                },
            },
            None => match word(s, i, "PRINT"@) {
                Some(a) => match value_spec(s, a, false, fl) {
                    Ok(Some((_, k))) => skip(s, k),
                    _ => value_fail_reach(s, a),
                },
                None => expression_reach(s, i, fl),
            },
        },
    }
}

/// Where the reading of a teardown block from `i` stopped.
pub open spec fn teardown_reach(s: Seq<char>, i: int, fl: spec_fn(Seq<char>) -> FloatV) -> int {
    match word(s, i, "teardown"@) {
        None => skip(s, i),
        Some(a) => match word(s, a, "{"@) {
            None => skip(s, a),
            Some(b) => match statements_loop(s, b, Seq::empty(), false, fl) {
                Ok(Some((_, c))) => later(statement_reach(s, c, fl), skip(s, c)),
                _ => skip(s, b),
            },
        },
    }
}

/// Where the reading of decorators from `i` stopped.
pub open spec fn decorators_reach(s: Seq<char>, i: int) -> int {
    match word(s, i, "["@) {
        None => skip(s, i),
        Some(a) => match decorator_spec(s, a) {
            None => skip(s, a),
            Some((d, b)) => skip(s, decorators_loop(s, b, seq![d]).1),
        },
    }
}

/// Where the reading of a function from `i` stopped: the furthest place
/// where a part that could not be read was expected, over the alternatives
/// tried there (a statement, a teardown block, a nested function, the `}`).
pub open spec fn function_reach(s: Seq<char>, i: int, fl: spec_fn(Seq<char>) -> FloatV) -> int
    decreases s.len() - i,
{
    let (a, dr) = match decorators_spec(s, i) {
        Some((_, a)) => (a, skip(s, i)),
        None => (i, decorators_reach(s, i)),
    };
    let hr = match word(s, a, "case"@) {
        None => skip(s, a),
        Some(b) => match word_tok(s, b) {
            None => skip(s, b),
            Some((_, c)) => match word(s, c, "("@) {
                None => skip(s, c),
                Some(d) => match word(s, d, ")"@) {
                    None => skip(s, d),
                    Some(e) => match word(s, e, "{"@) {
                        None => skip(s, e),
                        Some(f) => if i < f <= s.len() {
                            match block_loop(s, f, Seq::empty(), false, fl) {
                                Ok(Some((_, p))) => if f <= p <= s.len() {
                                    later(
                                        later(statement_reach(s, p, fl), teardown_reach(s, p, fl)),
                                        later(function_reach(s, p, fl), skip(s, p)),
                                    )
                                } else {
                                    skip(s, f)
                                },
                                _ => skip(s, f),
                            }
                        } else {
                            skip(s, f)
                        },
                    },
                },
            },
        },
    };
    later(dr, hr)
}

/// The functions of a script from `p` on, after the functions `acc`, up to
/// the end of the text; where no function can be read, the script is invalid
/// where the reading of that function stopped.
pub open spec fn functions_loop(s: Seq<char>, p: int, acc: Seq<FunctionV>, strict: bool, fl: spec_fn(Seq<char>) -> FloatV) -> Result<Seq<FunctionV>, (Seq<char>, int)>
    decreases s.len() - p,
{
    let j = skip(s, p);
    if j < 0 || j >= s.len() {
        Ok(acc)
    } else {
        match function_spec(s, j, strict, fl) {
            Err(e) => Err(e),
            Ok(Some((f, k))) => if p < k <= s.len() {
                functions_loop(s, k, acc.push(f), strict, fl)
            } else {
                Err(("Invalid ChimeraScript"@, j))
            },
            Ok(None) => Err(("Invalid ChimeraScript"@, function_reach(s, j, fl))),
        }
    }
}

/// A script: first read by the grammar alone (a text it does not match is
/// invalid where the reading stopped), then read again with its numbers
/// converted (the first number that does not fit is the error).
pub open spec fn script_spec(s: Seq<char>, fl: spec_fn(Seq<char>) -> FloatV) -> Result<Seq<FunctionV>, (Seq<char>, int)> {
    match functions_loop(s, 0, Seq::empty(), false, fl) {
        Err(e) => Err(e),
        Ok(_) => functions_loop(s, 0, Seq::empty(), true, fl),
    }
}

/// One statement at the start of a text, read in the same two passes.
pub open spec fn single_statement_spec(s: Seq<char>, fl: spec_fn(Seq<char>) -> FloatV) -> Result<StatementV, (Seq<char>, int)> {
    match statement_spec(s, 0, false, fl) {
        Err(e) => Err(e),
        Ok(None) => Err(("Invalid ChimeraScript"@, statement_reach(s, 0, fl))),
        Ok(Some(_)) => match statement_spec(s, 0, true, fl) {
            Err(e) => Err(e),
            Ok(None) => Err(("Invalid ChimeraScript"@, statement_reach(s, 0, fl))),
            Ok(Some((st, _))) => Ok(st),
        },
    }
}

/// The line and column (both from 1) of position `pos`; they stop growing at `usize::MAX`.
pub open spec fn line_col(s: Seq<char>, pos: int) -> (usize, usize)
    decreases pos,
{
    if pos <= 0 {
        (1, 1)
    } else {
        let (l, c) = line_col(s, pos - 1);
        if pos - 1 < s.len() && s[pos - 1] == '\n' {
            (if l < usize::MAX { (l + 1) as usize } else { l }, 1)
        } else {
            (l, if c < usize::MAX { (c + 1) as usize } else { c })
        }
    }
}

// ---------------------------------------------------------------------------
// The executable parser
// ---------------------------------------------------------------------------

/// The keyword `w` after white space; see [`word`].
fn word_exec(s: &Vec<char>, i: usize, w: &str) -> (r: Option<usize>)
    requires
        i <= s.len(),
    ensures
        match word(s@, i as int, w@) {
            Some(k) => r matches Some(q) && q == k,
            None => r is None,
        },
        r matches Some(k) ==> i + w@.len() <= k <= s.len(),
{
    let j = skip_exec(s, i);
    if at_exec(s, j, w) {
        let l = crate::text::str_to_chars(w);
        Some(j + l.len())
    } else {
        None
    }
}

fn name_tok_exec(s: &Vec<char>, i: usize) -> (r: Option<(String, usize)>)
    requires
        i <= s.len(),
    ensures
        match name_tok(s@, i as int) {
            Some((n, k)) => r matches Some((t, q)) && t@ == n && q == k,
            None => r is None,
        },
        r matches Some((_, k)) ==> i < k <= s.len(),
{
    let j = skip_exec(s, i);
    let n = name_end_exec(s, j);
    proof { lemma_run_bounds(s@, j as int); }
    if j < n { Some((sub_string(s, j, n), n)) } else { None }
}

fn word_tok_exec(s: &Vec<char>, i: usize) -> (r: Option<(String, usize)>)
    requires
        i <= s.len(),
    ensures
        match word_tok(s@, i as int) {
            Some((n, k)) => r matches Some((t, q)) && t@ == n && q == k,
            None => r is None,
        },
        r matches Some((_, k)) ==> i < k <= s.len(),
{
    let j = skip_exec(s, i);
    let n = word_end_exec(s, j);
    proof { lemma_run_bounds(s@, j as int); }
    if j < n { Some((sub_string(s, j, n), n)) } else { None }
}

fn sub_exec(s: &Vec<char>, i: usize) -> (r: Option<(AssertSubCommand, usize)>)
    requires
        i <= s.len(),
    ensures
        match sub_spec(s@, i as int) {
            Some((c, k)) => r matches Some((d, q)) && d == c && q == k,
            None => r is None,
        },
        r matches Some((_, k)) ==> i < k <= s.len(),
{
    let j = skip_exec(s, i);
    proof {
        reveal_strlit("EQUALS");
        reveal_strlit("GTE");
        reveal_strlit("GT");
        reveal_strlit("LTE");
        reveal_strlit("LT");
        reveal_strlit("STATUS");
        reveal_strlit("LENGTH");
        reveal_strlit("CONTAINS");
    }
    if at_exec(s, j, "EQUALS") {
        Some((AssertSubCommand::Equals, j + 6))
    } else if at_exec(s, j, "GTE") {
        Some((AssertSubCommand::GTE, j + 3))
    } else if at_exec(s, j, "GT") {
        Some((AssertSubCommand::GT, j + 2))
    } else if at_exec(s, j, "LTE") {
        Some((AssertSubCommand::LTE, j + 3))
    } else if at_exec(s, j, "LT") {
        Some((AssertSubCommand::LT, j + 2))
    } else if at_exec(s, j, "STATUS") {
        Some((AssertSubCommand::Status, j + 6))
    } else if at_exec(s, j, "LENGTH") {
        Some((AssertSubCommand::Length, j + 6))
    } else if at_exec(s, j, "CONTAINS") {
        Some((AssertSubCommand::Contains, j + 8))
    } else {
        None
    }
}

fn assert_exec<F: Fn(&str) -> Float>(s: &Vec<char>, i: usize, strict: bool, float_of: &F) -> (r: Result<Option<(AssertCommand, usize)>, (String, usize)>)
    requires
        i <= s.len(),
        decoder_ok(*float_of),
    ensures
        same(r, assert_spec(s@, i as int, strict, decoded(*float_of))),
        r matches Ok(Some((_, k))) ==> i <= k <= s.len(),
{
    reveal(assert_spec);
    proof {
        reveal_strlit("ASSERT");
        reveal_strlit("NOT");
    }
    let a = match word_exec(s, i, "ASSERT") {
        None => return Ok(None),
        Some(a) => a,
    };
    let (negate, b) = match word_exec(s, a, "NOT") {
        Some(b) => (true, b),
        None => (false, a),
    };
    let (sub, c) = match sub_exec(s, b) {
        None => return Ok(None),
        Some(x) => x,
    };
    let (l, d) = match value_exec(s, c, strict, float_of) {
        Err(e) => return Err(e),
        Ok(None) => return Ok(None),
        Ok(Some(x)) => x,
    };
    let (rv, e) = match value_exec(s, d, strict, float_of) {
        Err(e) => return Err(e),
        Ok(None) => return Ok(None),
        Ok(Some(x)) => x,
    };
    let (msg, f) = match quote_exec(s, e) {
        Some((m, f)) => (Some(Value::Literal(Literal::String(m))), f),
        None => match fmt_exec(s, e) {
            Some((vs, f)) => {
                proof { crate::abstract_syntax_tree::lemma_fmt_view(&vs); }
                (Some(Value::FormattedString(vs)), f)
            },
            None => (None, e),
        },
    };
    Ok(Some((AssertCommand { negate_assertion: negate, subcommand: sub, left_value: l, right_value: rv, error_message: msg }, f)))
}

fn verb_exec(s: &Vec<char>, i: usize) -> (r: Option<(HTTPVerb, usize)>)
    requires
        i <= s.len(),
    ensures
        match verb_spec(s@, i as int) {
            Some((v, k)) => r matches Some((w, q)) && w == v && q == k,
            None => r is None,
        },
        r matches Some((_, k)) ==> i < k <= s.len(),
{
    let j = skip_exec(s, i);
    proof {
        reveal_strlit("GET");
        reveal_strlit("PUT");
        reveal_strlit("POST");
        reveal_strlit("DELETE");
    }
    if at_exec(s, j, "GET") {
        Some((HTTPVerb::Get, j + 3))
    } else if at_exec(s, j, "PUT") {
        Some((HTTPVerb::Put, j + 3))
    } else if at_exec(s, j, "POST") {
        Some((HTTPVerb::Post, j + 4))
    } else if at_exec(s, j, "DELETE") {
        Some((HTTPVerb::Delete, j + 6))
    } else {
        None
    }
}

fn path_exec(s: &Vec<char>, i: usize) -> (r: Option<(Vec<Value>, usize)>)
    requires
        i <= s.len(),
    ensures
        match path_spec(s@, i as int) {
            Some((vs, k)) => r matches Some((t, q)) && values_view(t@) == vs && q == k,
            None => r is None,
        },
        r matches Some((_, k)) ==> i < k <= s.len(),
{
    let j = skip_exec(s, i);
    if !(j < s.len() && s[j] == '/') {
        return None;
    }
    let mut acc: Vec<Value> = Vec::new();
    let mut buf: Vec<char> = Vec::new();
    let mut p = j;
    assert(values_view(acc@) =~= Seq::<ValueV>::empty());
    assert(buf@ =~= Seq::<char>::empty());
    loop
        invariant
            i <= j < s.len(),
            s@[j as int] == '/',
            j <= p <= s.len(),
            p == j ==> buf@.len() == 0,
            p > j ==> p > i,
            path_spec(s@, i as int) == Some(path_parts(s@, p as int, values_view(acc@), buf@)),
        decreases s.len() - p,
    {
        let ghost a0 = values_view(acc@);
        if p < s.len() && s[p] == '/' {
            buf.push('/');
            p = p + 1;
        } else if p < s.len() && is_word_char_exec(s[p]) {
            let q = word_end_exec(s, p);
            proof {
                lemma_run_bounds(s@, p as int);
                lemma_run_bounds(s@, p + 1);
            }
            let mut k = p;
            let ghost b0 = buf@;
            while k < q
                invariant
                    p <= k <= q <= s.len(),
                    buf@ == b0 + s@.subrange(p as int, k as int),
                decreases q - k,
            {
                buf.push(s[k]);
                k = k + 1;
                assert(buf@ =~= b0 + s@.subrange(p as int, k as int));
            }
            p = q;
        } else if p < s.len() && s[p] == '(' {
            match var_at_exec(s, p) {
                Some((n, q)) => {
                    let t = chars_to_string(&buf);
                    let ghost tv = t@;
                    let ghost nv = n@;
                    acc.push(Value::Literal(Literal::String(t)));
                    acc.push(Value::Variable(n));
                    assert(values_view(acc@) =~= a0.push(ValueV::Lit(LiteralV::Str(tv))).push(ValueV::Var(nv)));
                    buf = Vec::new();
                    assert(buf@ =~= Seq::<char>::empty());
                    p = q;
                },
                None => {
                    if buf.len() > 0 {
                        let t = chars_to_string(&buf);
                        let ghost tv = t@;
                        acc.push(Value::Literal(Literal::String(t)));
                        assert(values_view(acc@) =~= a0.push(ValueV::Lit(LiteralV::Str(tv))));
                    }
                    return Some((acc, p));
                },
            }
        } else {
            if buf.len() > 0 {
                let t = chars_to_string(&buf);
                let ghost tv = t@;
                acc.push(Value::Literal(Literal::String(t)));
                assert(values_view(acc@) =~= a0.push(ValueV::Lit(LiteralV::Str(tv))));
            }
            return Some((acc, p));
        }
    }
}

fn pair_exec<F: Fn(&str) -> Float>(s: &Vec<char>, i: usize, sep: &str, strict: bool, float_of: &F) -> (r: Result<Option<(HttpAssignment, usize)>, (String, usize)>)
    requires
        i <= s.len(),
        decoder_ok(*float_of),
    ensures
        same(r, pair_spec(s@, i as int, sep@, strict, decoded(*float_of))),
        r matches Ok(Some((_, k))) ==> i < k <= s.len(),
{
    reveal(pair_spec);
    let (n, a) = match name_tok_exec(s, i) {
        None => return Ok(None),
        Some(x) => x,
    };
    let b = match word_exec(s, a, sep) {
        None => return Ok(None),
        Some(b) => b,
    };
    match value_exec(s, b, strict, float_of) {
        Err(e) => Err(e),
        Ok(None) => Ok(None),
        Ok(Some((v, c))) => Ok(Some((HttpAssignment { lhs: n, rhs: v }, c))),
    }
}

/// Reads `name SEP value` pairs; see [`pairs_loop`].
fn pairs_exec<F: Fn(&str) -> Float>(s: &Vec<char>, i: usize, sep: &str, strict: bool, float_of: &F) -> (r: Result<Option<(Vec<HttpAssignment>, usize)>, (String, usize)>)
    requires
        i <= s.len(),
        decoder_ok(*float_of),
    ensures
        match pairs_loop(s@, i as int, sep@, Seq::empty(), strict, decoded(*float_of)) {
            Ok(Some((ps, k))) => r matches Ok(Some((t, q))) && assignments_view(t@) == ps && q == k,
            Ok(None) => r matches Ok(None),
            Err((m, k)) => r matches Err((msg, q)) && msg@ == m && q == k,
        },
        r matches Ok(Some((_, k))) ==> i <= k <= s.len(),
{
    let mut acc: Vec<HttpAssignment> = Vec::new();
    let mut p = i;
    assert(assignments_view(acc@) =~= Seq::<(Seq<char>, ValueV)>::empty());
    loop
        invariant
            i <= p <= s.len(),
            decoder_ok(*float_of),
            pairs_loop(s@, i as int, sep@, Seq::empty(), strict, decoded(*float_of))
                == pairs_loop(s@, p as int, sep@, assignments_view(acc@), strict, decoded(*float_of)),
        decreases s.len() - p,
    {
        let ghost a0 = assignments_view(acc@);
        match pair_exec(s, p, sep, strict, float_of) {
            Err(e) => return Err(e),
            Ok(Some((a, k))) => {
                let ghost av = a@;
                acc.push(a);
                assert(assignments_view(acc@) =~= a0.push(av));
                p = k;
            },
            Ok(None) => return Ok(Some((acc, p))),
        }
    }
}

/// Reads a query parameter; see [`query_pair_spec`].
fn query_pair_exec<F: Fn(&str) -> Float>(s: &Vec<char>, i: usize, strict: bool, float_of: &F) -> (r: Result<Option<(HttpAssignment, usize)>, (String, usize)>)
    requires
        i <= s.len(),
        decoder_ok(*float_of),
    ensures
        same(r, query_pair_spec(s@, i as int, strict, decoded(*float_of))),
        r matches Ok(Some((_, k))) ==> i < k <= s.len(),
{
    proof { reveal_strlit("="); }
    match pair_exec(s, i, "=", strict, float_of) {
        Ok(None) => {},
        other => return other,
    }
    let (n, a) = match name_tok_exec(s, i) {
        None => return Ok(None),
        Some(x) => x,
    };
    let b = match word_exec(s, a, "=") {
        None => return Ok(None),
        Some(b) => b,
    };
    match name_tok_exec(s, b) {
        None => Ok(None),
        Some((v, c)) => Ok(Some((HttpAssignment { lhs: n, rhs: Value::Literal(Literal::String(v)) }, c))),
    }
}

fn query_exec<F: Fn(&str) -> Float>(s: &Vec<char>, i: usize, strict: bool, float_of: &F) -> (r: Result<Option<(Vec<HttpAssignment>, usize)>, (String, usize)>)
    requires
        i <= s.len(),
        decoder_ok(*float_of),
    ensures
        match query_spec(s@, i as int, strict, decoded(*float_of)) {
            Ok(Some((ps, k))) => r matches Ok(Some((t, q))) && assignments_view(t@) == ps && q == k,
            Ok(None) => r matches Ok(None),
            Err((m, k)) => r matches Err((msg, q)) && msg@ == m && q == k,
        },
        r matches Ok(Some((_, k))) ==> i <= k <= s.len(),
{
    reveal(query_spec);
    proof {
        reveal_strlit("?");
        reveal_strlit("&");
        reveal_strlit("=");
    }
    let mut acc: Vec<HttpAssignment> = Vec::new();
    let a = match word_exec(s, i, "?") {
        None => {
            assert(assignments_view(acc@) =~= Seq::<(Seq<char>, ValueV)>::empty());
            return Ok(Some((acc, i)));
        },
        Some(a) => a,
    };
    let mut p = match query_pair_exec(s, a, strict, float_of) {
        Err(e) => return Err(e),
        Ok(None) => {
            assert(assignments_view(acc@) =~= Seq::<(Seq<char>, ValueV)>::empty());
            return Ok(Some((acc, i)));
        },
        Ok(Some((q, k))) => {
            let ghost qv = q@;
            acc.push(q);
            assert(assignments_view(acc@) =~= seq![qv]);
            k
        },
    };
    loop
        invariant
            i <= p <= s.len(),
            decoder_ok(*float_of),
            query_spec(s@, i as int, strict, decoded(*float_of))
                == query_loop(s@, p as int, assignments_view(acc@), strict, decoded(*float_of)),
        decreases s.len() - p,
    {
        let ghost a0 = assignments_view(acc@);
        let b = match word_exec(s, p, "&") {
            None => return Ok(Some((acc, p))),
            Some(b) => b,
        };
        match query_pair_exec(s, b, strict, float_of) {
            Err(e) => return Err(e),
            Ok(Some((q, k))) => {
                let ghost qv = q@;
                acc.push(q);
                assert(assignments_view(acc@) =~= a0.push(qv));
                p = k;
            },
            Ok(None) => return Ok(Some((acc, p))),
        }
    }
}

fn http_exec<F: Fn(&str) -> Float>(s: &Vec<char>, i: usize, strict: bool, float_of: &F) -> (r: Result<Option<(HttpCommand, usize)>, (String, usize)>)
    requires
        i <= s.len(),
        decoder_ok(*float_of),
    ensures
        same(r, http_spec(s@, i as int, strict, decoded(*float_of))),
        r matches Ok(Some((_, k))) ==> i <= k <= s.len(),
{
    reveal(http_spec);
    proof {
        reveal_strlit("=");
        reveal_strlit(":");
        reveal_strlit("=>");
    }
    let (verb, a) = match verb_exec(s, i) {
        None => return Ok(None),
        Some(x) => x,
    };
    let (path, b) = match path_exec(s, a) {
        None => return Ok(None),
        Some(x) => x,
    };
    let (query_params, c) = match query_exec(s, b, strict, float_of) {
        Err(e) => return Err(e),
        Ok(None) => return Ok(None),
        Ok(Some(x)) => x,
    };
    let (http_assignments, d) = match pairs_exec(s, c, "=", strict, float_of) {
        Err(e) => return Err(e),
        Ok(None) => return Ok(None),
        Ok(Some(x)) => x,
    };
    let (headers, e) = match pairs_exec(s, d, ":", strict, float_of) {
        Err(e) => return Err(e),
        Ok(None) => return Ok(None),
        Ok(Some(x)) => x,
    };
    let (options, f) = match pairs_exec(s, e, "=>", strict, float_of) {
        Err(e) => return Err(e),
        Ok(None) => return Ok(None),
        Ok(Some(x)) => x,
    };
    let mut key_val_pairs: Vec<KeyValuePair> = Vec::new();
    let mut k: usize = 0;
    while k < options.len()
        invariant
            k <= options.len(),
            pairs_view(key_val_pairs@) == assignments_view(options@).take(k as int),
        decreases options.len() - k,
    {
        let o = &options[k];
        let ghost before = pairs_view(key_val_pairs@);
        let key = o.lhs.clone();
        let value = o.rhs.duplicate();
        key_val_pairs.push(KeyValuePair { key, value });
        assert(pairs_view(key_val_pairs@) =~= before.push((o.lhs@, o.rhs@)));
        assert(assignments_view(options@)[k as int] == (o.lhs@, o.rhs@));
        k = k + 1;
        assert(pairs_view(key_val_pairs@) =~= assignments_view(options@).take(k as int));
    }
    assert(assignments_view(options@).take(k as int) =~= assignments_view(options@));
    Ok(Some((HttpCommand { verb, path, query_params, http_assignments, headers, key_val_pairs }, f)))
}

/// Reads `, value` after the first list value `first`, which ended at `k`;
/// see [`list_loop`].
fn list_items_exec<F: Fn(&str) -> Float>(s: &Vec<char>, k: usize, first: Value, strict: bool, float_of: &F) -> (r: Result<(Vec<Value>, usize), (String, usize)>)
    requires
        k <= s.len(),
        decoder_ok(*float_of),
    ensures
        match list_loop(s@, k as int, seq![first@], strict, decoded(*float_of)) {
            Ok(Some((vs, q))) => r matches Ok((t, p)) && values_view(t@) == vs && p == q,
            Ok(None) => false,
            Err((m, q)) => r matches Err((msg, p)) && msg@ == m && p == q,
        },
        r matches Ok((_, p)) ==> k <= p <= s.len(),
{
    proof { reveal_strlit(","); }
    let ghost fv = first@;
    let mut vs: Vec<Value> = Vec::new();
    vs.push(first);
    assert(values_view(vs@) =~= seq![fv]);
    let mut p = k;
    loop
        invariant
            k <= p <= s.len(),
            decoder_ok(*float_of),
            ",".view() == seq![','],
            fv == first@,
            list_loop(s@, k as int, seq![fv], strict, decoded(*float_of))
                == list_loop(s@, p as int, values_view(vs@), strict, decoded(*float_of)),
        decreases s.len() - p,
    {
        let ghost a0 = values_view(vs@);
        let d = match word_exec(s, p, ",") {
            None => return Ok((vs, p)),
            Some(d) => d,
        };
        match value_exec(s, d, strict, float_of) {
            Err(e) => return Err(e),
            Ok(Some((w, q))) => {
                let ghost wv = w@;
                vs.push(w);
                assert(values_view(vs@) =~= a0.push(wv));
                p = q;
            },
            Ok(None) => return Ok((vs, p)),
        }
    }
}

fn list_exec<F: Fn(&str) -> Float>(s: &Vec<char>, i: usize, strict: bool, float_of: &F) -> (r: Result<Option<(ListExpression, usize)>, (String, usize)>)
    requires
        i <= s.len(),
        decoder_ok(*float_of),
    ensures
        same(r, list_spec(s@, i as int, strict, decoded(*float_of))),
        r matches Ok(Some((_, k))) ==> i <= k <= s.len(),
{
    reveal(list_spec);
    proof {
        reveal_strlit("LIST");
        reveal_strlit("NEW");
        reveal_strlit("[");
        reveal_strlit("]");
        reveal_strlit(",");
        reveal_strlit("APPEND");
        reveal_strlit("REMOVE");
        reveal_strlit("LENGTH");
        reveal_strlit("POP");
        reveal_strlit("Invalid list command when using a value");
        reveal_strlit("Invalid list command when not using a value");
    }
    let a = match word_exec(s, i, "LIST") {
        None => return Ok(None),
        Some(a) => a,
    };
    match word_exec(s, a, "NEW") {
        Some(b) => {
            let c = match word_exec(s, b, "[") {
                None => return Ok(None),
                Some(c) => c,
            };
            let mut vs: Vec<Value> = Vec::new();
            let mut p: usize = c;
            match value_exec(s, c, strict, float_of) {
                Err(e) => return Err(e),
                Ok(None) => {
                    assert(values_view(vs@) =~= Seq::<ValueV>::empty());
                },
                Ok(Some((v, k))) => {
                    match list_items_exec(s, k, v, strict, float_of) {
                        Err(e) => return Err(e),
                        Ok((items, q)) => {
                            vs = items;
                            p = q;
                        },
                    }
                },
            }
            match word_exec(s, p, "]") {
                None => Ok(None),
                Some(e) => Ok(Some((ListExpression::New(vs), e))),
            }
        },
        None => {
            let j = skip_exec(s, a);
            let (c, b): (u8, usize) = if at_exec(s, j, "APPEND") {
                (0, j + 6)
            } else if at_exec(s, j, "REMOVE") {
                (1, j + 6)
            } else if at_exec(s, j, "LENGTH") {
                (2, j + 6)
            } else if at_exec(s, j, "POP") {
                (3, j + 3)
            } else {
                return Ok(None);
            };
            let (name, d) = match var_exec(s, b) {
                None => return Ok(None),
                Some(x) => x,
            };
            match value_exec(s, d, strict, float_of) {
                Err(e) => Err(e),
                Ok(Some((v, e))) => if c == 0 {
                    Ok(Some((ListExpression::ListArgument(ListCommand { list_name: name, operation: ListCommandOperations::MutateOperations(MutateListOperations::Append(v)) }), e)))
                } else if c == 1 {
                    Ok(Some((ListExpression::ListArgument(ListCommand { list_name: name, operation: ListCommandOperations::MutateOperations(MutateListOperations::Remove(v)) }), e)))
                } else if strict {
                    Err(("Invalid list command when using a value".to_owned(), j))
                } else {
                    Ok(Some((ListExpression::ListArgument(ListCommand { list_name: name, operation: ListCommandOperations::Length }), e)))
                },
                Ok(None) => if c == 2 {
                    Ok(Some((ListExpression::ListArgument(ListCommand { list_name: name, operation: ListCommandOperations::Length }), d)))
                } else if c == 3 {
                    Ok(Some((ListExpression::ListArgument(ListCommand { list_name: name, operation: ListCommandOperations::MutateOperations(MutateListOperations::Pop) }), d)))
                } else if strict {
                    Err(("Invalid list command when not using a value".to_owned(), j))
                } else {
                    Ok(Some((ListExpression::ListArgument(ListCommand { list_name: name, operation: ListCommandOperations::MutateOperations(MutateListOperations::Pop) }), d)))
                },
            }
        },
    }
}

fn expression_exec<F: Fn(&str) -> Float>(s: &Vec<char>, i: usize, strict: bool, float_of: &F) -> (r: Result<Option<(Expression, usize)>, (String, usize)>)
    requires
        i <= s.len(),
        decoder_ok(*float_of),
    ensures
        same(r, expression_spec(s@, i as int, strict, decoded(*float_of))),
        r matches Ok(Some((_, k))) ==> i <= k <= s.len(),
{
    reveal(expression_spec);
    proof {
        reveal_strlit("LITERAL");
        reveal_strlit("FORMAT_STR");
    }
    match word_exec(s, i, "LITERAL") {
        Some(a) => {
            return match literal_exec(s, a, strict, float_of) {
                Err(e) => Err(e),
                Ok(None) => Ok(None),
                Ok(Some((l, k))) => Ok(Some((Expression::Literal(l), k))),
            };
        },
        None => {},
    }
    match http_exec(s, i, strict, float_of) {
        Err(e) => return Err(e),
        Ok(Some((h, k))) => return Ok(Some((Expression::HttpCommand(h), k))),
        Ok(None) => {},
    }
    match list_exec(s, i, strict, float_of) {
        Err(e) => return Err(e),
        Ok(Some((l, k))) => return Ok(Some((Expression::List(l), k))),
        Ok(None) => {},
    }
    match word_exec(s, i, "FORMAT_STR") {
        None => Ok(None),
        Some(a) => match fmt_exec(s, a) {
            None => Ok(None),
            Some((vs, k)) => Ok(Some((Expression::FormattedString(vs), k))),
        },
    }
}

/// Reads one statement at `i`; see [`statement_spec`].
fn statement_exec<F: Fn(&str) -> Float>(s: &Vec<char>, i: usize, strict: bool, float_of: &F) -> (r: Result<Option<(Statement, usize)>, (String, usize)>)
    requires
        i <= s.len(),
        decoder_ok(*float_of),
    ensures
        same(r, statement_spec(s@, i as int, strict, decoded(*float_of))),
        r matches Ok(Some((_, k))) ==> i <= k <= s.len(),
{
    reveal(statement_spec);
    proof {
        reveal_strlit("var");
        reveal_strlit("=");
        reveal_strlit("PRINT");
        reveal_strlit(";");
    }
    let (st, k): (Statement, usize) = match assert_exec(s, i, strict, float_of) {
        Err(e) => return Err(e),
        Ok(Some((a, k))) => (Statement::AssertCommand(a), k),
        Ok(None) => match word_exec(s, i, "var") {
            Some(a) => {
                let (n, b) = match name_tok_exec(s, a) {
                    None => return Ok(None),
                    Some(x) => x,
                };
                let c = match word_exec(s, b, "=") {
                    None => return Ok(None),
                    Some(c) => c,
                };
                match expression_exec(s, c, strict, float_of) {
                    Err(e) => return Err(e),
                    Ok(None) => return Ok(None),
                    Ok(Some((e, k))) => (Statement::AssignmentExpr(AssignmentExpr { var_name: n, expression: e }), k),
                }
            },
            None => match word_exec(s, i, "PRINT") {
                Some(a) => match value_exec(s, a, strict, float_of) {
                    Err(e) => return Err(e),
                    Ok(None) => return Ok(None),
                    Ok(Some((v, k))) => (Statement::PrintCommand(v), k),
                },
                None => match expression_exec(s, i, strict, float_of) {
                    Err(e) => return Err(e),
                    Ok(None) => return Ok(None),
                    Ok(Some((e, k))) => (Statement::Expression(e), k),
                },
            },
        },
    };
    match word_exec(s, k, ";") {
        None => Ok(None),
        Some(e) => Ok(Some((st, e))),
    }
}

fn statements_exec<F: Fn(&str) -> Float>(s: &Vec<char>, i: usize, strict: bool, float_of: &F) -> (r: Result<(Vec<Statement>, usize), (String, usize)>)
    requires
        i <= s.len(),
        decoder_ok(*float_of),
    ensures
        match statements_loop(s@, i as int, Seq::empty(), strict, decoded(*float_of)) {
            Ok(Some((sts, q))) => r matches Ok((t, p)) && crate::abstract_syntax_tree::statements_view(t@) == sts && p == q,
            Ok(None) => false,
            Err((m, q)) => r matches Err((msg, p)) && msg@ == m && p == q,
        },
        r matches Ok((_, p)) ==> i <= p <= s.len(),
{
    let mut sts: Vec<Statement> = Vec::new();
    let mut p = i;
    assert(crate::abstract_syntax_tree::statements_view(sts@) =~= Seq::<StatementV>::empty());
    loop
        invariant
            i <= p <= s.len(),
            decoder_ok(*float_of),
            statements_loop(s@, i as int, Seq::empty(), strict, decoded(*float_of))
                == statements_loop(s@, p as int, crate::abstract_syntax_tree::statements_view(sts@), strict, decoded(*float_of)),
        decreases s.len() - p,
    {
        let ghost a0 = crate::abstract_syntax_tree::statements_view(sts@);
        match statement_exec(s, p, strict, float_of) {
            Err(e) => return Err(e),
            Ok(Some((st, k))) => {
                if p < k {
                    let ghost sv = st@;
                    sts.push(st);
                    assert(crate::abstract_syntax_tree::statements_view(sts@) =~= a0.push(sv));
                    p = k;
                } else {
                    return Ok((sts, p));
                }
            },
            Ok(None) => return Ok((sts, p)),
        }
    }
}

fn teardown_exec<F: Fn(&str) -> Float>(s: &Vec<char>, i: usize, strict: bool, float_of: &F) -> (r: Result<Option<(Teardown, usize)>, (String, usize)>)
    requires
        i <= s.len(),
        decoder_ok(*float_of),
    ensures
        match teardown_spec(s@, i as int, strict, decoded(*float_of)) {
            Ok(Some((sts, q))) => r matches Ok(Some((t, p))) && crate::abstract_syntax_tree::statements_view(t.statements@) == sts && p == q,
            Ok(None) => r matches Ok(None),
            Err((m, q)) => r matches Err((msg, p)) && msg@ == m && p == q,
        },
        r matches Ok(Some((_, k))) ==> i <= k <= s.len(),
{
    reveal(teardown_spec);
    proof {
        reveal_strlit("teardown");
        reveal_strlit("{");
        reveal_strlit("}");
    }
    let a = match word_exec(s, i, "teardown") {
        None => return Ok(None),
        Some(a) => a,
    };
    let b = match word_exec(s, a, "{") {
        None => return Ok(None),
        Some(b) => b,
    };
    let (statements, c) = statements_exec(s, b, strict, float_of)?;
    match word_exec(s, c, "}") {
        None => Ok(None),
        Some(d) => Ok(Some((Teardown { statements }, d))),
    }
}

fn decorator_exec(s: &Vec<char>, i: usize) -> (r: Option<(Decorator, usize)>)
    requires
        i <= s.len(),
    ensures
        match decorator_spec(s@, i as int) {
            Some((d, k)) => r matches Some((t, q)) && t@ == d && q == k,
            None => r is None,
        },
        r matches Some((_, k)) ==> i < k <= s.len(),
{
    proof { reveal_strlit("="); }
    let (k, a) = match word_tok_exec(s, i) {
        None => return None,
        Some(x) => x,
    };
    match word_exec(s, a, "=") {
        Some(b) => match word_tok_exec(s, b) {
            Some((v, c)) => Some((Decorator::KeyValue((k, v)), c)),
            None => Some((Decorator::Key(k), a)),
        },
        None => Some((Decorator::Key(k), a)),
    }
}

fn decorators_exec(s: &Vec<char>, i: usize) -> (r: Option<(Vec<Decorator>, usize)>)
    requires
        i <= s.len(),
    ensures
        match decorators_spec(s@, i as int) {
            Some((ds, k)) => r matches Some((t, q)) && crate::abstract_syntax_tree::decorators_view(t@) == ds && q == k,
            None => r is None,
        },
        r matches Some((_, k)) ==> i < k <= s.len(),
{
    proof {
        reveal_strlit("[");
        reveal_strlit("]");
        reveal_strlit(",");
    }
    let a = match word_exec(s, i, "[") {
        None => return None,
        Some(a) => a,
    };
    let (d, b) = match decorator_exec(s, a) {
        None => return None,
        Some(x) => x,
    };
    let ghost dv = d@;
    let mut ds: Vec<Decorator> = Vec::new();
    ds.push(d);
    assert(crate::abstract_syntax_tree::decorators_view(ds@) =~= seq![dv]);
    let mut p = b;
    loop
        invariant
            i < b <= p <= s.len(),
            ",".view() == seq![','],
            decorators_loop(s@, b as int, seq![dv]) == decorators_loop(s@, p as int, crate::abstract_syntax_tree::decorators_view(ds@)),
        ensures
            i < b <= p <= s.len(),
            decorators_loop(s@, b as int, seq![dv]) == (crate::abstract_syntax_tree::decorators_view(ds@), p as int),
        decreases s.len() - p,
    {
        let ghost a0 = crate::abstract_syntax_tree::decorators_view(ds@);
        let c = match word_exec(s, p, ",") {
            None => break,
            Some(c) => c,
        };
        match decorator_exec(s, c) {
            Some((e, k)) => {
                let ghost ev = e@;
                ds.push(e);
                assert(crate::abstract_syntax_tree::decorators_view(ds@) =~= a0.push(ev));
                p = k;
            },
            None => break,
        }
    }
    match word_exec(s, p, "]") {
        None => None,
        Some(e) => Some((ds, e)),
    }
}

/// Reads a function at `i`; see [`function_spec`].
fn function_exec<F: Fn(&str) -> Float>(s: &Vec<char>, i: usize, strict: bool, float_of: &F) -> (r: Result<Option<(Function, usize)>, (String, usize)>)
    requires
        i <= s.len(),
        decoder_ok(*float_of),
    ensures
        same(r, function_spec(s@, i as int, strict, decoded(*float_of))),
        r matches Ok(Some((_, k))) ==> i <= k <= s.len(),
    decreases s.len() - i, 0int,
{
    proof {
        reveal_strlit("case");
        reveal_strlit("(");
        reveal_strlit(")");
        reveal_strlit("{");
        reveal_strlit("}");
    }
    let (decorators, a) = match decorators_exec(s, i) {
        Some(x) => x,
        None => {
            let ds: Vec<Decorator> = Vec::new();
            assert(crate::abstract_syntax_tree::decorators_view(ds@) =~= Seq::<DecoratorV>::empty());
            (ds, i)
        },
    };
    let b = match word_exec(s, a, "case") {
        None => return Ok(None),
        Some(b) => b,
    };
    let (name, c) = match word_tok_exec(s, b) {
        None => return Ok(None),
        Some(x) => x,
    };
    let d = match word_exec(s, c, "(") {
        None => return Ok(None),
        Some(d) => d,
    };
    let e = match word_exec(s, d, ")") {
        None => return Ok(None),
        Some(e) => e,
    };
    let f = match word_exec(s, e, "{") {
        None => return Ok(None),
        Some(f) => f,
    };
    if !(i < f) {
        return Ok(None);
    }
    let (block, g) = block_exec(s, f, strict, float_of)?;
    match word_exec(s, g, "}") {
        None => Ok(None),
        Some(h) => {
            let func = Function { decorators, name, block };
            proof { crate::abstract_syntax_tree::lemma_function_view(&func); }
            Ok(Some((func, h)))
        },
    }
}

/// Reads the entries of a block from `p0` on; see [`block_loop`].
fn block_exec<F: Fn(&str) -> Float>(s: &Vec<char>, p0: usize, strict: bool, float_of: &F) -> (r: Result<(Vec<BlockContents>, usize), (String, usize)>)
    requires
        p0 <= s.len(),
        decoder_ok(*float_of),
    ensures
        match block_loop(s@, p0 as int, Seq::empty(), strict, decoded(*float_of)) {
            Ok(Some((bs, q))) => r matches Ok((t, p)) && crate::abstract_syntax_tree::blocks_view(t@) == bs && p == q,
            Ok(None) => false,
            Err((m, q)) => r matches Err((msg, p)) && msg@ == m && p == q,
        },
        r matches Ok((_, p)) ==> p0 <= p <= s.len(),
    decreases s.len() - p0, 1int,
{
    let mut acc: Vec<BlockContents> = Vec::new();
    let mut p = p0;
    assert(crate::abstract_syntax_tree::blocks_view(acc@) =~= Seq::<BlockV>::empty());
    loop
        invariant
            p0 <= p <= s.len(),
            decoder_ok(*float_of),
            block_loop(s@, p0 as int, Seq::empty(), strict, decoded(*float_of))
                == block_loop(s@, p as int, crate::abstract_syntax_tree::blocks_view(acc@), strict, decoded(*float_of)),
        decreases s.len() - p,
    {
        let ghost a0 = crate::abstract_syntax_tree::blocks_view(acc@);
        match statement_exec(s, p, strict, float_of) {
            Err(e) => return Err(e),
            Ok(Some((st, k))) => {
                if p < k {
                    let ghost sv = st@;
                    acc.push(BlockContents::Statement(st));
                    assert(crate::abstract_syntax_tree::blocks_view(acc@) =~= a0.push(BlockV::Statement(sv)));
                    p = k;
                    continue;
                } else {
                    return Ok((acc, p));
                }
            },
            Ok(None) => {},
        }
        match teardown_exec(s, p, strict, float_of) {
            Err(e) => return Err(e),
            Ok(Some((t, k))) => {
                if p < k {
                    let ghost tv = crate::abstract_syntax_tree::statements_view(t.statements@);
                    acc.push(BlockContents::Teardown(t));
                    assert(crate::abstract_syntax_tree::blocks_view(acc@) =~= a0.push(BlockV::Teardown(tv)));
                    p = k;
                    continue;
                } else {
                    return Ok((acc, p));
                }
            },
            Ok(None) => {},
        }
        match function_exec(s, p, strict, float_of) {
            Err(e) => return Err(e),
            Ok(Some((f, k))) => {
                if p < k {
                    let ghost fv = f@;
                    acc.push(BlockContents::Function(f));
                    assert(crate::abstract_syntax_tree::blocks_view(acc@) =~= a0.push(BlockV::Function(fv)));
                    p = k;
                } else {
                    return Ok((acc, p));
                }
            },
            Ok(None) => return Ok((acc, p)),
        }
    }
}

/// The later of two positions; see [`later`].
fn later_exec(a: usize, b: usize) -> (r: usize)
    ensures
        r == later(a as int, b as int),
{
    if a < b { b } else { a }
}

/// Where the reading of a value stopped; see [`value_fail_reach`].
fn value_fail_reach_exec(s: &Vec<char>, i: usize) -> (r: usize)
    requires
        i <= s.len(),
    ensures
        r == value_fail_reach(s@, i as int),
        r <= s.len(),
{
    let j = skip_exec(s, i);
    if j < s.len() && s[j] == '(' {
        let n = name_end_exec(s, j + 1);
        proof { lemma_run_bounds(s@, j + 1); }
        if n > j + 1 { nested_end_exec(s, n) } else { j + 1 }
    } else if j < s.len() && s[j] == '"' {
        proof { lemma_run_bounds(s@, j + 1); }
        text_end_exec(s, j + 1)
    } else {
        j
    }
}

/// Where the reading of an assertion stopped; see [`assert_reach`].
fn assert_reach_exec<F: Fn(&str) -> Float>(s: &Vec<char>, i: usize, float_of: &F) -> (r: usize)
    requires
        i <= s.len(),
        decoder_ok(*float_of),
    ensures
        r == assert_reach(s@, i as int, decoded(*float_of)),
        r <= s.len(),
{
    let a = match word_exec(s, i, "ASSERT") {
        None => return skip_exec(s, i),
        Some(a) => a,
    };
    let b = match word_exec(s, a, "NOT") {
        Some(b) => b,
        None => a,
    };
    let c = match sub_exec(s, b) {
        None => return skip_exec(s, b),
        Some((_, c)) => c,
    };
    let d = match value_exec(s, c, false, float_of) {
        Ok(Some((_, d))) => d,
        _ => return value_fail_reach_exec(s, c),
    };
    let e = match value_exec(s, d, false, float_of) {
        Ok(Some((_, e))) => e,
        _ => return value_fail_reach_exec(s, d),
    };
    match quote_exec(s, e) {
        Some((_, f)) => skip_exec(s, f),
        None => match fmt_exec(s, e) {
            Some((_, f)) => skip_exec(s, f),
            None => skip_exec(s, e),
        },
    }
}

/// Where the reading of a pair stopped; see [`pair_reach`].
fn pair_reach_exec<F: Fn(&str) -> Float>(s: &Vec<char>, p: usize, sep: &str, float_of: &F) -> (r: usize)
    requires
        p <= s.len(),
        decoder_ok(*float_of),
    ensures
        r == pair_reach(s@, p as int, sep@, decoded(*float_of)),
        r <= s.len(),
{
    let a = match name_tok_exec(s, p) {
        None => return skip_exec(s, p),
        Some((_, a)) => a,
    };
    let b = match word_exec(s, a, sep) {
        None => return skip_exec(s, a),
        Some(b) => b,
    };
    match value_exec(s, b, false, float_of) {
        Ok(Some((_, c))) => skip_exec(s, c),
        _ => value_fail_reach_exec(s, b),
    }
}

/// Where the reading after a web request stopped; see [`request_tail_reach`].
fn request_tail_reach_exec<F: Fn(&str) -> Float>(s: &Vec<char>, k: usize, float_of: &F) -> (r: usize)
    requires
        k <= s.len(),
        decoder_ok(*float_of),
    ensures
        r == request_tail_reach(s@, k as int, decoded(*float_of)),
        r <= s.len(),
{
    let q = match word_exec(s, k, "?") {
        Some(a) => pair_reach_exec(s, a, "=", float_of),
        None => match word_exec(s, k, "&") {
            Some(a) => pair_reach_exec(s, a, "=", float_of),
            None => skip_exec(s, k),
        },
    };
    let x = later_exec(q, pair_reach_exec(s, k, "=", float_of));
    let y = later_exec(pair_reach_exec(s, k, ":", float_of), pair_reach_exec(s, k, "=>", float_of));
    later_exec(x, y)
}

/// Where the reading of an expression stopped; see [`expression_reach`].
fn expression_reach_exec<F: Fn(&str) -> Float>(s: &Vec<char>, i: usize, float_of: &F) -> (r: usize)
    requires
        i <= s.len(),
        decoder_ok(*float_of),
    ensures
        r == expression_reach(s@, i as int, decoded(*float_of)),
        r <= s.len(),
{
    match word_exec(s, i, "LITERAL") {
        Some(a) => match literal_exec(s, a, false, float_of) {
            Ok(Some((_, k))) => skip_exec(s, k),
            _ => value_fail_reach_exec(s, a),
        },
        None => match verb_exec(s, i) {
            Some((_, a)) => match http_exec(s, i, false, float_of) {
                Ok(Some((_, k))) => request_tail_reach_exec(s, k, float_of),
                _ => skip_exec(s, a),
            },
            None => match expression_exec(s, i, false, float_of) {
                Ok(Some((_, k))) => skip_exec(s, k),
                _ => skip_exec(s, i),
            },
        },
    }
}

/// Where the reading of a statement stopped; see [`statement_reach`].
fn statement_reach_exec<F: Fn(&str) -> Float>(s: &Vec<char>, i: usize, float_of: &F) -> (r: usize)
    requires
        i <= s.len(),
        decoder_ok(*float_of),
    ensures
        r == statement_reach(s@, i as int, decoded(*float_of)),
        r <= s.len(),
{
    if word_exec(s, i, "ASSERT").is_some() {
        return assert_reach_exec(s, i, float_of);
    }
    match word_exec(s, i, "var") {
        Some(a) => {
            let b = match name_tok_exec(s, a) {
                None => return skip_exec(s, a),
                Some((_, b)) => b,
            };
            match word_exec(s, b, "=") {
                None => skip_exec(s, b),
                Some(c) => expression_reach_exec(s, c, float_of),
            }
        },
        None => match word_exec(s, i, "PRINT") {
            Some(a) => match value_exec(s, a, false, float_of) {
                Ok(Some((_, k))) => skip_exec(s, k),
                _ => value_fail_reach_exec(s, a),
            },
            None => expression_reach_exec(s, i, float_of),
        },
    }
}

/// Where the reading of a teardown block stopped; see [`teardown_reach`].
fn teardown_reach_exec<F: Fn(&str) -> Float>(s: &Vec<char>, i: usize, float_of: &F) -> (r: usize)
    requires
        i <= s.len(),
        decoder_ok(*float_of),
    ensures
        r == teardown_reach(s@, i as int, decoded(*float_of)),
        r <= s.len(),
{
    let a = match word_exec(s, i, "teardown") {
        None => return skip_exec(s, i),
        Some(a) => a,
    };
    let b = match word_exec(s, a, "{") {
        None => return skip_exec(s, a),
        Some(b) => b,
    };
    match statements_exec(s, b, false, float_of) {
        Ok((_, c)) => later_exec(statement_reach_exec(s, c, float_of), skip_exec(s, c)),
        Err(_) => skip_exec(s, b),
    }
}

/// Where the reading of decorators stopped; see [`decorators_reach`].
fn decorators_reach_exec(s: &Vec<char>, i: usize) -> (r: usize)
    requires
        i <= s.len(),
    ensures
        r == decorators_reach(s@, i as int),
        r <= s.len(),
{
    proof { reveal_strlit(","); }
    let a = match word_exec(s, i, "[") {
        None => return skip_exec(s, i),
        Some(a) => a,
    };
    let (d, b) = match decorator_exec(s, a) {
        None => return skip_exec(s, a),
        Some(x) => x,
    };
    let ghost dv = d@;
    let mut ds: Vec<Decorator> = Vec::new();
    ds.push(d);
    assert(crate::abstract_syntax_tree::decorators_view(ds@) =~= seq![dv]);
    let mut p = b;
    loop
        invariant
            b <= p <= s.len(),
            ",".view() == seq![','],
            decorators_loop(s@, b as int, seq![dv]) == decorators_loop(s@, p as int, crate::abstract_syntax_tree::decorators_view(ds@)),
        ensures
            b <= p <= s.len(),
            decorators_loop(s@, b as int, seq![dv]) == (crate::abstract_syntax_tree::decorators_view(ds@), p as int),
        decreases s.len() - p,
    {
        let ghost a0 = crate::abstract_syntax_tree::decorators_view(ds@);
        let c = match word_exec(s, p, ",") {
            None => break,
            Some(c) => c,
        };
        match decorator_exec(s, c) {
            Some((e, k)) => {
                let ghost ev = e@;
                ds.push(e);
                assert(crate::abstract_syntax_tree::decorators_view(ds@) =~= a0.push(ev));
                p = k;
            },
            None => break,
        }
    }
    skip_exec(s, p)
}

/// Where the reading of a function stopped; see [`function_reach`].
fn function_reach_exec<F: Fn(&str) -> Float>(s: &Vec<char>, i: usize, float_of: &F) -> (r: usize)
    requires
        i <= s.len(),
        decoder_ok(*float_of),
    ensures
        r == function_reach(s@, i as int, decoded(*float_of)),
        r <= s.len(),
    decreases s.len() - i,
{
    let (a, dr) = match decorators_exec(s, i) {
        Some((_, a)) => (a, skip_exec(s, i)),
        None => (i, decorators_reach_exec(s, i)),
    };
    let hr = match word_exec(s, a, "case") {
        None => skip_exec(s, a),
        Some(b) => match word_tok_exec(s, b) {
            None => skip_exec(s, b),
            Some((_, c)) => match word_exec(s, c, "(") {
                None => skip_exec(s, c),
                Some(d) => match word_exec(s, d, ")") {
                    None => skip_exec(s, d),
                    Some(e) => match word_exec(s, e, "{") {
                        None => skip_exec(s, e),
                        Some(f) => if i < f {
                            match block_exec(s, f, false, float_of) {
                                Ok((_, p)) => {
                                    let x = later_exec(statement_reach_exec(s, p, float_of), teardown_reach_exec(s, p, float_of));
                                    let y = later_exec(function_reach_exec(s, p, float_of), skip_exec(s, p));
                                    later_exec(x, y)
                                },
                                Err(_) => skip_exec(s, f),
                            }
                        } else {
                            skip_exec(s, f)
                        },
                    },
                },
            },
        },
    };
    later_exec(dr, hr)
}

fn functions_exec<F: Fn(&str) -> Float>(s: &Vec<char>, strict: bool, float_of: &F) -> (r: Result<Vec<Function>, (String, usize)>)
    requires
        decoder_ok(*float_of),
    ensures
        match functions_loop(s@, 0, Seq::empty(), strict, decoded(*float_of)) {
            Ok(fs) => r matches Ok(t) && functions_view(t@) == fs,
            Err((m, q)) => r matches Err((msg, p)) && msg@ == m && p == q,
        },
{
    proof { reveal_strlit("Invalid ChimeraScript"); }
    let mut acc: Vec<Function> = Vec::new();
    let mut p: usize = 0;
    assert(functions_view(acc@) =~= Seq::<FunctionV>::empty());
    loop
        invariant
            p <= s.len(),
            decoder_ok(*float_of),
            "Invalid ChimeraScript".view() == "Invalid ChimeraScript"@,
            functions_loop(s@, 0, Seq::empty(), strict, decoded(*float_of))
                == functions_loop(s@, p as int, functions_view(acc@), strict, decoded(*float_of)),
        decreases s.len() - p,
    {
        let ghost a0 = functions_view(acc@);
        let j = skip_exec(s, p);
        if j >= s.len() {
            return Ok(acc);
        }
        match function_exec(s, j, strict, float_of) {
            Err(e) => return Err(e),
            Ok(Some((f, k))) => {
                if p < k {
                    let ghost fv = f@;
                    acc.push(f);
                    assert(functions_view(acc@) =~= a0.push(fv));
                    p = k;
                } else {
                    return Err(("Invalid ChimeraScript".to_owned(), j));
                }
            },
            Ok(None) => return Err(("Invalid ChimeraScript".to_owned(), function_reach_exec(s, j, float_of))),
        }
    }
}

/// The line and column of a position; see [`line_col`].
pub fn line_col_exec(s: &Vec<char>, pos: usize) -> (r: (usize, usize))
    ensures
        r == line_col(s@, pos as int),
{
    let mut l: usize = 1;
    let mut c: usize = 1;
    let mut k: usize = 0;
    while k < pos
        invariant
            k <= pos,
            (l, c) == line_col(s@, k as int),
        decreases pos - k,
    {
        if k < s.len() && s[k] == '\n' {
            if l < usize::MAX {
                l = l + 1;
            }
            c = 1;
        } else {
            if c < usize::MAX {
                c = c + 1;
            }
        }
        k = k + 1;
    }
    (l, c)
}

/// The compile error for a failure at a position of the text.
fn failure_at(s: &Vec<char>, msg: &str, pos: usize) -> (r: ChimeraCompileError)
    ensures
        r.error_msg@ == msg@,
        (r.line, r.column) == line_col(s@, pos as int),
{
    ChimeraCompileError::new(msg, line_col_exec(s, pos))
}

impl ChimeraScriptAST {
    /// Reads a script into its syntax tree; see [`script_spec`]. `float_of`
    /// gives the float of a float literal's text (`5.5`, `-10.7`).
    pub fn new<F: Fn(&str) -> Float>(input: &str, float_of: &F) -> (r: Result<Self, ChimeraCompileError>)
        requires
            decoder_ok(*float_of),
        ensures
            match script_spec(input@, decoded(*float_of)) {
                Ok(fs) => r matches Ok(ast) && functions_view(ast.functions@) == fs,
                Err((m, p)) => r matches Err(e) && e.error_msg@ == m && (e.line, e.column) == line_col(input@, p),
            },
    {
        let chars = crate::text::str_to_chars(input);
        match functions_exec(&chars, false, float_of) {
            Err((m, p)) => return Err(failure_at(&chars, m.as_str(), p)),
            Ok(_) => {},
        }
        match functions_exec(&chars, true, float_of) {
            Ok(functions) => Ok(ChimeraScriptAST { functions }),
            Err((m, p)) => Err(failure_at(&chars, m.as_str(), p)),
        }
    }
}

/// Reads one statement at the start of `input`; see [`single_statement_spec`].
pub fn parse_statement<F: Fn(&str) -> Float>(input: &str, float_of: &F) -> (r: Result<Statement, ChimeraCompileError>)
    requires
        decoder_ok(*float_of),
    ensures
        match single_statement_spec(input@, decoded(*float_of)) {
            Ok(st) => r matches Ok(t) && t@ == st,
            Err((m, p)) => r matches Err(e) && e.error_msg@ == m && (e.line, e.column) == line_col(input@, p),
        },
{
    proof { reveal_strlit("Invalid ChimeraScript"); }
    let chars = crate::text::str_to_chars(input);
    match statement_exec(&chars, 0, false, float_of) {
        Err((m, p)) => return Err(failure_at(&chars, m.as_str(), p)),
        Ok(None) => {
            let j = statement_reach_exec(&chars, 0, float_of);
            return Err(failure_at(&chars, "Invalid ChimeraScript", j));
        },
        Ok(Some(_)) => {},
    }
    match statement_exec(&chars, 0, true, float_of) {
        Err((m, p)) => Err(failure_at(&chars, m.as_str(), p)),
        Ok(None) => {
            let j = statement_reach_exec(&chars, 0, float_of);
            Err(failure_at(&chars, "Invalid ChimeraScript", j))
        },
        Ok(Some((st, _))) => Ok(st),
    }
}

} // verus!
