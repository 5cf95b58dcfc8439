//! Resolving a web request: its full path, its body, its headers.
use vstd::prelude::*;
use crate::abstract_syntax_tree::{
    HttpAssignment, HttpCommand, HttpCommandV, Value, ValueV, assignments_view, error_print_text, lemma_resolve_ok,
    resolve_value, shown_value, values_view,
};
use crate::err_handle::{ChimeraRuntimeFailure, FailureV, VarTypes};
use crate::frontend::Context;
use crate::literal::{CellV, DataKind, literal_text};
use crate::text::{chars_to_string, push_str, str_eq};
use crate::variable_map::{StateV, VariableMap, extends, state_wf};

verus! {

/// A character a header name may hold: a lowercase letter, a digit, or one of
/// `` ! " # $ % & ' * + - . ^ _ ` | ~ ``.
pub open spec fn header_name_char(c: char) -> bool {
    ||| ('a' <= c && c <= 'z')
    ||| ('0' <= c && c <= '9')
    ||| c == '!' || c == '"' || c == '#' || c == '$' || c == '%' || c == '&' || c == '\''
    ||| c == '*' || c == '+' || c == '-' || c == '.' || c == '^' || c == '_' || c == '`'
    ||| c == '|' || c == '~'
}

/// A valid lowercase header name: 1 to 65535 characters, each a header name character.
pub open spec fn header_name_ok(s: Seq<char>) -> bool {
    &&& 1 <= s.len() <= 65535
    &&& forall|i: int| 0 <= i < s.len() ==> header_name_char(#[trigger] s[i])
}

/// A character a header value may hold: a tab, or anything but the other
/// control characters below 32 and 127.
pub open spec fn header_value_char(c: char) -> bool {
    (c as u32 >= 32 && c as u32 != 127) || c == '\t'
}

pub open spec fn header_value_ok(s: Seq<char>) -> bool {
    forall|i: int| 0 <= i < s.len() ==> header_value_char(#[trigger] s[i])
}

/// Whether `http::HeaderName::from_lowercase` accepts the UTF-8 bytes of `name`.
/// It accepts exactly 1 to 65535 bytes each of which is a lowercase token
/// character; a character outside ASCII gives bytes of 128 and more, which it refuses.
#[verifier::external_body]
fn header_name_from_lowercase(name: &str) -> (r: bool)
    ensures
        r == header_name_ok(name@),
{
    reqwest::header::HeaderName::from_lowercase(name.as_bytes()).is_ok()
}

/// Whether `http::HeaderValue::from_str` accepts `value`. It refuses exactly
/// the bytes below 32 other than a tab, and 127; the bytes of a character
/// outside ASCII are all 128 or more.
#[verifier::external_body]
fn header_value_from_str(value: &str) -> (r: bool)
    ensures
        r == header_value_ok(value@),
{
    reqwest::header::HeaderValue::from_str(value).is_ok()
}

/// `pairs` with the value of `key` replaced, or `(key, value)` added at the end.
pub open spec fn set_text(pairs: Seq<(Seq<char>, Seq<char>)>, key: Seq<char>, value: Seq<char>) -> Seq<(Seq<char>, Seq<char>)> {
    if exists|i: int| 0 <= i < pairs.len() && pairs[i].0 == key {
        let i = choose|i: int| 0 <= i < pairs.len() && pairs[i].0 == key;
        pairs.update(i, (key, value))
    } else {
        pairs.push((key, value))
    }
}

pub open spec fn text_keys_unique(pairs: Seq<(Seq<char>, Seq<char>)>) -> bool {
    forall|i: int, j: int| 0 <= i < j < pairs.len() ==> pairs[i].0 != pairs[j].0
}

pub open spec fn pairs_view(v: Seq<(String, String)>) -> Seq<(Seq<char>, Seq<char>)> {
    Seq::new(v.len(), |i: int| (v[i].0@, v[i].1@))
}

/// Sets `key` to `value` in a list of pairs with unique keys; see [`set_text`].
pub fn insert_text(pairs: &mut Vec<(String, String)>, key: String, value: String)
    requires
        text_keys_unique(pairs_view(old(pairs)@)),
    ensures
        pairs_view(final(pairs)@) == set_text(pairs_view(old(pairs)@), key@, value@),
        text_keys_unique(pairs_view(final(pairs)@)),
{
    let ghost old_ps = pairs_view(pairs@);
    let mut i: usize = 0;
    while i < pairs.len()
        invariant
            i <= pairs.len(),
            pairs@ == old(pairs)@,
            old_ps == pairs_view(old(pairs)@),
            text_keys_unique(old_ps),
            forall|j: int| 0 <= j < i ==> old_ps[j].0 != key@,
        decreases pairs.len() - i,
    {
        if str_eq(pairs[i].0.as_str(), key.as_str()) {
            proof {
                assert(old_ps[i as int].0 == key@);
                let k = choose|k: int| 0 <= k < old_ps.len() && old_ps[k].0 == key@;
                assert(k == i) by {
                    if k < i {
                        assert(old_ps[k].0 != old_ps[i as int].0);
                    } else if k > i {
                        assert(old_ps[i as int].0 != old_ps[k].0);
                    }
                }
            }
            pairs.set(i, (key, value));
            assert(pairs_view(pairs@) =~= set_text(old_ps, key@, value@));
            return;
        }
        i = i + 1;
    }
    pairs.push((key, value));
    proof {
        assert(pairs_view(pairs@) =~= old_ps.push((key@, value@)));
        assert(!(exists|j: int| 0 <= j < old_ps.len() && old_ps[j].0 == key@));
    }
}

// ---------------------------------------------------------------------------
// The path
// ---------------------------------------------------------------------------

/// The text of one path segment: the text of the literal it resolves to; a
/// collection is refused.
pub open spec fn segment_text(st: StateV, v: ValueV, line: i32) -> (StateV, Result<Seq<char>, FailureV>) {
    let (st1, r) = resolve_value(st, v, None, line);
    match r {
        Err(e) => (st1, Err(e)),
        Ok(d) => match st1.heap[d.handle as int] {
            CellV::Lit(l) => (st1, Ok(literal_text(l))),
            _ => (st1, Err(FailureV::VarWrongType(error_print_text(v), VarTypes::Literal, line))),
        },
    }
}

/// The texts of the path segments one after another.
pub open spec fn segments_text(st: StateV, vs: Seq<ValueV>, line: i32) -> (StateV, Result<Seq<char>, FailureV>)
    decreases vs.len(),
{
    if vs.len() == 0 {
        (st, Ok(Seq::empty()))
    } else {
        let (st1, r1) = segments_text(st, vs.drop_last(), line);
        match r1 {
            Err(e) => (st1, Err(e)),
            Ok(p) => {
                let (st2, r2) = segment_text(st1, vs.last(), line);
                match r2 {
                    Ok(t) => (st2, Ok(p + t)),
                    Err(e) => (st2, Err(e)),
                }
            },
        }
    }
}

/// The query string: `?name=value`, then `&name=value` for each further parameter.
pub open spec fn query_text(st: StateV, qs: Seq<(Seq<char>, ValueV)>, line: i32) -> (StateV, Result<Seq<char>, FailureV>)
    decreases qs.len(),
{
    if qs.len() == 0 {
        (st, Ok(Seq::empty()))
    } else {
        let (st1, r1) = query_text(st, qs.drop_last(), line);
        match r1 {
            Err(e) => (st1, Err(e)),
            Ok(p) => {
                let (st2, r2) = resolve_value(st1, qs.last().1, None, line);
                match r2 {
                    Err(e) => (st2, Err(e)),
                    Ok(d) => match shown_value(st2, d, None, line) {
                        Ok(t) => (st2, Ok(p + seq![if qs.len() == 1 { '?' } else { '&' }] + qs.last().0 + seq!['='] + t)),
                        Err(e) => (st2, Err(e)),
                    },
                }
            },
        }
    }
}

/// The full path of a request: the domain, the path segments, the query string.
pub open spec fn path_outcome(domain: Seq<char>, st: StateV, cmd: HttpCommandV, line: i32) -> (StateV, Result<Seq<char>, FailureV>) {
    let (st1, r1) = segments_text(st, cmd.path, line);
    match r1 {
        Err(e) => (st1, Err(e)),
        Ok(p) => {
            let (st2, r2) = query_text(st1, cmd.query_params, line);
            match r2 {
                Ok(q) => (st2, Ok(domain + p + q)),
                Err(e) => (st2, Err(e)),
            }
        },
    }
}

// ---------------------------------------------------------------------------
// The body
// ---------------------------------------------------------------------------

/// The body of a request: each assignment's name set to the text of its
/// value, a later assignment of a name replacing an earlier one.
pub open spec fn body_outcome(st: StateV, asg: Seq<(Seq<char>, ValueV)>, line: i32) -> (StateV, Result<Seq<(Seq<char>, Seq<char>)>, FailureV>)
    decreases asg.len(),
{
    if asg.len() == 0 {
        (st, Ok(Seq::empty()))
    } else {
        let (st1, r1) = body_outcome(st, asg.drop_last(), line);
        match r1 {
            Err(e) => (st1, Err(e)),
            Ok(ps) => {
                let (st2, r2) = resolve_value(st1, asg.last().1, None, line);
                match r2 {
                    Err(e) => (st2, Err(e)),
                    Ok(d) => match shown_value(st2, d, None, line) {
                        Ok(t) => (st2, Ok(set_text(ps, asg.last().0, t))),
                        Err(e) => (st2, Err(e)),
                    },
                }
            },
        }
    }
}

// ---------------------------------------------------------------------------
// The headers
// ---------------------------------------------------------------------------

/// The headers of a request: each name checked, then its value resolved and
/// checked; a later header of a name replaces an earlier one.
pub open spec fn header_outcome(st: StateV, hs: Seq<(Seq<char>, ValueV)>, line: i32) -> (StateV, Result<Seq<(Seq<char>, Seq<char>)>, FailureV>)
    decreases hs.len(),
{
    if hs.len() == 0 {
        (st, Ok(Seq::empty()))
    } else {
        let (st1, r1) = header_outcome(st, hs.drop_last(), line);
        match r1 {
            Err(e) => (st1, Err(e)),
            Ok(ps) => if !header_name_ok(hs.last().0) {
                (st1, Err(FailureV::InvalidHeader(line, hs.last().0)))
            } else {
                let (st2, r2) = resolve_value(st1, hs.last().1, None, line);
                match r2 {
                    Err(e) => (st2, Err(e)),
                    Ok(d) => match shown_value(st2, d, None, line) {
                        Err(e) => (st2, Err(e)),
                        Ok(t) => if header_value_ok(t) {
                            (st2, Ok(set_text(ps, hs.last().0, t)))
                        } else {
                            (st2, Err(FailureV::InternalError("resolving header value"@)))
                        },
                    },
                }
            },
        }
    }
}

proof fn lemma_segments_err(st: StateV, vs: Seq<ValueV>, line: i32, n: int)
    requires
        0 <= n <= vs.len(),
        segments_text(st, vs.take(n), line).1 is Err,
    ensures
        segments_text(st, vs, line) == segments_text(st, vs.take(n), line),
    decreases vs.len() - n,
{
    if n < vs.len() {
        assert(vs.take(n + 1).drop_last() =~= vs.take(n));
        lemma_segments_err(st, vs, line, n + 1);
    } else {
        assert(vs.take(n) =~= vs);
    }
}

proof fn lemma_query_err(st: StateV, qs: Seq<(Seq<char>, ValueV)>, line: i32, n: int)
    requires
        0 <= n <= qs.len(),
        query_text(st, qs.take(n), line).1 is Err,
    ensures
        query_text(st, qs, line) == query_text(st, qs.take(n), line),
    decreases qs.len() - n,
{
    if n < qs.len() {
        assert(qs.take(n + 1).drop_last() =~= qs.take(n));
        lemma_query_err(st, qs, line, n + 1);
    } else {
        assert(qs.take(n) =~= qs);
    }
}

proof fn lemma_body_err(st: StateV, asg: Seq<(Seq<char>, ValueV)>, line: i32, n: int)
    requires
        0 <= n <= asg.len(),
        body_outcome(st, asg.take(n), line).1 is Err,
    ensures
        body_outcome(st, asg, line) == body_outcome(st, asg.take(n), line),
    decreases asg.len() - n,
{
    if n < asg.len() {
        assert(asg.take(n + 1).drop_last() =~= asg.take(n));
        lemma_body_err(st, asg, line, n + 1);
    } else {
        assert(asg.take(n) =~= asg);
    }
}

proof fn lemma_header_err(st: StateV, hs: Seq<(Seq<char>, ValueV)>, line: i32, n: int)
    requires
        0 <= n <= hs.len(),
        header_outcome(st, hs.take(n), line).1 is Err,
    ensures
        header_outcome(st, hs, line) == header_outcome(st, hs.take(n), line),
    decreases hs.len() - n,
{
    if n < hs.len() {
        assert(hs.take(n + 1).drop_last() =~= hs.take(n));
        lemma_header_err(st, hs, line, n + 1);
    } else {
        assert(hs.take(n) =~= hs);
    }
}

/// Appends the texts of the path segments; see [`segments_text`].
fn push_segments(context: &Context, path: &Vec<Value>, variable_map: &mut VariableMap, out: &mut Vec<char>) -> (r: Result<(), ChimeraRuntimeFailure>)
    requires
        state_wf(old(variable_map)@),
    ensures
        final(variable_map)@ == segments_text(old(variable_map)@, values_view(path@), context.current_line).0,
        state_wf(final(variable_map)@),
        extends(final(variable_map)@, old(variable_map)@),
        match segments_text(old(variable_map)@, values_view(path@), context.current_line).1 {
            Ok(t) => r is Ok && final(out)@ == old(out)@ + t,
            Err(e) => r matches Err(f) && f@ == e,
        },
{
    let ghost st0 = variable_map@;
    let ghost vs = values_view(path@);
    let ghost out0 = out@;
    let line = context.current_line;
    let mut i: usize = 0;
    assert(vs.take(0) =~= Seq::<ValueV>::empty());
    assert(out@ =~= out0 + Seq::<char>::empty());
    while i < path.len()
        invariant
            i <= path.len(),
            vs == values_view(path@),
            line == context.current_line,
            st0 == old(variable_map)@,
            state_wf(st0),
            state_wf(variable_map@),
            extends(variable_map@, st0),
            segments_text(st0, vs.take(i as int), line) matches (st1, Ok(t)) && st1 == variable_map@ && out@ == out0 + t,
        decreases path.len() - i,
    {
        let ghost st_i = variable_map@;
        let ghost t_i = out@;
        assert(vs.take(i + 1).drop_last() =~= vs.take(i as int));
        assert(vs.take(i + 1).last() == path@[i as int]@);
        proof { lemma_resolve_ok(st_i, path@[i as int]@, None, line); }
        let portion = &path[i];
        let d = match portion.resolve(context, variable_map, None) {
            Ok(d) => d,
            Err(e) => {
                proof { lemma_segments_err(st0, vs, line, i + 1); }
                return Err(e);
            },
        };
        match variable_map.heap.get(d) {
            DataKind::Literal(literal) => {
                let ghost before = out@;
                literal.push_text(out);
                assert(out@ =~= out0 + (segments_text(st0, vs.take(i as int), line).1->Ok_0 + literal_text(literal@)));
            },
            DataKind::Collection(_) => {
                proof { lemma_segments_err(st0, vs, line, i + 1); }
                return Err(ChimeraRuntimeFailure::VarWrongType(portion.error_print(), VarTypes::Literal, context.current_line));
            },
        }
        i = i + 1;
    }
    assert(vs.take(i as int) =~= vs);
    Ok(())
}

/// Appends the query string; see [`query_text`].
fn push_query(context: &Context, query_params: &Vec<HttpAssignment>, variable_map: &mut VariableMap, out: &mut Vec<char>) -> (r: Result<(), ChimeraRuntimeFailure>)
    requires
        state_wf(old(variable_map)@),
    ensures
        final(variable_map)@ == query_text(old(variable_map)@, assignments_view(query_params@), context.current_line).0,
        state_wf(final(variable_map)@),
        extends(final(variable_map)@, old(variable_map)@),
        match query_text(old(variable_map)@, assignments_view(query_params@), context.current_line).1 {
            Ok(t) => r is Ok && final(out)@ == old(out)@ + t,
            Err(e) => r matches Err(f) && f@ == e,
        },
{
    let ghost st0 = variable_map@;
    let ghost qs = assignments_view(query_params@);
    let ghost out0 = out@;
    let line = context.current_line;
    let mut i: usize = 0;
    assert(qs.take(0) =~= Seq::<(Seq<char>, ValueV)>::empty());
    assert(out@ =~= out0 + Seq::<char>::empty());
    while i < query_params.len()
        invariant
            i <= query_params.len(),
            qs == assignments_view(query_params@),
            line == context.current_line,
            st0 == old(variable_map)@,
            state_wf(st0),
            state_wf(variable_map@),
            extends(variable_map@, st0),
            query_text(st0, qs.take(i as int), line) matches (st1, Ok(t)) && st1 == variable_map@ && out@ == out0 + t,
        decreases query_params.len() - i,
    {
        let ghost st_i = variable_map@;
        let ghost prev = query_text(st0, qs.take(i as int), line).1->Ok_0;
        assert(qs.take(i + 1).drop_last() =~= qs.take(i as int));
        assert(qs.take(i + 1).last() == (query_params@[i as int].lhs@, query_params@[i as int].rhs@));
        proof { lemma_resolve_ok(st_i, query_params@[i as int].rhs@, None, line); }
        let query_param = &query_params[i];
        let d = match query_param.rhs.resolve(context, variable_map, None) {
            Ok(d) => d,
            Err(e) => {
                proof { lemma_query_err(st0, qs, line, i + 1); }
                return Err(e);
            },
        };
        let shown = match variable_map.shown_value(context, d, None) {
            Ok(t) => t,
            Err(e) => {
                proof { lemma_query_err(st0, qs, line, i + 1); }
                return Err(e);
            },
        };
        if i == 0 {
            out.push('?');
        } else {
            out.push('&');
        }
        push_str(out, query_param.lhs.as_str());
        out.push('=');
        push_str(out, shown.as_str());
        assert(out@ =~= out0 + (prev + seq![if i + 1 == 1 { '?' } else { '&' }] + query_param.lhs@ + seq!['='] + shown@));
        i = i + 1;
    }
    assert(qs.take(i as int) =~= qs);
    Ok(())
}

impl HttpCommand {
    /// The full path of the request: `domain`, then the path segments, then
    /// the query string; see [`path_outcome`].
    pub fn resolve_path(&self, context: &Context, variable_map: &mut VariableMap, domain: &str) -> (r: Result<String, ChimeraRuntimeFailure>)
        requires
            state_wf(old(variable_map)@),
        ensures
            final(variable_map)@ == path_outcome(domain@, old(variable_map)@, self@, context.current_line).0,
            state_wf(final(variable_map)@),
            extends(final(variable_map)@, old(variable_map)@),
            match path_outcome(domain@, old(variable_map)@, self@, context.current_line).1 {
                Ok(t) => r matches Ok(s) && s@ == t,
                Err(e) => r matches Err(f) && f@ == e,
            },
    {
        let mut out: Vec<char> = Vec::new();
        push_str(&mut out, domain);
        push_segments(context, &self.path, variable_map, &mut out)?;
        push_query(context, &self.query_params, variable_map, &mut out)?;
        Ok(chars_to_string(&out))
    }

    /// The body of the request: each assignment's name with the text of its
    /// value; see [`body_outcome`].
    pub fn resolve_body(&self, context: &Context, variable_map: &mut VariableMap) -> (r: Result<Vec<(String, String)>, ChimeraRuntimeFailure>)
        requires
            state_wf(old(variable_map)@),
        ensures
            final(variable_map)@ == body_outcome(old(variable_map)@, self@.http_assignments, context.current_line).0,
            state_wf(final(variable_map)@),
            extends(final(variable_map)@, old(variable_map)@),
            match body_outcome(old(variable_map)@, self@.http_assignments, context.current_line).1 {
                Ok(ps) => r matches Ok(v) && pairs_view(v@) == ps,
                Err(e) => r matches Err(f) && f@ == e,
            },
    {
        let ghost st0 = variable_map@;
        let ghost asg = self@.http_assignments;
        let line = context.current_line;
        let mut body_map: Vec<(String, String)> = Vec::new();
        let mut i: usize = 0;
        assert(asg.take(0) =~= Seq::<(Seq<char>, ValueV)>::empty());
        assert(pairs_view(body_map@) =~= Seq::<(Seq<char>, Seq<char>)>::empty());
        while i < self.http_assignments.len()
            invariant
                i <= self.http_assignments.len(),
                asg == assignments_view(self.http_assignments@),
                line == context.current_line,
                st0 == old(variable_map)@,
                state_wf(st0),
                state_wf(variable_map@),
                extends(variable_map@, st0),
                text_keys_unique(pairs_view(body_map@)),
                body_outcome(st0, asg.take(i as int), line) matches (st1, Ok(ps)) && st1 == variable_map@ && ps == pairs_view(body_map@),
            decreases self.http_assignments.len() - i,
        {
            let ghost st_i = variable_map@;
            assert(asg.take(i + 1).drop_last() =~= asg.take(i as int));
            assert(asg.take(i + 1).last() == (self.http_assignments@[i as int].lhs@, self.http_assignments@[i as int].rhs@));
            proof { lemma_resolve_ok(st_i, self.http_assignments@[i as int].rhs@, None, line); }
            let assignment = &self.http_assignments[i];
            let d = match assignment.rhs.resolve(context, variable_map, None) {
                Ok(d) => d,
                Err(e) => {
                    proof { lemma_body_err(st0, asg, line, i + 1); }
                    return Err(e);
                },
            };
            let value = match variable_map.shown_value(context, d, None) {
                Ok(t) => t,
                Err(e) => {
                    proof { lemma_body_err(st0, asg, line, i + 1); }
                    return Err(e);
                },
            };
            insert_text(&mut body_map, assignment.lhs.clone(), value);
            i = i + 1;
        }
        assert(asg.take(i as int) =~= asg);
        Ok(body_map)
    }

    /// The headers of the request, each name and value checked as the
    /// `http` crate checks them; see [`header_outcome`].
    pub fn resolve_header(&self, context: &Context, variable_map: &mut VariableMap) -> (r: Result<Vec<(String, String)>, ChimeraRuntimeFailure>)
        requires
            state_wf(old(variable_map)@),
        ensures
            final(variable_map)@ == header_outcome(old(variable_map)@, self@.headers, context.current_line).0,
            state_wf(final(variable_map)@),
            extends(final(variable_map)@, old(variable_map)@),
            match header_outcome(old(variable_map)@, self@.headers, context.current_line).1 {
                Ok(ps) => r matches Ok(v) && pairs_view(v@) == ps,
                Err(e) => r matches Err(f) && f@ == e,
            },
    {
        let ghost st0 = variable_map@;
        let ghost hs = self@.headers;
        let line = context.current_line;
        let mut headers: Vec<(String, String)> = Vec::new();
        let mut i: usize = 0;
        assert(hs.take(0) =~= Seq::<(Seq<char>, ValueV)>::empty());
        assert(pairs_view(headers@) =~= Seq::<(Seq<char>, Seq<char>)>::empty());
        while i < self.headers.len()
            invariant
                i <= self.headers.len(),
                hs == assignments_view(self.headers@),
                line == context.current_line,
                st0 == old(variable_map)@,
                state_wf(st0),
                state_wf(variable_map@),
                extends(variable_map@, st0),
                text_keys_unique(pairs_view(headers@)),
                header_outcome(st0, hs.take(i as int), line) matches (st1, Ok(ps)) && st1 == variable_map@ && ps == pairs_view(headers@),
            decreases self.headers.len() - i,
        {
            let ghost st_i = variable_map@;
            assert(hs.take(i + 1).drop_last() =~= hs.take(i as int));
            assert(hs.take(i + 1).last() == (self.headers@[i as int].lhs@, self.headers@[i as int].rhs@));
            let pair = &self.headers[i];
            if !header_name_from_lowercase(pair.lhs.as_str()) {
                proof { lemma_header_err(st0, hs, line, i + 1); }
                return Err(ChimeraRuntimeFailure::InvalidHeader(context.current_line, pair.lhs.clone()));
            }
            proof { lemma_resolve_ok(st_i, self.headers@[i as int].rhs@, None, line); }
            let d = match pair.rhs.resolve(context, variable_map, None) {
                Ok(d) => d,
                Err(e) => {
                    proof { lemma_header_err(st0, hs, line, i + 1); }
                    return Err(e);
                },
            };
            let value = match variable_map.shown_value(context, d, None) {
                Ok(t) => t,
                Err(e) => {
                    proof { lemma_header_err(st0, hs, line, i + 1); }
                    return Err(e);
                },
            };
            if !header_value_from_str(value.as_str()) {
                proof { lemma_header_err(st0, hs, line, i + 1); }
                return Err(ChimeraRuntimeFailure::InternalError("resolving header value".to_owned()));
            }
            insert_text(&mut headers, pair.lhs.clone(), value);
            i = i + 1;
        }
        assert(hs.take(i as int) =~= hs);
        Ok(headers)
    }
}

} // verus!
