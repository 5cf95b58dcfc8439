//! A web service that answers every request with what the request sent.
use vstd::prelude::*;
use crate::abstract_syntax_tree::{HTTPVerb, HttpAssignment, HttpCommand, HttpCommandV, ValueV, assignments_view, lemma_resolve_ok, resolve_value};
use crate::abstract_syntax_tree::http_request::{header_outcome, pairs_view, path_outcome};
use crate::err_handle::{ChimeraRuntimeFailure, FailureV};
use crate::frontend::Context;
use crate::literal::{
    CellV, Collection, Data, DataKind, Literal, LiteralV, NumberKind, NumberV, cell_wf, classify_string, classify_text,
    entries_view, keys_unique,
};
use crate::text::{chars_to_string, push_str, str_eq};
use crate::util::client::WebClient;
use crate::variable_map::{StateV, VariableMap, bind, extends, lemma_bind_lookup, lemma_with_cell_wf, state_wf, with_cell};

verus! {

/// The string that a JSON text denotes, when the text is a JSON string.
pub uninterp spec fn json_string_text(text: Seq<char>) -> Option<Seq<char>>;

/// `serde_json::from_str::<String>`: the string that the JSON text `text`
/// denotes, or `None` when it is no JSON string.
#[verifier::external_body]
fn json_string(text: &str) -> (r: Option<String>)
    ensures
        match json_string_text(text@) {
            Some(t) => r matches Some(s) && s@ == t,
            None => r is None,
        },
{
    serde_json::from_str::<String>(text).ok()
}

/// Only visible ASCII characters and tabs.
pub open spec fn visible_ascii(s: Seq<char>) -> bool {
    forall|i: int| 0 <= i < s.len() ==> ((32 <= #[trigger] (s[i] as u32) && (s[i] as u32) < 127) || s[i] == '\t')
}

/// What a header value becomes in a response: its text read as a JSON string,
/// then classified as [`classify_text`] says (a text that only parses as a
/// float stays a string here).
pub open spec fn header_literal(v: Seq<char>) -> Result<LiteralV, FailureV> {
    if !visible_ascii(v) {
        Err(FailureV::InternalError("reading a header value"@))
    } else {
        match json_string_text(seq!['"'] + v + seq!['"']) {
            None => Err(FailureV::InternalError("decoding a header value"@)),
            Some(t) => Ok(classify_text(t, None)),
        }
    }
}

/// The values of `name=value` assignments resolved in order, a later one of a
/// name replacing an earlier one.
pub open spec fn resolve_pairs(st: StateV, asg: Seq<(Seq<char>, ValueV)>, line: i32) -> (StateV, Result<Seq<(Seq<char>, Data)>, FailureV>)
    decreases asg.len(),
{
    if asg.len() == 0 {
        (st, Ok(Seq::empty()))
    } else {
        let (st1, r1) = resolve_pairs(st, asg.drop_last(), line);
        match r1 {
            Err(e) => (st1, Err(e)),
            Ok(m) => {
                let (st2, r2) = resolve_value(st1, asg.last().1, None, line);
                match r2 {
                    Err(e) => (st2, Err(e)),
                    Ok(d) => (st2, Ok(bind(m, asg.last().0, d))),
                }
            },
        }
    }
}

/// The header values stored as new cells, in order.
pub open spec fn decode_headers(st: StateV, hs: Seq<(Seq<char>, Seq<char>)>) -> (StateV, Result<Seq<(Seq<char>, Data)>, FailureV>)
    decreases hs.len(),
{
    if hs.len() == 0 {
        (st, Ok(Seq::empty()))
    } else {
        let (st1, r1) = decode_headers(st, hs.drop_last());
        match r1 {
            Err(e) => (st1, Err(e)),
            Ok(m) => match header_literal(hs.last().1) {
                Err(e) => (st1, Err(e)),
                Ok(l) => (with_cell(st1, CellV::Lit(l)), Ok(bind(m, hs.last().0, Data { handle: st1.heap.len() as usize }))),
            },
        }
    }
}

/// `m` with each entry of `add` bound in order.
pub open spec fn bind_all(m: Seq<(Seq<char>, Data)>, add: Seq<(Seq<char>, Data)>) -> Seq<(Seq<char>, Data)>
    decreases add.len(),
{
    if add.len() == 0 { m } else { bind(bind_all(m, add.drop_last()), add.last().0, add.last().1) }
}

/// The status a request gets: 201 for `POST`, 200 for the other verbs.
pub open spec fn fake_status(verb: HTTPVerb) -> u64 {
    match verb {
        HTTPVerb::Post => 201,
        _ => 200,
    }
}

/// The answer to a request: an object `{status_code, body}` whose body holds
/// the path, then the query parameters, the body assignments and the headers
/// of the request, a later name replacing an earlier one.
pub open spec fn fake_outcome(domain: Seq<char>, st: StateV, cmd: HttpCommandV, line: i32) -> (StateV, Result<CellV, FailureV>) {
    let status = Data { handle: st.heap.len() as usize };
    let st0 = with_cell(st, CellV::Lit(LiteralV::Number(NumberV::U64(fake_status(cmd.verb)))));
    let (st1, rb) = resolve_pairs(st0, cmd.http_assignments, line);
    match rb {
        Err(e) => (st1, Err(e)),
        Ok(b) => {
            let (st2, rq) = resolve_pairs(st1, cmd.query_params, line);
            match rq {
                Err(e) => (st2, Err(e)),
                Ok(q) => {
                    let (st3, rh) = header_outcome(st2, cmd.headers, line);
                    match rh {
                        Err(e) => (st3, Err(e)),
                        Ok(hs) => {
                            let (st4, rd) = decode_headers(st3, hs);
                            match rd {
                                Err(e) => (st4, Err(e)),
                                Ok(h) => {
                                    let (st5, rp) = path_outcome(domain, st4, cmd, line);
                                    match rp {
                                        Err(e) => (st5, Err(e)),
                                        Ok(p) => {
                                            let path = Data { handle: st5.heap.len() as usize };
                                            let st6 = with_cell(st5, CellV::Lit(LiteralV::Str(p)));
                                            let entries = bind_all(bind_all(bind_all(seq![("path"@, path)], q), b), h);
                                            let body = Data { handle: st6.heap.len() as usize };
                                            let st7 = with_cell(st6, CellV::Object(entries));
                                            (st7, Ok(CellV::Object(seq![("status_code"@, status), ("body"@, body)])))
                                        },
                                    }
                                },
                            }
                        },
                    }
                },
            }
        },
    }
}

/// Every entry names one of the first `n` cells.
pub open spec fn handles_below(m: Seq<(Seq<char>, Data)>, n: nat) -> bool {
    forall|i: int| 0 <= i < m.len() ==> (#[trigger] m[i]).1.handle < n
}

proof fn lemma_bind_below(m: Seq<(Seq<char>, Data)>, key: Seq<char>, d: Data, n: nat)
    requires
        keys_unique(m),
        handles_below(m, n),
        d.handle < n,
    ensures
        keys_unique(bind(m, key, d)),
        handles_below(bind(m, key, d), n),
{
    lemma_bind_lookup(m, key, d);
    let b = bind(m, key, d);
    assert forall|i: int| 0 <= i < b.len() implies (#[trigger] b[i]).1.handle < n by {
        if b[i].1 != d {
            let j = choose|j: int| 0 <= j < m.len() && m[j] == b[i];
            assert(m[j].1.handle < n);
        }
    }
}

proof fn lemma_bind_all_below(m: Seq<(Seq<char>, Data)>, add: Seq<(Seq<char>, Data)>, n: nat)
    requires
        keys_unique(m),
        handles_below(m, n),
        handles_below(add, n),
    ensures
        keys_unique(bind_all(m, add)),
        handles_below(bind_all(m, add), n),
    decreases add.len(),
{
    if add.len() > 0 {
        lemma_bind_all_below(m, add.drop_last(), n);
        assert(add.last() == add[add.len() - 1]);
        lemma_bind_below(bind_all(m, add.drop_last()), add.last().0, add.last().1, n);
    }
}

proof fn lemma_extends_trans(a: StateV, b: StateV, c: StateV)
    requires
        extends(b, a),
        extends(c, b),
    ensures
        extends(c, a),
{
}

/// Sets `key` to `value` in fields with unique names; see [`bind`].
fn insert_entry(es: &mut Vec<(String, Data)>, key: String, value: Data)
    requires
        keys_unique(entries_view(old(es)@)),
    ensures
        entries_view(final(es)@) == bind(entries_view(old(es)@), key@, value),
{
    let ghost old_es = entries_view(es@);
    let mut i: usize = 0;
    while i < es.len()
        invariant
            i <= es.len(),
            es@ == old(es)@,
            old_es == entries_view(old(es)@),
            keys_unique(old_es),
            forall|j: int| 0 <= j < i ==> old_es[j].0 != key@,
        decreases es.len() - i,
    {
        if str_eq(es[i].0.as_str(), key.as_str()) {
            proof {
                assert(old_es[i as int].0 == key@);
                let k = choose|k: int| 0 <= k < old_es.len() && old_es[k].0 == key@;
                assert(k == i) by {
                    if k < i {
                        assert(old_es[k].0 != old_es[i as int].0);
                    } else if k > i {
                        assert(old_es[i as int].0 != old_es[k].0);
                    }
                }
            }
            es.set(i, (key, value));
            assert(entries_view(es@) =~= bind(old_es, key@, value));
            return;
        }
        i = i + 1;
    }
    es.push((key, value));
    proof {
        assert(entries_view(es@) =~= old_es.push((key@, value)));
        assert(!(exists|j: int| 0 <= j < old_es.len() && old_es[j].0 == key@));
    }
}

proof fn lemma_resolve_pairs_err(st: StateV, asg: Seq<(Seq<char>, ValueV)>, line: i32, n: int)
    requires
        0 <= n <= asg.len(),
        resolve_pairs(st, asg.take(n), line).1 is Err,
    ensures
        resolve_pairs(st, asg, line) == resolve_pairs(st, asg.take(n), line),
    decreases asg.len() - n,
{
    if n < asg.len() {
        assert(asg.take(n + 1).drop_last() =~= asg.take(n));
        lemma_resolve_pairs_err(st, asg, line, n + 1);
    } else {
        assert(asg.take(n) =~= asg);
    }
}

proof fn lemma_decode_err(st: StateV, hs: Seq<(Seq<char>, Seq<char>)>, n: int)
    requires
        0 <= n <= hs.len(),
        decode_headers(st, hs.take(n)).1 is Err,
    ensures
        decode_headers(st, hs) == decode_headers(st, hs.take(n)),
    decreases hs.len() - n,
{
    if n < hs.len() {
        assert(hs.take(n + 1).drop_last() =~= hs.take(n));
        lemma_decode_err(st, hs, n + 1);
    } else {
        assert(hs.take(n) =~= hs);
    }
}

/// Resolves assignments into fields; see [`resolve_pairs`].
fn resolve_assignments(context: &Context, asg: &Vec<HttpAssignment>, variable_map: &mut VariableMap) -> (r: Result<Vec<(String, Data)>, ChimeraRuntimeFailure>)
    requires
        state_wf(old(variable_map)@),
    ensures
        final(variable_map)@ == resolve_pairs(old(variable_map)@, assignments_view(asg@), context.current_line).0,
        state_wf(final(variable_map)@),
        extends(final(variable_map)@, old(variable_map)@),
        match resolve_pairs(old(variable_map)@, assignments_view(asg@), context.current_line).1 {
            Ok(m) => r matches Ok(v) && entries_view(v@) == m && keys_unique(m) && handles_below(m, final(variable_map)@.heap.len()),
            Err(e) => r matches Err(f) && f@ == e,
        },
{
    let ghost st0 = variable_map@;
    let ghost a = assignments_view(asg@);
    let line = context.current_line;
    let mut m: Vec<(String, Data)> = Vec::new();
    let mut i: usize = 0;
    assert(a.take(0) =~= Seq::<(Seq<char>, ValueV)>::empty());
    assert(entries_view(m@) =~= Seq::<(Seq<char>, Data)>::empty());
    while i < asg.len()
        invariant
            i <= asg.len(),
            a == assignments_view(asg@),
            line == context.current_line,
            st0 == old(variable_map)@,
            state_wf(st0),
            state_wf(variable_map@),
            extends(variable_map@, st0),
            keys_unique(entries_view(m@)),
            handles_below(entries_view(m@), variable_map@.heap.len()),
            resolve_pairs(st0, a.take(i as int), line) matches (st1, Ok(es)) && st1 == variable_map@ && es == entries_view(m@),
        decreases asg.len() - i,
    {
        let ghost st_i = variable_map@;
        assert(a.take(i + 1).drop_last() =~= a.take(i as int));
        assert(a.take(i + 1).last() == (asg@[i as int].lhs@, asg@[i as int].rhs@));
        proof { lemma_resolve_ok(st_i, asg@[i as int].rhs@, None, line); }
        let d = match asg[i].rhs.resolve(context, variable_map, None) {
            Ok(d) => d,
            Err(e) => {
                proof { lemma_resolve_pairs_err(st0, a, line, i + 1); }
                return Err(e);
            },
        };
        proof {
            lemma_extends_trans(st0, st_i, variable_map@);
            lemma_bind_below(entries_view(m@), asg@[i as int].lhs@, d, variable_map@.heap.len());
        }
        insert_entry(&mut m, asg[i].lhs.clone(), d);
        i = i + 1;
    }
    assert(a.take(i as int) =~= a);
    Ok(m)
}

/// Whether a header value holds only visible ASCII characters and tabs.
fn is_visible_ascii(s: &str) -> (r: bool)
    ensures
        r == visible_ascii(s@),
{
    let chars = crate::text::str_to_chars(s);
    let mut i: usize = 0;
    while i < chars.len()
        invariant
            i <= chars.len(),
            chars@ == s@,
            forall|j: int| 0 <= j < i ==> ((32 <= #[trigger] (s@[j] as u32) && (s@[j] as u32) < 127) || s@[j] == '\t'),
        decreases chars.len() - i,
    {
        let c = chars[i];
        if !((32 <= (c as u32) && (c as u32) < 127) || c == '\t') {
            assert(!((32 <= (s@[i as int] as u32) && (s@[i as int] as u32) < 127) || s@[i as int] == '\t'));
            return false;
        }
        i = i + 1;
    }
    true
}

/// The literal a header value becomes; see [`header_literal`].
fn header_value_literal(v: &str) -> (r: Result<Literal, ChimeraRuntimeFailure>)
    ensures
        match header_literal(v@) {
            Ok(l) => r matches Ok(k) && k@ == l,
            Err(e) => r matches Err(f) && f@ == e,
        },
{
    if !is_visible_ascii(v) {
        return Err(ChimeraRuntimeFailure::InternalError("reading a header value".to_owned()));
    }
    let mut quoted: Vec<char> = Vec::new();
    quoted.push('"');
    push_str(&mut quoted, v);
    quoted.push('"');
    assert(quoted@ =~= seq!['"'] + v@ + seq!['"']);
    let text = chars_to_string(&quoted);
    match json_string(text.as_str()) {
        Some(t) => Ok(classify_string(t, None)),
        None => Err(ChimeraRuntimeFailure::InternalError("decoding a header value".to_owned())),
    }
}

/// Stores each header value as a new cell; see [`decode_headers`].
fn store_headers(hs: &Vec<(String, String)>, variable_map: &mut VariableMap) -> (r: Result<Vec<(String, Data)>, ChimeraRuntimeFailure>)
    requires
        state_wf(old(variable_map)@),
    ensures
        final(variable_map)@ == decode_headers(old(variable_map)@, pairs_view(hs@)).0,
        state_wf(final(variable_map)@),
        extends(final(variable_map)@, old(variable_map)@),
        match decode_headers(old(variable_map)@, pairs_view(hs@)).1 {
            Ok(m) => r matches Ok(v) && entries_view(v@) == m && keys_unique(m) && handles_below(m, final(variable_map)@.heap.len()),
            Err(e) => r matches Err(f) && f@ == e,
        },
{
    let ghost st0 = variable_map@;
    let ghost ps = pairs_view(hs@);
    let mut m: Vec<(String, Data)> = Vec::new();
    let mut i: usize = 0;
    assert(ps.take(0) =~= Seq::<(Seq<char>, Seq<char>)>::empty());
    assert(entries_view(m@) =~= Seq::<(Seq<char>, Data)>::empty());
    while i < hs.len()
        invariant
            i <= hs.len(),
            ps == pairs_view(hs@),
            st0 == old(variable_map)@,
            state_wf(st0),
            state_wf(variable_map@),
            extends(variable_map@, st0),
            keys_unique(entries_view(m@)),
            handles_below(entries_view(m@), variable_map@.heap.len()),
            decode_headers(st0, ps.take(i as int)) matches (st1, Ok(es)) && st1 == variable_map@ && es == entries_view(m@),
        decreases hs.len() - i,
    {
        let ghost st_i = variable_map@;
        assert(ps.take(i + 1).drop_last() =~= ps.take(i as int));
        assert(ps.take(i + 1).last() == (hs@[i as int].0@, hs@[i as int].1@));
        let lit = match header_value_literal(hs[i].1.as_str()) {
            Ok(l) => l,
            Err(e) => {
                proof { lemma_decode_err(st0, ps, i + 1); }
                return Err(e);
            },
        };
        let ghost lv = lit@;
        let d = Data::from_literal(&mut variable_map.heap, lit);
        proof {
            lemma_with_cell_wf(st_i, CellV::Lit(lv));
            assert(variable_map@ == with_cell(st_i, CellV::Lit(lv)));
            lemma_extends_trans(st0, st_i, variable_map@);
            lemma_bind_below(entries_view(m@), hs@[i as int].0@, d, variable_map@.heap.len());
        }
        insert_entry(&mut m, hs[i].0.clone(), d);
        i = i + 1;
    }
    assert(ps.take(i as int) =~= ps);
    Ok(m)
}

/// A web service for tests: it answers every request itself, with the
/// request's own path and parameters; see [`fake_outcome`].
#[derive(Debug)]
pub struct FakeClient {
    pub domain: String,
}

impl FakeClient {
    pub fn new(s: &str) -> (r: Self)
        ensures
            r.domain@ == s@,
    {
        let domain = s.to_owned();
        Self { domain }
    }
}

proof fn lemma_bind_all_first(n: nat, path: Data, q: Seq<(Seq<char>, Data)>, b: Seq<(Seq<char>, Data)>, h: Seq<(Seq<char>, Data)>)
    requires
        path.handle < n,
        handles_below(q, n),
        handles_below(b, n),
        handles_below(h, n),
    ensures
        keys_unique(bind_all(bind_all(bind_all(seq![("path"@, path)], q), b), h)),
        handles_below(bind_all(bind_all(bind_all(seq![("path"@, path)], q), b), h), n),
{
    let first = seq![("path"@, path)];
    assert(keys_unique(first));
    assert(handles_below(first, n));
    lemma_bind_all_below(first, q, n);
    lemma_bind_all_below(bind_all(first, q), b, n);
    lemma_bind_all_below(bind_all(bind_all(first, q), b), h, n);
}

/// Binds each field of `add` in order; see [`bind_all`].
fn insert_all(es: &mut Vec<(String, Data)>, add: Vec<(String, Data)>)
    requires
        keys_unique(entries_view(old(es)@)),
    ensures
        entries_view(final(es)@) == bind_all(entries_view(old(es)@), entries_view(add@)),
{
    let ghost m0 = entries_view(es@);
    let ghost a = entries_view(add@);
    let mut i: usize = 0;
    assert(a.take(0) =~= Seq::<(Seq<char>, Data)>::empty());
    while i < add.len()
        invariant
            i <= add.len(),
            a == entries_view(add@),
            keys_unique(entries_view(es@)),
            entries_view(es@) == bind_all(m0, a.take(i as int)),
        decreases add.len() - i,
    {
        assert(a.take(i + 1).drop_last() =~= a.take(i as int));
        proof {
            lemma_bind_lookup(entries_view(es@), add@[i as int].0@, add@[i as int].1);
        }
        insert_entry(es, add[i].0.clone(), add[i].1);
        i = i + 1;
    }
    assert(a.take(i as int) =~= a);
}

impl WebClient for FakeClient {
    fn get_domain(&self) -> (r: &str)
        ensures
            r@ == self.domain@,
    {
        self.domain.as_str()
    }

    fn make_request(
        &self,
        context: &Context,
        http_command: &HttpCommand,
        variable_map: &mut VariableMap,
    ) -> (r: Result<DataKind, ChimeraRuntimeFailure>)
        ensures
            final(variable_map)@ == fake_outcome(self.domain@, old(variable_map)@, http_command@, context.current_line).0,
            match fake_outcome(self.domain@, old(variable_map)@, http_command@, context.current_line).1 {
                Ok(c) => r matches Ok(k) && k@ == c,
                Err(e) => r matches Err(f) && f@ == e,
            },
    {
        let ghost st = variable_map@;
        let status_code: u64 = match http_command.verb {
            HTTPVerb::Get => 200,
            HTTPVerb::Delete => 200,
            HTTPVerb::Post => 201,
            HTTPVerb::Put => 200,
        };
        let status = Data::from_literal(&mut variable_map.heap, Literal::Number(NumberKind::U64(status_code)));
        let ghost st0 = variable_map@;
        proof {
            lemma_with_cell_wf(st, CellV::Lit(LiteralV::Number(NumberV::U64(fake_status(http_command@.verb)))));
            assert(st0 == with_cell(st, CellV::Lit(LiteralV::Number(NumberV::U64(fake_status(http_command@.verb))))));
        }
        let resolved_body = resolve_assignments(context, &http_command.http_assignments, variable_map)?;
        let ghost st1 = variable_map@;
        let query_params = resolve_assignments(context, &http_command.query_params, variable_map)?;
        let ghost st2 = variable_map@;
        let raw_headers = http_command.resolve_header(context, variable_map)?;
        let ghost st3 = variable_map@;
        let headers = store_headers(&raw_headers, variable_map)?;
        let ghost st4 = variable_map@;
        let resolved_path = http_command.resolve_path(context, variable_map, self.domain.as_str())?;
        let ghost st5 = variable_map@;
        let ghost p = resolved_path@;
        let path = Data::from_literal(&mut variable_map.heap, Literal::String(resolved_path));
        let ghost st6 = variable_map@;
        proof {
            lemma_with_cell_wf(st5, CellV::Lit(LiteralV::Str(p)));
            assert(st6 == with_cell(st5, CellV::Lit(LiteralV::Str(p))));
            lemma_extends_trans(st, st0, st1);
            lemma_extends_trans(st, st1, st2);
            lemma_extends_trans(st, st2, st3);
            lemma_extends_trans(st, st3, st4);
            lemma_extends_trans(st, st4, st5);
            lemma_extends_trans(st, st5, st6);
        }
        let mut body_data: Vec<(String, Data)> = Vec::new();
        body_data.push(("path".to_owned(), path));
        proof {
            reveal_strlit("path");
            assert(entries_view(body_data@) =~= seq![("path"@, path)]);
        }
        let ghost q = entries_view(query_params@);
        let ghost b = entries_view(resolved_body@);
        let ghost h = entries_view(headers@);
        proof {
            lemma_bind_all_below(seq![("path"@, path)], q, st6.heap.len());
            lemma_bind_all_below(bind_all(seq![("path"@, path)], q), b, st6.heap.len());
        }
        insert_all(&mut body_data, query_params);
        insert_all(&mut body_data, resolved_body);
        insert_all(&mut body_data, headers);
        let ghost entries = entries_view(body_data@);
        proof {
            lemma_bind_all_first(st6.heap.len(), path, q, b, h);
            assert(entries == bind_all(bind_all(bind_all(seq![("path"@, path)], q), b), h));
            assert(cell_wf(CellV::Object(entries), st6.heap.len() + 1));
        }
        let body = Data::new(&mut variable_map.heap, DataKind::Collection(Collection::Object(body_data)));
        let ghost st7 = variable_map@;
        proof {
            lemma_with_cell_wf(st6, CellV::Object(entries));
            assert(st7 == with_cell(st6, CellV::Object(entries)));
            lemma_extends_trans(st, st6, st7);
        }
        let mut response_obj: Vec<(String, Data)> = Vec::new();
        response_obj.push(("status_code".to_owned(), status));
        response_obj.push(("body".to_owned(), body));
        let r = DataKind::Collection(Collection::Object(response_obj));
        proof {
            reveal_strlit("status_code");
            reveal_strlit("body");
            assert("status_code"@ != "body"@) by {
                assert("status_code"@.len() != "body"@.len());
            }
            assert(entries_view(response_obj@) =~= seq![("status_code"@, status), ("body"@, body)]);
        }
        Ok(r)
    }
}

} // verus!
