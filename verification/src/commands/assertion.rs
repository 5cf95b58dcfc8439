//! `ASSERT`: compares two values and fails the test when the comparison does
//! not come out as expected.
use vstd::prelude::*;
use crate::abstract_syntax_tree::{
    AssertCommand, AssertCommandV, AssertSubCommand, Value, ValueV, display_reason, error_print_text,
    lemma_fmt_view, lemma_resolve_ok, push_values_debug, resolve_value, shown_value, values_debug, values_view,
};
use crate::err_handle::{ChimeraRuntimeFailure, FailureV, VarTypes};
use crate::float::Comparison;
use crate::frontend::Context;
use crate::literal::{
    CellV, Collection, Data, DataKind, Literal, LiteralV, NumberKind, NumberV, cell_number, cell_wf,
    collection_contains, data_equal, literal_text, lookup, lookup_field, number_as_usize, number_order,
    self_containing_reason, value_text, wrong_type,
};
use crate::text::{chars_to_string, push_str};
use crate::variable_map::{StateV, VariableMap, extends, state_wf};

verus! {

/// Whether an order satisfies a relational subcommand; unordered values
/// satisfy none.
pub open spec fn comparison_holds(sub: AssertSubCommand, o: Option<Comparison>) -> bool {
    match sub {
        AssertSubCommand::GTE => o == Some(Comparison::Greater) || o == Some(Comparison::Equal),
        AssertSubCommand::GT => o == Some(Comparison::Greater),
        AssertSubCommand::LTE => o == Some(Comparison::Less) || o == Some(Comparison::Equal),
        _ => o == Some(Comparison::Less),
    }
}

/// Whether the comparison of an assertion holds for its resolved values `l` and `r`.
pub open spec fn assertion_result(st: StateV, a: AssertCommandV, l: Data, r: Data, line: i32) -> Result<bool, FailureV> {
    let h = st.heap;
    let left = error_print_text(a.left_value);
    let right = error_print_text(a.right_value);
    match a.subcommand {
        AssertSubCommand::Length => match cell_number(h[r.handle as int]) {
            None => Err(wrong_type(right, VarTypes::Number, line)),
            Some(n) => match number_as_usize(n) {
                None => Err(wrong_type(right, VarTypes::Unsigned, line)),
                Some(k) => match h[l.handle as int] {
                    CellV::List(xs) => Ok(xs.len() == k),
                    _ => Err(wrong_type(left, VarTypes::List, line)),
                },
            },
        },
        AssertSubCommand::Equals => match data_equal(h, l, r, h.len()) {
            Some(b) => Ok(b),
            None => Err(FailureV::InternalError(self_containing_reason())),
        },
        AssertSubCommand::Status => match h[l.handle as int] {
            CellV::Object(es) => match lookup(es, "status_code"@) {
                Some(sc) => match h[r.handle as int] {
                    CellV::Lit(LiteralV::Number(NumberV::U64(expected))) => match h[sc.handle as int] {
                        CellV::Lit(LiteralV::Number(NumberV::U64(status))) => Ok(expected == status),
                        _ => Err(wrong_type(left, VarTypes::Unsigned, line)),
                    },
                    _ => Err(wrong_type(right, VarTypes::Unsigned, line)),
                },
                None => Err(wrong_type(left, VarTypes::HttpResponse, line)),
            },
            _ => Err(wrong_type(left, VarTypes::HttpResponse, line)),
        },
        AssertSubCommand::Contains => match h[l.handle as int] {
            CellV::Lit(_) => Err(wrong_type(left, VarTypes::Containable, line)),
            c => collection_contains(h, c, r, line),
        },
        _ => match cell_number(h[l.handle as int]) {
            None => Err(wrong_type(left, VarTypes::Number, line)),
            Some(x) => match cell_number(h[r.handle as int]) {
                None => Err(wrong_type(right, VarTypes::Number, line)),
                Some(y) => Ok(comparison_holds(a.subcommand, number_order(x, y))),
            },
        },
    }
}

/// How a failure message describes the left value.
pub open spec fn left_message(st: StateV, a: AssertCommandV, l: Data) -> Result<Seq<char>, FailureV> {
    match a.left_value {
        ValueV::Lit(lit) => Ok("value "@ + literal_text(lit)),
        ValueV::Var(name) => match value_text(st.heap, l, None) {
            Some(t) => Ok("var '"@ + name + "' with value '"@ + t + "'"@),
            None => Err(FailureV::InternalError(display_reason())),
        },
        ValueV::Fmt(vs) => Ok("formatted string with value '"@ + values_debug(vs) + "'"@),
    }
}

/// The message of a failed assertion.
pub open spec fn failure_text(custom: Seq<char>, left: Seq<char>, a: AssertCommandV) -> Seq<char> {
    custom + " - Expected "@ + left + " "@ + (if a.negate_assertion { "to not"@ } else { "to"@ }) + " "@
        + a.subcommand.words_text() + " "@ + error_print_text(a.right_value)
}

/// Runs an assertion: resolves the left value, then the right one, compares
/// them; the test fails when the comparison holds under `NOT` or fails without
/// it, with the resolved custom message, if any, in front of the description.
pub open spec fn assert_outcome(st: StateV, a: AssertCommandV, line: i32) -> (StateV, Result<(), FailureV>) {
    let (st1, rl) = resolve_value(st, a.left_value, None, line);
    match rl {
        Err(e) => (st1, Err(e)),
        Ok(l) => {
            let (st2, rr) = resolve_value(st1, a.right_value, None, line);
            match rr {
                Err(e) => (st2, Err(e)),
                Ok(r) => match assertion_result(st2, a, l, r, line) {
                    Err(e) => (st2, Err(e)),
                    Ok(passed) => match left_message(st2, a, l) {
                        Err(e) => (st2, Err(e)),
                        Ok(lm) => if passed != a.negate_assertion {
                            (st2, Ok(()))
                        } else {
                            match a.error_message {
                                None => (st2, Err(FailureV::TestFailure(failure_text(Seq::empty(), lm, a), line))),
                                Some(v) => {
                                    let (st3, rv) = resolve_value(st2, v, None, line);
                                    match rv {
                                        Err(e) => (st3, Err(e)),
                                        Ok(d) => match shown_value(st3, d, None, line) {
                                            Err(e) => (st3, Err(e)),
                                            Ok(c) => (st3, Err(FailureV::TestFailure(failure_text(c, lm, a), line))),
                                        },
                                    }
                                },
                            }
                        },
                    },
                },
            }
        },
    }
}

/// Evaluates the comparison of an assertion; see [`assertion_result`].
fn evaluate(context: &Context, assert_command: &AssertCommand, l: Data, r: Data, variable_map: &VariableMap) -> (res: Result<bool, ChimeraRuntimeFailure>)
    requires
        state_wf(variable_map@),
        l.handle < variable_map@.heap.len(),
        r.handle < variable_map@.heap.len(),
    ensures
        match assertion_result(variable_map@, assert_command@, l, r, context.current_line) {
            Ok(b) => res == Ok::<bool, ChimeraRuntimeFailure>(b),
            Err(f) => res matches Err(g) && g@ == f,
        },
{
    let heap = &variable_map.heap;
    let left_data = heap.get(l);
    let right_data = heap.get(r);
    proof {
        assert(cell_wf(variable_map@.heap[l.handle as int], variable_map@.heap.len()));
    }
    match assert_command.subcommand {
        AssertSubCommand::Length => {
            let assert_len = right_data.try_into_usize(&assert_command.right_value, context)?;
            let vec = left_data.try_into_list(assert_command.left_value.error_print(), context)?;
            Ok(vec.len() == assert_len)
        },
        AssertSubCommand::Equals => match heap.data_equal(l, r, heap.cells.len() as u64) {
            Some(b) => Ok(b),
            None => Err(ChimeraRuntimeFailure::InternalError("comparing a value that contains itself".to_owned())),
        },
        AssertSubCommand::Status => {
            match left_data {
                DataKind::Collection(Collection::Object(obj)) => match lookup_field(obj, "status_code") {
                    Some(status_code) => {
                        proof {
                            crate::literal::lemma_lookup_in(crate::literal::entries_view(obj@), "status_code"@);
                        }
                        let expected_code = right_data.try_into_u64(&assert_command.right_value, context)?;
                        let status_as_num = heap.get(status_code).try_into_u64(&assert_command.left_value, context)?;
                        Ok(expected_code == status_as_num)
                    },
                    None => Err(ChimeraRuntimeFailure::VarWrongType(
                        assert_command.left_value.error_print(),
                        VarTypes::HttpResponse,
                        context.current_line,
                    )),
                },
                _ => Err(ChimeraRuntimeFailure::VarWrongType(
                    assert_command.left_value.error_print(),
                    VarTypes::HttpResponse,
                    context.current_line,
                )),
            }
        },
        AssertSubCommand::Contains => match left_data {
            DataKind::Collection(c) => c.contains(heap, r, context),
            _ => Err(ChimeraRuntimeFailure::VarWrongType(
                assert_command.left_value.error_print(),
                VarTypes::Containable,
                context.current_line,
            )),
        },
        _ => {
            let numeric_left = left_data.try_into_number_kind(&assert_command.left_value, context)?;
            let numeric_right = right_data.try_into_number_kind(&assert_command.right_value, context)?;
            let order = numeric_left.compare(&numeric_right);
            let holds = match assert_command.subcommand {
                AssertSubCommand::GTE => order == Some(Comparison::Greater) || order == Some(Comparison::Equal),
                AssertSubCommand::GT => order == Some(Comparison::Greater),
                AssertSubCommand::LTE => order == Some(Comparison::Less) || order == Some(Comparison::Equal),
                _ => order == Some(Comparison::Less),
            };
            Ok(holds)
        },
    }
}

/// Describes the left value for a failure message; see [`left_message`].
fn describe_left(assert_command: &AssertCommand, l: Data, variable_map: &VariableMap) -> (res: Result<Vec<char>, ChimeraRuntimeFailure>)
    requires
        state_wf(variable_map@),
        l.handle < variable_map@.heap.len(),
    ensures
        match left_message(variable_map@, assert_command@, l) {
            Ok(t) => res matches Ok(v) && v@ == t,
            Err(f) => res matches Err(g) && g@ == f,
        },
{
    let mut out: Vec<char> = Vec::new();
    match &assert_command.left_value {
        Value::Literal(literal_val) => {
            push_str(&mut out, "value ");
            literal_val.push_text(&mut out);
        },
        Value::Variable(var_name) => {
            let shown = match variable_map.heap.value_text(l, None) {
                Some(t) => t,
                None => {
                    return Err(ChimeraRuntimeFailure::InternalError(
                        "displaying a value that is in use or contains itself".to_owned(),
                    ));
                },
            };
            push_str(&mut out, "var '");
            push_str(&mut out, var_name.as_str());
            push_str(&mut out, "' with value '");
            push_str(&mut out, shown.as_str());
            push_str(&mut out, "'");
        },
        Value::FormattedString(formatted_string) => {
            proof { lemma_fmt_view(formatted_string); }
            push_str(&mut out, "formatted string with value '");
            push_values_debug(&mut out, formatted_string);
            push_str(&mut out, "'");
        },
    }
    assert(out@ =~= left_message(variable_map@, assert_command@, l)->Ok_0);
    Ok(out)
}

/// Runs an `ASSERT` command; see [`assert_outcome`].
pub fn assert_command(context: &Context, command: &AssertCommand, variable_map: &mut VariableMap) -> (r: Result<(), ChimeraRuntimeFailure>)
    requires
        state_wf(old(variable_map)@),
    ensures
        final(variable_map)@ == assert_outcome(old(variable_map)@, command@, context.current_line).0,
        match assert_outcome(old(variable_map)@, command@, context.current_line).1 {
            Ok(_) => r is Ok,
            Err(f) => r matches Err(g) && g@ == f,
        },
        state_wf(final(variable_map)@),
        extends(final(variable_map)@, old(variable_map)@),
{
    let ghost st0 = variable_map@;
    let line = context.current_line;
    proof { lemma_resolve_ok(st0, command.left_value@, None, line); }
    let l = command.left_value.resolve(context, variable_map, None)?;
    let ghost st1 = variable_map@;
    proof { lemma_resolve_ok(st1, command.right_value@, None, line); }
    let r = command.right_value.resolve(context, variable_map, None)?;
    let ghost st2 = variable_map@;
    let assertion_passed = evaluate(context, command, l, r, variable_map)?;
    let left_message = describe_left(command, l, variable_map)?;
    if assertion_passed != command.negate_assertion {
        return Ok(());
    }
    let mut message: Vec<char> = Vec::new();
    match &command.error_message {
        Some(error_msg_val) => {
            proof { lemma_resolve_ok(st2, error_msg_val@, None, line); }
            let resolved = error_msg_val.resolve(context, variable_map, None)?;
            let custom = variable_map.shown_value(context, resolved, None)?;
            push_str(&mut message, custom.as_str());
        },
        None => {},
    }
    let ghost custom = message@;
    push_str(&mut message, " - Expected ");
    crate::text::push_chars(&mut message, &left_message);
    push_str(&mut message, " ");
    if command.negate_assertion {
        push_str(&mut message, "to not");
    } else {
        push_str(&mut message, "to");
    }
    push_str(&mut message, " ");
    push_str(&mut message, command.subcommand.words());
    push_str(&mut message, " ");
    let right = command.right_value.error_print();
    push_str(&mut message, right.as_str());
    assert(message@ =~= failure_text(custom, left_message@, command@));
    Err(ChimeraRuntimeFailure::TestFailure(chars_to_string(&message), line))
}

} // verus!
