//! `var name = expression`.
use vstd::prelude::*;
use crate::abstract_syntax_tree::{AssignmentExpr, ExpressionV};
use crate::commands::expression::{expression_command, expression_value, grows};
use crate::err_handle::{ChimeraRuntimeFailure, FailureV};
use crate::frontend::Context;
use crate::util::client::WebClient;
use crate::variable_map::{AnswerV, StateV, VariableMap, bind, continues, state_wf};

verus! {

/// Evaluates the expression and binds the name to its value, replacing an
/// earlier binding of the name.
pub open spec fn assignment_outcome(
    ans: Seq<AnswerV>,
    st: StateV,
    name: Seq<char>,
    e: ExpressionV,
    line: i32,
) -> (StateV, Result<(), FailureV>) {
    let (st1, r) = expression_value(ans, st, e, line);
    match r {
        Ok(d) => (StateV { vars: bind(st1.vars, name, d), ..st1 }, Ok(())),
        Err(f) => (st1, Err(f)),
    }
}

/// Runs an assignment; see [`assignment_outcome`]. Its outcome is stated for
/// every sequence of answers that begins with the answers received by its end.
pub fn assignment_command<C: WebClient>(
    context: &Context,
    assignment: &AssignmentExpr,
    variable_map: &mut VariableMap,
    client: &C,
) -> (r: Result<(), ChimeraRuntimeFailure>)
    requires
        state_wf(old(variable_map)@),
    ensures
        continues(final(variable_map)@.received, old(variable_map)@.received),
        forall|ans: Seq<AnswerV>| #[trigger] continues(ans, final(variable_map)@.received) ==> {
            &&& final(variable_map)@ == assignment_outcome(
                ans,
                old(variable_map)@,
                assignment.var_name@,
                assignment.expression@,
                context.current_line,
            ).0
            &&& match assignment_outcome(
                ans,
                old(variable_map)@,
                assignment.var_name@,
                assignment.expression@,
                context.current_line,
            ).1 {
                Ok(_) => r is Ok,
                Err(f) => r matches Err(g) && g@ == f,
            }
        },
        state_wf(final(variable_map)@),
        final(variable_map)@.heap.len() >= old(variable_map)@.heap.len(),
{
    let val_to_store = expression_command(context, &assignment.expression, variable_map, client)?;
    variable_map.insert(assignment.var_name.clone(), val_to_store);
    Ok(())
}

} // verus!
