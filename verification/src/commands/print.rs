//! `PRINT value`.
use vstd::prelude::*;
use crate::abstract_syntax_tree::{Value, ValueV, lemma_resolve_ok, resolve_value, shown_value};
use crate::err_handle::{ChimeraRuntimeFailure, FailureV, spaces};
use crate::frontend::Context;
use crate::testing::util::test_writer::TestWriter;
use crate::text::{chars_to_string, push_str};
use crate::err_handle::push_spaces;
use crate::variable_map::{StateV, VariableMap, extends, state_wf};

verus! {

/// What `PRINT` shows of a value: its text, or the failure to resolve or show it.
pub open spec fn print_outcome(st: StateV, v: ValueV, line: i32) -> (StateV, Result<Seq<char>, FailureV>) {
    let (st1, r) = resolve_value(st, v, None, line);
    match r {
        Err(e) => (st1, Err(e)),
        Ok(d) => (st1, shown_value(st1, d, None, line)),
    }
}

/// The line `PRINT` writes at depth `depth`: the text moved right by `depth` spaces.
pub open spec fn print_line(depth: nat, t: Seq<char>) -> Seq<char> {
    spaces(depth) + t + seq!['\n']
}

/// Runs `PRINT`: resolves the value and writes its text as a line moved right
/// by `depth` spaces; nothing is written when it fails.
pub fn print_command(
    context: &Context,
    writer: &mut TestWriter,
    print_cmd: &Value,
    variable_map: &mut VariableMap,
    depth: usize,
) -> (r: Result<(), ChimeraRuntimeFailure>)
    requires
        state_wf(old(variable_map)@),
    ensures
        final(variable_map)@ == print_outcome(old(variable_map)@, print_cmd@, context.current_line).0,
        state_wf(final(variable_map)@),
        extends(final(variable_map)@, old(variable_map)@),
        match print_outcome(old(variable_map)@, print_cmd@, context.current_line).1 {
            Ok(t) => r is Ok && final(writer)@ == old(writer)@ + print_line(depth as nat, t),
            Err(e) => r matches Err(f) && f@ == e && final(writer)@ == old(writer)@,
        },
{
    proof { lemma_resolve_ok(variable_map@, print_cmd@, None, context.current_line); }
    let resolved = print_cmd.resolve(context, variable_map, None)?;
    let text = variable_map.shown_value(context, resolved, None)?;
    let mut line: Vec<char> = Vec::new();
    push_spaces(&mut line, depth);
    push_str(&mut line, text.as_str());
    let line_text = chars_to_string(&line);
    writer.write_line(line_text.as_str());
    assert(writer@ =~= old(writer)@ + print_line(depth as nat, text@));
    Ok(())
}

} // verus!
