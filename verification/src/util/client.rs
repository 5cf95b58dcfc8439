//! The web service a script talks to.
use vstd::prelude::*;
use crate::abstract_syntax_tree::HttpCommand;
use crate::err_handle::ChimeraRuntimeFailure;
use crate::frontend::Context;
use crate::literal::{DataKind, cell_wf};
use crate::variable_map::{VariableMap, extends, state_wf};

verus! {

/// A client that answers the web requests of a script. The runner is generic
/// over it, so that a test can put a fake service in place of a real one.
/// A real service may answer the same request differently each time, so the
/// trait states only what holds of every answer; the runner states its
/// results over the answers it received.
pub trait WebClient {
    /// The address the request paths are appended to.
    fn get_domain(&self) -> (r: &str);

    /// Makes the request of `http_command`, resolving its values in `variable_map`.
    fn make_request(
        &self,
        context: &Context,
        http_command: &HttpCommand,
        variable_map: &mut VariableMap,
    ) -> (r: Result<DataKind, ChimeraRuntimeFailure>)
        requires
            state_wf(old(variable_map)@),
        ensures
            state_wf(final(variable_map)@),
            extends(final(variable_map)@, old(variable_map)@),
            r matches Ok(k) ==> cell_wf(k@, final(variable_map)@.heap.len() + 1),
    ;
}

} // verus!
