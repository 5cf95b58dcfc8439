//! The variables of a running test, and the heap that holds their values.
use vstd::prelude::*;
use crate::err_handle::{ChimeraRuntimeFailure, FailureV};
use crate::frontend::Context;
use crate::literal::{
    CellV, Data, DataKind, Heap, cell_wf, entries_view, heap_wf, keys_unique, lemma_heap_push, lookup,
};

verus! {

/// The variables of a running test: each name bound to a value in the heap,
/// and a record of the answers the web service gave so far.
pub struct VariableMap {
    pub map: Vec<(String, Data)>,
    pub heap: Heap,
    pub received: Ghost<Seq<AnswerV>>,
}

/// An answer of the web service to a request: the heap after it (the client
/// may store the values it answers with) and the response value or the failure.
pub struct AnswerV {
    pub heap: Seq<CellV>,
    pub result: Result<CellV, FailureV>,
}

/// `ans` begins with the answers `received`: a run that received them may go
/// on to receive the rest of `ans`.
pub open spec fn continues(ans: Seq<AnswerV>, received: Seq<AnswerV>) -> bool {
    &&& received.len() <= ans.len()
    &&& ans.take(received.len() as int) == received
}

pub proof fn lemma_continues_trans(a: Seq<AnswerV>, b: Seq<AnswerV>, c: Seq<AnswerV>)
    requires
        continues(a, b),
        continues(b, c),
    ensures
        continues(a, c),
{
    assert(a.take(c.len() as int) =~= b.take(c.len() as int));
}

pub proof fn lemma_continues_self(a: Seq<AnswerV>)
    ensures
        continues(a, a),
{
    assert(a.take(a.len() as int) =~= a);
}

/// The state a test runs in: its bindings, its heap, and the answers
/// received so far, in the order the requests were made.
pub struct StateV {
    pub vars: Seq<(Seq<char>, Data)>,
    pub heap: Seq<CellV>,
    pub received: Seq<AnswerV>,
}

impl View for VariableMap {
    type V = StateV;

    open spec fn view(&self) -> StateV {
        StateV { vars: entries_view(self.map@), heap: self.heap@, received: self.received@ }
    }
}

/// The heap is well formed, every binding names a cell, and no name is bound twice.
pub open spec fn state_wf(st: StateV) -> bool {
    &&& heap_wf(st.heap)
    &&& forall|i: int| 0 <= i < st.vars.len() ==> (#[trigger] st.vars[i]).1.handle < st.heap.len()
    &&& keys_unique(st.vars)
}

/// A state after a new cell holding `c`.
pub open spec fn with_cell(st: StateV, c: CellV) -> StateV {
    StateV { heap: st.heap.push(c), ..st }
}

/// The binding of `key` replaced, or added at the end.
pub open spec fn bind(vars: Seq<(Seq<char>, Data)>, key: Seq<char>, d: Data) -> Seq<(Seq<char>, Data)> {
    if exists|i: int| 0 <= i < vars.len() && vars[i].0 == key {
        let i = choose|i: int| 0 <= i < vars.len() && vars[i].0 == key;
        vars.update(i, (key, d))
    } else {
        vars.push((key, d))
    }
}

/// `new` extends `old`: the bindings and the answers received are kept and
/// every old cell is unchanged.
pub open spec fn extends(new: StateV, old: StateV) -> bool {
    &&& new.vars == old.vars
    &&& new.received == old.received
    &&& old.heap.len() <= new.heap.len()
    &&& forall|i: int| 0 <= i < old.heap.len() ==> new.heap[i] == old.heap[i]
}

pub proof fn lemma_with_cell_wf(st: StateV, c: CellV)
    requires
        state_wf(st),
        cell_wf(c, st.heap.len() + 1),
    ensures
        state_wf(with_cell(st, c)),
        extends(with_cell(st, c), st),
{
    lemma_heap_push(st.heap, c);
}

/// The error for a name that is not bound.
pub open spec fn not_found(key: Seq<char>, line: i32) -> FailureV {
    FailureV::VarNotFound(key, line)
}

/// The value bound to `key`.
pub open spec fn get_var(st: StateV, key: Seq<char>, line: i32) -> Result<Data, FailureV> {
    match lookup(st.vars, key) {
        Some(d) => Ok(d),
        None => Err(not_found(key, line)),
    }
}

impl VariableMap {
    pub fn new() -> (r: Self)
        ensures
            r@.vars == Seq::<(Seq<char>, Data)>::empty(),
            r@.heap == Seq::<CellV>::empty(),
            r@.received == Seq::<AnswerV>::empty(),
            state_wf(r@),
    {
        let r = Self { map: Vec::new(), heap: Heap::new(), received: Ghost(Seq::empty()) };
        assert(r@.vars =~= Seq::<(Seq<char>, Data)>::empty());
        r
    }

    /// The value bound to `key`; `VarNotFound` when there is none.
    pub fn get(&self, context: &Context, key: &str) -> (r: Result<Data, ChimeraRuntimeFailure>)
        requires
            state_wf(self@),
        ensures
            match get_var(self@, key@, context.current_line) {
                Ok(d) => r == Ok::<Data, ChimeraRuntimeFailure>(d) && d.handle < self@.heap.len(),
                Err(e) => r matches Err(f) && f@ == e,
            },
    {
        match crate::literal::lookup_field(&self.map, key) {
            Some(d) => {
                proof {
                    crate::literal::lemma_lookup_in(self@.vars, key@);
                }
                Ok(d)
            },
            None => Err(ChimeraRuntimeFailure::VarNotFound(key.to_owned(), context.current_line)),
        }
    }

    /// Binds `key` to `value`, replacing an earlier binding of the name.
    pub fn insert(&mut self, key: String, value: Data)
        requires
            state_wf(old(self)@),
            value.handle < old(self)@.heap.len(),
        ensures
            final(self)@.vars == bind(old(self)@.vars, key@, value),
            final(self)@.heap == old(self)@.heap,
            final(self)@.received == old(self)@.received,
            state_wf(final(self)@),
            lookup(final(self)@.vars, key@) == Some(value),
    {
        let ghost old_vars = self@.vars;
        let mut i: usize = 0;
        while i < self.map.len()
            invariant
                i <= self.map.len(),
                self@ == old(self)@,
                state_wf(old(self)@),
                value.handle < old(self)@.heap.len(),
                forall|j: int| 0 <= j < i ==> old_vars[j].0 != key@,
                old_vars == old(self)@.vars,
            decreases self.map.len() - i,
        {
            if crate::text::str_eq(self.map[i].0.as_str(), key.as_str()) {
                proof {
                    assert(old_vars[i as int].0 == key@);
                    let k = choose|k: int| 0 <= k < old_vars.len() && old_vars[k].0 == key@;
                    assert(k == i) by {
                        if k < i {
                            assert(old_vars[k].0 != old_vars[i as int].0);
                        } else if k > i {
                            assert(old_vars[i as int].0 != old_vars[k].0);
                        }
                    }
                }
                self.map.set(i, (key, value));
                proof {
                    assert(self@.vars =~= bind(old_vars, key@, value));
                    lemma_bind_wf(old(self)@, key@, value);
                }
                return;
            }
            i = i + 1;
        }
        self.map.push((key, value));
        proof {
            assert(self@.vars =~= old_vars.push((key@, value)));
            assert(!(exists|j: int| 0 <= j < old_vars.len() && old_vars[j].0 == key@));
            lemma_bind_wf(old(self)@, key@, value);
        }
    }
}

/// After binding `key`, looking it up gives the new value, and names stay unique.
pub proof fn lemma_bind_lookup(vars: Seq<(Seq<char>, Data)>, key: Seq<char>, d: Data)
    requires
        keys_unique(vars),
    ensures
        lookup(bind(vars, key, d), key) == Some(d),
        keys_unique(bind(vars, key, d)),
        bind(vars, key, d).len() >= vars.len(),
        forall|i: int| 0 <= i < bind(vars, key, d).len() ==>
            (#[trigger] bind(vars, key, d)[i]).1 == d || exists|j: int| 0 <= j < vars.len() && vars[j] == bind(vars, key, d)[i],
{
    let b = bind(vars, key, d);
    if exists|i: int| 0 <= i < vars.len() && vars[i].0 == key {
        let i = choose|i: int| 0 <= i < vars.len() && vars[i].0 == key;
        lemma_lookup_unique(b, i, key);
        assert forall|a: int, c: int| 0 <= a < c < b.len() implies b[a].0 != b[c].0 by {}
        assert forall|k: int| 0 <= k < b.len() implies (#[trigger] b[k]).1 == d || exists|j: int| 0 <= j < vars.len() && vars[j] == b[k] by {
            if k != i {
                assert(vars[k] == b[k]);
            }
        }
    } else {
        lemma_lookup_unique(b, vars.len() as int, key);
        assert forall|k: int| 0 <= k < b.len() implies (#[trigger] b[k]).1 == d || exists|j: int| 0 <= j < vars.len() && vars[j] == b[k] by {
            if k < vars.len() {
                assert(vars[k] == b[k]);
            }
        }
    }
}

/// Binding a name to a value in the heap keeps the state well formed.
pub proof fn lemma_bind_wf(st: StateV, key: Seq<char>, d: Data)
    requires
        state_wf(st),
        d.handle < st.heap.len(),
    ensures
        state_wf(StateV { vars: bind(st.vars, key, d), ..st }),
        lookup(bind(st.vars, key, d), key) == Some(d),
{
    lemma_bind_lookup(st.vars, key, d);
    let b = bind(st.vars, key, d);
    assert forall|i: int| 0 <= i < b.len() implies (#[trigger] b[i]).1.handle < st.heap.len() by {
        if b[i].1 != d {
            let j = choose|j: int| 0 <= j < st.vars.len() && st.vars[j] == b[i];
            assert(st.vars[j].1.handle < st.heap.len());
        }
    }
}

/// In an object with unique names, the lookup of the name at `i` finds entry `i`.
pub proof fn lemma_lookup_unique(es: Seq<(Seq<char>, Data)>, i: int, key: Seq<char>)
    requires
        0 <= i < es.len(),
        es[i].0 == key,
        forall|j: int| 0 <= j < i ==> es[j].0 != key,
    ensures
        lookup(es, key) == Some(es[i].1),
    decreases i,
{
    if i > 0 {
        lemma_lookup_unique(es.drop_first(), i - 1, key);
    }
}

} // verus!
