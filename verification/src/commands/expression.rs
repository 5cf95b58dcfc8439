//! Evaluating an expression: literals, web requests, lists and formatted strings.
use vstd::prelude::*;
use crate::abstract_syntax_tree::{
    Expression, ExpressionV, ListCommandOperations, ListExpression, ListExpressionV, ListOpV,
    MutateListOperations, Value, ValueV, lemma_fmt_view, resolve_ok, resolve_value, shown_value, values_view,
    var_value,
};
use crate::err_handle::{ChimeraRuntimeFailure, FailureV, VarTypes};
use crate::frontend::Context;
use crate::literal::{
    CellV, Collection, Data, DataKind, Literal, LiteralV, NumberKind, NumberV, borrow_reason, cell_number,
    cell_wf, heap_wf, lemma_heap_push, literal_text, number_as_usize, wrong_type,
};
use crate::text::{chars_to_string, push_str};
use crate::util::client::WebClient;
use crate::variable_map::{
    AnswerV, StateV, VariableMap, continues, extends, get_var, lemma_continues_self, lemma_with_cell_wf, state_wf, with_cell,
};

verus! {

/// The state with cell `d` replaced by `c`.
pub open spec fn set_cell(st: StateV, d: Data, c: CellV) -> StateV {
    StateV { heap: st.heap.update(d.handle as int, c), ..st }
}

/// The bindings are kept, and the heap keeps its cells' places.
pub open spec fn grows(new: StateV, old: StateV) -> bool {
    &&& new.vars == old.vars
    &&& new.received == old.received
    &&& old.heap.len() <= new.heap.len()
}

/// The values resolved one after another; the first failure stops.
pub open spec fn resolve_values(st: StateV, vs: Seq<ValueV>, line: i32) -> (StateV, Result<Seq<Data>, FailureV>)
    decreases vs.len(),
{
    if vs.len() == 0 {
        (st, Ok(Seq::empty()))
    } else {
        let (st1, r1) = resolve_values(st, vs.drop_last(), line);
        match r1 {
            Err(e) => (st1, Err(e)),
            Ok(ds) => {
                let (st2, r2) = resolve_value(st1, vs.last(), None, line);
                match r2 {
                    Ok(d) => (st2, Ok(ds.push(d))),
                    Err(e) => (st2, Err(e)),
                }
            },
        }
    }
}

/// The index a cell gives as a list position.
pub open spec fn cell_index(c: CellV) -> Option<usize> {
    match cell_number(c) {
        Some(n) => number_as_usize(n),
        None => None,
    }
}

/// A change to the list in cell `h`, which holds `xs`.
pub open spec fn mutate_list(st: StateV, h: Data, xs: Seq<Data>, op: ListOpV, line: i32) -> (StateV, Result<Data, FailureV>) {
    match op {
        ListOpV::Append(v) => {
            let (st1, r) = resolve_value(st, v, Some(h.handle), line);
            match r {
                Err(e) => (st1, Err(e)),
                Ok(d) => (set_cell(st1, h, CellV::List(xs.push(d))), Ok(d)),
            }
        },
        ListOpV::Remove(v) => {
            let (st1, r) = resolve_value(st, v, Some(h.handle), line);
            match r {
                Err(e) => (st1, Err(e)),
                Ok(d) => if d.handle == h.handle {
                    (st1, Err(FailureV::BorrowError(line, borrow_reason())))
                } else {
                    match cell_index(st1.heap[d.handle as int]) {
                        None => (st1, Err(FailureV::TriedToIndexWithNonNumber(line))),
                        Some(i) => if i >= xs.len() {
                            (st1, Err(FailureV::OutOfBounds(line)))
                        } else {
                            (set_cell(st1, h, CellV::List(xs.remove(i as int))), Ok(xs[i as int]))
                        },
                    }
                },
            }
        },
        _ => if xs.len() == 0 {
            (st, Err(FailureV::OutOfBounds(line)))
        } else {
            (set_cell(st, h, CellV::List(xs.drop_last())), Ok(xs.last()))
        },
    }
}

/// `LIST LENGTH|APPEND|REMOVE|POP (name)`: the list is the value bound to the
/// whole name, which must be a list.
pub open spec fn list_command(st: StateV, name: Seq<char>, op: ListOpV, line: i32) -> (StateV, Result<Data, FailureV>) {
    match get_var(st, name, line) {
        Err(e) => (st, Err(e)),
        Ok(h) => match st.heap[h.handle as int] {
            CellV::List(xs) => match op {
                ListOpV::Length => (
                    with_cell(st, CellV::Lit(LiteralV::Number(NumberV::U64(xs.len() as u64)))),
                    Ok(Data { handle: st.heap.len() as usize }),
                ),
                _ => mutate_list(st, h, xs, op, line),
            },
            _ => (st, Err(wrong_type(name, VarTypes::List, line))),
        },
    }
}

/// The text of one part of a `FORMAT_STR`: a string literal, or a variable's value.
pub open spec fn expr_part_text(st: StateV, v: ValueV, line: i32) -> Result<Seq<char>, FailureV> {
    match v {
        ValueV::Lit(LiteralV::Str(s)) => Ok(s),
        ValueV::Lit(_) => Err(FailureV::InternalError("converting a literal value into a string"@)),
        ValueV::Var(name) => match var_value(st, name, None, line) {
            Err(e) => Err(e),
            Ok(d) => shown_value(st, d, None, line),
        },
        ValueV::Fmt(_) => Err(FailureV::InternalError("resolving a recursive formatted string"@)),
    }
}

/// The text of a `FORMAT_STR` expression.
pub open spec fn expr_fmt_text(st: StateV, parts: Seq<ValueV>, line: i32) -> Result<Seq<char>, FailureV>
    decreases parts.len(),
{
    if parts.len() == 0 {
        Ok(Seq::empty())
    } else {
        match expr_fmt_text(st, parts.drop_last(), line) {
            Err(e) => Err(e),
            Ok(p) => match expr_part_text(st, parts.last(), line) {
                Ok(t) => Ok(p + t),
                Err(e) => Err(e),
            },
        }
    }
}

/// The state after the answer `a` to a web request made in state `st`: the
/// heap the answer left, and the answer recorded as received.
pub open spec fn after_answer(st: StateV, a: AnswerV) -> StateV {
    StateV { heap: a.heap, received: st.received.push(a), ..st }
}

/// What evaluating an expression gives, and the state after it. A web
/// request takes its answer from `ans`, the answers the service gave in the
/// order the requests were made: the one after those received in `st`.
pub open spec fn expression_value(ans: Seq<AnswerV>, st: StateV, e: ExpressionV, line: i32) -> (StateV, Result<Data, FailureV>) {
    match e {
        ExpressionV::Lit(l) => (with_cell(st, CellV::Lit(l)), Ok(Data { handle: st.heap.len() as usize })),
        ExpressionV::Http(_) => {
            let a = ans[st.received.len() as int];
            let st1 = after_answer(st, a);
            match a.result {
                Ok(c) => (with_cell(st1, c), Ok(Data { handle: st1.heap.len() as usize })),
                Err(f) => (st1, Err(f)),
            }
        },
        ExpressionV::List(ListExpressionV::New(vs)) => {
            let (st1, r) = resolve_values(st, vs, line);
            match r {
                Ok(ds) => (with_cell(st1, CellV::List(ds)), Ok(Data { handle: st1.heap.len() as usize })),
                Err(f) => (st1, Err(f)),
            }
        },
        ExpressionV::List(ListExpressionV::Command(name, op)) => list_command(st, name, op, line),
        ExpressionV::Fmt(parts) => match expr_fmt_text(st, parts, line) {
            Ok(t) => (with_cell(st, CellV::Lit(LiteralV::Str(t))), Ok(Data { handle: st.heap.len() as usize })),
            Err(f) => (st, Err(f)),
        },
    }
}

pub proof fn lemma_resolve_values_ok(st: StateV, vs: Seq<ValueV>, line: i32)
    requires
        state_wf(st),
    ensures
        ({
            let (st2, r) = resolve_values(st, vs, line);
            &&& state_wf(st2)
            &&& extends(st2, st)
            &&& (r matches Ok(ds) ==> ds.len() == vs.len() && forall|i: int| 0 <= i < ds.len() ==> (#[trigger] ds[i]).handle < st2.heap.len())
        }),
    decreases vs.len(),
{
    if vs.len() > 0 {
        lemma_resolve_values_ok(st, vs.drop_last(), line);
        let (st1, r1) = resolve_values(st, vs.drop_last(), line);
        if let Ok(ds) = r1 {
            let (st2, r2) = resolve_value(st1, vs.last(), None, line);
            crate::abstract_syntax_tree::lemma_resolve_ok(st1, vs.last(), None, line);
            if let Ok(d) = r2 {
                assert forall|i: int| 0 <= i < ds.push(d).len() implies (#[trigger] ds.push(d)[i]).handle < st2.heap.len() by {
                    if i < ds.len() {
                        assert(ds.push(d)[i] == ds[i]);
                    }
                }
            }
        }
    }
}

/// Changing one cell to a well-formed cell keeps the state well formed.
pub proof fn lemma_set_cell_wf(st: StateV, d: Data, c: CellV)
    requires
        state_wf(st),
        d.handle < st.heap.len(),
        cell_wf(c, st.heap.len()),
    ensures
        state_wf(set_cell(st, d, c)),
        grows(set_cell(st, d, c), st),
{
    let h2 = st.heap.update(d.handle as int, c);
    assert forall|i: int| 0 <= i < h2.len() implies cell_wf(#[trigger] h2[i], h2.len()) by {
        if i != d.handle {
            assert(h2[i] == st.heap[i]);
        }
    }
}

} // verus!

verus! {

/// The outcome of an expression, as the function that evaluates it ensures.
pub open spec fn expression_outcome(
    ans: Seq<AnswerV>,
    old_st: StateV,
    e: ExpressionV,
    line: i32,
    new_st: StateV,
    r: Result<Data, ChimeraRuntimeFailure>,
) -> bool {
    let (st2, res) = expression_value(ans, old_st, e, line);
    &&& new_st == st2
    &&& match res {
        Ok(d) => r == Ok::<Data, ChimeraRuntimeFailure>(d),
        Err(f) => r matches Err(g) && g@ == f,
    }
    &&& state_wf(new_st)
    &&& new_st.vars == old_st.vars
    &&& old_st.heap.len() <= new_st.heap.len()
    &&& (r matches Ok(d) ==> d.handle < new_st.heap.len())
}

/// Resolves values one after another into a list of references.
fn resolve_list(context: &Context, values: &Vec<Value>, variable_map: &mut VariableMap) -> (r: Result<Vec<Data>, ChimeraRuntimeFailure>)
    requires
        state_wf(old(variable_map)@),
    ensures
        final(variable_map)@ == resolve_values(old(variable_map)@, values_view(values@), context.current_line).0,
        final(variable_map)@.received == old(variable_map)@.received,
        match resolve_values(old(variable_map)@, values_view(values@), context.current_line).1 {
            Ok(ds) => r matches Ok(v) && v@ == ds,
            Err(f) => r matches Err(g) && g@ == f,
        },
{
    let ghost st0 = variable_map@;
    let ghost vs = values_view(values@);
    let mut list: Vec<Data> = Vec::new();
    let mut i: usize = 0;
    assert(vs.take(0) =~= Seq::<ValueV>::empty());
    while i < values.len()
        invariant
            i <= values.len(),
            st0 == old(variable_map)@,
            variable_map@.received == st0.received,
            vs == values_view(values@),
            state_wf(st0),
            state_wf(variable_map@),
            resolve_values(st0, vs.take(i as int), context.current_line)
                == (variable_map@, Ok::<Seq<Data>, FailureV>(list@)),
        decreases values.len() - i,
    {
        assert(vs.take(i + 1).drop_last() =~= vs.take(i as int));
        assert(vs.take(i + 1).last() == values@[i as int]@);
        proof {
            lemma_resolve_values_ok(st0, vs.take(i as int), context.current_line);
            crate::abstract_syntax_tree::lemma_resolve_ok(variable_map@, values@[i as int]@, None, context.current_line);
        }
        let d = match values[i].resolve(context, variable_map, None) {
            Ok(d) => d,
            Err(e) => {
                proof { lemma_resolve_values_err(st0, vs, context.current_line, i as int + 1); }
                return Err(e);
            },
        };
        list.push(d);
        i = i + 1;
    }
    assert(vs.take(i as int) =~= vs);
    Ok(list)
}

/// Once a prefix of the values fails to resolve, the whole list fails the same way.
proof fn lemma_resolve_values_err(st: StateV, vs: Seq<ValueV>, line: i32, n: int)
    requires
        0 < n <= vs.len(),
        resolve_values(st, vs.take(n), line).1 is Err,
    ensures
        resolve_values(st, vs, line) == resolve_values(st, vs.take(n), line),
    decreases vs.len() - n,
{
    if n < vs.len() {
        assert(vs.take(n + 1).drop_last() =~= vs.take(n));
        lemma_resolve_values_err(st, vs, line, n + 1);
    } else {
        assert(vs.take(n) =~= vs);
    }
}

/// Runs a `LIST` command; see [`list_command`].
fn run_list_command(
    context: &Context,
    list_name: &String,
    operation: &ListCommandOperations,
    variable_map: &mut VariableMap,
) -> (r: Result<Data, ChimeraRuntimeFailure>)
    requires
        state_wf(old(variable_map)@),
    ensures
        final(variable_map)@ == list_command(old(variable_map)@, list_name@, op_view(operation), context.current_line).0,
        match list_command(old(variable_map)@, list_name@, op_view(operation), context.current_line).1 {
            Ok(d) => r == Ok::<Data, ChimeraRuntimeFailure>(d),
            Err(f) => r matches Err(g) && g@ == f,
        },
        state_wf(final(variable_map)@),
        grows(final(variable_map)@, old(variable_map)@),
        r matches Ok(d) ==> d.handle < final(variable_map)@.heap.len(),
{
    let ghost st0 = variable_map@;
    let line = context.current_line;
    let h = variable_map.get(context, list_name.as_str())?;
    proof {
        assert(cell_wf(st0.heap[h.handle as int], st0.heap.len()));
    }
    let len = match variable_map.heap.get(h) {
        DataKind::Collection(Collection::List(xs)) => xs.len(),
        _ => {
            return Err(ChimeraRuntimeFailure::VarWrongType(list_name.clone(), VarTypes::List, line));
        },
    };
    match operation {
        ListCommandOperations::Length => {
            let d = Data::from_literal(&mut variable_map.heap, Literal::Number(NumberKind::U64(len as u64)));
            proof {
                lemma_with_cell_wf(st0, CellV::Lit(LiteralV::Number(NumberV::U64(len as u64))));
                assert(variable_map@ == with_cell(st0, CellV::Lit(LiteralV::Number(NumberV::U64(len as u64)))));
            }
            Ok(d)
        },
        ListCommandOperations::MutateOperations(MutateListOperations::Append(append_val)) =>
            list_append(context, h, append_val, variable_map),
        ListCommandOperations::MutateOperations(MutateListOperations::Remove(remove_val)) =>
            list_remove(context, h, remove_val, variable_map),
        ListCommandOperations::MutateOperations(MutateListOperations::Pop) => list_pop(context, h, variable_map),
    }
}

/// The list a cell holds.
pub open spec fn list_in(st: StateV, h: Data) -> Seq<Data> {
    st.heap[h.handle as int]->List_0
}

/// Takes the list out of cell `h`, leaving `null` there meanwhile.
fn take_list(heap: &mut crate::literal::Heap, h: Data) -> (r: Vec<Data>)
    requires
        h.handle < old(heap)@.len(),
        old(heap)@[h.handle as int] is List,
    ensures
        r@ == old(heap)@[h.handle as int]->List_0,
        final(heap)@ == old(heap)@.update(h.handle as int, CellV::Lit(LiteralV::Null)),
{
    let old_cell = heap.replace(h, DataKind::Literal(Literal::Null));
    match old_cell {
        DataKind::Collection(Collection::List(list)) => list,
        _ => {
            assert(false);
            Vec::new()
        },
    }
}

/// Puts a list into cell `h`.
fn put_list(heap: &mut crate::literal::Heap, h: Data, list: Vec<Data>)
    requires
        h.handle < old(heap)@.len(),
    ensures
        final(heap)@ == old(heap)@.update(h.handle as int, CellV::List(list@)),
{
    let _ = heap.replace(h, DataKind::Collection(Collection::List(list)));
}

fn list_append(context: &Context, h: Data, append_val: &Value, variable_map: &mut VariableMap) -> (r: Result<Data, ChimeraRuntimeFailure>)
    requires
        state_wf(old(variable_map)@),
        h.handle < old(variable_map)@.heap.len(),
        old(variable_map)@.heap[h.handle as int] is List,
    ensures
        final(variable_map)@ == mutate_list(old(variable_map)@, h, list_in(old(variable_map)@, h), ListOpV::Append(append_val@), context.current_line).0,
        match mutate_list(old(variable_map)@, h, list_in(old(variable_map)@, h), ListOpV::Append(append_val@), context.current_line).1 {
            Ok(d) => r == Ok::<Data, ChimeraRuntimeFailure>(d),
            Err(f) => r matches Err(g) && g@ == f,
        },
        state_wf(final(variable_map)@),
        grows(final(variable_map)@, old(variable_map)@),
        r matches Ok(d) ==> d.handle < final(variable_map)@.heap.len(),
{
    let ghost st0 = variable_map@;
    let ghost xs = list_in(st0, h);
    proof { crate::abstract_syntax_tree::lemma_resolve_ok(st0, append_val@, Some(h.handle), context.current_line); }
    let data = append_val.resolve(context, variable_map, Some(h.handle))?;
    let ghost st1 = variable_map@;
    assert(st1.heap[h.handle as int] == st0.heap[h.handle as int]);
    let mut list = take_list(&mut variable_map.heap, h);
    list.push(data);
    let ghost new_cell = CellV::List(list@);
    put_list(&mut variable_map.heap, h, list);
    proof {
        assert(new_cell == CellV::List(xs.push(data)));
        assert(cell_wf(st1.heap[h.handle as int], st1.heap.len()));
        assert(cell_wf(new_cell, st1.heap.len())) by {
            assert forall|k: int| 0 <= k < xs.push(data).len() implies (#[trigger] xs.push(data)[k]).handle < st1.heap.len() by {
                if k < xs.len() {
                    assert(xs.push(data)[k] == xs[k]);
                }
            }
        }
        assert(variable_map@.heap =~= st1.heap.update(h.handle as int, new_cell));
        lemma_set_cell_wf(st1, h, new_cell);
    }
    Ok(data)
}

fn list_remove(context: &Context, h: Data, remove_val: &Value, variable_map: &mut VariableMap) -> (r: Result<Data, ChimeraRuntimeFailure>)
    requires
        state_wf(old(variable_map)@),
        h.handle < old(variable_map)@.heap.len(),
        old(variable_map)@.heap[h.handle as int] is List,
    ensures
        final(variable_map)@ == mutate_list(old(variable_map)@, h, list_in(old(variable_map)@, h), ListOpV::Remove(remove_val@), context.current_line).0,
        match mutate_list(old(variable_map)@, h, list_in(old(variable_map)@, h), ListOpV::Remove(remove_val@), context.current_line).1 {
            Ok(d) => r == Ok::<Data, ChimeraRuntimeFailure>(d),
            Err(f) => r matches Err(g) && g@ == f,
        },
        state_wf(final(variable_map)@),
        grows(final(variable_map)@, old(variable_map)@),
        r matches Ok(d) ==> d.handle < final(variable_map)@.heap.len(),
{
    let ghost st0 = variable_map@;
    let ghost xs = list_in(st0, h);
    let line = context.current_line;
    proof { crate::abstract_syntax_tree::lemma_resolve_ok(st0, remove_val@, Some(h.handle), line); }
    let data = remove_val.resolve(context, variable_map, Some(h.handle))?;
    let ghost st1 = variable_map@;
    assert(st1.heap[h.handle as int] == st0.heap[h.handle as int]);
    let kind = data.borrow(&variable_map.heap, context, Some(h.handle))?;
    let index = match kind.try_into_usize(remove_val, context) {
        Ok(i) => i,
        Err(_) => {
            return Err(ChimeraRuntimeFailure::TriedToIndexWithNonNumber(line));
        },
    };
    let mut list = take_list(&mut variable_map.heap, h);
    if index >= list.len() {
        put_list(&mut variable_map.heap, h, list);
        assert(variable_map@.heap =~= st1.heap);
        return Err(ChimeraRuntimeFailure::OutOfBounds(line));
    }
    let removed = list.remove(index);
    let ghost new_cell = CellV::List(list@);
    put_list(&mut variable_map.heap, h, list);
    proof {
        assert(new_cell == CellV::List(xs.remove(index as int)));
        assert(cell_wf(st1.heap[h.handle as int], st1.heap.len()));
        assert(cell_wf(new_cell, st1.heap.len())) by {
            assert forall|k: int| 0 <= k < xs.remove(index as int).len() implies (#[trigger] xs.remove(index as int)[k]).handle < st1.heap.len() by {
                if k < index {
                    assert(xs.remove(index as int)[k] == xs[k]);
                } else {
                    assert(xs.remove(index as int)[k] == xs[k + 1]);
                }
            }
        }
        assert(variable_map@.heap =~= st1.heap.update(h.handle as int, new_cell));
        lemma_set_cell_wf(st1, h, new_cell);
        assert(removed == xs[index as int]);
    }
    Ok(removed)
}

fn list_pop(context: &Context, h: Data, variable_map: &mut VariableMap) -> (r: Result<Data, ChimeraRuntimeFailure>)
    requires
        state_wf(old(variable_map)@),
        h.handle < old(variable_map)@.heap.len(),
        old(variable_map)@.heap[h.handle as int] is List,
    ensures
        final(variable_map)@ == mutate_list(old(variable_map)@, h, list_in(old(variable_map)@, h), ListOpV::Pop, context.current_line).0,
        match mutate_list(old(variable_map)@, h, list_in(old(variable_map)@, h), ListOpV::Pop, context.current_line).1 {
            Ok(d) => r == Ok::<Data, ChimeraRuntimeFailure>(d),
            Err(f) => r matches Err(g) && g@ == f,
        },
        state_wf(final(variable_map)@),
        grows(final(variable_map)@, old(variable_map)@),
        r matches Ok(d) ==> d.handle < final(variable_map)@.heap.len(),
{
    let ghost st0 = variable_map@;
    let ghost xs = list_in(st0, h);
    let mut list = take_list(&mut variable_map.heap, h);
    if list.len() == 0 {
        put_list(&mut variable_map.heap, h, list);
        assert(variable_map@.heap =~= st0.heap);
        return Err(ChimeraRuntimeFailure::OutOfBounds(context.current_line));
    }
    let popped = list.pop();
    let ghost new_cell = CellV::List(list@);
    put_list(&mut variable_map.heap, h, list);
    proof {
        assert(new_cell == CellV::List(xs.drop_last()));
        assert(cell_wf(st0.heap[h.handle as int], st0.heap.len()));
        assert(cell_wf(new_cell, st0.heap.len())) by {
            assert forall|k: int| 0 <= k < xs.drop_last().len() implies (#[trigger] xs.drop_last()[k]).handle < st0.heap.len() by {
                assert(xs.drop_last()[k] == xs[k]);
            }
        }
        assert(variable_map@.heap =~= st0.heap.update(h.handle as int, new_cell));
        lemma_set_cell_wf(st0, h, new_cell);
    }
    match popped {
        Some(v) => Ok(v),
        None => {
            assert(false);
            Err(ChimeraRuntimeFailure::OutOfBounds(context.current_line))
        },
    }
}

/// The view of a list operation.
pub open spec fn op_view(op: &ListCommandOperations) -> ListOpV {
    match op {
        ListCommandOperations::MutateOperations(MutateListOperations::Append(v)) => ListOpV::Append(v@),
        ListCommandOperations::MutateOperations(MutateListOperations::Remove(v)) => ListOpV::Remove(v@),
        ListCommandOperations::MutateOperations(MutateListOperations::Pop) => ListOpV::Pop,
        ListCommandOperations::Length => ListOpV::Length,
    }
}

} // verus!

verus! {

/// Builds the text of a `FORMAT_STR`; see [`expr_fmt_text`].
fn format_string(context: &Context, parts: &Vec<Value>, variable_map: &VariableMap) -> (r: Result<String, ChimeraRuntimeFailure>)
    requires
        state_wf(variable_map@),
    ensures
        match expr_fmt_text(variable_map@, values_view(parts@), context.current_line) {
            Ok(t) => r matches Ok(s) && s@ == t,
            Err(f) => r matches Err(g) && g@ == f,
        },
{
    let ghost st = variable_map@;
    let ghost vs = values_view(parts@);
    let mut built: Vec<char> = Vec::new();
    let mut i: usize = 0;
    assert(vs.take(0) =~= Seq::<ValueV>::empty());
    while i < parts.len()
        invariant
            i <= parts.len(),
            st == variable_map@,
            state_wf(st),
            vs == values_view(parts@),
            expr_fmt_text(st, vs.take(i as int), context.current_line) == Ok::<Seq<char>, FailureV>(built@),
        decreases parts.len() - i,
    {
        assert(vs.take(i + 1).drop_last() =~= vs.take(i as int));
        assert(vs.take(i + 1).last() == parts@[i as int]@);
        match &parts[i] {
            Value::Literal(literal_val) => match literal_val.to_str() {
                Some(as_str) => push_str(&mut built, as_str),
                None => {
                    proof { lemma_expr_fmt_err(st, vs, context.current_line, i as int + 1); }
                    return Err(ChimeraRuntimeFailure::InternalError(
                        "converting a literal value into a string".to_owned(),
                    ));
                },
            },
            Value::Variable(var_name) => {
                let resolved = match variable_map.var_value(context, var_name.as_str(), None) {
                    Ok(d) => d,
                    Err(e) => {
                        proof { lemma_expr_fmt_err(st, vs, context.current_line, i as int + 1); }
                        return Err(e);
                    },
                };
                let shown = match variable_map.shown_value(context, resolved, None) {
                    Ok(t) => t,
                    Err(e) => {
                        proof { lemma_expr_fmt_err(st, vs, context.current_line, i as int + 1); }
                        return Err(e);
                    },
                };
                push_str(&mut built, shown.as_str());
            },
            Value::FormattedString(_) => {
                proof { lemma_expr_fmt_err(st, vs, context.current_line, i as int + 1); }
                return Err(ChimeraRuntimeFailure::InternalError("resolving a recursive formatted string".to_owned()));
            },
        }
        i = i + 1;
    }
    assert(vs.take(i as int) =~= vs);
    Ok(chars_to_string(&built))
}

proof fn lemma_expr_fmt_err(st: StateV, parts: Seq<ValueV>, line: i32, n: int)
    requires
        0 < n <= parts.len(),
        expr_fmt_text(st, parts.take(n), line) is Err,
    ensures
        expr_fmt_text(st, parts, line) == expr_fmt_text(st, parts.take(n), line),
    decreases parts.len() - n,
{
    if n < parts.len() {
        assert(parts.take(n + 1).drop_last() =~= parts.take(n));
        lemma_expr_fmt_err(st, parts, line, n + 1);
    } else {
        assert(parts.take(n) =~= parts);
    }
}

/// Evaluates an expression; see [`expression_value`].
pub fn expression_command<C: WebClient>(
    context: &Context,
    expression: &Expression,
    variable_map: &mut VariableMap,
    client: &C,
) -> (r: Result<Data, ChimeraRuntimeFailure>)
    requires
        state_wf(old(variable_map)@),
    ensures
        state_wf(final(variable_map)@),
        old(variable_map)@.heap.len() <= final(variable_map)@.heap.len(),
        r matches Ok(d) ==> d.handle < final(variable_map)@.heap.len(),
        continues(final(variable_map)@.received, old(variable_map)@.received),
        forall|ans: Seq<AnswerV>| #[trigger] continues(ans, final(variable_map)@.received) ==> expression_outcome(
            ans,
            old(variable_map)@,
            expression@,
            context.current_line,
            final(variable_map)@,
            r,
        ),
{
    let ghost st0 = variable_map@;
    proof { lemma_continues_self(st0.received); }
    match expression {
        Expression::Literal(literal) => {
            let d = Data::from_literal(&mut variable_map.heap, literal.duplicate());
            proof {
                lemma_with_cell_wf(st0, CellV::Lit(literal@));
                assert(variable_map@ == with_cell(st0, CellV::Lit(literal@)));
            }
            Ok(d)
        },
        Expression::HttpCommand(http_command) => {
            let answer = client.make_request(context, http_command, variable_map);
            let ghost a = AnswerV {
                heap: variable_map@.heap,
                result: match &answer {
                    Ok(k) => Ok(k@),
                    Err(e) => Err(e@),
                },
            };
            variable_map.received = Ghost(variable_map.received@.push(a));
            let ghost st1 = variable_map@;
            assert(st1 == after_answer(st0, a));
            assert(st1.received.take(st0.received.len() as int) =~= st0.received);
            assert forall|ans: Seq<AnswerV>| #[trigger] continues(ans, st1.received) implies ans[st0.received.len() as int] == a by {
                assert(ans.take(st1.received.len() as int)[st0.received.len() as int] == ans[st0.received.len() as int]);
            }
            match answer {
                Ok(kind) => {
                    let d = Data::new(&mut variable_map.heap, kind);
                    proof {
                        lemma_with_cell_wf(st1, kind@);
                        assert(variable_map@ == with_cell(st1, kind@));
                    }
                    Ok(d)
                },
                Err(e) => Err(e),
            }
        },
        Expression::List(ListExpression::New(new_list)) => {
            proof { lemma_resolve_values_ok(st0, values_view(new_list@), context.current_line); }
            let list = resolve_list(context, new_list, variable_map)?;
            let ghost st1 = variable_map@;
            let ghost ds = list@;
            let d = Data::from_vec(&mut variable_map.heap, list);
            proof {
                assert(cell_wf(CellV::List(ds), st1.heap.len() + 1));
                lemma_with_cell_wf(st1, CellV::List(ds));
                assert(variable_map@ == with_cell(st1, CellV::List(ds)));
            }
            Ok(d)
        },
        Expression::List(ListExpression::ListArgument(list_command)) => {
            run_list_command(context, &list_command.list_name, &list_command.operation, variable_map)
        },
        Expression::FormattedString(formatted_string) => {
            let text = format_string(context, formatted_string, variable_map)?;
            let ghost t = text@;
            let d = Data::from_literal(&mut variable_map.heap, Literal::String(text));
            proof {
                lemma_with_cell_wf(st0, CellV::Lit(LiteralV::Str(t)));
                assert(variable_map@ == with_cell(st0, CellV::Lit(LiteralV::Str(t))));
            }
            Ok(d)
        },
    }
}

} // verus!
