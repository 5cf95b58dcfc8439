//! Properties that hold across the operations of the library: how test
//! results are counted, which tests a run reaches, what list commands do to a
//! list, how numbers compare, and what a report reads back.
use vstd::prelude::*;
use crate::abstract_syntax_tree::{BlockV, ExpressionV, Function, FunctionV, ListOpV, ValueV};
use crate::commands::assignment::assignment_outcome;
use crate::abstract_syntax_tree::{AssertCommandV, resolve_value, shown_value, var_value};
use crate::abstract_syntax_tree::http_request::query_text;
use crate::commands::assertion::{assert_outcome, assertion_result, failure_text, left_message};
use crate::commands::expression::{expression_value, mutate_list, set_cell};
use crate::literal::{
    LiteralV, access_path, cell_number, cell_wf, data_equal, data_text, fields_equal, heap_wf, items_equal, items_text,
    list_contains, literal_text, lookup, number_as_usize,
};
use crate::text::{lemma_split_dots_nonempty, parse_usize_text, split_dots};
use crate::err_handle::FailureV;
use crate::float::Comparison;
use crate::frontend::{
    BlocksV, CountsV, StatusV, TestResultV, counts_add, counts_zero, lemma_counts_bounded, result_counts, run_all,
    run_blocks, run_function, status_counts, status_of, status_passed, teardowns_run,
};
use crate::literal::{CellV, Data, NumberV, keys_unique, number_order};
use crate::testing::util::test_writer::{lines_acc, strip_cr, text_lines};
use crate::variable_map::{AnswerV, StateV, get_var, lemma_bind_lookup, state_wf};

verus! {

/// Adding counts does not depend on the order of the operands.
pub proof fn counts_add_commutes(a: CountsV, b: CountsV)
    ensures
        counts_add(a, b) == counts_add(b, a),
{
}

/// Adding counts does not depend on how the additions are grouped.
pub proof fn counts_add_associates(a: CountsV, b: CountsV, c: CountsV)
    ensures
        counts_add(counts_add(a, b), c) == counts_add(a, counts_add(b, c)),
{
}

/// Empty counts add nothing.
pub proof fn counts_zero_adds_nothing(a: CountsV)
    ensures
        counts_add(a, counts_zero()) == a,
        counts_add(counts_zero(), a) == a,
{
}

/// In the counts of any result, with its nested results, the successes, the
/// failures and the errors add up to the number of tests.
pub proof fn counts_partition_tests(r: TestResultV)
    ensures
        result_counts(r).success + result_counts(r).failure + result_counts(r).error == result_counts(r).total,
{
    lemma_counts_bounded(r);
}

/// A test marked `expected-failure` never counts as a failure, whatever its
/// statements do.
pub proof fn expected_failure_never_counts_as_failure(ans: Seq<AnswerV>, f: FunctionV, st: StateV, depth: nat)
    requires
        Function::is_expected_failure_spec(f),
    ensures
        status_counts(run_function(ans, f, st, depth).result.status).failure == 0,
{
}

/// A failed assertion in a test marked `expected-failure` makes it pass.
pub proof fn expected_failure_passes_on_failed_assertion(msg: Seq<char>, line: i32)
    ensures
        status_passed(status_of(Some(FailureV::TestFailure(msg, line)), true)),
{
}

proof fn lemma_only_nested_no_failure(ans: Seq<AnswerV>, f: FunctionV, i: nat, st: StateV, depth: nat)
    requires
        forall|k: int| i <= k < f.block.len() ==> #[trigger] f.block[k] is Function,
    ensures
        run_blocks(ans, f, i, st, depth).failure is None,
        run_blocks(ans, f, i, st, depth).teardowns.len() == 0,
    decreases f.block.len() - i,
{
    reveal_with_fuel(run_blocks, 1);
    if i < f.block.len() {
        match f.block[i as int] {
            BlockV::Function(g) => {
                let r = run_function(ans, g, st, depth + 1);
                lemma_only_nested_no_failure(ans, f, i + 1, r.st, depth);
            },
            _ => {},
        }
    }
}

/// A test whose block holds only nested tests passes, whatever they do: a
/// failing nested test does not fail the test around it.
pub proof fn test_of_nested_tests_passes(ans: Seq<AnswerV>, f: FunctionV, st: StateV, depth: nat)
    requires
        forall|k: int| 0 <= k < f.block.len() ==> #[trigger] f.block[k] is Function,
    ensures
        status_passed(run_function(ans, f, st, depth).result.status),
{
    lemma_only_nested_no_failure(ans, f, 0, st, depth);
    reveal_with_fuel(teardowns_run, 1);
}

/// A teardown block that opens a test is processed whatever the rest of the
/// test does: it stays on the teardown stack when a later statement fails or
/// stops on an error, and, pushed first, it is processed last.
pub proof fn opening_teardown_always_processed(ans: Seq<AnswerV>, f: FunctionV, st: StateV, depth: nat)
    requires
        f.block.len() > 0,
        f.block[0] is Teardown,
    ensures
        run_blocks(ans, f, 0, st, depth).teardowns.len() > 0,
        run_blocks(ans, f, 0, st, depth).teardowns[0] == 0,
{
    reveal_with_fuel(run_blocks, 1);
}

/// The failure that stopped a test's own block decides its status, whatever
/// its teardown then does; the teardown decides it only when the block did
/// not fail.
pub proof fn block_failure_decides_over_teardown(ans: Seq<AnswerV>, f: FunctionV, st: StateV, depth: nat)
    ensures
        ({
            let b = run_blocks(ans, f, 0, st, depth);
            let t = teardowns_run(ans, f, b.st, b.teardowns, depth);
            run_function(ans, f, st, depth).result.status == status_of(
                if b.failure is Some { b.failure } else { t.failure },
                Function::is_expected_failure_spec(f),
            )
        }),
{
}

/// The names of the functions nested in a block from entry `i` on, in order.
pub open spec fn nested_names(bs: Seq<BlockV>, i: nat) -> Seq<Seq<char>>
    decreases bs.len() - i,
{
    if i >= bs.len() {
        Seq::empty()
    } else {
        match bs[i as int] {
            BlockV::Function(g) => seq![g.name] + nested_names(bs, i + 1),
            _ => nested_names(bs, i + 1),
        }
    }
}

/// The names of a sequence of results.
pub open spec fn result_names(rs: Seq<TestResultV>) -> Seq<Seq<char>> {
    Seq::new(rs.len(), |k: int| rs[k].name)
}

proof fn lemma_nested_run(ans: Seq<AnswerV>, f: FunctionV, i: nat, st: StateV, depth: nat)
    requires
        run_blocks(ans, f, i, st, depth).failure is None,
    ensures
        result_names(run_blocks(ans, f, i, st, depth).results) == nested_names(f.block, i),
    decreases f.block.len() - i,
{
    reveal_with_fuel(run_blocks, 1);
    let b = run_blocks(ans, f, i, st, depth);
    if i >= f.block.len() {
        assert(result_names(b.results) =~= Seq::<Seq<char>>::empty());
    } else {
        match f.block[i as int] {
            BlockV::Function(g) => {
                let r = run_function(ans, g, st, depth + 1);
                let rest = run_blocks(ans, f, i + 1, r.st, depth);
                lemma_nested_run(ans, f, i + 1, r.st, depth);
                assert(result_names(b.results) =~= seq![g.name] + result_names(rest.results));
            },
            BlockV::Teardown(_) => {
                lemma_nested_run(ans, f, i + 1, st, depth);
            },
            BlockV::Statement(s) => {
                let (st1, r) = crate::frontend::statement_step(ans, st, s, i as i32, depth);
                lemma_nested_run(ans, f, i + 1, st1, depth);
            },
        }
    }
}

/// A test whose own statements all succeed runs every test nested in it, in
/// order, whether or not they carry a `test` decorator: it has one nested
/// result for each nested function.
pub proof fn nested_tests_all_run(ans: Seq<AnswerV>, f: FunctionV, st: StateV, depth: nat)
    requires
        run_blocks(ans, f, 0, st, depth).failure is None,
    ensures
        result_names(run_function(ans, f, st, depth).result.subtests) == nested_names(f.block, 0),
{
    lemma_nested_run(ans, f, 0, st, depth);
}

/// The names of the functions of a script that carry the `test` decorator, in order.
pub open spec fn test_names(fs: Seq<FunctionV>) -> Seq<Seq<char>>
    decreases fs.len(),
{
    if fs.len() == 0 {
        Seq::empty()
    } else if Function::is_test_function_spec(fs.last()) {
        test_names(fs.drop_last()).push(fs.last().name)
    } else {
        test_names(fs.drop_last())
    }
}

/// A run of a script gives one result for each function decorated `test`, in
/// order; the other functions are not run.
pub proof fn only_test_functions_run(answers: Seq<Seq<AnswerV>>, fs: Seq<FunctionV>)
    ensures
        result_names(run_all(answers, fs).0) == test_names(fs),
    decreases fs.len(),
{
    if fs.len() > 0 {
        only_test_functions_run(answers, fs.drop_last());
        let rs = run_all(answers, fs.drop_last()).0;
        if Function::is_test_function_spec(fs.last()) {
            let r = run_function(answers[fs.len() - 1], fs.last(), crate::frontend::empty_state(), 0);
            assert(result_names(rs.push(r.result)) =~= result_names(rs).push(r.result.name));
        }
    } else {
        assert(result_names(run_all(answers, fs).0) =~= Seq::<Seq<char>>::empty());
    }
}

/// `LIST APPEND` puts the appended value at the end of the list and keeps the
/// items before it.
pub proof fn append_puts_value_last(st: StateV, h: Data, xs: Seq<Data>, v: ValueV, line: i32)
    requires
        state_wf(st),
        h.handle < st.heap.len(),
    ensures
        mutate_list(st, h, xs, ListOpV::Append(v), line) matches (st2, Ok(d))
            ==> st2.heap[h.handle as int] == CellV::List(xs.push(d)),
{
    crate::abstract_syntax_tree::lemma_resolve_ok(st, v, Some(h.handle), line);
}

/// `LIST REMOVE` gives back the item at the index and moves every later item
/// one place to the left.
pub proof fn remove_shifts_left(st: StateV, h: Data, xs: Seq<Data>, v: ValueV, line: i32)
    requires
        state_wf(st),
        h.handle < st.heap.len(),
    ensures
        mutate_list(st, h, xs, ListOpV::Remove(v), line) matches (st2, Ok(d)) ==> exists|i: int|
            0 <= i < xs.len() && d == xs[i] && st2.heap[h.handle as int] == CellV::List(xs.remove(i)),
{
    crate::abstract_syntax_tree::lemma_resolve_ok(st, v, Some(h.handle), line);
}

/// The path of accessors from `d` passes through no cell `k` before the cell
/// it ends at.
pub open spec fn path_avoids(h: Seq<CellV>, d: Data, accessors: Seq<Seq<char>>, k: usize) -> bool
    decreases accessors.len(),
{
    if accessors.len() == 0 {
        true
    } else {
        &&& d.handle != k
        &&& match h[d.handle as int] {
            CellV::Object(es) => match lookup(es, accessors[0]) {
                Some(v) => path_avoids(h, v, accessors.drop_first(), k),
                None => true,
            },
            CellV::List(xs) => match parse_usize_text(accessors[0]) {
                Some(i) => if i < xs.len() { path_avoids(h, xs[i as int], accessors.drop_first(), k) } else { true },
                None => true,
            },
            CellV::Lit(_) => true,
        }
    }
}

proof fn lemma_access_after_change(
    h: Seq<CellV>,
    d: Data,
    accessors: Seq<Seq<char>>,
    var_name: Seq<char>,
    held: Option<usize>,
    line: i32,
    k: usize,
    c: CellV,
)
    requires
        heap_wf(h),
        d.handle < h.len(),
        k < h.len(),
        path_avoids(h, d, accessors, k),
    ensures
        access_path(h.update(k as int, c), d, accessors, var_name, held, line) == access_path(h, d, accessors, var_name, held, line),
    decreases accessors.len(),
{
    if accessors.len() > 0 && held != Some(d.handle) {
        assert(h.update(k as int, c)[d.handle as int] == h[d.handle as int]);
        assert(cell_wf(h[d.handle as int], h.len()));
        match h[d.handle as int] {
            CellV::Object(es) => {
                crate::literal::lemma_lookup_in(es, accessors[0]);
                if let Some(v) = lookup(es, accessors[0]) {
                    lemma_access_after_change(h, v, accessors.drop_first(), var_name, held, line, k, c);
                }
            },
            CellV::List(xs) => {
                if let Some(i) = parse_usize_text(accessors[0]) {
                    if i < xs.len() {
                        lemma_access_after_change(h, xs[i as int], accessors.drop_first(), var_name, held, line, k, c);
                    }
                }
            },
            CellV::Lit(_) => {},
        }
    }
}

/// A variable path reaches a cell of the shared heap, not a copy of it:
/// after the cell that `name` (such as `a.list`) reaches is changed, by any
/// name that refers to it, reading `name` again reaches the same cell and
/// sees the change, provided the path does not pass through that cell on
/// its way.
pub proof fn change_is_seen_through_path(st: StateV, name: Seq<char>, held: Option<usize>, line: i32, c: CellV)
    requires
        state_wf(st),
        var_value(st, name, held, line) matches Ok(d) && ({
            let accs = split_dots(name);
            accs.len() > 1 ==> path_avoids(st.heap, get_var(st, accs[0], line)->Ok_0, accs.drop_first(), d.handle)
        }),
    ensures
        var_value(st, name, held, line) matches Ok(d) && var_value(set_cell(st, d, c), name, held, line) == Ok::<Data, FailureV>(d)
            && set_cell(st, d, c).heap[d.handle as int] == c,
{
    let d = var_value(st, name, held, line)->Ok_0;
    let accs = split_dots(name);
    lemma_split_dots_nonempty(name);
    let d0 = get_var(st, accs[0], line)->Ok_0;
    if accs.len() > 1 {
        crate::literal::lemma_lookup_in(st.vars, accs[0]);
        crate::literal::lemma_access_in_heap(st.heap, d0, accs.drop_first(), accs[0], held, line);
        lemma_access_after_change(st.heap, d0, accs.drop_first(), accs[0], held, line, d.handle, c);
    } else {
        crate::literal::lemma_lookup_in(st.vars, accs[0]);
    }
}

/// The opposite of an order.
pub open spec fn flipped(o: Option<Comparison>) -> Option<Comparison> {
    match o {
        Some(Comparison::Less) => Some(Comparison::Greater),
        Some(Comparison::Greater) => Some(Comparison::Less),
        other => other,
    }
}

/// Two numbers compare the opposite way when they are swapped; in particular
/// equality of numbers does not depend on the order of the operands.
pub proof fn number_order_flips(a: NumberV, b: NumberV)
    ensures
        number_order(b, a) == flipped(number_order(a, b)),
{
}

proof fn lemma_lines_of_ended(s: Seq<char>)
    requires
        s.len() == 0 || s.last() == '\n',
    ensures
        lines_acc(s).1 == Seq::<char>::empty(),
{
}

proof fn lemma_lines_acc_append(s: Seq<char>, t: Seq<char>)
    requires
        lines_acc(s).1 == Seq::<char>::empty(),
        forall|k: int| 0 <= k < t.len() ==> t[k] != '\n',
    ensures
        lines_acc(s + t) == (lines_acc(s).0, t),
    decreases t.len(),
{
    if t.len() == 0 {
        assert(s + t =~= s);
    } else {
        lemma_lines_acc_append(s, t.drop_last());
        assert((s + t).drop_last() =~= s + t.drop_last());
        assert(t.drop_last().push(t.last()) =~= t);
    }
}

/// A line without line feeds, written after a report whose last line is
/// ended, reads back as the report's new last line (without a carriage
/// return at its end).
pub proof fn written_line_reads_back(report: Seq<char>, line: Seq<char>)
    requires
        report.len() == 0 || report.last() == '\n',
        forall|k: int| 0 <= k < line.len() ==> line[k] != '\n',
    ensures
        text_lines(report + line + seq!['\n']) == text_lines(report).push(strip_cr(line)),
{
    lemma_lines_of_ended(report);
    lemma_lines_acc_append(report, line);
    assert((report + line + seq!['\n']).drop_last() =~= report + line);
}

/// After `var name = expression` succeeds, the name reads back the value the
/// expression gave, whatever the name was bound to before.
pub proof fn assigned_variable_reads_back(ans: Seq<AnswerV>, st: StateV, name: Seq<char>, e: ExpressionV, line: i32)
    requires
        keys_unique(expression_value(ans, st, e, line).0.vars),
    ensures
        expression_value(ans, st, e, line).1 matches Ok(d)
            ==> get_var(assignment_outcome(ans, st, name, e, line).0, name, line) == Ok::<Data, FailureV>(d),
{
    let (st1, r) = expression_value(ans, st, e, line);
    if let Ok(d) = r {
        lemma_bind_lookup(st1.vars, name, d);
    }
}

} // verus!

verus! {

/// The relational assertions compare two numbers by their order: `GTE` holds
/// exactly when the left number is greater than or equal to the right one,
/// `GT` when it is greater, `LTE` when it is less or equal, `LT` when it is
/// less.
pub proof fn relational_assertions_follow_the_order(
    st: StateV,
    a: AssertCommandV,
    l: Data,
    r: Data,
    line: i32,
    x: NumberV,
    y: NumberV,
)
    requires
        cell_number(st.heap[l.handle as int]) == Some(x),
        cell_number(st.heap[r.handle as int]) == Some(y),
    ensures
        a.subcommand is GTE ==> assertion_result(st, a, l, r, line) == Ok::<bool, FailureV>(
            number_order(x, y) == Some(Comparison::Greater) || number_order(x, y) == Some(Comparison::Equal)),
        a.subcommand is GT ==> assertion_result(st, a, l, r, line) == Ok::<bool, FailureV>(
            number_order(x, y) == Some(Comparison::Greater)),
        a.subcommand is LTE ==> assertion_result(st, a, l, r, line) == Ok::<bool, FailureV>(
            number_order(x, y) == Some(Comparison::Less) || number_order(x, y) == Some(Comparison::Equal)),
        a.subcommand is LT ==> assertion_result(st, a, l, r, line) == Ok::<bool, FailureV>(
            number_order(x, y) == Some(Comparison::Less)),
{
}

/// A strict comparison that holds implies the non-strict one on the same
/// values: where `GT` passes `GTE` passes, where `LT` passes `LTE` passes, and
/// where the numbers are equal both `GTE` and `LTE` pass.
pub proof fn strict_comparison_implies_non_strict(
    st: StateV,
    strict: AssertCommandV,
    loose: AssertCommandV,
    l: Data,
    r: Data,
    line: i32,
)
    requires
        cell_number(st.heap[l.handle as int]) is Some,
        cell_number(st.heap[r.handle as int]) is Some,
        (strict.subcommand is GT && loose.subcommand is GTE) || (strict.subcommand is LT && loose.subcommand is LTE),
    ensures
        assertion_result(st, strict, l, r, line) == Ok::<bool, FailureV>(true)
            ==> assertion_result(st, loose, l, r, line) == Ok::<bool, FailureV>(true),
        number_order(cell_number(st.heap[l.handle as int])->0, cell_number(st.heap[r.handle as int])->0) == Some(Comparison::Equal)
            ==> assertion_result(st, loose, l, r, line) == Ok::<bool, FailureV>(true),
{
}

proof fn lemma_items_equal(h: Seq<CellV>, xs: Seq<Data>, ys: Seq<Data>, fuel: nat)
    requires
        xs.len() == ys.len(),
    ensures
        items_equal(h, xs, ys, fuel) == Some(true)
            <==> forall|i: int| 0 <= i < xs.len() ==> data_equal(h, #[trigger] xs[i], ys[i], fuel) == Some(true),
        (forall|i: int| 0 <= i < xs.len() ==> data_equal(h, #[trigger] xs[i], ys[i], fuel) is Some) && (exists|i: int|
            0 <= i < xs.len() && data_equal(h, #[trigger] xs[i], ys[i], fuel) == Some(false))
            ==> items_equal(h, xs, ys, fuel) == Some(false),
    decreases xs.len(),
{
    if xs.len() > 0 {
        lemma_items_equal(h, xs.drop_first(), ys.drop_first(), fuel);
        assert forall|i: int| 0 <= i < xs.drop_first().len() implies xs.drop_first()[i] == xs[i + 1]
            && ys.drop_first()[i] == ys[i + 1] by {}
        if (exists|i: int| 0 <= i < xs.len() && data_equal(h, #[trigger] xs[i], ys[i], fuel) == Some(false)) {
            let i = choose|i: int| 0 <= i < xs.len() && data_equal(h, #[trigger] xs[i], ys[i], fuel) == Some(false);
            if i > 0 {
                assert(data_equal(h, xs.drop_first()[i - 1], ys.drop_first()[i - 1], fuel) == Some(false));
            }
        }
        if forall|i: int| 0 <= i < xs.drop_first().len() ==> data_equal(h, #[trigger] xs.drop_first()[i], ys.drop_first()[i], fuel) == Some(true) {
            if data_equal(h, xs[0], ys[0], fuel) == Some(true) {
                assert forall|i: int| 0 <= i < xs.len() implies data_equal(h, #[trigger] xs[i], ys[i], fuel) == Some(true) by {
                    if i > 0 {
                        assert(data_equal(h, xs.drop_first()[i - 1], ys.drop_first()[i - 1], fuel) == Some(true));
                    }
                }
            }
        }
    }
}

/// Two lists compare equal item by item: they are equal exactly when they
/// have the same length and the items at each index are equal; when every
/// pair of items can be compared and some pair differs, they are not equal.
pub proof fn lists_equal_item_by_item(h: Seq<CellV>, a: Data, b: Data, fuel: nat, xs: Seq<Data>, ys: Seq<Data>)
    requires
        fuel > 0,
        a.handle < h.len(),
        b.handle < h.len(),
        h[a.handle as int] == CellV::List(xs),
        h[b.handle as int] == CellV::List(ys),
    ensures
        data_equal(h, a, b, fuel) == Some(true) <==> (xs.len() == ys.len() && forall|i: int|
            0 <= i < xs.len() ==> data_equal(h, #[trigger] xs[i], ys[i], (fuel - 1) as nat) == Some(true)),
        xs.len() == ys.len() && (forall|i: int| 0 <= i < xs.len() ==> data_equal(h, #[trigger] xs[i], ys[i], (fuel - 1) as nat) is Some)
            && (exists|i: int| 0 <= i < xs.len() && data_equal(h, #[trigger] xs[i], ys[i], (fuel - 1) as nat) == Some(false))
            ==> data_equal(h, a, b, fuel) == Some(false),
        xs.len() != ys.len() ==> data_equal(h, a, b, fuel) == Some(false),
{
    if xs.len() == ys.len() {
        lemma_items_equal(h, xs, ys, (fuel - 1) as nat);
    }
}

/// `LIST POP` gives back the last item and leaves the items before it, each
/// at its index; an empty list cannot be popped.
pub proof fn pop_takes_the_last_item(st: StateV, h: Data, xs: Seq<Data>, line: i32)
    requires
        h.handle < st.heap.len(),
    ensures
        xs.len() == 0 ==> mutate_list(st, h, xs, ListOpV::Pop, line).1 is Err,
        mutate_list(st, h, xs, ListOpV::Pop, line) matches (st2, Ok(d)) ==> {
            &&& xs.len() > 0
            &&& d == xs[xs.len() - 1]
            &&& st2.heap[h.handle as int] matches CellV::List(ys)
            &&& ys.len() + 1 == xs.len()
            &&& forall|k: int| 0 <= k < ys.len() ==> #[trigger] ys[k] == xs[k]
        },
{
    if xs.len() > 0 {
        assert forall|k: int| 0 <= k < xs.drop_last().len() implies #[trigger] xs.drop_last()[k] == xs[k] by {}
    }
}

/// Texts joined with `, `, from the first.
pub open spec fn comma_joined(ts: Seq<Seq<char>>) -> Seq<char>
    decreases ts.len(),
{
    if ts.len() == 0 {
        Seq::empty()
    } else if ts.len() == 1 {
        ts[0]
    } else {
        ts[0] + ", "@ + comma_joined(ts.drop_first())
    }
}

proof fn lemma_comma_joined_last(ts: Seq<Seq<char>>)
    requires
        ts.len() >= 2,
    ensures
        comma_joined(ts) == comma_joined(ts.drop_last()) + ", "@ + ts.last(),
    decreases ts.len(),
{
    let a = ts.drop_first();
    let b = ts.drop_last();
    assert(comma_joined(ts) == ts[0] + ", "@ + comma_joined(a));
    if ts.len() > 2 {
        lemma_comma_joined_last(a);
        assert(a.drop_last() =~= b.drop_first());
        assert(a.last() == ts.last());
        assert(b[0] == ts[0]);
        assert(comma_joined(b) == b[0] + ", "@ + comma_joined(b.drop_first()));
        assert(ts[0] + ", "@ + (comma_joined(b.drop_first()) + ", "@ + ts.last())
            =~= (ts[0] + ", "@ + comma_joined(b.drop_first())) + ", "@ + ts.last());
    } else {
        assert(a.len() == 1);
        assert(comma_joined(a) == a[0]);
        assert(a[0] == ts.last());
        assert(b.len() == 1);
        assert(comma_joined(b) == b[0]);
        assert(b[0] == ts[0]);
    }
}

proof fn lemma_items_text_joined(h: Seq<CellV>, xs: Seq<Data>, locked: Option<usize>, fuel: nat, ts: Seq<Seq<char>>)
    requires
        ts.len() == xs.len(),
        forall|i: int| 0 <= i < xs.len() ==> data_text(h, #[trigger] xs[i], locked, fuel) == Some(ts[i]),
    ensures
        items_text(h, xs, locked, fuel) == Some(comma_joined(ts)),
    decreases xs.len(),
{
    if xs.len() > 0 {
        assert forall|i: int| 0 <= i < xs.drop_last().len() implies data_text(h, #[trigger] xs.drop_last()[i], locked, fuel)
            == Some(ts.drop_last()[i]) by {
            assert(xs.drop_last()[i] == xs[i]);
        }
        lemma_items_text_joined(h, xs.drop_last(), locked, fuel, ts.drop_last());
        assert(data_text(h, xs[xs.len() - 1], locked, fuel) == Some(ts[ts.len() - 1]));
        if xs.len() >= 2 {
            lemma_comma_joined_last(ts);
        }
    }
}

/// The text of a list is `[`, the texts of its items joined with `, `, and
/// `]`: for items with texts `t0, t1, ...`, the list reads `[t0, t1, ...]`.
pub proof fn list_text_joins_items(h: Seq<CellV>, d: Data, locked: Option<usize>, fuel: nat, xs: Seq<Data>, ts: Seq<Seq<char>>)
    requires
        fuel > 0,
        d.handle < h.len(),
        locked != Some(d.handle),
        h[d.handle as int] == CellV::List(xs),
        ts.len() == xs.len(),
        forall|i: int| 0 <= i < xs.len() ==> data_text(h, #[trigger] xs[i], locked, (fuel - 1) as nat) == Some(ts[i]),
    ensures
        data_text(h, d, locked, fuel) == Some("["@ + comma_joined(ts) + "]"@),
{
    lemma_items_text_joined(h, xs, locked, (fuel - 1) as nat, ts);
}

/// One query parameter, `name=text`, after its separator.
pub open spec fn query_param_text(sep: char, name: Seq<char>, text: Seq<char>) -> Seq<char> {
    seq![sep] + name + seq!['='] + text
}

/// Parameters after the first, each introduced by `&`.
pub open spec fn amp_params(names: Seq<Seq<char>>, texts: Seq<Seq<char>>) -> Seq<char>
    decreases names.len(),
{
    if names.len() == 0 || texts.len() == 0 {
        Seq::empty()
    } else {
        query_param_text('&', names[0], texts[0]) + amp_params(names.drop_first(), texts.drop_first())
    }
}

/// A query string: nothing without parameters; else `?` before the first
/// parameter and `&` before each later one.
pub open spec fn query_string(names: Seq<Seq<char>>, texts: Seq<Seq<char>>) -> Seq<char> {
    if names.len() == 0 || texts.len() == 0 {
        Seq::empty()
    } else {
        query_param_text('?', names[0], texts[0]) + amp_params(names.drop_first(), texts.drop_first())
    }
}

/// The names of query parameters.
pub open spec fn param_names(qs: Seq<(Seq<char>, ValueV)>) -> Seq<Seq<char>> {
    Seq::new(qs.len(), |i: int| qs[i].0)
}

proof fn lemma_amp_params_push(names: Seq<Seq<char>>, texts: Seq<Seq<char>>, n: Seq<char>, t: Seq<char>)
    requires
        names.len() == texts.len(),
    ensures
        amp_params(names.push(n), texts.push(t)) == amp_params(names, texts) + query_param_text('&', n, t),
    decreases names.len(),
{
    let np = names.push(n);
    let tp = texts.push(t);
    assert(amp_params(np, tp) == query_param_text('&', np[0], tp[0]) + amp_params(np.drop_first(), tp.drop_first()));
    if names.len() == 0 {
        assert(np.drop_first() =~= Seq::<Seq<char>>::empty());
        assert(tp.drop_first() =~= Seq::<Seq<char>>::empty());
        assert(amp_params(Seq::<Seq<char>>::empty(), Seq::<Seq<char>>::empty()) == Seq::<char>::empty());
        assert(amp_params(names, texts) == Seq::<char>::empty());
        assert(np[0] == n);
        assert(tp[0] == t);
        assert(query_param_text('&', n, t) + Seq::<char>::empty() =~= query_param_text('&', n, t));
        assert(Seq::<char>::empty() + query_param_text('&', n, t) =~= query_param_text('&', n, t));
    } else {
        lemma_amp_params_push(names.drop_first(), texts.drop_first(), n, t);
        assert(np.drop_first() =~= names.drop_first().push(n));
        assert(tp.drop_first() =~= texts.drop_first().push(t));
        assert(np[0] == names[0]);
        assert(tp[0] == texts[0]);
        assert(amp_params(names, texts) == query_param_text('&', names[0], texts[0]) + amp_params(names.drop_first(), texts.drop_first()));
        assert(query_param_text('&', names[0], texts[0]) + (amp_params(names.drop_first(), texts.drop_first()) + query_param_text('&', n, t))
            =~= query_param_text('&', names[0], texts[0]) + amp_params(names.drop_first(), texts.drop_first()) + query_param_text('&', n, t));
    }
}

proof fn lemma_query_string_push(names: Seq<Seq<char>>, texts: Seq<Seq<char>>, n: Seq<char>, t: Seq<char>)
    requires
        names.len() == texts.len(),
    ensures
        query_string(names.push(n), texts.push(t)) == query_string(names, texts) + query_param_text(
            if names.len() == 0 { '?' } else { '&' },
            n,
            t,
        ),
{
    if names.len() == 0 {
        assert(names.push(n).drop_first() =~= Seq::<Seq<char>>::empty());
        assert(texts.push(t).drop_first() =~= Seq::<Seq<char>>::empty());
        assert(query_param_text('?', n, t) + Seq::<char>::empty() =~= query_param_text('?', n, t));
        assert(Seq::<char>::empty() + query_param_text('?', n, t) =~= query_param_text('?', n, t));
    } else {
        lemma_amp_params_push(names.drop_first(), texts.drop_first(), n, t);
        assert(names.push(n).drop_first() =~= names.drop_first().push(n));
        assert(texts.push(t).drop_first() =~= texts.drop_first().push(t));
        assert(query_param_text('?', names[0], texts[0]) + (amp_params(names.drop_first(), texts.drop_first()) + query_param_text('&', n, t))
            =~= query_param_text('?', names[0], texts[0]) + amp_params(names.drop_first(), texts.drop_first()) + query_param_text('&', n, t));
    }
}

/// The query string of a request: each parameter written `name=text`, the
/// first introduced by `?` and every later one by `&`, in the order given.
pub proof fn query_uses_one_question_mark(st: StateV, qs: Seq<(Seq<char>, ValueV)>, line: i32)
    ensures
        query_text(st, qs, line).1 matches Ok(q) ==> exists|texts: Seq<Seq<char>>|
            texts.len() == qs.len() && q == #[trigger] query_string(param_names(qs), texts),
    decreases qs.len(),
{
    if qs.len() == 0 {
        assert(query_string(param_names(qs), Seq::<Seq<char>>::empty()) == Seq::<char>::empty());
    } else {
        query_uses_one_question_mark(st, qs.drop_last(), line);
        let (st1, r1) = query_text(st, qs.drop_last(), line);
        if let Ok(p) = r1 {
            let texts0 = choose|texts: Seq<Seq<char>>| texts.len() == qs.drop_last().len() && p == #[trigger] query_string(param_names(qs.drop_last()), texts);
            let (st2, r2) = resolve_value(st1, qs.last().1, None, line);
            if let Ok(d) = r2 {
                if let Ok(t) = shown_value(st2, d, None, line) {
                    let texts = texts0.push(t);
                    assert(param_names(qs) =~= param_names(qs.drop_last()).push(qs.last().0));
                    lemma_query_string_push(param_names(qs.drop_last()), texts0, qs.last().0, t);
                    let q = query_text(st, qs, line).1->Ok_0;
                    assert(q =~= query_string(param_names(qs), texts));
                }
            }
        }
    }
}

} // verus!

verus! {

proof fn lemma_lookup_found(es: Seq<(Seq<char>, Data)>, key: Seq<char>)
    ensures
        lookup(es, key) is Some <==> exists|i: int| 0 <= i < es.len() && (#[trigger] es[i]).0 == key,
        lookup(es, key) matches Some(d) ==> exists|i: int|
            0 <= i < es.len() && (#[trigger] es[i]).0 == key && es[i].1 == d
                && forall|j: int| 0 <= j < i ==> es[j].0 != key,
    decreases es.len(),
{
    if es.len() > 0 {
        lemma_lookup_found(es.drop_first(), key);
        if es[0].0 != key {
            if exists|i: int| 0 <= i < es.len() && (#[trigger] es[i]).0 == key {
                let i = choose|i: int| 0 <= i < es.len() && (#[trigger] es[i]).0 == key;
                assert(es.drop_first()[i - 1].0 == key);
            }
            if let Some(d) = lookup(es, key) {
                let i = choose|i: int|
                    0 <= i < es.drop_first().len() && (#[trigger] es.drop_first()[i]).0 == key && es.drop_first()[i].1 == d
                        && forall|j: int| 0 <= j < i ==> es.drop_first()[j].0 != key;
                assert(es[i + 1] == es.drop_first()[i]);
                assert forall|j: int| 0 <= j < i + 1 implies es[j].0 != key by {
                    if j > 0 {
                        assert(es[j] == es.drop_first()[j - 1]);
                    }
                }
            }
        } else {
            assert(es[0].0 == key);
        }
    }
}

proof fn lemma_list_contains(h: Seq<CellV>, xs: Seq<Data>, item: Data, fuel: nat)
    requires
        forall|i: int| 0 <= i < xs.len() ==> data_equal(h, #[trigger] xs[i], item, fuel) is Some,
    ensures
        list_contains(h, xs, item, fuel) == Some(exists|i: int| 0 <= i < xs.len() && data_equal(h, #[trigger] xs[i], item, fuel) == Some(true)),
    decreases xs.len(),
{
    if xs.len() > 0 {
        assert forall|i: int| 0 <= i < xs.drop_first().len() implies data_equal(h, #[trigger] xs.drop_first()[i], item, fuel) is Some by {
            assert(xs.drop_first()[i] == xs[i + 1]);
        }
        lemma_list_contains(h, xs.drop_first(), item, fuel);
        if exists|i: int| 0 <= i < xs.len() && data_equal(h, #[trigger] xs[i], item, fuel) == Some(true) {
            let i = choose|i: int| 0 <= i < xs.len() && data_equal(h, #[trigger] xs[i], item, fuel) == Some(true);
            if i > 0 {
                assert(data_equal(h, xs.drop_first()[i - 1], item, fuel) == Some(true));
            }
        }
        if exists|i: int| 0 <= i < xs.drop_first().len() && data_equal(h, #[trigger] xs.drop_first()[i], item, fuel) == Some(true) {
            let i = choose|i: int| 0 <= i < xs.drop_first().len() && data_equal(h, #[trigger] xs.drop_first()[i], item, fuel) == Some(true);
            assert(data_equal(h, xs[i + 1], item, fuel) == Some(true));
        }
    }
}

/// The other assertions: `EQUALS` holds exactly when the two values compare
/// equal; `LENGTH` when the list has as many items as the number says;
/// `STATUS` when the response's `status_code` is the expected one; `CONTAINS`
/// on a list when some item is equal to the value (each item being
/// comparable), and on an object when it has a field of that name.
pub proof fn other_assertions_hold_as_stated(st: StateV, a: AssertCommandV, l: Data, r: Data, line: i32)
    ensures
        a.subcommand is Equals && data_equal(st.heap, l, r, st.heap.len()) is Some ==> assertion_result(st, a, l, r, line)
            == Ok::<bool, FailureV>(data_equal(st.heap, l, r, st.heap.len()) == Some(true)),
        a.subcommand is Length ==> (cell_number(st.heap[r.handle as int]) matches Some(n) ==> (number_as_usize(n) matches Some(k)
            ==> (st.heap[l.handle as int] matches CellV::List(xs) ==> assertion_result(st, a, l, r, line)
            == Ok::<bool, FailureV>(xs.len() == k)))),
        a.subcommand is Status ==> (st.heap[l.handle as int] matches CellV::Object(es) ==> (lookup(es, "status_code"@) matches Some(sc)
            ==> (st.heap[r.handle as int] matches CellV::Lit(LiteralV::Number(NumberV::U64(expected)))
            ==> (st.heap[sc.handle as int] matches CellV::Lit(LiteralV::Number(NumberV::U64(status)))
            ==> assertion_result(st, a, l, r, line) == Ok::<bool, FailureV>(expected == status))))),
        a.subcommand is Contains ==> (st.heap[l.handle as int] matches CellV::List(xs) ==> ((forall|i: int|
            0 <= i < xs.len() ==> data_equal(st.heap, #[trigger] xs[i], r, st.heap.len()) is Some)
            ==> assertion_result(st, a, l, r, line) == Ok::<bool, FailureV>(exists|i: int|
                0 <= i < xs.len() && data_equal(st.heap, #[trigger] xs[i], r, st.heap.len()) == Some(true)))),
        a.subcommand is Contains ==> (st.heap[l.handle as int] matches CellV::Object(es)
            ==> (st.heap[r.handle as int] matches CellV::Lit(LiteralV::Str(s)) ==> assertion_result(st, a, l, r, line)
            == Ok::<bool, FailureV>(exists|i: int| 0 <= i < es.len() && (#[trigger] es[i]).0 == s))),
{
    if a.subcommand is Contains {
        match st.heap[l.handle as int] {
            CellV::List(xs) => {
                if forall|i: int| 0 <= i < xs.len() ==> data_equal(st.heap, #[trigger] xs[i], r, st.heap.len()) is Some {
                    lemma_list_contains(st.heap, xs, r, st.heap.len());
                }
            },
            CellV::Object(es) => {
                if let CellV::Lit(LiteralV::Str(s)) = st.heap[r.handle as int] {
                    lemma_lookup_found(es, s);
                }
            },
            _ => {},
        }
    }
}

/// An assertion whose values resolve and whose comparison gives `b` passes
/// exactly when `b` is true without `NOT`, or false with it; otherwise the
/// test fails with a `TestFailure` on the assertion's line.
pub proof fn not_inverts_the_assertion(st: StateV, a: AssertCommandV, line: i32)
    ensures
        ({
            let (st1, rl) = resolve_value(st, a.left_value, None, line);
            let (st2, rr) = resolve_value(st1, a.right_value, None, line);
            rl matches Ok(l) ==> (rr matches Ok(r) ==> (assertion_result(st2, a, l, r, line) matches Ok(b)
                ==> (left_message(st2, a, l) is Ok ==> {
                &&& (assert_outcome(st, a, line).1 is Ok <==> b != a.negate_assertion)
                &&& (b == a.negate_assertion && a.error_message is None ==> assert_outcome(st, a, line).1
                    == Err::<(), FailureV>(FailureV::TestFailure(
                        failure_text(Seq::empty(), left_message(st2, a, l)->Ok_0, a), line)))
            })))
        }),
{
}

/// Two objects are equal when they have as many fields and each field of
/// the first has a field of the same name in the second with an equal value;
/// when a field of the first has no field of that name in the second, they
/// are not equal.
pub proof fn objects_equal_field_by_field(
    h: Seq<CellV>,
    a: Data,
    b: Data,
    fuel: nat,
    xs: Seq<(Seq<char>, Data)>,
    ys: Seq<(Seq<char>, Data)>,
)
    requires
        fuel > 0,
        a.handle < h.len(),
        b.handle < h.len(),
        h[a.handle as int] == CellV::Object(xs),
        h[b.handle as int] == CellV::Object(ys),
    ensures
        xs.len() != ys.len() ==> data_equal(h, a, b, fuel) == Some(false),
        xs.len() == ys.len() && (forall|i: int| 0 <= i < xs.len() ==> (lookup(ys, (#[trigger] xs[i]).0) matches Some(v)
            && data_equal(h, v, xs[i].1, (fuel - 1) as nat) == Some(true))) ==> data_equal(h, a, b, fuel) == Some(true),
        xs.len() == ys.len() && (forall|i: int| 0 <= i < xs.len() ==> (lookup(ys, (#[trigger] xs[i]).0) matches Some(v)
            ==> data_equal(h, v, xs[i].1, (fuel - 1) as nat) is Some)) && (exists|i: int| 0 <= i < xs.len()
            && !(exists|j: int| 0 <= j < ys.len() && ys[j].0 == (#[trigger] xs[i]).0)) ==> data_equal(h, a, b, fuel) == Some(false),
{
    if xs.len() == ys.len() {
        lemma_fields_equal(h, xs, ys, (fuel - 1) as nat);
    }
}

proof fn lemma_fields_equal(h: Seq<CellV>, xs: Seq<(Seq<char>, Data)>, ys: Seq<(Seq<char>, Data)>, fuel: nat)
    ensures
        (forall|i: int| 0 <= i < xs.len() ==> (lookup(ys, (#[trigger] xs[i]).0) matches Some(v)
            && data_equal(h, v, xs[i].1, fuel) == Some(true))) ==> fields_equal(h, xs, ys, fuel) == Some(true),
        (forall|i: int| 0 <= i < xs.len() ==> (lookup(ys, (#[trigger] xs[i]).0) matches Some(v)
            ==> data_equal(h, v, xs[i].1, fuel) is Some)) && (exists|i: int| 0 <= i < xs.len()
            && !(exists|j: int| 0 <= j < ys.len() && ys[j].0 == (#[trigger] xs[i]).0)) ==> fields_equal(h, xs, ys, fuel) == Some(false),
    decreases xs.len(),
{
    if xs.len() > 0 {
        lemma_fields_equal(h, xs.drop_first(), ys, fuel);
        assert forall|i: int| 0 <= i < xs.drop_first().len() implies #[trigger] xs.drop_first()[i] == xs[i + 1] by {}
        lemma_lookup_found(ys, xs[0].0);
        if exists|i: int| 0 <= i < xs.len() && !(exists|j: int| 0 <= j < ys.len() && ys[j].0 == (#[trigger] xs[i]).0) {
            let i = choose|i: int| 0 <= i < xs.len() && !(exists|j: int| 0 <= j < ys.len() && ys[j].0 == (#[trigger] xs[i]).0);
            if i > 0 {
                assert(xs.drop_first()[i - 1] == xs[i]);
            } else {
                assert(lookup(ys, xs[0].0) is None);
            }
        }
    }
}

/// For query parameters given as literals, the query string shows each
/// literal's text: `?name=text` for the first, `&name=text` for each later one.
pub proof fn query_shows_literal_values(st: StateV, qs: Seq<(Seq<char>, ValueV)>, line: i32)
    requires
        forall|i: int| 0 <= i < qs.len() ==> (#[trigger] qs[i]).1 is Lit,
        st.heap.len() + qs.len() <= usize::MAX,
    ensures
        query_text(st, qs, line).0.heap.len() == st.heap.len() + qs.len(),
        query_text(st, qs, line).1 == Ok::<Seq<char>, FailureV>(
            query_string(param_names(qs), Seq::new(qs.len(), |i: int| literal_text(qs[i].1->Lit_0)))),
    decreases qs.len(),
{
    let texts = Seq::new(qs.len(), |i: int| literal_text(qs[i].1->Lit_0));
    if qs.len() == 0 {
        assert(query_string(param_names(qs), texts) == Seq::<char>::empty());
    } else {
        assert forall|i: int| 0 <= i < qs.drop_last().len() implies (#[trigger] qs.drop_last()[i]).1 is Lit by {
            assert(qs.drop_last()[i] == qs[i]);
        }
        query_shows_literal_values(st, qs.drop_last(), line);
        let texts0 = Seq::new(qs.drop_last().len(), |i: int| literal_text(qs.drop_last()[i].1->Lit_0));
        let (st1, _) = query_text(st, qs.drop_last(), line);
        let lit = qs.last().1->Lit_0;
        let (st2, r2) = resolve_value(st1, qs.last().1, None, line);
        let d = r2->Ok_0;
        assert(st2.heap[d.handle as int] == CellV::Lit(lit));
        assert(shown_value(st2, d, None, line) == Ok::<Seq<char>, FailureV>(literal_text(lit)));
        assert(texts =~= texts0.push(literal_text(lit)));
        assert(param_names(qs) =~= param_names(qs.drop_last()).push(qs.last().0));
        lemma_query_string_push(param_names(qs.drop_last()), texts0, qs.last().0, literal_text(lit));
        assert(query_text(st, qs, line).1->Ok_0 =~= query_string(param_names(qs), texts));
    }
}

} // verus!
