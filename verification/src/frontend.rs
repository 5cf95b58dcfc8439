//! Running a parsed script: the results of tests and the runner itself.
use vstd::prelude::*;
use crate::abstract_syntax_tree::{
    BlockContents, BlockV, ChimeraScriptAST, Function, FunctionV, Statement, StatementV, blocks_view, functions_view,
    lemma_function_view, statements_view,
};
use crate::commands::assertion::{assert_command, assert_outcome};
use crate::commands::assignment::{assignment_command, assignment_outcome};
use crate::commands::expression::{expression_command, expression_value};
use crate::commands::print::{print_command, print_line, print_outcome};
use crate::err_handle::{ChimeraRuntimeFailure, FailureV, failure_message, push_spaces, spaces};
use crate::testing::util::test_writer::TestWriter;
use crate::text::{chars_to_string, nat_digits, push_str, push_u64};
use crate::util::client::WebClient;
use crate::util::timer::{Timer, duration_text};
use crate::variable_map::{AnswerV, StateV, VariableMap, continues, lemma_continues_self, lemma_continues_trans, state_wf};

verus! {

/// Where a running test is: the index of the block entry being run.
pub struct Context {
    pub current_line: i32,
}

impl Context {
    pub fn new() -> (r: Self)
        ensures
            r.current_line == 0,
    {
        Self { current_line: 0 }
    }
}

} // verus!

verus! {

/// How a test ended.
#[derive(Debug)]
pub enum Status {
    Success,
    Failure(ChimeraRuntimeFailure),
    Error(ChimeraRuntimeFailure),
    ExpectedFailure,
    UnexpectedSuccess,
    Skip,
}

pub enum StatusV {
    Success,
    Failure(FailureV),
    Error(FailureV),
    ExpectedFailure,
    UnexpectedSuccess,
    Skip,
}

impl View for Status {
    type V = StatusV;

    open spec fn view(&self) -> StatusV {
        match self {
            Status::Success => StatusV::Success,
            Status::Failure(f) => StatusV::Failure(f@),
            Status::Error(f) => StatusV::Error(f@),
            Status::ExpectedFailure => StatusV::ExpectedFailure,
            Status::UnexpectedSuccess => StatusV::UnexpectedSuccess,
            Status::Skip => StatusV::Skip,
        }
    }
}

impl Status {
    pub open spec fn name_text(s: StatusV) -> Seq<char> {
        match s {
            StatusV::Success => "SUCCESS"@,
            StatusV::Failure(_) => "FAILURE"@,
            StatusV::Error(_) => "ERROR"@,
            StatusV::ExpectedFailure => "EXPECTED FAILURE"@,
            StatusV::UnexpectedSuccess => "UNEXPECTED SUCCESS"@,
            StatusV::Skip => "SKIP"@,
        }
    }

    /// The name a report shows for the status.
    pub fn name(&self) -> (r: &'static str)
        ensures
            r@ == Self::name_text(self@),
    {
        match self {
            Status::Success => "SUCCESS",
            Status::Failure(_) => "FAILURE",
            Status::Error(_) => "ERROR",
            Status::ExpectedFailure => "EXPECTED FAILURE",
            Status::UnexpectedSuccess => "UNEXPECTED SUCCESS",
            Status::Skip => "SKIP",
        }
    }
}

/// Counts of tests by outcome.
#[derive(Debug, Clone, Copy, PartialEq, Eq, Structural)]
pub struct ResultCount {
    pub success: usize,
    pub failure: usize,
    pub error: usize,
    pub total_tests: usize,
}

/// Counts as mathematical integers: successes, failures, errors, tests.
pub struct CountsV {
    pub success: nat,
    pub failure: nat,
    pub error: nat,
    pub total: nat,
}

pub open spec fn counts_add(a: CountsV, b: CountsV) -> CountsV {
    CountsV {
        success: a.success + b.success,
        failure: a.failure + b.failure,
        error: a.error + b.error,
        total: a.total + b.total,
    }
}

pub open spec fn counts_zero() -> CountsV {
    CountsV { success: 0, failure: 0, error: 0, total: 0 }
}

impl View for ResultCount {
    type V = CountsV;

    open spec fn view(&self) -> CountsV {
        CountsV {
            success: self.success as nat,
            failure: self.failure as nat,
            error: self.error as nat,
            total: self.total_tests as nat,
        }
    }
}

/// The summary of a run: `PASSED` when no test failed or erred.
pub open spec fn overall_text(c: CountsV) -> Seq<char> {
    if c.failure == 0 && c.error == 0 { "PASSED"@ } else { "FAILED"@ }
}

/// Every count fits in `usize`.
pub open spec fn counts_fit(c: CountsV) -> bool {
    c.success <= usize::MAX && c.failure <= usize::MAX && c.error <= usize::MAX && c.total <= usize::MAX
}

impl ResultCount {
    pub fn new_empty() -> (r: Self)
        ensures
            r@ == counts_zero(),
    {
        Self { success: 0, failure: 0, error: 0, total_tests: 0 }
    }

    /// Counts from `(successes, failures, errors, tests)`.
    pub fn new(input: (usize, usize, usize, usize)) -> (r: Self)
        ensures
            r.success == input.0,
            r.failure == input.1,
            r.error == input.2,
            r.total_tests == input.3,
    {
        Self { success: input.0, failure: input.1, error: input.2, total_tests: input.3 }
    }

    pub fn success_count(&self) -> (r: usize)
        ensures
            r == self.success,
    {
        self.success
    }

    pub fn overall_result(&self) -> (r: &'static str)
        ensures
            r@ == overall_text(self@),
    {
        if self.failure == 0 && self.error == 0 { "PASSED" } else { "FAILED" }
    }

    /// The counts of both, added field by field.
    pub fn add(self, rhs: Self) -> (r: Self)
        requires
            counts_fit(counts_add(self@, rhs@)),
        ensures
            r@ == counts_add(self@, rhs@),
    {
        Self {
            success: self.success + rhs.success,
            failure: self.failure + rhs.failure,
            error: self.error + rhs.error,
            total_tests: self.total_tests + rhs.total_tests,
        }
    }

    pub open spec fn summary_text(c: CountsV) -> Seq<char> {
        "Ran "@ + nat_digits(c.total) + " tests with "@ + nat_digits(c.success) + " successes, "@
            + nat_digits(c.failure) + " failures, and "@ + nat_digits(c.error) + " errors\n\n"@ + overall_text(c)
    }

    pub open spec fn summary_with_time_text(c: CountsV, time: Seq<char>) -> Seq<char> {
        "Ran "@ + nat_digits(c.total) + " tests in "@ + time + " with "@ + nat_digits(c.success) + " successes, "@
            + nat_digits(c.failure) + " failures, and "@ + nat_digits(c.error) + " errors\n\n"@ + overall_text(c)
    }

    /// The report of the counts.
    pub fn summary(&self) -> (r: String)
        ensures
            r@ == Self::summary_text(self@),
    {
        let mut out: Vec<char> = Vec::new();
        push_str(&mut out, "Ran ");
        push_u64(&mut out, self.total_tests as u64);
        push_str(&mut out, " tests with ");
        push_u64(&mut out, self.success as u64);
        push_str(&mut out, " successes, ");
        push_u64(&mut out, self.failure as u64);
        push_str(&mut out, " failures, and ");
        push_u64(&mut out, self.error as u64);
        push_str(&mut out, " errors\n\n");
        push_str(&mut out, self.overall_result());
        assert(out@ =~= Self::summary_text(self@));
        chars_to_string(&out)
    }

    /// The report of the counts with the time the run took.
    pub fn summary_with_time(&self, time_taken: &str) -> (r: String)
        ensures
            r@ == Self::summary_with_time_text(self@, time_taken@),
    {
        let mut out: Vec<char> = Vec::new();
        push_str(&mut out, "Ran ");
        push_u64(&mut out, self.total_tests as u64);
        push_str(&mut out, " tests in ");
        push_str(&mut out, time_taken);
        push_str(&mut out, " with ");
        push_u64(&mut out, self.success as u64);
        push_str(&mut out, " successes, ");
        push_u64(&mut out, self.failure as u64);
        push_str(&mut out, " failures, and ");
        push_u64(&mut out, self.error as u64);
        push_str(&mut out, " errors\n\n");
        push_str(&mut out, self.overall_result());
        assert(out@ =~= Self::summary_with_time_text(self@, time_taken@));
        chars_to_string(&out)
    }
}

/// The result of a test, with the results of the tests nested in it.
#[derive(Debug)]
pub struct TestResult {
    pub name: String,
    pub status: Status,
    pub subtest_results: Vec<TestResult>,
}

pub struct TestResultV {
    pub name: Seq<char>,
    pub status: StatusV,
    pub subtests: Seq<TestResultV>,
}

pub open spec fn result_view(r: &TestResult) -> TestResultV
    decreases r,
{
    TestResultV {
        name: r.name@,
        status: r.status@,
        subtests: Seq::new(r.subtest_results.len() as nat, |i: int| if 0 <= i < r.subtest_results.len() { result_view(&r.subtest_results[i]) } else { TestResultV { name: Seq::empty(), status: StatusV::Skip, subtests: Seq::empty() } }),
    }
}

impl View for TestResult {
    type V = TestResultV;

    open spec fn view(&self) -> TestResultV {
        result_view(self)
    }
}

pub open spec fn results_view(s: Seq<TestResult>) -> Seq<TestResultV> {
    Seq::new(s.len(), |i: int| s[i]@)
}

pub proof fn lemma_result_view(r: &TestResult)
    ensures
        r@.subtests == results_view(r.subtest_results@),
        r@.name == r.name@,
        r@.status == r.status@,
{
    assert(r@.subtests =~= results_view(r.subtest_results@));
}

/// The counts that one status adds: a success, an expected failure and an
/// unexpected success count as successes; a skipped test counts as nothing.
pub open spec fn status_counts(s: StatusV) -> CountsV {
    match s {
        StatusV::Success => CountsV { success: 1, failure: 0, error: 0, total: 1 },
        StatusV::Failure(_) => CountsV { success: 0, failure: 1, error: 0, total: 1 },
        StatusV::Error(_) => CountsV { success: 0, failure: 0, error: 1, total: 1 },
        StatusV::ExpectedFailure => CountsV { success: 1, failure: 0, error: 0, total: 1 },
        StatusV::UnexpectedSuccess => CountsV { success: 1, failure: 0, error: 0, total: 1 },
        StatusV::Skip => counts_zero(),
    }
}

/// The counts of a result and all the results nested in it.
pub open spec fn result_counts(r: TestResultV) -> CountsV
    decreases r, 1nat,
{
    counts_add(status_counts(r.status), results_counts(r.subtests))
}

/// The counts of a list of results.
pub open spec fn results_counts(rs: Seq<TestResultV>) -> CountsV
    decreases rs, 0nat,
{
    if rs.len() == 0 {
        counts_zero()
    } else {
        counts_add(results_counts(rs.drop_last()), result_counts(rs.last()))
    }
}

/// Whether a status is a pass: a success, an unexpected success, or an expected failure.
pub open spec fn status_passed(s: StatusV) -> bool {
    match s {
        StatusV::Success | StatusV::UnexpectedSuccess | StatusV::ExpectedFailure => true,
        _ => false,
    }
}

impl TestResult {
    pub fn new(name: String, status: Status, subtest_results: Vec<Self>) -> (r: Self)
        ensures
            r.name == name,
            r.status == status,
            r.subtest_results == subtest_results,
    {
        Self { name, status, subtest_results }
    }

    /// The counts of this result and its nested results.
    pub fn get_result_counts(&self) -> (r: ResultCount)
        requires
            result_counts(self@).total <= usize::MAX,
        ensures
            r@ == result_counts(self@),
        decreases self,
    {
        proof {
            lemma_result_view(self);
            lemma_counts_bounded(self@);
        }
        let own = match self.status {
            Status::Success => ResultCount::new((1, 0, 0, 1)),
            Status::Failure(_) => ResultCount::new((0, 1, 0, 1)),
            Status::Error(_) => ResultCount::new((0, 0, 1, 1)),
            Status::ExpectedFailure => ResultCount::new((1, 0, 0, 1)),
            Status::UnexpectedSuccess => ResultCount::new((1, 0, 0, 1)),
            Status::Skip => ResultCount::new((0, 0, 0, 0)),
        };
        let nested = sum_counts(&self.subtest_results);
        own.add(nested)
    }

    pub fn passed(&self) -> (r: bool)
        ensures
            r == status_passed(self.status@),
    {
        match self.status {
            Status::Success => true,
            Status::UnexpectedSuccess => true,
            Status::ExpectedFailure => true,
            _ => false,
        }
    }

    /// The failure of a test that failed or erred.
    pub fn error_kind(&self) -> (r: Option<&ChimeraRuntimeFailure>)
        ensures
            match self.status@ {
                StatusV::Failure(f) | StatusV::Error(f) => r matches Some(g) && g@ == f,
                _ => r is None,
            },
    {
        match &self.status {
            Status::Error(e) => Some(e),
            Status::Failure(f) => Some(f),
            _ => None,
        }
    }

    pub fn test_name(&self) -> (r: &str)
        ensures
            r@ == self.name@,
    {
        self.name.as_str()
    }
}

/// The counts of a list of results, added one after another.
pub fn sum_counts(results: &Vec<TestResult>) -> (r: ResultCount)
    requires
        results_counts(results_view(results@)).total <= usize::MAX,
    ensures
        r@ == results_counts(results_view(results@)),
    decreases results,
{
    let ghost rs = results_view(results@);
    let mut acc = ResultCount::new_empty();
    let mut i: usize = 0;
    assert(rs.take(0) =~= Seq::<TestResultV>::empty());
    while i < results.len()
        invariant
            i <= results.len(),
            rs == results_view(results@),
            results_counts(rs).total <= usize::MAX,
            acc@ == results_counts(rs.take(i as int)),
        decreases results.len() - i,
    {
        proof {
            assert(rs.take(i + 1).drop_last() =~= rs.take(i as int));
            assert(rs.take(i + 1).last() == results@[i as int]@);
            lemma_prefix_counts_le(rs, i as int + 1);
            lemma_counts_bounded(rs.take(i + 1).last());
            lemma_results_counts_bounded(rs.take(i + 1));
            assert(decreases_to!(results => results@));
            assert(decreases_to!(results@ => results@[i as int]));
        }
        let c = results[i].get_result_counts();
        acc = acc.add(c);
        i = i + 1;
    }
    assert(rs.take(i as int) =~= rs);
    acc
}

/// In any counts of results, successes, failures and errors add up to the tests.
pub proof fn lemma_counts_bounded(r: TestResultV)
    ensures
        result_counts(r).success + result_counts(r).failure + result_counts(r).error == result_counts(r).total,
    decreases r, 1nat,
{
    lemma_results_counts_bounded(r.subtests);
}

pub proof fn lemma_results_counts_bounded(rs: Seq<TestResultV>)
    ensures
        results_counts(rs).success + results_counts(rs).failure + results_counts(rs).error == results_counts(rs).total,
    decreases rs, 0nat,
{
    if rs.len() > 0 {
        lemma_results_counts_bounded(rs.drop_last());
        lemma_counts_bounded(rs.last());
    }
}

/// The counts of a prefix are at most those of the whole list.
pub proof fn lemma_prefix_counts_le(rs: Seq<TestResultV>, n: int)
    requires
        0 <= n <= rs.len(),
    ensures
        results_counts(rs.take(n)).total <= results_counts(rs).total,
        results_counts(rs.take(n)).success <= results_counts(rs).success,
        results_counts(rs.take(n)).failure <= results_counts(rs).failure,
        results_counts(rs.take(n)).error <= results_counts(rs).error,
    decreases rs.len() - n,
{
    if n < rs.len() {
        lemma_prefix_counts_le(rs, n + 1);
        assert(rs.take(n + 1).drop_last() =~= rs.take(n));
    } else {
        assert(rs.take(n) =~= rs);
    }
}

} // verus!

verus! {

/// A piece of the report a run writes: fixed text, or the time a test took,
/// which the clock decides.
pub enum Piece {
    Text(Seq<char>),
    Time,
}

/// `s` is what the pieces `ps` write, one after another, each time piece
/// written as some time span.
pub open spec fn fills(ps: Seq<Piece>, s: Seq<char>) -> bool
    decreases ps.len(),
{
    if ps.len() == 0 {
        s.len() == 0
    } else {
        match ps.last() {
            Piece::Text(t) => {
                &&& t.len() <= s.len()
                &&& s.subrange(s.len() - t.len(), s.len() as int) == t
                &&& fills(ps.drop_last(), s.subrange(0, s.len() - t.len()))
            },
            Piece::Time => exists|n: u64| {
                let d = #[trigger] duration_text(n);
                &&& d.len() <= s.len()
                &&& s.subrange(s.len() - d.len(), s.len() as int) == d
                &&& fills(ps.drop_last(), s.subrange(0, s.len() - d.len()))
            },
        }
    }
}

pub proof fn lemma_fills_text(ps: Seq<Piece>, s: Seq<char>, t: Seq<char>)
    requires
        fills(ps, s),
    ensures
        fills(ps.push(Piece::Text(t)), s + t),
{
    assert(ps.push(Piece::Text(t)).drop_last() =~= ps);
    assert((s + t).subrange(s.len() as int, (s + t).len() as int) =~= t);
    assert((s + t).subrange(0, s.len() as int) =~= s);
}

pub proof fn lemma_fills_time(ps: Seq<Piece>, s: Seq<char>, n: u64)
    requires
        fills(ps, s),
    ensures
        fills(ps.push(Piece::Time), s + duration_text(n)),
{
    let d = duration_text(n);
    assert(ps.push(Piece::Time).drop_last() =~= ps);
    assert((s + d).subrange(s.len() as int, (s + d).len() as int) =~= d);
    assert((s + d).subrange(0, s.len() as int) =~= s);
}

pub proof fn lemma_fills_concat(p1: Seq<Piece>, s1: Seq<char>, p2: Seq<Piece>, s2: Seq<char>)
    requires
        fills(p1, s1),
        fills(p2, s2),
    ensures
        fills(p1 + p2, s1 + s2),
    decreases p2.len(),
{
    if p2.len() == 0 {
        assert(p1 + p2 =~= p1);
        assert(s1 + s2 =~= s1);
    } else {
        assert((p1 + p2).drop_last() =~= p1 + p2.drop_last());
        assert((p1 + p2).last() == p2.last());
        match p2.last() {
            Piece::Text(t) => {
                let s2p = s2.subrange(0, s2.len() - t.len());
                lemma_fills_concat(p1, s1, p2.drop_last(), s2p);
                assert(s2 =~= s2p + t);
                assert(s1 + s2 =~= (s1 + s2p) + t);
                lemma_fills_text(p1 + p2.drop_last(), s1 + s2p, t);
                assert(p1 + p2 =~= (p1 + p2.drop_last()).push(Piece::Text(t)));
            },
            Piece::Time => {
                let n = choose|n: u64| {
                    let d = #[trigger] duration_text(n);
                    &&& d.len() <= s2.len()
                    &&& s2.subrange(s2.len() - d.len(), s2.len() as int) == d
                    &&& fills(p2.drop_last(), s2.subrange(0, s2.len() - d.len()))
                };
                let d = duration_text(n);
                let s2p = s2.subrange(0, s2.len() - d.len());
                lemma_fills_concat(p1, s1, p2.drop_last(), s2p);
                assert(s2 =~= s2p + d);
                assert(s1 + s2 =~= (s1 + s2p) + d);
                lemma_fills_time(p1 + p2.drop_last(), s1 + s2p, n);
                assert(p1 + p2 =~= (p1 + p2.drop_last()).push(Piece::Time));
            },
        }
    }
}

} // verus!

verus! {

/// What a statement does: the state after it, and the text it prints or the
/// failure that stops the test.
pub open spec fn statement_step(
    ans: Seq<AnswerV>,
    st: StateV,
    s: StatementV,
    line: i32,
    depth: nat,
) -> (StateV, Result<Seq<char>, FailureV>) {
    match s {
        StatementV::Assert(a) => {
            let (st1, r) = assert_outcome(st, a, line);
            match r {
                Ok(_) => (st1, Ok(Seq::empty())),
                Err(e) => (st1, Err(e)),
            }
        },
        StatementV::Assign(name, e) => {
            let (st1, r) = assignment_outcome(ans, st, name, e, line);
            match r {
                Ok(_) => (st1, Ok(Seq::empty())),
                Err(e) => (st1, Err(e)),
            }
        },
        StatementV::Print(v) => {
            let (st1, r) = print_outcome(st, v, line);
            match r {
                Ok(t) => (st1, Ok(print_line(depth, t))),
                Err(e) => (st1, Err(e)),
            }
        },
        StatementV::Expr(e) => {
            let (st1, r) = expression_value(ans, st, e, line);
            match r {
                Ok(_) => (st1, Ok(Seq::empty())),
                Err(e) => (st1, Err(e)),
            }
        },
    }
}

/// How a test ended: a failed assertion is a failure, or an expected failure
/// when the test is decorated so; any other failure is an error; a test that
/// did not fail succeeded, unexpectedly when it was expected to fail.
pub open spec fn status_of(failure: Option<FailureV>, expected_failure: bool) -> StatusV {
    match failure {
        Some(f) => if f is TestFailure {
            if expected_failure { StatusV::ExpectedFailure } else { StatusV::Failure(f) }
        } else {
            StatusV::Error(f)
        },
        None => if expected_failure { StatusV::UnexpectedSuccess } else { StatusV::Success },
    }
}

/// The machine limits a run stays in: a block has at most `i32::MAX` entries
/// (its line counter is an `i32`) and the nesting depth stays below `usize::MAX`.
pub open spec fn function_fits(f: FunctionV, depth: nat) -> bool {
    &&& f.block.len() <= i32::MAX
    &&& depth < usize::MAX
    &&& blocks_fit(f, 0, depth)
}

/// The functions nested in the block from entry `i` on stay in the limits
/// one level deeper.
pub open spec fn blocks_fit(f: FunctionV, i: nat, depth: nat) -> bool
    decreases f, f.block.len() - i,
{
    if i >= f.block.len() {
        true
    } else {
        proof {
            assert(decreases_to!(f => f.block));
            assert(decreases_to!(f.block => f.block[i as int]));
        }
        &&& match f.block[i as int] {
            BlockV::Function(g) => g.block.len() <= i32::MAX && depth + 1 < usize::MAX && blocks_fit(g, 0, depth + 1),
            _ => true,
        }
        &&& blocks_fit(f, i + 1, depth)
    }
}

/// What running the entries of a block from entry `i` on gives; `teardowns`
/// holds the entry numbers of the teardown blocks that were reached, in order.
pub struct BlocksV {
    pub st: StateV,
    pub results: Seq<TestResultV>,
    pub failure: Option<FailureV>,
    pub out: Seq<Piece>,
    pub err: Seq<char>,
    pub teardowns: Seq<nat>,
}

/// What processing teardown statements gives: the state after them, the
/// failure that stopped them, what they printed and their failure lines.
pub struct TeardownV {
    pub st: StateV,
    pub failure: Option<FailureV>,
    pub out: Seq<char>,
    pub err: Seq<char>,
}

/// What running a test function gives: the state after it, its result, and
/// what it writes to the report and to the error stream.
pub struct RunV {
    pub st: StateV,
    pub result: TestResultV,
    pub out: Seq<Piece>,
    pub err: Seq<char>,
}

/// The line a test starts with.
pub open spec fn start_line(name: Seq<char>, depth: nat) -> Seq<char> {
    spaces(depth) + "STARTING TEST - "@ + name + seq!['\n']
}

/// The line a test ends with, around the time it took.
pub open spec fn finish_pieces(name: Seq<char>, status: StatusV, depth: nat) -> Seq<Piece> {
    seq![
        Piece::Text(spaces(depth) + "FINISHED TEST - "@ + name + " - "@),
        Piece::Time,
        Piece::Text(" - "@ + Status::name_text(status) + seq!['\n']),
    ]
}

/// The line that reports the failure that stopped a test at depth `depth`.
pub open spec fn failure_line(f: FailureV, depth: nat) -> Seq<char> {
    spaces(depth + 1) + failure_message(f) + seq!['\n']
}

/// Runs the statements of a teardown block from statement `j` on, in order,
/// each with `line` as its line; a failure stops them.
#[verifier::opaque]
pub open spec fn teardown_block_run(
    ans: Seq<AnswerV>,
    st: StateV,
    sts: Seq<StatementV>,
    j: nat,
    line: i32,
    depth: nat,
) -> TeardownV
    decreases sts.len() - j,
{
    if j >= sts.len() {
        TeardownV { st, failure: None, out: Seq::empty(), err: Seq::empty() }
    } else {
        let (st1, r) = statement_step(ans, st, sts[j as int], line, depth);
        match r {
            Ok(printed) => {
                let rest = teardown_block_run(ans, st1, sts, j + 1, line, depth);
                TeardownV { st: rest.st, failure: rest.failure, out: printed + rest.out, err: rest.err }
            },
            Err(e) => TeardownV { st: st1, failure: Some(e), out: Seq::empty(), err: failure_line(e, depth) },
        }
    }
}

/// The statements of the teardown block at entry `k` of a block.
pub open spec fn teardown_statements(f: FunctionV, k: nat) -> Seq<StatementV> {
    if k < f.block.len() {
        match f.block[k as int] {
            BlockV::Teardown(sts) => sts,
            _ => Seq::empty(),
        }
    } else {
        Seq::empty()
    }
}

/// Processes the teardown stack `tds` of a test: the block pushed last runs
/// first, its statements in the order written, with the block's entry number
/// as their line; a failure stops the processing.
#[verifier::opaque]
pub open spec fn teardowns_run(ans: Seq<AnswerV>, f: FunctionV, st: StateV, tds: Seq<nat>, depth: nat) -> TeardownV
    decreases tds.len(),
{
    if tds.len() == 0 {
        TeardownV { st, failure: None, out: Seq::empty(), err: Seq::empty() }
    } else {
        let k = tds.last();
        let t = teardown_block_run(ans, st, teardown_statements(f, k), 0, k as i32, depth);
        match t.failure {
            Some(_) => t,
            None => {
                let rest = teardowns_run(ans, f, t.st, tds.drop_last(), depth);
                TeardownV { st: rest.st, failure: rest.failure, out: t.out + rest.out, err: t.err + rest.err }
            },
        }
    }
}

/// A test function whose block ran as `b` and whose teardown stack was then
/// processed as `t`: its start line, what the block and the teardown wrote,
/// the end line with the test's status. The failure that stopped the block
/// decides the status; without one, the failure that stopped the teardown does.
pub open spec fn finish_run(f: FunctionV, b: BlocksV, t: TeardownV, depth: nat) -> RunV {
    let failure = match b.failure {
        Some(e) => Some(e),
        None => t.failure,
    };
    let status = status_of(failure, Function::is_expected_failure_spec(f));
    RunV {
        st: t.st,
        result: TestResultV { name: f.name, status, subtests: b.results },
        out: seq![Piece::Text(start_line(f.name, depth))] + b.out + seq![Piece::Text(t.out)] + finish_pieces(f.name, status, depth),
        err: b.err + t.err,
    }
}

/// Runs a test function: its block, from the first entry on, then, whether
/// the block succeeded, failed or stopped on an error, its teardown stack.
pub open spec fn run_function(ans: Seq<AnswerV>, f: FunctionV, st: StateV, depth: nat) -> RunV {
    let b = run_blocks(ans, f, 0, st, depth);
    finish_run(f, b, teardowns_run(ans, f, b.st, b.teardowns, depth), depth)
}

/// Runs the entries of a block from entry `i` on, in order: a nested function
/// is run as a test one level deeper; a teardown block is pushed on the
/// teardown stack; a statement runs with entry number `i` as its line, and a
/// failure stops the block.
#[verifier::opaque]
pub open spec fn run_blocks(ans: Seq<AnswerV>, f: FunctionV, i: nat, st: StateV, depth: nat) -> BlocksV
    decreases f, f.block.len() - i,
{
    if i >= f.block.len() {
        BlocksV { st, results: Seq::empty(), failure: None, out: Seq::empty(), err: Seq::empty(), teardowns: Seq::empty() }
    } else {
        proof {
            assert(decreases_to!(f => f.block));
            assert(decreases_to!(f.block => f.block[i as int]));
        }
        match f.block[i as int] {
            BlockV::Function(g) => {
                let bg = run_blocks(ans, g, 0, st, depth + 1);
                let r = finish_run(g, bg, teardowns_run(ans, g, bg.st, bg.teardowns, depth + 1), depth + 1);
                let rest = run_blocks(ans, f, i + 1, r.st, depth);
                BlocksV {
                    st: rest.st,
                    results: seq![r.result] + rest.results,
                    failure: rest.failure,
                    out: r.out + rest.out,
                    err: r.err + rest.err,
                    teardowns: rest.teardowns,
                }
            },
            BlockV::Teardown(_) => {
                let rest = run_blocks(ans, f, i + 1, st, depth);
                BlocksV {
                    st: rest.st,
                    results: rest.results,
                    failure: rest.failure,
                    out: rest.out,
                    err: rest.err,
                    teardowns: seq![i] + rest.teardowns,
                }
            },
            BlockV::Statement(s) => {
                let (st1, r) = statement_step(ans, st, s, i as i32, depth);
                match r {
                    Ok(printed) => {
                        let rest = run_blocks(ans, f, i + 1, st1, depth);
                        BlocksV {
                            st: rest.st,
                            results: rest.results,
                            failure: rest.failure,
                            out: seq![Piece::Text(printed)] + rest.out,
                            err: rest.err,
                            teardowns: rest.teardowns,
                        }
                    },
                    Err(e) => BlocksV {
                        st: st1,
                        results: Seq::empty(),
                        failure: Some(e),
                        out: Seq::empty(),
                        err: failure_line(e, depth),
                        teardowns: Seq::empty(),
                    },
                }
            },
        }
    }
}

} // verus!

verus! {

/// Runs one statement; see [`statement_step`]. What it prints is appended to
/// `out`. Its outcome is stated for every sequence of answers that begins
/// with the answers received by its end.
pub fn run_statement<C: WebClient>(
    context: &Context,
    statement: &Statement,
    variable_map: &mut VariableMap,
    depth: usize,
    client: &C,
    out: &mut TestWriter,
) -> (r: Result<(), ChimeraRuntimeFailure>)
    requires
        state_wf(old(variable_map)@),
    ensures
        continues(final(variable_map)@.received, old(variable_map)@.received),
        state_wf(final(variable_map)@),
        forall|ans: Seq<AnswerV>| #[trigger] continues(ans, final(variable_map)@.received) ==> {
            &&& final(variable_map)@ == statement_step(ans, old(variable_map)@, statement@, context.current_line, depth as nat).0
            &&& match statement_step(ans, old(variable_map)@, statement@, context.current_line, depth as nat).1 {
                Ok(t) => r is Ok && final(out)@ == old(out)@ + t,
                Err(e) => r matches Err(f) && f@ == e && final(out)@ == old(out)@,
            }
        },
{
    proof { lemma_continues_self(variable_map@.received); }
    match statement {
        Statement::AssertCommand(assertion) => {
            let r = assert_command(context, assertion, variable_map);
            assert(out@ =~= old(out)@ + Seq::<char>::empty());
            r
        },
        Statement::AssignmentExpr(assignment) => {
            let r = assignment_command(context, assignment, variable_map, client);
            assert(out@ =~= old(out)@ + Seq::<char>::empty());
            r
        },
        Statement::PrintCommand(print_cmd) => {
            print_command(context, out, print_cmd, variable_map, depth)
        },
        Statement::Expression(expr) => {
            let r = expression_command(context, expr, variable_map, client);
            assert(out@ =~= old(out)@ + Seq::<char>::empty());
            match r {
                Ok(_) => Ok(()),
                Err(e) => Err(e),
            }
        },
    }
}

} // verus!

verus! {

/// A run of the entries before some entry, followed by the run of the rest.
pub open spec fn combine(
    results: Seq<TestResultV>,
    pieces: Seq<Piece>,
    errs: Seq<char>,
    tds: Seq<nat>,
    rest: BlocksV,
) -> BlocksV {
    BlocksV {
        st: rest.st,
        results: results + rest.results,
        failure: rest.failure,
        out: pieces + rest.out,
        err: errs + rest.err,
        teardowns: tds + rest.teardowns,
    }
}

proof fn lemma_combine_start(b: BlocksV)
    ensures
        combine(Seq::empty(), Seq::empty(), Seq::empty(), Seq::empty(), b) == b,
{
    assert(Seq::<TestResultV>::empty() + b.results =~= b.results);
    assert(Seq::<Piece>::empty() + b.out =~= b.out);
    assert(Seq::<char>::empty() + b.err =~= b.err);
    assert(Seq::<nat>::empty() + b.teardowns =~= b.teardowns);
}

proof fn lemma_combine_end(
    results: Seq<TestResultV>,
    pieces: Seq<Piece>,
    errs: Seq<char>,
    tds: Seq<nat>,
    st: StateV,
    failure: Option<FailureV>,
)
    ensures
        combine(
            results,
            pieces,
            errs,
            tds,
            BlocksV { st, results: Seq::empty(), failure, out: Seq::empty(), err: Seq::empty(), teardowns: Seq::empty() },
        ) == (BlocksV { st, results, failure, out: pieces, err: errs, teardowns: tds }),
{
    assert(results + Seq::<TestResultV>::empty() =~= results);
    assert(pieces + Seq::<Piece>::empty() =~= pieces);
    assert(errs + Seq::<char>::empty() =~= errs);
    assert(tds + Seq::<nat>::empty() =~= tds);
}

proof fn lemma_unfold_function(
    ans: Seq<AnswerV>,
    f: FunctionV,
    i: nat,
    st: StateV,
    depth: nat,
    g: FunctionV,
)
    requires
        i < f.block.len(),
        f.block[i as int] == BlockV::Function(g),
    ensures
        run_blocks(ans, f, i, st, depth) == (BlocksV {
            st: run_blocks(ans, f, i + 1, run_function(ans, g, st, depth + 1).st, depth).st,
            results: seq![run_function(ans, g, st, depth + 1).result]
                + run_blocks(ans, f, i + 1, run_function(ans, g, st, depth + 1).st, depth).results,
            failure: run_blocks(ans, f, i + 1, run_function(ans, g, st, depth + 1).st, depth).failure,
            out: run_function(ans, g, st, depth + 1).out
                + run_blocks(ans, f, i + 1, run_function(ans, g, st, depth + 1).st, depth).out,
            err: run_function(ans, g, st, depth + 1).err
                + run_blocks(ans, f, i + 1, run_function(ans, g, st, depth + 1).st, depth).err,
            teardowns: run_blocks(ans, f, i + 1, run_function(ans, g, st, depth + 1).st, depth).teardowns,
        }),
{
    reveal_with_fuel(run_blocks, 1);
}

proof fn lemma_step_function(
    ans: Seq<AnswerV>,
    f: FunctionV,
    i: nat,
    st: StateV,
    depth: nat,
    results: Seq<TestResultV>,
    pieces: Seq<Piece>,
    errs: Seq<char>,
    tds: Seq<nat>,
    g: FunctionV,
)
    requires
        i < f.block.len(),
        f.block[i as int] == BlockV::Function(g),
    ensures
        combine(results, pieces, errs, tds, run_blocks(ans, f, i, st, depth)) == combine(
            results.push(run_function(ans, g, st, depth + 1).result),
            pieces + run_function(ans, g, st, depth + 1).out,
            errs + run_function(ans, g, st, depth + 1).err,
            tds,
            run_blocks(ans, f, i + 1, run_function(ans, g, st, depth + 1).st, depth),
        ),
{
    let r = run_function(ans, g, st, depth + 1);
    let next = run_blocks(ans, f, i + 1, r.st, depth);
    lemma_unfold_function(ans, f, i, st, depth, g);
    assert(results + (seq![r.result] + next.results) =~= results.push(r.result) + next.results);
    assert(pieces + (r.out + next.out) =~= (pieces + r.out) + next.out);
    assert(errs + (r.err + next.err) =~= (errs + r.err) + next.err);
}

#[verifier::rlimit(40)]
proof fn lemma_step_statement(
    ans: Seq<AnswerV>,
    f: FunctionV,
    i: nat,
    st: StateV,
    depth: nat,
    results: Seq<TestResultV>,
    pieces: Seq<Piece>,
    errs: Seq<char>,
    tds: Seq<nat>,
    s: StatementV,
)
    requires
        i < f.block.len(),
        f.block[i as int] == BlockV::Statement(s),
    ensures
        match statement_step(ans, st, s, i as i32, depth) {
            (st1, Ok(printed)) => combine(results, pieces, errs, tds, run_blocks(ans, f, i, st, depth)) == combine(
                results,
                pieces.push(Piece::Text(printed)),
                errs,
                tds,
                run_blocks(ans, f, i + 1, st1, depth),
            ),
            (st1, Err(e)) => combine(results, pieces, errs, tds, run_blocks(ans, f, i, st, depth)) == (BlocksV {
                st: st1,
                results,
                failure: Some(e),
                out: pieces,
                err: errs + failure_line(e, depth),
                teardowns: tds,
            }),
        },
{
    reveal_with_fuel(run_blocks, 1);
    let (st1, r) = statement_step(ans, st, s, i as i32, depth);
    match r {
        Ok(printed) => {
            let next = run_blocks(ans, f, i + 1, st1, depth);
            assert(pieces + (seq![Piece::Text(printed)] + next.out) =~= pieces.push(Piece::Text(printed)) + next.out);
        },
        Err(e) => {
            assert(results + Seq::<TestResultV>::empty() =~= results);
            assert(pieces + Seq::<Piece>::empty() =~= pieces);
            assert(tds + Seq::<nat>::empty() =~= tds);
        },
    }
}

proof fn lemma_blocks_end(ans: Seq<AnswerV>, f: FunctionV, i: nat, st: StateV, depth: nat)
    requires
        i >= f.block.len(),
    ensures
        run_blocks(ans, f, i, st, depth) == (BlocksV {
            st,
            results: Seq::empty(),
            failure: None,
            out: Seq::empty(),
            err: Seq::empty(),
            teardowns: Seq::empty(),
        }),
{
    reveal_with_fuel(run_blocks, 1);
}

#[verifier::rlimit(40)]
proof fn lemma_step_teardown(
    ans: Seq<AnswerV>,
    f: FunctionV,
    i: nat,
    st: StateV,
    depth: nat,
    results: Seq<TestResultV>,
    pieces: Seq<Piece>,
    errs: Seq<char>,
    tds: Seq<nat>,
)
    requires
        i < f.block.len(),
        f.block[i as int] is Teardown,
    ensures
        combine(results, pieces, errs, tds, run_blocks(ans, f, i, st, depth))
            == combine(results, pieces, errs, tds.push(i), run_blocks(ans, f, i + 1, st, depth)),
{
    reveal_with_fuel(run_blocks, 1);
    let next = run_blocks(ans, f, i + 1, st, depth);
    assert(tds + (seq![i] + next.teardowns) =~= tds.push(i) + next.teardowns);
}

/// The report of a test: its start line, what its block wrote, its end line
/// with the time `n`.
proof fn lemma_finish_fills(
    out0: Seq<char>,
    start: Seq<char>,
    pieces: Seq<Piece>,
    s_mid: Seq<char>,
    t1: Seq<char>,
    n: u64,
    t3: Seq<char>,
)
    requires
        fills(pieces, s_mid),
    ensures
        fills(
            seq![Piece::Text(start)] + pieces + seq![Piece::Text(t1), Piece::Time, Piece::Text(t3)],
            start + s_mid + t1 + duration_text(n) + t3,
        ),
{
    lemma_fills_text(pieces, s_mid, t1);
    lemma_fills_time(pieces.push(Piece::Text(t1)), s_mid + t1, n);
    lemma_fills_text(pieces.push(Piece::Text(t1)).push(Piece::Time), s_mid + t1 + duration_text(n), t3);
    let whole = pieces.push(Piece::Text(t1)).push(Piece::Time).push(Piece::Text(t3));
    lemma_fills_text(Seq::empty(), Seq::empty(), start);
    assert(Seq::<Piece>::empty().push(Piece::Text(start)) =~= seq![Piece::Text(start)]);
    assert(Seq::<char>::empty() + start =~= start);
    lemma_fills_concat(seq![Piece::Text(start)], start, whole, s_mid + t1 + duration_text(n) + t3);
    assert(seq![Piece::Text(start)] + whole =~= seq![Piece::Text(start)] + pieces + seq![Piece::Text(t1), Piece::Time, Piece::Text(t3)]);
    assert(start + (s_mid + t1 + duration_text(n) + t3) =~= start + s_mid + t1 + duration_text(n) + t3);
}

proof fn lemma_teardown_block_step(
    ans: Seq<AnswerV>,
    st: StateV,
    sts: Seq<StatementV>,
    j: nat,
    line: i32,
    depth: nat,
)
    ensures
        j >= sts.len() ==> teardown_block_run(ans, st, sts, j, line, depth)
            == (TeardownV { st, failure: None, out: Seq::empty(), err: Seq::empty() }),
        j < sts.len() ==> teardown_block_run(ans, st, sts, j, line, depth) == match statement_step(ans, st, sts[j as int], line, depth) {
            (st1, Ok(printed)) => TeardownV {
                st: teardown_block_run(ans, st1, sts, j + 1, line, depth).st,
                failure: teardown_block_run(ans, st1, sts, j + 1, line, depth).failure,
                out: printed + teardown_block_run(ans, st1, sts, j + 1, line, depth).out,
                err: teardown_block_run(ans, st1, sts, j + 1, line, depth).err,
            },
            (st1, Err(e)) => TeardownV { st: st1, failure: Some(e), out: Seq::empty(), err: failure_line(e, depth) },
        },
{
    reveal_with_fuel(teardown_block_run, 1);
}

proof fn lemma_teardowns_step(ans: Seq<AnswerV>, f: FunctionV, st: StateV, tds: Seq<nat>, depth: nat)
    ensures
        tds.len() == 0 ==> teardowns_run(ans, f, st, tds, depth)
            == (TeardownV { st, failure: None, out: Seq::empty(), err: Seq::empty() }),
        tds.len() > 0 ==> teardowns_run(ans, f, st, tds, depth) == ({
            let t = teardown_block_run(ans, st, teardown_statements(f, tds.last()), 0, tds.last() as i32, depth);
            match t.failure {
                Some(_) => t,
                None => TeardownV {
                    st: teardowns_run(ans, f, t.st, tds.drop_last(), depth).st,
                    failure: teardowns_run(ans, f, t.st, tds.drop_last(), depth).failure,
                    out: t.out + teardowns_run(ans, f, t.st, tds.drop_last(), depth).out,
                    err: t.err + teardowns_run(ans, f, t.st, tds.drop_last(), depth).err,
                },
            }
        }),
{
    reveal_with_fuel(teardowns_run, 1);
}

/// The entry numbers of a teardown stack.
pub open spec fn stack_view(s: Seq<usize>) -> Seq<nat> {
    Seq::new(s.len(), |k: int| s[k] as nat)
}

/// Runs the statements of a teardown block from statement `j` on; see
/// [`teardown_block_run`]. What they print is appended to `out`, the failure
/// line to `err`.
/// The state `st`, the failure `r` and the text written to `out` and `err`
/// (from `out0` to `out1`, from `err0` to `err1`) are those of `t`.
pub open spec fn teardown_matches(
    t: TeardownV,
    st: StateV,
    r: Option<ChimeraRuntimeFailure>,
    out0: Seq<char>,
    out1: Seq<char>,
    err0: Seq<char>,
    err1: Seq<char>,
) -> bool {
    &&& st == t.st
    &&& match t.failure {
        Some(e) => r matches Some(x) && x@ == e,
        None => r is None,
    }
    &&& out1 == out0 + t.out
    &&& err1 == err0 + t.err
}

#[verifier::rlimit(40)]
fn run_teardown_block<C: WebClient>(
    statements: &Vec<Statement>,
    j: usize,
    line: i32,
    variable_map: &mut VariableMap,
    depth: usize,
    client: &C,
    out: &mut TestWriter,
    err: &mut TestWriter,
) -> (r: Option<ChimeraRuntimeFailure>)
    requires
        state_wf(old(variable_map)@),
        j <= statements.len(),
        depth < usize::MAX,
    ensures
        continues(final(variable_map)@.received, old(variable_map)@.received),
        state_wf(final(variable_map)@),
        forall|ans: Seq<AnswerV>| #[trigger] continues(ans, final(variable_map)@.received) ==> teardown_matches(
            teardown_block_run(ans, old(variable_map)@, statements_view(statements@), j as nat, line, depth as nat),
            final(variable_map)@,
            r,
            old(out)@,
            final(out)@,
            old(err)@,
            final(err)@,
        ),
    decreases statements.len() - j,
{
    let ghost st0 = variable_map@;
    let ghost out0 = out@;
    let ghost err0 = err@;
    let ghost sv = statements_view(statements@);
    if j >= statements.len() {
        proof {
            lemma_continues_self(st0.received);
            assert(out@ =~= out0 + Seq::<char>::empty());
            assert(err@ =~= err0 + Seq::<char>::empty());
            assert forall|ans: Seq<AnswerV>| #[trigger] continues(ans, variable_map@.received) implies teardown_matches(
                teardown_block_run(ans, st0, sv, j as nat, line, depth as nat),
                variable_map@,
                None,
                out0,
                out@,
                err0,
                err@,
            ) by {
                lemma_teardown_block_step(ans, st0, sv, j as nat, line, depth as nat);
            }
        }
        return None;
    }
    assert(sv[j as int] == statements@[j as int]@);
    let context = Context { current_line: line };
    let r = run_statement(&context, &statements[j], variable_map, depth, client, out);
    let ghost st1 = variable_map@;
    match r {
        Ok(()) => {
            let rest = run_teardown_block(statements, j + 1, line, variable_map, depth, client, out, err);
            proof {
                lemma_continues_trans(variable_map@.received, st1.received, st0.received);
                assert forall|ans: Seq<AnswerV>| #[trigger] continues(ans, variable_map@.received) implies teardown_matches(
                    teardown_block_run(ans, st0, sv, j as nat, line, depth as nat),
                    variable_map@,
                    rest,
                    out0,
                    out@,
                    err0,
                    err@,
                ) by {
                    lemma_continues_trans(ans, variable_map@.received, st1.received);
                    assert(continues(ans, st1.received));
                    lemma_teardown_block_step(ans, st0, sv, j as nat, line, depth as nat);
                    let printed = statement_step(ans, st0, sv[j as int], line, depth as nat).1->Ok_0;
                    let tail = teardown_block_run(ans, st1, sv, j as nat + 1, line, depth as nat);
                    assert(out@ =~= out0 + (printed + tail.out));
                }
            }
            rest
        },
        Err(e) => {
            let failure_text = e.error_line(depth);
            err.write_line(failure_text.as_str());
            proof {
                assert(failure_text@ + seq!['\n'] =~= failure_line(e@, depth as nat));
                assert(err@ =~= err0 + failure_line(e@, depth as nat));
                assert forall|ans: Seq<AnswerV>| #[trigger] continues(ans, variable_map@.received) implies teardown_matches(
                    teardown_block_run(ans, st0, sv, j as nat, line, depth as nat),
                    variable_map@,
                    Some(e),
                    out0,
                    out@,
                    err0,
                    err@,
                ) by {
                    lemma_teardown_block_step(ans, st0, sv, j as nat, line, depth as nat);
                    assert(out@ =~= out0 + Seq::<char>::empty());
                }
            }
            Some(e)
        },
    }
}

/// Processes the first `n` blocks of a teardown stack, the last of them
/// first; see [`teardowns_run`].
#[verifier::rlimit(80)]
fn run_teardown_stack<C: WebClient>(
    function: &Function,
    teardowns: &Vec<usize>,
    n: usize,
    variable_map: &mut VariableMap,
    depth: usize,
    client: &C,
    out: &mut TestWriter,
    err: &mut TestWriter,
) -> (r: Option<ChimeraRuntimeFailure>)
    requires
        state_wf(old(variable_map)@),
        n <= teardowns.len(),
        depth < usize::MAX,
        function.block.len() <= i32::MAX,
        forall|k: int| 0 <= k < teardowns.len() ==> teardowns@[k] < function.block.len(),
    ensures
        continues(final(variable_map)@.received, old(variable_map)@.received),
        state_wf(final(variable_map)@),
        forall|ans: Seq<AnswerV>| #[trigger] continues(ans, final(variable_map)@.received) ==> teardown_matches(
            teardowns_run(ans, function@, old(variable_map)@, stack_view(teardowns@.take(n as int)), depth as nat),
            final(variable_map)@,
            r,
            old(out)@,
            final(out)@,
            old(err)@,
            final(err)@,
        ),
    decreases n,
{
    let ghost tds = stack_view(teardowns@.take(n as int));
    let ghost st0 = variable_map@;
    let ghost out0 = out@;
    let ghost err0 = err@;
    if n == 0 {
        proof {
            lemma_continues_self(st0.received);
            assert(out@ =~= out0 + Seq::<char>::empty());
            assert(err@ =~= err0 + Seq::<char>::empty());
            assert forall|ans: Seq<AnswerV>| #[trigger] continues(ans, variable_map@.received) implies teardown_matches(
                teardowns_run(ans, function@, st0, tds, depth as nat),
                variable_map@,
                None,
                out0,
                out@,
                err0,
                err@,
            ) by {
                lemma_teardowns_step(ans, function@, st0, tds, depth as nat);
            }
        }
        return None;
    }
    proof {
        lemma_function_view(function);
        assert(tds.drop_last() =~= stack_view(teardowns@.take(n - 1)));
    }
    let k = teardowns[n - 1];
    assert(tds.last() == k as nat);
    assert(function@.block[k as int] == function.block@[k as int]@);
    let ghost sts = teardown_statements(function@, k as nat);
    let first = match &function.block[k] {
        BlockContents::Teardown(t) => run_teardown_block(&t.statements, 0, k as i32, variable_map, depth, client, out, err),
        _ => {
            proof {
                lemma_continues_self(st0.received);
                assert(out@ =~= out0 + Seq::<char>::empty());
                assert(err@ =~= err0 + Seq::<char>::empty());
                assert forall|ans: Seq<AnswerV>| #[trigger] continues(ans, variable_map@.received) implies teardown_matches(
                    teardown_block_run(ans, st0, sts, 0, k as i32, depth as nat),
                    variable_map@,
                    None,
                    out0,
                    out@,
                    err0,
                    err@,
                ) by {
                    lemma_teardown_block_step(ans, st0, sts, 0, k as i32, depth as nat);
                }
            }
            None
        },
    };
    let ghost st1 = variable_map@;
    let ghost out1 = out@;
    let ghost err1 = err@;
    match first {
        Some(e) => {
            proof {
                assert forall|ans: Seq<AnswerV>| #[trigger] continues(ans, variable_map@.received) implies teardown_matches(
                    teardowns_run(ans, function@, st0, tds, depth as nat),
                    variable_map@,
                    Some(e),
                    out0,
                    out@,
                    err0,
                    err@,
                ) by {
                    lemma_teardowns_step(ans, function@, st0, tds, depth as nat);
                }
            }
            Some(e)
        },
        None => {
            let rest = run_teardown_stack(function, teardowns, n - 1, variable_map, depth, client, out, err);
            proof {
                lemma_continues_trans(variable_map@.received, st1.received, st0.received);
                assert forall|ans: Seq<AnswerV>| #[trigger] continues(ans, variable_map@.received) implies teardown_matches(
                    teardowns_run(ans, function@, st0, tds, depth as nat),
                    variable_map@,
                    rest,
                    out0,
                    out@,
                    err0,
                    err@,
                ) by {
                    lemma_continues_trans(ans, variable_map@.received, st1.received);
                    assert(continues(ans, st1.received));
                    lemma_teardowns_step(ans, function@, st0, tds, depth as nat);
                    let t = teardown_block_run(ans, st0, sts, 0, k as i32, depth as nat);
                    let tail = teardowns_run(ans, function@, t.st, tds.drop_last(), depth as nat);
                    assert(out@ =~= out0 + (t.out + tail.out));
                    assert(err@ =~= err0 + (t.err + tail.err));
                }
            }
            rest
        },
    }
}

/// The failure a runner holds, as a failure value.
pub open spec fn failure_view(o: Option<ChimeraRuntimeFailure>) -> Option<FailureV> {
    match o {
        Some(e) => Some(e@),
        None => None,
    }
}

/// What a runner that has gone through the entries before entry `i` of the
/// block of `f` (with the answers `ans`) knows: with no failure, the run of
/// the block is the run so far followed by the run from entry `i` in state
/// `cur`; with a failure, the run of the block ended in state `cur`.
pub open spec fn blocks_inv(
    ans: Seq<AnswerV>,
    f: FunctionV,
    st0: StateV,
    i: nat,
    cur: StateV,
    results: Seq<TestResultV>,
    pieces: Seq<Piece>,
    errs: Seq<char>,
    tds: Seq<nat>,
    failure: Option<FailureV>,
    depth: nat,
) -> bool {
    match failure {
        None => run_blocks(ans, f, 0, st0, depth) == combine(results, pieces, errs, tds, run_blocks(ans, f, i, cur, depth)),
        Some(e) => run_blocks(ans, f, 0, st0, depth) == (BlocksV {
            st: cur,
            results,
            failure: Some(e),
            out: pieces,
            err: errs,
            teardowns: tds,
        }),
    }
}

/// The state `st`, the result `r` and the text written to `out` (from `out0`
/// to `out1`) and to `err` (from `err0` to `err1`) are those of the run `run`.
pub open spec fn run_matches(
    run: RunV,
    st: StateV,
    r: TestResultV,
    out0: Seq<char>,
    out1: Seq<char>,
    err0: Seq<char>,
    err1: Seq<char>,
) -> bool {
    &&& st == run.st
    &&& r == run.result
    &&& out0.len() <= out1.len()
    &&& out1.subrange(0, out0.len() as int) == out0
    &&& fills(run.out, out1.subrange(out0.len() as int, out1.len() as int))
    &&& err1 == err0 + run.err
}

proof fn lemma_inv_start(f: FunctionV, st0: StateV, depth: nat)
    ensures
        forall|ans: Seq<AnswerV>| #[trigger] continues(ans, st0.received) ==> blocks_inv(
            ans, f, st0, 0, st0, Seq::empty(), Seq::empty(), Seq::empty(), Seq::empty(), None, depth),
{
    assert forall|ans: Seq<AnswerV>| #[trigger] continues(ans, st0.received) implies blocks_inv(
        ans, f, st0, 0, st0, Seq::empty(), Seq::empty(), Seq::empty(), Seq::empty(), None, depth) by {
        lemma_combine_start(run_blocks(ans, f, 0, st0, depth));
    }
}

proof fn lemma_inv_function(
    f: FunctionV,
    st0: StateV,
    i: nat,
    st_i: StateV,
    results: Seq<TestResultV>,
    pieces: Seq<Piece>,
    errs: Seq<char>,
    tds: Seq<nat>,
    g: FunctionV,
    depth: nat,
    run: RunV,
)
    requires
        i < f.block.len(),
        f.block[i as int] == BlockV::Function(g),
        continues(run.st.received, st_i.received),
        forall|ans: Seq<AnswerV>| #[trigger] continues(ans, st_i.received) ==> blocks_inv(
            ans, f, st0, i, st_i, results, pieces, errs, tds, None, depth),
        forall|ans: Seq<AnswerV>| #[trigger] continues(ans, run.st.received) ==> run_function(ans, g, st_i, depth + 1) == run,
    ensures
        forall|ans: Seq<AnswerV>| #[trigger] continues(ans, run.st.received) ==> blocks_inv(
            ans, f, st0, i + 1, run.st, results.push(run.result), pieces + run.out, errs + run.err, tds, None, depth),
{
    assert forall|ans: Seq<AnswerV>| #[trigger] continues(ans, run.st.received) implies blocks_inv(
        ans, f, st0, i + 1, run.st, results.push(run.result), pieces + run.out, errs + run.err, tds, None, depth) by {
        lemma_continues_trans(ans, run.st.received, st_i.received);
        assert(continues(ans, st_i.received));
        lemma_step_function(ans, f, i, st_i, depth, results, pieces, errs, tds, g);
    }
}

proof fn lemma_inv_teardown(
    f: FunctionV,
    st0: StateV,
    i: nat,
    st_i: StateV,
    results: Seq<TestResultV>,
    pieces: Seq<Piece>,
    errs: Seq<char>,
    tds: Seq<nat>,
    depth: nat,
)
    requires
        i < f.block.len(),
        f.block[i as int] is Teardown,
        forall|ans: Seq<AnswerV>| #[trigger] continues(ans, st_i.received) ==> blocks_inv(
            ans, f, st0, i, st_i, results, pieces, errs, tds, None, depth),
    ensures
        forall|ans: Seq<AnswerV>| #[trigger] continues(ans, st_i.received) ==> blocks_inv(
            ans, f, st0, i + 1, st_i, results, pieces, errs, tds.push(i), None, depth),
{
    assert forall|ans: Seq<AnswerV>| #[trigger] continues(ans, st_i.received) implies blocks_inv(
        ans, f, st0, i + 1, st_i, results, pieces, errs, tds.push(i), None, depth) by {
        lemma_step_teardown(ans, f, i, st_i, depth, results, pieces, errs, tds);
    }
}

proof fn lemma_inv_statement(
    f: FunctionV,
    st0: StateV,
    i: nat,
    st_i: StateV,
    cur: StateV,
    results: Seq<TestResultV>,
    pieces: Seq<Piece>,
    errs: Seq<char>,
    tds: Seq<nat>,
    s: StatementV,
    depth: nat,
    outcome: Result<Seq<char>, FailureV>,
)
    requires
        i < f.block.len(),
        f.block[i as int] == BlockV::Statement(s),
        continues(cur.received, st_i.received),
        forall|ans: Seq<AnswerV>| #[trigger] continues(ans, st_i.received) ==> blocks_inv(
            ans, f, st0, i, st_i, results, pieces, errs, tds, None, depth),
        forall|ans: Seq<AnswerV>| #[trigger] continues(ans, cur.received) ==> statement_step(ans, st_i, s, i as i32, depth) == (cur, outcome),
    ensures
        match outcome {
            Ok(p) => forall|ans: Seq<AnswerV>| #[trigger] continues(ans, cur.received) ==> blocks_inv(
                ans, f, st0, i + 1, cur, results, pieces.push(Piece::Text(p)), errs, tds, None, depth),
            Err(e) => forall|ans: Seq<AnswerV>| #[trigger] continues(ans, cur.received) ==> blocks_inv(
                ans, f, st0, i + 1, cur, results, pieces, errs + failure_line(e, depth), tds, Some(e), depth),
        },
{
    match outcome {
        Ok(p) => {
            assert forall|ans: Seq<AnswerV>| #[trigger] continues(ans, cur.received) implies blocks_inv(
                ans, f, st0, i + 1, cur, results, pieces.push(Piece::Text(p)), errs, tds, None, depth) by {
                lemma_continues_trans(ans, cur.received, st_i.received);
                assert(continues(ans, st_i.received));
                lemma_step_statement(ans, f, i, st_i, depth, results, pieces, errs, tds, s);
            }
        },
        Err(e) => {
            assert forall|ans: Seq<AnswerV>| #[trigger] continues(ans, cur.received) implies blocks_inv(
                ans, f, st0, i + 1, cur, results, pieces, errs + failure_line(e, depth), tds, Some(e), depth) by {
                lemma_continues_trans(ans, cur.received, st_i.received);
                assert(continues(ans, st_i.received));
                lemma_step_statement(ans, f, i, st_i, depth, results, pieces, errs, tds, s);
            }
        },
    }
}

proof fn lemma_inv_end(
    f: FunctionV,
    st0: StateV,
    i: nat,
    cur: StateV,
    results: Seq<TestResultV>,
    pieces: Seq<Piece>,
    errs: Seq<char>,
    tds: Seq<nat>,
    failure: Option<FailureV>,
    depth: nat,
)
    requires
        failure is None ==> i >= f.block.len(),
        forall|ans: Seq<AnswerV>| #[trigger] continues(ans, cur.received) ==> blocks_inv(
            ans, f, st0, i, cur, results, pieces, errs, tds, failure, depth),
    ensures
        forall|ans: Seq<AnswerV>| #[trigger] continues(ans, cur.received) ==> run_blocks(ans, f, 0, st0, depth)
            == (BlocksV { st: cur, results, failure, out: pieces, err: errs, teardowns: tds }),
{
    assert forall|ans: Seq<AnswerV>| #[trigger] continues(ans, cur.received) implies run_blocks(ans, f, 0, st0, depth)
        == (BlocksV { st: cur, results, failure, out: pieces, err: errs, teardowns: tds }) by {
        if failure is None {
            lemma_blocks_end(ans, f, i, cur, depth);
            lemma_combine_end(results, pieces, errs, tds, cur, None);
        }
    }
}

/// Runs a test function at nesting depth `depth`; see [`run_function`]. The
/// report is appended to `out`, the failure lines to `err`. The run is the
/// one of the answers received: it is the same for every sequence of answers
/// that begins with them.
#[verifier::rlimit(100)]
pub fn run_test_function<C: WebClient>(
    function: &Function,
    variable_map: &mut VariableMap,
    depth: usize,
    client: &C,
    out: &mut TestWriter,
    err: &mut TestWriter,
) -> (r: TestResult)
    requires
        state_wf(old(variable_map)@),
        function_fits(function@, depth as nat),
    ensures
        state_wf(final(variable_map)@),
        continues(final(variable_map)@.received, old(variable_map)@.received),
        run_matches(
            run_function(final(variable_map)@.received, function@, old(variable_map)@, depth as nat),
            final(variable_map)@,
            r@,
            old(out)@,
            final(out)@,
            old(err)@,
            final(err)@,
        ),
        forall|ans: Seq<AnswerV>| #[trigger] continues(ans, final(variable_map)@.received) ==> run_function(
            ans,
            function@,
            old(variable_map)@,
            depth as nat,
        ) == run_function(final(variable_map)@.received, function@, old(variable_map)@, depth as nat),
    decreases function,
{
    let ghost f = function@;
    let ghost st0 = variable_map@;
    let ghost out0 = out@;
    let ghost err0 = err@;
    proof {
        lemma_function_view(function);
        lemma_inv_start(f, st0, depth as nat);
        lemma_continues_self(st0.received);
    }

    let mut start: Vec<char> = Vec::new();
    push_spaces(&mut start, depth);
    push_str(&mut start, "STARTING TEST - ");
    push_str(&mut start, function.name.as_str());
    proof { reveal_strlit("STARTING TEST - "); }
    let start_text = chars_to_string(&start);
    out.write_line(start_text.as_str());
    let ghost out1 = out@;
    proof {
        assert(out1 =~= out0 + start_line(f.name, depth as nat));
        assert(out@.subrange(out1.len() as int, out@.len() as int) =~= Seq::<char>::empty());
        assert(err@ =~= err0 + Seq::<char>::empty());
    }

    let timer = Timer::new();
    let mut context = Context::new();
    let is_expected_failure = function.is_expected_failure();
    let mut subtest_results: Vec<TestResult> = Vec::new();
    let mut runtime_failure: Option<ChimeraRuntimeFailure> = None;
    let mut teardowns: Vec<usize> = Vec::new();
    let ghost mut pieces: Seq<Piece> = Seq::empty();
    let ghost mut errs: Seq<char> = Seq::empty();
    let mut i: usize = 0;
    assert(results_view(subtest_results@) =~= Seq::<TestResultV>::empty());
    assert(stack_view(teardowns@) =~= Seq::<nat>::empty());
    while i < function.block.len() && runtime_failure.is_none()
        invariant
            i <= function.block.len(),
            f == function@,
            f.block == blocks_view(function.block@),
            function_fits(f, depth as nat),
            blocks_fit(f, i as nat, depth as nat),
            context.current_line == i as i32,
            state_wf(variable_map@),
            continues(variable_map@.received, st0.received),
            out1.len() <= out@.len(),
            out@.subrange(0, out1.len() as int) == out1,
            fills(pieces, out@.subrange(out1.len() as int, out@.len() as int)),
            err@ == err0 + errs,
            forall|k: int| 0 <= k < teardowns.len() ==> teardowns@[k] < i,
            forall|ans: Seq<AnswerV>| #[trigger] continues(ans, variable_map@.received) ==> blocks_inv(
                ans,
                f,
                st0,
                i as nat,
                variable_map@,
                results_view(subtest_results@),
                pieces,
                errs,
                stack_view(teardowns@),
                failure_view(runtime_failure),
                depth as nat,
            ),
        decreases function.block.len() - i,
    {
        let ghost st_i = variable_map@;
        let ghost out_i = out@;
        let ghost subs_i = results_view(subtest_results@);
        let ghost tds_i = teardowns@;
        assert(f.block[i as int] == function.block@[i as int]@);
        match &function.block[i] {
            BlockContents::Function(nested) => {
                proof {
                    assert(decreases_to!(function => function.block));
                    assert(decreases_to!(function.block => function.block@));
                    assert(decreases_to!(function.block@ => function.block@[i as int]));
                }
                let result = run_test_function(nested, variable_map, depth + 1, client, out, err);
                let ghost run = run_function(variable_map@.received, nested@, st_i, depth as nat + 1);
                proof {
                    lemma_inv_function(f, st0, i as nat, st_i, subs_i, pieces, errs, stack_view(tds_i), nested@, depth as nat, run);
                    lemma_continues_trans(variable_map@.received, st_i.received, st0.received);
                    let s_old = out_i.subrange(out1.len() as int, out_i.len() as int);
                    let s_new = out@.subrange(out_i.len() as int, out@.len() as int);
                    lemma_fills_concat(pieces, s_old, run.out, s_new);
                    assert(out@.subrange(out1.len() as int, out@.len() as int) =~= s_old + s_new);
                    assert(out@.subrange(0, out1.len() as int) =~= out_i.subrange(0, out1.len() as int));
                    pieces = pieces + run.out;
                    errs = errs + run.err;
                    assert(err@ =~= err0 + errs);
                }
                subtest_results.push(result);
                proof {
                    assert(results_view(subtest_results@) =~= subs_i.push(run.result));
                }
            },
            BlockContents::Teardown(_) => {
                proof {
                    lemma_inv_teardown(f, st0, i as nat, st_i, subs_i, pieces, errs, stack_view(tds_i), depth as nat);
                }
                teardowns.push(i);
                assert(stack_view(teardowns@) =~= stack_view(tds_i).push(i as nat));
            },
            BlockContents::Statement(statement) => {
                let r = run_statement(&context, statement, variable_map, depth, client, out);
                let ghost cur = variable_map@;
                let ghost outcome: Result<Seq<char>, FailureV> = match &r {
                    Ok(_) => Ok(out@.subrange(out_i.len() as int, out@.len() as int)),
                    Err(e) => Err(e@),
                };
                proof {
                    lemma_continues_trans(cur.received, st_i.received, st0.received);
                    lemma_continues_self(cur.received);
                    assert(continues(cur.received, cur.received));
                    assert forall|ans: Seq<AnswerV>| #[trigger] continues(ans, cur.received) implies statement_step(
                        ans, st_i, statement@, i as i32, depth as nat) == (cur, outcome) by {
                        match statement_step(ans, st_i, statement@, i as i32, depth as nat).1 {
                            Ok(t) => {
                                assert(out@.subrange(out_i.len() as int, out@.len() as int) =~= t);
                            },
                            Err(_) => {},
                        }
                    }
                    lemma_inv_statement(f, st0, i as nat, st_i, cur, subs_i, pieces, errs, stack_view(tds_i), statement@, depth as nat, outcome);
                }
                match r {
                    Ok(()) => {
                        proof {
                            let printed = outcome->Ok_0;
                            assert(out@ =~= out_i + printed);
                            let s_old = out_i.subrange(out1.len() as int, out_i.len() as int);
                            lemma_fills_text(pieces, s_old, printed);
                            assert(out@.subrange(out1.len() as int, out@.len() as int) =~= s_old + printed);
                            assert(out@.subrange(0, out1.len() as int) =~= out_i.subrange(0, out1.len() as int));
                            pieces = pieces.push(Piece::Text(printed));
                        }
                    },
                    Err(e) => {
                        let failure_text = e.error_line(depth);
                        err.write_line(failure_text.as_str());
                        proof {
                            assert(failure_text@ + seq!['\n'] =~= failure_line(e@, depth as nat));
                            errs = errs + failure_line(e@, depth as nat);
                            assert(err@ =~= err0 + errs);
                        }
                        runtime_failure = Some(e);
                    },
                }
            },
        }
        context.current_line = context.current_line + 1;
        i = i + 1;
    }

    let ghost b = BlocksV {
        st: variable_map@,
        results: results_view(subtest_results@),
        failure: failure_view(runtime_failure),
        out: pieces,
        err: errs,
        teardowns: stack_view(teardowns@),
    };
    proof {
        lemma_inv_end(f, st0, i as nat, variable_map@, b.results, pieces, errs, b.teardowns, b.failure, depth as nat);
        assert(teardowns@.take(teardowns.len() as int) =~= teardowns@);
    }

    let ghost st_b = variable_map@;
    let ghost out_b = out@;
    let ghost err_b = err@;
    let teardown_failure = run_teardown_stack(function, &teardowns, teardowns.len(), variable_map, depth, client, out, err);
    let ghost fin = variable_map@.received;
    let ghost t = teardowns_run(fin, f, st_b, b.teardowns, depth as nat);
    proof {
        lemma_continues_self(fin);
        lemma_continues_trans(fin, st_b.received, st0.received);
        assert forall|ans: Seq<AnswerV>| #[trigger] continues(ans, fin) implies run_function(ans, f, st0, depth as nat)
            == finish_run(f, b, t, depth as nat) by {
            lemma_continues_trans(ans, fin, st_b.received);
            assert(continues(ans, st_b.received));
            let ta = teardowns_run(ans, f, st_b, b.teardowns, depth as nat);
            assert(ta.out =~= out@.subrange(out_b.len() as int, out@.len() as int));
            assert(t.out =~= out@.subrange(out_b.len() as int, out@.len() as int));
            assert(ta.err =~= err@.subrange(err_b.len() as int, err@.len() as int));
            assert(t.err =~= err@.subrange(err_b.len() as int, err@.len() as int));
            assert(ta == t);
        }
        let s_old = out_b.subrange(out1.len() as int, out_b.len() as int);
        lemma_fills_text(pieces, s_old, t.out);
        assert(out@.subrange(out1.len() as int, out@.len() as int) =~= s_old + t.out);
        assert(out@.subrange(0, out1.len() as int) =~= out_b.subrange(0, out1.len() as int));
        pieces = pieces.push(Piece::Text(t.out));
    }
    let failure = match runtime_failure {
        Some(e) => Some(e),
        None => teardown_failure,
    };
    let status = match failure {
        Some(failure_reason) => {
            let is_test_failure = match &failure_reason {
                ChimeraRuntimeFailure::TestFailure(_, _) => true,
                _ => false,
            };
            if is_test_failure {
                if is_expected_failure { Status::ExpectedFailure } else { Status::Failure(failure_reason) }
            } else {
                Status::Error(failure_reason)
            }
        },
        None => if is_expected_failure { Status::UnexpectedSuccess } else { Status::Success },
    };
    assert(status@ == finish_run(f, b, t, depth as nat).result.status);

    let time_to_run = timer.finish();
    let ghost n = choose|n: u64| time_to_run@ == #[trigger] duration_text(n);
    let mut finish: Vec<char> = Vec::new();
    push_spaces(&mut finish, depth);
    push_str(&mut finish, "FINISHED TEST - ");
    push_str(&mut finish, function.name.as_str());
    push_str(&mut finish, " - ");
    push_str(&mut finish, time_to_run.as_str());
    push_str(&mut finish, " - ");
    push_str(&mut finish, status.name());
    proof {
        reveal_strlit("FINISHED TEST - ");
        reveal_strlit(" - ");
    }
    let finish_text = chars_to_string(&finish);
    let ghost out2 = out@;
    out.write_line(finish_text.as_str());
    proof {
        let t1 = spaces(depth as nat) + "FINISHED TEST - "@ + f.name + " - "@;
        let t3 = " - "@ + Status::name_text(status@) + seq!['\n'];
        assert(finish_text@ + seq!['\n'] =~= t1 + duration_text(n) + t3);
        let s_mid = out2.subrange(out1.len() as int, out2.len() as int);
        assert(out2 =~= out1 + s_mid);
        assert(out@ =~= out2 + (finish_text@ + seq!['\n']));
        assert(out@ =~= out0 + (start_line(f.name, depth as nat) + s_mid + t1 + duration_text(n) + t3));
        lemma_finish_fills(out0, start_line(f.name, depth as nat), pieces, s_mid, t1, n, t3);
        assert(out@.subrange(out0.len() as int, out@.len() as int) =~= start_line(f.name, depth as nat) + s_mid + t1 + duration_text(n) + t3);
        assert(out@.subrange(0, out0.len() as int) =~= out0);
        assert(seq![Piece::Text(start_line(f.name, depth as nat))] + pieces =~= seq![Piece::Text(start_line(f.name, depth as nat))] + b.out + seq![Piece::Text(t.out)]);
        assert(err@ =~= err0 + (b.err + t.err));
    }
    let r = TestResult::new(function.name.clone(), status, subtest_results);
    proof { lemma_result_view(&r); }
    r
}

} // verus!

verus! {

/// The state a test starts in: no variables, an empty heap.
pub open spec fn empty_state() -> StateV {
    StateV { vars: Seq::empty(), heap: Seq::empty(), received: Seq::empty() }
}

/// Runs the test functions of a script in order, each in a fresh state, the
/// test at place `k` with the answers `answers[k]`; the functions that are
/// not tests are passed over.
pub open spec fn run_all(answers: Seq<Seq<AnswerV>>, fs: Seq<FunctionV>) -> (Seq<TestResultV>, Seq<Piece>, Seq<char>)
    decreases fs.len(),
{
    if fs.len() == 0 {
        (Seq::empty(), Seq::empty(), Seq::empty())
    } else {
        let (rs, o, e) = run_all(answers, fs.drop_last());
        let f = fs.last();
        if Function::is_test_function_spec(f) {
            let r = run_function(answers[fs.len() - 1], f, empty_state(), 0);
            (rs.push(r.result), o + r.out, e + r.err)
        } else {
            (rs, o, e)
        }
    }
}

/// Every function of a script stays in the machine limits of a run.
pub open spec fn script_fits(fs: Seq<FunctionV>) -> bool {
    forall|i: int| 0 <= i < fs.len() ==> function_fits(#[trigger] fs[i], 0)
}

proof fn lemma_run_all_prefix(a: Seq<Seq<AnswerV>>, b: Seq<Seq<AnswerV>>, fs: Seq<FunctionV>)
    requires
        fs.len() <= a.len(),
        fs.len() <= b.len(),
        a.take(fs.len() as int) == b.take(fs.len() as int),
    ensures
        run_all(a, fs) == run_all(b, fs),
    decreases fs.len(),
{
    if fs.len() > 0 {
        let n = fs.len() - 1;
        assert(a.take(n) =~= a.take(fs.len() as int).take(n));
        assert(b.take(n) =~= b.take(fs.len() as int).take(n));
        assert(a[n] == a.take(fs.len() as int)[n]);
        assert(b[n] == b.take(fs.len() as int)[n]);
        lemma_run_all_prefix(a, b, fs.drop_last());
    }
}

/// Runs the test functions of a script; see [`run_all`]. The report is
/// appended to `out`, the failure lines to `err`. The run is the one of the
/// answers the service gave to each test.
#[verifier::rlimit(40)]
pub fn run_functions<C: WebClient>(
    ast: ChimeraScriptAST,
    client: &C,
    out: &mut TestWriter,
    err: &mut TestWriter,
) -> (r: Vec<TestResult>)
    requires
        script_fits(functions_view(ast.functions@)),
    ensures
        old(out)@.len() <= final(out)@.len(),
        final(out)@.subrange(0, old(out)@.len() as int) == old(out)@,
        exists|answers: Seq<Seq<AnswerV>>| {
            &&& results_view(r@) == run_all(answers, functions_view(ast.functions@)).0
            &&& fills(
                run_all(answers, functions_view(ast.functions@)).1,
                final(out)@.subrange(old(out)@.len() as int, final(out)@.len() as int),
            )
            &&& final(err)@ == old(err)@ + run_all(answers, functions_view(ast.functions@)).2
        },
{
    let ghost fs = functions_view(ast.functions@);
    let ghost out0 = out@;
    let ghost err0 = err@;
    let mut results: Vec<TestResult> = Vec::new();
    let ghost mut pieces: Seq<Piece> = Seq::empty();
    let ghost mut errs: Seq<char> = Seq::empty();
    let ghost mut answers: Seq<Seq<AnswerV>> = Seq::empty();
    let mut i: usize = 0;
    proof {
        assert(fs.take(0) =~= Seq::<FunctionV>::empty());
        assert(results_view(results@) =~= Seq::<TestResultV>::empty());
        assert(out@.subrange(out0.len() as int, out@.len() as int) =~= Seq::<char>::empty());
        assert(err@ =~= err0 + errs);
    }
    while i < ast.functions.len()
        invariant
            i <= ast.functions.len(),
            fs == functions_view(ast.functions@),
            script_fits(fs),
            answers.len() == i,
            run_all(answers, fs.take(i as int)) == (results_view(results@), pieces, errs),
            out0.len() <= out@.len(),
            out@.subrange(0, out0.len() as int) == out0,
            fills(pieces, out@.subrange(out0.len() as int, out@.len() as int)),
            err@ == err0 + errs,
        decreases ast.functions.len() - i,
    {
        let function = &ast.functions[i];
        assert(fs.take(i + 1).drop_last() =~= fs.take(i as int));
        assert(fs.take(i + 1).last() == function@);
        let ghost answers_i = answers;
        if function.is_test_function() {
            assert(function_fits(fs[i as int], 0));
            let mut function_variables = VariableMap::new();
            assert(function_variables@ == empty_state());
            let ghost out_i = out@;
            let result = run_test_function(function, &mut function_variables, 0, client, out, err);
            let ghost received = function_variables@.received;
            let ghost run = run_function(received, function@, empty_state(), 0);
            proof {
                let s_old = out_i.subrange(out0.len() as int, out_i.len() as int);
                let s_new = out@.subrange(out_i.len() as int, out@.len() as int);
                lemma_fills_concat(pieces, s_old, run.out, s_new);
                assert(out@.subrange(out0.len() as int, out@.len() as int) =~= s_old + s_new);
                assert(out@.subrange(0, out0.len() as int) =~= out_i.subrange(0, out0.len() as int));
                pieces = pieces + run.out;
                errs = errs + run.err;
                answers = answers.push(received);
                assert(err@ =~= err0 + errs);
                assert(answers.take(i as int) =~= answers_i);
                assert(answers_i.take(i as int) =~= answers_i);
                lemma_run_all_prefix(answers, answers_i, fs.take(i as int));
            }
            results.push(result);
            assert(results_view(results@) =~= run_all(answers_i, fs.take(i as int)).0.push(run.result));
        } else {
            proof {
                answers = answers.push(Seq::empty());
                assert(answers.take(i as int) =~= answers_i);
                assert(answers_i.take(i as int) =~= answers_i);
                lemma_run_all_prefix(answers, answers_i, fs.take(i as int));
            }
        }
        i = i + 1;
    }
    assert(fs.take(i as int) =~= fs);
    results
}

} // verus!
