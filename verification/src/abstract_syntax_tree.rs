//! The syntax tree of a script.
use vstd::prelude::*;

pub mod http_request;
use crate::literal::{
    CellV, Data, Literal, LiteralV, NumberKind, NumberV, borrow_reason, literal_text, resolve_access_spec,
    value_text,
};
use crate::err_handle::{ChimeraRuntimeFailure, FailureV};
use crate::frontend::Context;
use crate::variable_map::{StateV, VariableMap, extends, get_var, lemma_with_cell_wf, state_wf, with_cell};
use crate::text::{
    chars_to_string, int_text, lemma_split_dots_nonempty, nat_digits, push_i64, push_str, push_u64, split_dots,
    split_dots_of, str_to_chars,
};

verus! {

/// A decorator written above a function: `[test]`, `[expected-failure]`, or `key=value`.
#[derive(Debug)]
pub enum Decorator {
    Key(String),
    KeyValue((String, String)),
}

pub enum DecoratorV {
    Key(Seq<char>),
    KeyValue(Seq<char>, Seq<char>),
}

impl View for Decorator {
    type V = DecoratorV;

    open spec fn view(&self) -> DecoratorV {
        match self {
            Decorator::Key(k) => DecoratorV::Key(k@),
            Decorator::KeyValue((k, v)) => DecoratorV::KeyValue(k@, v@),
        }
    }
}

/// A value written in a command: a literal, a variable (possibly with
/// accessors, `res.body.id`), or a formatted string whose parts are strings
/// and variables.
#[derive(Debug, PartialEq)]
pub enum Value {
    Literal(Literal),
    Variable(String),
    FormattedString(Vec<Value>),
}

pub enum ValueV {
    Lit(LiteralV),
    Var(Seq<char>),
    Fmt(Seq<ValueV>),
}

pub open spec fn value_view(v: &Value) -> ValueV
    decreases v,
{
    match v {
        Value::Literal(l) => ValueV::Lit(l@),
        Value::Variable(s) => ValueV::Var(s@),
        Value::FormattedString(vs) => ValueV::Fmt(
            Seq::new(vs.len() as nat, |i: int| if 0 <= i < vs.len() { value_view(&vs[i]) } else { ValueV::Var(Seq::empty()) }),
        ),
    }
}

impl View for Value {
    type V = ValueV;

    open spec fn view(&self) -> ValueV {
        value_view(self)
    }
}

/// The views of a list of values.
pub open spec fn values_view(vs: Seq<Value>) -> Seq<ValueV> {
    Seq::new(vs.len(), |i: int| vs[i]@)
}

pub proof fn lemma_fmt_view(vs: &Vec<Value>)
    ensures
        Value::FormattedString(*vs)@ == ValueV::Fmt(values_view(vs@)),
{
    let v = Value::FormattedString(*vs);
    assert(value_view(&v) is Fmt);
    let c = value_view(&v)->Fmt_0;
    assert(c =~= values_view(vs@));
}

/// The debug rendering of a character in a string: quotes, backslashes and
/// control characters are escaped.
pub open spec fn char_debug(c: char) -> Seq<char> {
    if c == '"' {
        seq!['\\', '"']
    } else if c == '\\' {
        seq!['\\', '\\']
    } else if c == '\n' {
        seq!['\\', 'n']
    } else if c == '\r' {
        seq!['\\', 'r']
    } else if c == '\t' {
        seq!['\\', 't']
    } else if c == '\0' {
        seq!['\\', '0']
    } else if (c as u32) < 0x20 || c as u32 == 0x7f {
        seq!['\\', 'u', '{'] + hex_digits(c as u32 as nat) + seq!['}']
    } else {
        seq![c]
    }
}

pub open spec fn hex_char(d: nat) -> char {
    if d < 10 { crate::text::digit_char(d) } else if d == 10 { 'a' } else if d == 11 { 'b' } else if d == 12 { 'c' } else if d == 13 { 'd' } else if d == 14 { 'e' } else { 'f' }
}

/// The hexadecimal digits of `n`, without leading zeros.
pub open spec fn hex_digits(n: nat) -> Seq<char>
    decreases n,
{
    if n < 16 { seq![hex_char(n)] } else { hex_digits(n / 16).push(hex_char(n % 16)) }
}

pub open spec fn escaped(s: Seq<char>) -> Seq<char>
    decreases s.len(),
{
    if s.len() == 0 { Seq::empty() } else { escaped(s.drop_last()) + char_debug(s.last()) }
}

/// A string as its debug rendering shows it: quoted and escaped.
pub open spec fn str_debug(s: Seq<char>) -> Seq<char> {
    seq!['"'] + escaped(s) + seq!['"']
}

pub open spec fn number_debug(n: NumberV) -> Seq<char> {
    match n {
        NumberV::I64(i) => "I64("@ + int_text(i as int) + ")"@,
        NumberV::U64(u) => "U64("@ + nat_digits(u as nat) + ")"@,
        NumberV::F64(f) => "F64("@ + f.shown + ")"@,
    }
}

pub open spec fn literal_debug(l: LiteralV) -> Seq<char> {
    match l {
        LiteralV::Str(s) => "String("@ + str_debug(s) + ")"@,
        LiteralV::Number(n) => "Number("@ + number_debug(n) + ")"@,
        LiteralV::Bool(b) => if b { "Bool(true)"@ } else { "Bool(false)"@ },
        LiteralV::Null => "Null"@,
    }
}

/// The debug rendering of a value.
pub open spec fn value_debug(v: ValueV) -> Seq<char>
    decreases v, 0nat,
{
    match v {
        ValueV::Lit(l) => "Literal("@ + literal_debug(l) + ")"@,
        ValueV::Var(s) => "Variable("@ + str_debug(s) + ")"@,
        ValueV::Fmt(vs) => "FormattedString("@ + values_debug(vs) + ")"@,
    }
}

/// The debug rendering of a list of values: `[a, b]`.
pub open spec fn values_debug(vs: Seq<ValueV>) -> Seq<char>
    decreases vs, 1nat,
{
    "["@ + values_debug_inner(vs) + "]"@
}

pub open spec fn values_debug_inner(vs: Seq<ValueV>) -> Seq<char>
    decreases vs, 0nat,
{
    if vs.len() == 0 {
        Seq::empty()
    } else if vs.len() == 1 {
        value_debug(vs[0])
    } else {
        value_debug(vs[0]) + ", "@ + values_debug_inner(vs.drop_first())
    }
}

} // verus!

verus! {

/// The comparison an `ASSERT` makes.
#[derive(Debug, Clone, Copy, PartialEq, Eq, Structural)]
pub enum AssertSubCommand {
    Equals,
    GTE,
    GT,
    LTE,
    LT,
    Status,
    Length,
    Contains,
}

impl AssertSubCommand {
    /// How a failure message words the comparison.
    pub open spec fn words_text(self) -> Seq<char> {
        match self {
            AssertSubCommand::Equals => "equal"@,
            AssertSubCommand::GTE => "be greater than or equal to"@,
            AssertSubCommand::GT => "be greater than"@,
            AssertSubCommand::LTE => "be less than or equal to"@,
            AssertSubCommand::LT => "be less than"@,
            AssertSubCommand::Status => "have a status code of"@,
            AssertSubCommand::Length => "have a length of"@,
            AssertSubCommand::Contains => "to contain"@,
        }
    }

    pub fn words(&self) -> (r: &'static str)
        ensures
            r@ == self.words_text(),
    {
        match self {
            AssertSubCommand::Equals => "equal",
            AssertSubCommand::GTE => "be greater than or equal to",
            AssertSubCommand::GT => "be greater than",
            AssertSubCommand::LTE => "be less than or equal to",
            AssertSubCommand::LT => "be less than",
            AssertSubCommand::Status => "have a status code of",
            AssertSubCommand::Length => "have a length of",
            AssertSubCommand::Contains => "to contain",
        }
    }
}

/// The verb of a web request.
#[derive(Debug, Clone, Copy, PartialEq, Eq, Structural)]
pub enum HTTPVerb {
    Get,
    Put,
    Post,
    Delete,
}

/// `name=value` in a query or a body, or `name:value` in a header.
#[derive(Debug)]
pub struct HttpAssignment {
    pub lhs: String,
    pub rhs: Value,
}

impl View for HttpAssignment {
    type V = (Seq<char>, ValueV);

    open spec fn view(&self) -> (Seq<char>, ValueV) {
        (self.lhs@, self.rhs@)
    }
}

/// `name=>value`, an option of a request.
#[derive(Debug)]
pub struct KeyValuePair {
    pub key: String,
    pub value: Value,
}

/// A web request: `GET /path?query body_param=value header:value option=>value`.
#[derive(Debug)]
pub struct HttpCommand {
    pub verb: HTTPVerb,
    pub path: Vec<Value>,
    pub query_params: Vec<HttpAssignment>,
    pub http_assignments: Vec<HttpAssignment>,
    pub headers: Vec<HttpAssignment>,
    pub key_val_pairs: Vec<KeyValuePair>,
}

pub struct HttpCommandV {
    pub verb: HTTPVerb,
    pub path: Seq<ValueV>,
    pub query_params: Seq<(Seq<char>, ValueV)>,
    pub http_assignments: Seq<(Seq<char>, ValueV)>,
    pub headers: Seq<(Seq<char>, ValueV)>,
    pub key_val_pairs: Seq<(Seq<char>, ValueV)>,
}

pub open spec fn assignments_view(s: Seq<HttpAssignment>) -> Seq<(Seq<char>, ValueV)> {
    Seq::new(s.len(), |i: int| (s[i].lhs@, s[i].rhs@))
}

pub open spec fn pairs_view(s: Seq<KeyValuePair>) -> Seq<(Seq<char>, ValueV)> {
    Seq::new(s.len(), |i: int| (s[i].key@, s[i].value@))
}

impl View for HttpCommand {
    type V = HttpCommandV;

    open spec fn view(&self) -> HttpCommandV {
        HttpCommandV {
            verb: self.verb,
            path: values_view(self.path@),
            query_params: assignments_view(self.query_params@),
            http_assignments: assignments_view(self.http_assignments@),
            headers: assignments_view(self.headers@),
            key_val_pairs: pairs_view(self.key_val_pairs@),
        }
    }
}

/// A change to a list.
#[derive(Debug)]
pub enum MutateListOperations {
    Append(Value),
    Remove(Value),
    Pop,
}

/// What a `LIST` command does with a list.
#[derive(Debug)]
pub enum ListCommandOperations {
    MutateOperations(MutateListOperations),
    Length,
}

/// `LIST APPEND|REMOVE|POP|LENGTH (list) [value]`.
#[derive(Debug)]
pub struct ListCommand {
    pub list_name: String,
    pub operation: ListCommandOperations,
}

/// `LIST NEW [values]`, or a command on a list.
#[derive(Debug)]
pub enum ListExpression {
    New(Vec<Value>),
    ListArgument(ListCommand),
}

pub enum ListOpV {
    Append(ValueV),
    Remove(ValueV),
    Pop,
    Length,
}

pub enum ListExpressionV {
    New(Seq<ValueV>),
    Command(Seq<char>, ListOpV),
}

impl View for ListExpression {
    type V = ListExpressionV;

    open spec fn view(&self) -> ListExpressionV {
        match self {
            ListExpression::New(vs) => ListExpressionV::New(values_view(vs@)),
            ListExpression::ListArgument(c) => ListExpressionV::Command(
                c.list_name@,
                match &c.operation {
                    ListCommandOperations::MutateOperations(MutateListOperations::Append(v)) => ListOpV::Append(v@),
                    ListCommandOperations::MutateOperations(MutateListOperations::Remove(v)) => ListOpV::Remove(v@),
                    ListCommandOperations::MutateOperations(MutateListOperations::Pop) => ListOpV::Pop,
                    ListCommandOperations::Length => ListOpV::Length,
                },
            ),
        }
    }
}

/// Something that computes a value.
#[derive(Debug)]
pub enum Expression {
    Literal(Literal),
    HttpCommand(HttpCommand),
    List(ListExpression),
    FormattedString(Vec<Value>),
}

pub enum ExpressionV {
    Lit(LiteralV),
    Http(HttpCommandV),
    List(ListExpressionV),
    Fmt(Seq<ValueV>),
}

impl View for Expression {
    type V = ExpressionV;

    open spec fn view(&self) -> ExpressionV {
        match self {
            Expression::Literal(l) => ExpressionV::Lit(l@),
            Expression::HttpCommand(h) => ExpressionV::Http(h@),
            Expression::List(l) => ExpressionV::List(l@),
            Expression::FormattedString(vs) => ExpressionV::Fmt(values_view(vs@)),
        }
    }
}

/// `ASSERT [NOT] SUBCOMMAND left right [message]`.
#[derive(Debug)]
pub struct AssertCommand {
    pub negate_assertion: bool,
    pub subcommand: AssertSubCommand,
    pub left_value: Value,
    pub right_value: Value,
    pub error_message: Option<Value>,
}

pub struct AssertCommandV {
    pub negate_assertion: bool,
    pub subcommand: AssertSubCommand,
    pub left_value: ValueV,
    pub right_value: ValueV,
    pub error_message: Option<ValueV>,
}

impl View for AssertCommand {
    type V = AssertCommandV;

    open spec fn view(&self) -> AssertCommandV {
        AssertCommandV {
            negate_assertion: self.negate_assertion,
            subcommand: self.subcommand,
            left_value: self.left_value@,
            right_value: self.right_value@,
            error_message: match &self.error_message {
                Some(v) => Some(v@),
                None => None,
            },
        }
    }
}

/// `var name = expression`.
#[derive(Debug)]
pub struct AssignmentExpr {
    pub var_name: String,
    pub expression: Expression,
}

/// A statement of a function block, ended by `;`.
#[derive(Debug)]
pub enum Statement {
    AssignmentExpr(AssignmentExpr),
    AssertCommand(AssertCommand),
    PrintCommand(Value),
    Expression(Expression),
}

pub enum StatementV {
    Assign(Seq<char>, ExpressionV),
    Assert(AssertCommandV),
    Print(ValueV),
    Expr(ExpressionV),
}

impl View for Statement {
    type V = StatementV;

    open spec fn view(&self) -> StatementV {
        match self {
            Statement::AssignmentExpr(a) => StatementV::Assign(a.var_name@, a.expression@),
            Statement::AssertCommand(a) => StatementV::Assert(a@),
            Statement::PrintCommand(v) => StatementV::Print(v@),
            Statement::Expression(e) => StatementV::Expr(e@),
        }
    }
}

pub open spec fn statements_view(s: Seq<Statement>) -> Seq<StatementV> {
    Seq::new(s.len(), |i: int| s[i]@)
}

/// `teardown { statements }`.
#[derive(Debug)]
pub struct Teardown {
    pub statements: Vec<Statement>,
}

/// What a function block holds.
#[derive(Debug)]
pub enum BlockContents {
    Function(Function),
    Statement(Statement),
    Teardown(Teardown),
}

/// `[decorators] case name() { block }`.
#[derive(Debug)]
pub struct Function {
    pub decorators: Vec<Decorator>,
    pub name: String,
    pub block: Vec<BlockContents>,
}

pub struct FunctionV {
    pub decorators: Seq<DecoratorV>,
    pub name: Seq<char>,
    pub block: Seq<BlockV>,
}

pub enum BlockV {
    Function(FunctionV),
    Statement(StatementV),
    Teardown(Seq<StatementV>),
}

pub open spec fn decorators_view(s: Seq<Decorator>) -> Seq<DecoratorV> {
    Seq::new(s.len(), |i: int| s[i]@)
}

pub open spec fn function_view(f: &Function) -> FunctionV
    decreases f, 1nat,
{
    FunctionV {
        decorators: decorators_view(f.decorators@),
        name: f.name@,
        block: Seq::new(f.block.len() as nat, |i: int| if 0 <= i < f.block.len() { block_view(&f.block[i]) } else { BlockV::Teardown(Seq::empty()) }),
    }
}

pub open spec fn block_view(b: &BlockContents) -> BlockV
    decreases b, 0nat,
{
    match b {
        BlockContents::Function(f) => BlockV::Function(function_view(f)),
        BlockContents::Statement(s) => BlockV::Statement(s@),
        BlockContents::Teardown(t) => BlockV::Teardown(statements_view(t.statements@)),
    }
}

impl View for Function {
    type V = FunctionV;

    open spec fn view(&self) -> FunctionV {
        function_view(self)
    }
}

impl View for BlockContents {
    type V = BlockV;

    open spec fn view(&self) -> BlockV {
        block_view(self)
    }
}

pub open spec fn blocks_view(s: Seq<BlockContents>) -> Seq<BlockV> {
    Seq::new(s.len(), |i: int| s[i]@)
}

pub open spec fn functions_view(s: Seq<Function>) -> Seq<FunctionV> {
    Seq::new(s.len(), |i: int| s[i]@)
}

pub proof fn lemma_function_view(f: &Function)
    ensures
        f@.block == blocks_view(f.block@),
        f@.name == f.name@,
        f@.decorators == decorators_view(f.decorators@),
{
    assert(f@.block =~= blocks_view(f.block@));
}

/// A parsed script: its functions, in order.
#[derive(Debug)]
pub struct ChimeraScriptAST {
    pub functions: Vec<Function>,
}

/// Whether a decorator list holds the key decorator `key`.
pub open spec fn has_key_decorator(ds: Seq<DecoratorV>, key: Seq<char>) -> bool {
    exists|i: int| 0 <= i < ds.len() && ds[i] == DecoratorV::Key(key)
}

impl Function {
    pub fn has_key(&self, checked_key: &str) -> (r: bool)
        ensures
            r == has_key_decorator(decorators_view(self.decorators@), checked_key@),
    {
        let ghost ds = decorators_view(self.decorators@);
        let mut i: usize = 0;
        while i < self.decorators.len()
            invariant
                i <= self.decorators.len(),
                ds == decorators_view(self.decorators@),
                forall|j: int| 0 <= j < i ==> ds[j] != DecoratorV::Key(checked_key@),
            decreases self.decorators.len() - i,
        {
            match &self.decorators[i] {
                Decorator::Key(k) => {
                    if crate::text::str_eq(k.as_str(), checked_key) {
                        assert(ds[i as int] == DecoratorV::Key(checked_key@));
                        return true;
                    }
                },
                _ => {},
            }
            i = i + 1;
        }
        false
    }

    pub open spec fn is_expected_failure_spec(f: FunctionV) -> bool {
        has_key_decorator(f.decorators, "expected-failure"@)
    }

    pub open spec fn is_test_function_spec(f: FunctionV) -> bool {
        has_key_decorator(f.decorators, "test"@)
    }

    /// Whether the function is decorated `expected-failure`.
    pub fn is_expected_failure(&self) -> (r: bool)
        ensures
            r == Self::is_expected_failure_spec(self@),
    {
        proof { lemma_function_view(self); }
        self.has_key("expected-failure")
    }

    pub fn has_name(&self, name: &str) -> (r: bool)
        ensures
            r == (self.name@ == name@),
    {
        crate::text::str_eq(self.name.as_str(), name)
    }

    /// Whether the function is decorated `test`.
    pub fn is_test_function(&self) -> (r: bool)
        ensures
            r == Self::is_test_function_spec(self@),
    {
        proof { lemma_function_view(self); }
        self.has_key("test")
    }
}

} // verus!

verus! {

/// How an error message names the value it is about.
pub open spec fn error_print_text(v: ValueV) -> Seq<char> {
    match v {
        ValueV::Lit(l) => "value '"@ + literal_text(l) + "'"@,
        ValueV::Var(s) => "var '"@ + s + "'"@,
        ValueV::Fmt(vs) => "fmt_str '"@ + values_debug(vs) + "'"@,
    }
}

/// Appends the hexadecimal digits of `n`.
fn push_hex(out: &mut Vec<char>, n: u32)
    ensures
        final(out)@ == old(out)@ + hex_digits(n as nat),
    decreases n,
{
    if n >= 16 {
        push_hex(out, n / 16);
    }
    let d = n % 16;
    let c = if d < 10 { crate::text::digit_to_char(d as u64) } else if d == 10 { 'a' } else if d == 11 { 'b' } else if d == 12 { 'c' } else if d == 13 { 'd' } else if d == 14 { 'e' } else { 'f' };
    out.push(c);
    assert(final(out)@ =~= old(out)@ + hex_digits(n as nat)) by {
        if n >= 16 {
            assert(hex_digits(n as nat) == hex_digits((n / 16) as nat).push(hex_char((n % 16) as nat)));
        }
    }
}

/// Appends the debug rendering of one character.
fn push_char_debug(out: &mut Vec<char>, c: char)
    ensures
        final(out)@ == old(out)@ + char_debug(c),
{
    let ghost start = out@;
    if c == '"' {
        out.push('\\'); out.push('"');
    } else if c == '\\' {
        out.push('\\'); out.push('\\');
    } else if c == '\n' {
        out.push('\\'); out.push('n');
    } else if c == '\r' {
        out.push('\\'); out.push('r');
    } else if c == '\t' {
        out.push('\\'); out.push('t');
    } else if c == '\0' {
        out.push('\\'); out.push('0');
    } else if (c as u32) < 0x20 || c as u32 == 0x7f {
        out.push('\\'); out.push('u'); out.push('{');
        push_hex(out, c as u32);
        out.push('}');
    } else {
        out.push(c);
    }
    assert(out@ =~= start + char_debug(c));
}

/// Appends a string quoted and escaped as its debug rendering shows it.
pub fn push_str_debug(out: &mut Vec<char>, s: &str)
    ensures
        final(out)@ == old(out)@ + str_debug(s@),
{
    let ghost start = out@;
    let chars = str_to_chars(s);
    out.push('"');
    let mut i: usize = 0;
    while i < chars.len()
        invariant
            i <= chars.len(),
            chars@ == s@,
            out@ == start + seq!['"'] + escaped(chars@.take(i as int)),
        decreases chars.len() - i,
    {
        assert(chars@.take(i + 1).drop_last() =~= chars@.take(i as int));
        push_char_debug(out, chars[i]);
        i = i + 1;
        assert(out@ =~= start + seq!['"'] + escaped(chars@.take(i as int)));
    }
    assert(chars@.take(i as int) =~= s@);
    out.push('"');
    assert(out@ =~= start + str_debug(s@));
}

fn push_number_debug(out: &mut Vec<char>, n: &NumberKind)
    ensures
        final(out)@ == old(out)@ + number_debug(n@),
{
    let ghost start = out@;
    match n {
        NumberKind::I64(i) => { push_str(out, "I64("); push_i64(out, *i); push_str(out, ")"); },
        NumberKind::U64(u) => { push_str(out, "U64("); push_u64(out, *u); push_str(out, ")"); },
        NumberKind::F64(f) => { push_str(out, "F64("); push_str(out, f.shown.as_str()); push_str(out, ")"); },
    }
    assert(out@ =~= start + number_debug(n@));
}

fn push_literal_debug(out: &mut Vec<char>, l: &Literal)
    ensures
        final(out)@ == old(out)@ + literal_debug(l@),
{
    let ghost start = out@;
    match l {
        Literal::String(s) => { push_str(out, "String("); push_str_debug(out, s.as_str()); push_str(out, ")"); },
        Literal::Number(n) => { push_str(out, "Number("); push_number_debug(out, n); push_str(out, ")"); },
        Literal::Bool(b) => if *b { push_str(out, "Bool(true)") } else { push_str(out, "Bool(false)") },
        Literal::Null => push_str(out, "Null"),
    }
    assert(out@ =~= start + literal_debug(l@));
}

impl Value {
    /// A copy of this value.
    pub fn duplicate(&self) -> (r: Value)
        ensures
            r@ == self@,
        decreases self,
    {
        match self {
            Value::Literal(l) => Value::Literal(l.duplicate()),
            Value::Variable(s) => Value::Variable(s.clone()),
            Value::FormattedString(vs) => {
                let out = duplicate_values(vs);
                proof {
                    lemma_fmt_view(vs);
                    lemma_fmt_view(&out);
                }
                Value::FormattedString(out)
            },
        }
    }

    /// Appends the debug rendering of this value.
    pub fn push_debug(&self, out: &mut Vec<char>)
        ensures
            final(out)@ == old(out)@ + value_debug(self@),
        decreases self,
    {
        let ghost start = out@;
        match self {
            Value::Literal(l) => {
                push_str(out, "Literal(");
                push_literal_debug(out, l);
                push_str(out, ")");
            },
            Value::Variable(s) => {
                push_str(out, "Variable(");
                push_str_debug(out, s.as_str());
                push_str(out, ")");
            },
            Value::FormattedString(vs) => {
                proof { lemma_fmt_view(vs); }
                push_str(out, "FormattedString(");
                push_values_debug(out, vs);
                push_str(out, ")");
            },
        }
        assert(out@ =~= start + value_debug(self@));
    }

    /// How an error message names this value.
    pub fn error_print(&self) -> (r: String)
        ensures
            r@ == error_print_text(self@),
    {
        let mut out: Vec<char> = Vec::new();
        match self {
            Value::Literal(l) => {
                push_str(&mut out, "value '");
                l.push_text(&mut out);
                push_str(&mut out, "'");
            },
            Value::Variable(s) => {
                push_str(&mut out, "var '");
                push_str(&mut out, s.as_str());
                push_str(&mut out, "'");
            },
            Value::FormattedString(vs) => {
                proof { lemma_fmt_view(vs); }
                push_str(&mut out, "fmt_str '");
                push_values_debug(&mut out, vs);
                push_str(&mut out, "'");
            },
        }
        assert(out@ =~= error_print_text(self@));
        chars_to_string(&out)
    }
}

/// A copy of a list of values.
pub fn duplicate_values(vs: &Vec<Value>) -> (r: Vec<Value>)
    ensures
        values_view(r@) == values_view(vs@),
    decreases vs,
{
    let mut out: Vec<Value> = Vec::new();
    let mut i: usize = 0;
    while i < vs.len()
        invariant
            i <= vs.len(),
            out@.len() == i,
            forall|j: int| 0 <= j < i ==> (#[trigger] out@[j])@ == vs@[j]@,
        decreases vs.len() - i,
    {
        proof {
            assert(decreases_to!(vs => vs@));
            assert(decreases_to!(vs@ => vs@[i as int]));
        }
        let v = vs[i].duplicate();
        out.push(v);
        i = i + 1;
    }
    assert(values_view(out@) =~= values_view(vs@));
    out
}

/// Appends the debug rendering of a list of values.
pub fn push_values_debug(out: &mut Vec<char>, vs: &Vec<Value>)
    ensures
        final(out)@ == old(out)@ + values_debug(values_view(vs@)),
    decreases vs,
{
    let ghost start = out@;
    let ghost w = values_view(vs@);
    push_str(out, "[");
    let mut i: usize = 0;
    while i < vs.len()
        invariant
            i <= vs.len(),
            w == values_view(vs@),
            out@ == start + "["@ + values_debug_prefix(w, i as int),
        decreases vs.len() - i,
    {
        proof {
            assert(decreases_to!(vs => vs@));
            assert(decreases_to!(vs@ => vs@[i as int]));
        }
        if i > 0 {
            push_str(out, ", ");
        }
        vs[i].push_debug(out);
        i = i + 1;
        proof {
            lemma_values_debug_prefix_step(w, i as int);
        }
    }
    push_str(out, "]");
    proof {
        lemma_values_debug_prefix_full(w);
    }
}

/// The debug renderings of the first `n` values, joined with `, `.
pub open spec fn values_debug_prefix(vs: Seq<ValueV>, n: int) -> Seq<char>
    decreases n,
{
    if n <= 0 {
        Seq::empty()
    } else if n == 1 {
        value_debug(vs[0])
    } else {
        values_debug_prefix(vs, n - 1) + ", "@ + value_debug(vs[n - 1])
    }
}

proof fn lemma_values_debug_prefix_step(vs: Seq<ValueV>, n: int)
    requires
        1 <= n,
    ensures
        values_debug_prefix(vs, n) == (if n == 1 { value_debug(vs[0]) } else { values_debug_prefix(vs, n - 1) + ", "@ + value_debug(vs[n - 1]) }),
{
}

proof fn lemma_values_debug_prefix_full(vs: Seq<ValueV>)
    ensures
        values_debug_prefix(vs, vs.len() as int) == values_debug_inner(vs),
    decreases vs.len(),
{
    if vs.len() > 1 {
        lemma_values_debug_prefix_full(vs.drop_first());
        lemma_prefix_shift(vs, vs.len() as int);
    }
}

/// Splitting off the first value of a debug prefix.
proof fn lemma_prefix_shift(vs: Seq<ValueV>, n: int)
    requires
        2 <= n <= vs.len(),
    ensures
        values_debug_prefix(vs, n) == value_debug(vs[0]) + ", "@ + values_debug_prefix(vs.drop_first(), n - 1),
    decreases n,
{
    if n > 2 {
        lemma_prefix_shift(vs, n - 1);
        assert(vs.drop_first()[n - 2] == vs[n - 1]);
        assert(values_debug_prefix(vs.drop_first(), n - 1) == values_debug_prefix(vs.drop_first(), n - 2) + ", "@ + value_debug(vs.drop_first()[n - 2]));
        assert(values_debug_prefix(vs, n) =~= value_debug(vs[0]) + ", "@ + values_debug_prefix(vs.drop_first(), n - 1));
    } else {
        assert(vs.drop_first()[0] == vs[1]);
        assert(values_debug_prefix(vs.drop_first(), 1) == value_debug(vs[1]));
        assert(values_debug_prefix(vs, 1) == value_debug(vs[0]));
        assert(values_debug_prefix(vs, 2) =~= value_debug(vs[0]) + ", "@ + values_debug_prefix(vs.drop_first(), 1));
    }
}

} // verus!

verus! {

/// The value of a variable reference: `name`, or `name.a.b` reached through
/// the accessors after the first dot.
pub open spec fn var_value(st: StateV, name: Seq<char>, held: Option<usize>, line: i32) -> Result<Data, FailureV> {
    let accs = split_dots(name);
    match get_var(st, accs[0], line) {
        Err(e) => Err(e),
        Ok(d) => if accs.len() == 1 {
            Ok(d)
        } else {
            resolve_access_spec(st.heap, d, accs, held, line)
        },
    }
}

/// Why a value could not be shown as text.
pub open spec fn display_reason() -> Seq<char> {
    "displaying a value that is in use or contains itself"@
}

/// The text of a value read for a formatted string: reading what is held is a
/// borrow error.
pub open spec fn shown_value(st: StateV, d: Data, held: Option<usize>, line: i32) -> Result<Seq<char>, FailureV> {
    if held == Some(d.handle) {
        Err(FailureV::BorrowError(line, borrow_reason()))
    } else {
        match value_text(st.heap, d, held) {
            Some(t) => Ok(t),
            None => Err(FailureV::InternalError(display_reason())),
        }
    }
}

/// The text of one part of a formatted string.
pub open spec fn part_text(st: StateV, v: ValueV, held: Option<usize>, line: i32) -> Result<Seq<char>, FailureV> {
    match v {
        ValueV::Lit(l) => Ok(literal_text(l)),
        ValueV::Var(name) => match var_value(st, name, held, line) {
            Err(e) => Err(e),
            Ok(d) => shown_value(st, d, held, line),
        },
        ValueV::Fmt(_) => Err(FailureV::InternalError(
            "building a formatted string, got a formatted string inside a formatted string"@,
        )),
    }
}

/// The text of a formatted string: its parts one after another; the first
/// part that fails gives the error.
pub open spec fn fmt_text(st: StateV, parts: Seq<ValueV>, held: Option<usize>, line: i32) -> Result<Seq<char>, FailureV>
    decreases parts.len(),
{
    if parts.len() == 0 {
        Ok(Seq::empty())
    } else {
        match fmt_text(st, parts.drop_last(), held, line) {
            Err(e) => Err(e),
            Ok(p) => match part_text(st, parts.last(), held, line) {
                Ok(t) => Ok(p + t),
                Err(e) => Err(e),
            },
        }
    }
}

/// What resolving a value gives: a literal gets a new cell, a variable names
/// the cell it is bound to (or reaches), a formatted string gets a new cell
/// holding its text. `held` is the cell a command holds mutably meanwhile.
pub open spec fn resolve_value(st: StateV, v: ValueV, held: Option<usize>, line: i32) -> (StateV, Result<Data, FailureV>) {
    match v {
        ValueV::Lit(l) => (with_cell(st, CellV::Lit(l)), Ok(Data { handle: st.heap.len() as usize })),
        ValueV::Var(name) => (st, var_value(st, name, held, line)),
        ValueV::Fmt(parts) => match fmt_text(st, parts, held, line) {
            Ok(t) => (with_cell(st, CellV::Lit(LiteralV::Str(t))), Ok(Data { handle: st.heap.len() as usize })),
            Err(e) => (st, Err(e)),
        },
    }
}

/// A resolution that succeeds names a cell of the new heap, and the new state
/// extends the old one.
pub open spec fn resolve_ok(st: StateV, v: ValueV, held: Option<usize>, line: i32) -> bool {
    let (st2, r) = resolve_value(st, v, held, line);
    &&& state_wf(st2)
    &&& extends(st2, st)
    &&& (r matches Ok(d) ==> d.handle < st2.heap.len())
}

pub proof fn lemma_var_value_in_heap(st: StateV, name: Seq<char>, held: Option<usize>, line: i32)
    requires
        state_wf(st),
    ensures
        var_value(st, name, held, line) matches Ok(d) ==> d.handle < st.heap.len(),
{
    let accs = split_dots(name);
    lemma_split_dots_nonempty(name);
    crate::literal::lemma_lookup_in(st.vars, accs[0]);
    if let Ok(d) = get_var(st, accs[0], line) {
        if accs.len() > 1 {
            crate::literal::lemma_access_in_heap(st.heap, d, accs.drop_first(), accs[0], held, line);
        }
    }
}

impl VariableMap {
    /// The value of a variable reference; see [`var_value`].
    pub fn var_value(&self, context: &Context, var_name: &str, held: Option<usize>) -> (r: Result<Data, ChimeraRuntimeFailure>)
        requires
            state_wf(self@),
        ensures
            match var_value(self@, var_name@, held, context.current_line) {
                Ok(d) => r == Ok::<Data, ChimeraRuntimeFailure>(d) && d.handle < self@.heap.len(),
                Err(e) => r matches Err(f) && f@ == e,
            },
    {
        let accessors = split_dots_of(var_name);
        proof { lemma_var_value_in_heap(self@, var_name@, held, context.current_line); }
        let value = self.get(context, accessors[0].as_str())?;
        if accessors.len() == 1 {
            Ok(value)
        } else {
            value.resolve_access(&self.heap, &accessors, context, held)
        }
    }

    /// The text of a value for a formatted string; see [`shown_value`].
    pub fn shown_value(&self, context: &Context, d: Data, held: Option<usize>) -> (r: Result<String, ChimeraRuntimeFailure>)
        requires
            state_wf(self@),
            d.handle < self@.heap.len(),
        ensures
            match shown_value(self@, d, held, context.current_line) {
                Ok(t) => r matches Ok(s) && s@ == t,
                Err(e) => r matches Err(f) && f@ == e,
            },
    {
        let _ = d.borrow(&self.heap, context, held)?;
        match self.heap.value_text(d, held) {
            Some(t) => Ok(t),
            None => Err(ChimeraRuntimeFailure::InternalError(
                "displaying a value that is in use or contains itself".to_owned(),
            )),
        }
    }
}

impl Value {
    /// Resolves this value; see [`resolve_value`].
    pub fn resolve(&self, context: &Context, variable_map: &mut VariableMap, held: Option<usize>) -> (r: Result<Data, ChimeraRuntimeFailure>)
        requires
            state_wf(old(variable_map)@),
        ensures
            resolve_value(old(variable_map)@, self@, held, context.current_line).0 == final(variable_map)@,
            resolve_ok(old(variable_map)@, self@, held, context.current_line),
            match resolve_value(old(variable_map)@, self@, held, context.current_line).1 {
                Ok(d) => r == Ok::<Data, ChimeraRuntimeFailure>(d),
                Err(e) => r matches Err(f) && f@ == e,
            },
    {
        let ghost st = variable_map@;
        match self {
            Value::Literal(val) => {
                let d = Data::from_literal(&mut variable_map.heap, val.duplicate());
                proof {
                    lemma_with_cell_wf(st, CellV::Lit(val@));
                    assert(variable_map@ == with_cell(st, CellV::Lit(val@)));
                }
                Ok(d)
            },
            Value::Variable(var_name) => variable_map.var_value(context, var_name.as_str(), held),
            Value::FormattedString(formatted_string) => {
                proof { lemma_fmt_view(formatted_string); }
                let mut built: Vec<char> = Vec::new();
                let ghost parts = values_view(formatted_string@);
                assert(self@ == ValueV::Fmt(parts));
                assert(st == old(variable_map)@);
                let mut i: usize = 0;
                assert(parts.take(0) =~= Seq::<ValueV>::empty());
                while i < formatted_string.len()
                    invariant
                        i <= formatted_string.len(),
                        variable_map@ == st,
                        st == old(variable_map)@,
                        self@ == ValueV::Fmt(parts),
                        state_wf(st),
                        parts == values_view(formatted_string@),
                        fmt_text(st, parts.take(i as int), held, context.current_line) == Ok::<Seq<char>, FailureV>(built@),
                    decreases formatted_string.len() - i,
                {
                    assert(parts.take(i + 1).drop_last() =~= parts.take(i as int));
                    assert(parts.take(i + 1).last() == formatted_string@[i as int]@);
                    match &formatted_string[i] {
                        Value::Literal(literal) => {
                            literal.push_text(&mut built);
                        },
                        Value::Variable(var_name) => {
                            let resolved = match variable_map.var_value(context, var_name.as_str(), held) {
                                Ok(d) => d,
                                Err(e) => {
                                    proof {
                                        assert(part_text(st, parts[i as int], held, context.current_line) == Err::<Seq<char>, FailureV>(e@));
                                        lemma_fmt_text_err(st, parts, held, context.current_line, i as int + 1);
                                    }
                                    return Err(e);
                                },
                            };
                            let shown = match variable_map.shown_value(context, resolved, held) {
                                Ok(t) => t,
                                Err(e) => {
                                    proof { lemma_fmt_text_err(st, parts, held, context.current_line, i as int + 1); }
                                    return Err(e);
                                },
                            };
                            push_str(&mut built, shown.as_str());
                        },
                        Value::FormattedString(_) => {
                            proof { lemma_fmt_text_err(st, parts, held, context.current_line, i as int + 1); }
                            return Err(ChimeraRuntimeFailure::InternalError(
                                "building a formatted string, got a formatted string inside a formatted string".to_owned(),
                            ));
                        },
                    }
                    i = i + 1;
                }
                assert(parts.take(i as int) =~= parts);
                let s = chars_to_string(&built);
                let d = Data::from_literal(&mut variable_map.heap, Literal::String(s));
                proof {
                    lemma_with_cell_wf(st, CellV::Lit(LiteralV::Str(built@)));
                    assert(variable_map@ == with_cell(st, CellV::Lit(LiteralV::Str(built@))));
                }
                Ok(d)
            },
        }
    }
}

/// Once a prefix of the parts fails, the whole formatted string fails the same way.
pub proof fn lemma_fmt_text_err(st: StateV, parts: Seq<ValueV>, held: Option<usize>, line: i32, n: int)
    requires
        0 < n <= parts.len(),
        fmt_text(st, parts.take(n), held, line) is Err,
    ensures
        fmt_text(st, parts, held, line) == fmt_text(st, parts.take(n), held, line),
    decreases parts.len() - n,
{
    if n < parts.len() {
        assert(parts.take(n + 1).drop_last() =~= parts.take(n));
        lemma_fmt_text_err(st, parts, held, line, n + 1);
    } else {
        assert(parts.take(n) =~= parts);
    }
}

} // verus!

verus! {

/// Resolving a value in a well-formed state keeps it well formed and only adds cells.
pub proof fn lemma_resolve_ok(st: StateV, v: ValueV, held: Option<usize>, line: i32)
    requires
        state_wf(st),
    ensures
        resolve_ok(st, v, held, line),
{
    match v {
        ValueV::Lit(l) => {
            lemma_with_cell_wf(st, CellV::Lit(l));
        },
        ValueV::Var(name) => {
            lemma_var_value_in_heap(st, name, held, line);
        },
        ValueV::Fmt(parts) => {
            if let Ok(t) = fmt_text(st, parts, held, line) {
                lemma_with_cell_wf(st, CellV::Lit(LiteralV::Str(t)));
            }
        },
    }
}

} // verus!
