//! The errors of the library: command-line errors, compile errors of a script,
//! and the failures that stop a test while it runs.
use vstd::prelude::*;
use crate::text::{chars_to_string, int_text, nat_digits, push_i64, push_str, push_u64};

verus! {

/// `n` spaces.
pub open spec fn spaces(n: nat) -> Seq<char> {
    Seq::new(n, |i: int| ' ')
}

/// Appends `n` spaces.
pub fn push_spaces(out: &mut Vec<char>, n: usize)
    ensures
        final(out)@ == old(out)@ + spaces(n as nat),
{
    let ghost start = out@;
    let mut i: usize = 0;
    while i < n
        invariant
            i <= n,
            out@ == start + spaces(i as nat),
        decreases n - i,
    {
        out.push(' ');
        i = i + 1;
        assert(out@ =~= start + spaces(i as nat));
    }
}

/// An error met by the command-line front end.
#[derive(Debug)]
pub struct CLIError {
    pub error_msg: String,
    /// Set when the error was already reported to the user.
    pub already_reported: bool,
}

impl CLIError {
    pub fn new(error_msg: String, already_reported: bool) -> (r: Self)
        ensures
            r.error_msg@ == error_msg@,
            r.already_reported == already_reported,
    {
        Self { error_msg, already_reported }
    }

    /// The line that reports this error: `ERROR: ` and the message.
    pub fn error_line(&self) -> (r: String)
        ensures
            r@ == error_line_text(self.error_msg@),
    {
        error_line(self.error_msg.as_str())
    }
}

/// The line that reports an error message.
pub open spec fn error_line_text(msg: Seq<char>) -> Seq<char> {
    "ERROR: "@ + msg
}

/// The line that reports an error message: `ERROR: ` and the message.
pub fn error_line(err_msg: &str) -> (r: String)
    ensures
        r@ == error_line_text(err_msg@),
{
    let mut out: Vec<char> = Vec::new();
    push_str(&mut out, "ERROR: ");
    push_str(&mut out, err_msg);
    assert(out@ =~= error_line_text(err_msg@));
    chars_to_string(&out)
}

/// A script that does not follow the grammar, with the place where it stops.
#[derive(Debug)]
pub struct ChimeraCompileError {
    pub error_msg: String,
    pub line: usize,
    pub column: usize,
}

impl ChimeraCompileError {
    pub fn new(error_str: &str, line_col: (usize, usize)) -> (r: Self)
        ensures
            r.error_msg@ == error_str@,
            r.line == line_col.0,
            r.column == line_col.1,
    {
        ChimeraCompileError { error_msg: error_str.to_owned(), line: line_col.0, column: line_col.1 }
    }

    pub open spec fn message_text(&self) -> Seq<char> {
        "Failed to compile ChimeraScript with error '"@ + self.error_msg@ + "' on line "@
            + nat_digits(self.line as nat) + " column "@ + nat_digits(self.column as nat)
    }

    /// The text that reports this error.
    pub fn message(&self) -> (r: String)
        ensures
            r@ == self.message_text(),
    {
        let mut out: Vec<char> = Vec::new();
        push_str(&mut out, "Failed to compile ChimeraScript with error '");
        push_str(&mut out, self.error_msg.as_str());
        push_str(&mut out, "' on line ");
        push_u64(&mut out, self.line as u64);
        push_str(&mut out, " column ");
        push_u64(&mut out, self.column as u64);
        assert(out@ =~= self.message_text());
        chars_to_string(&out)
    }
}

/// The kinds of value that a command may expect.
#[derive(Debug, Clone, Copy, PartialEq, Eq, Structural)]
pub enum VarTypes {
    Number,
    Unsigned,
    String,
    HttpResponse,
    List,
    Containable,
    Literal,
}

impl VarTypes {
    pub open spec fn name_text(self) -> Seq<char> {
        match self {
            VarTypes::Number => "Number"@,
            VarTypes::Unsigned => "Unsigned Integer"@,
            VarTypes::String => "String"@,
            VarTypes::HttpResponse => "HttpResponse"@,
            VarTypes::List => "List"@,
            VarTypes::Containable => "List or Object"@,
            VarTypes::Literal => "Literal (number, bool, string, or null)"@,
        }
    }

    /// The name of the kind, as the error messages show it.
    pub fn name(&self) -> (r: &'static str)
        ensures
            r@ == self.name_text(),
    {
        match self {
            VarTypes::Number => "Number",
            VarTypes::Unsigned => "Unsigned Integer",
            VarTypes::String => "String",
            VarTypes::HttpResponse => "HttpResponse",
            VarTypes::List => "List",
            VarTypes::Containable => "List or Object",
            VarTypes::Literal => "Literal (number, bool, string, or null)",
        }
    }
}

/// What stops a test while it runs. `TestFailure` is a failed assertion;
/// every other variant is an error.
#[derive(Debug)]
pub enum ChimeraRuntimeFailure {
    VarNotFound(String, i32),
    VarWrongType(String, VarTypes, i32),
    TestFailure(String, i32),
    InternalError(String),
    WebRequestFailure(String, i32),
    BadSubfieldAccess(Option<String>, String, i32),
    TriedToIndexWithNonNumber(i32),
    OutOfBounds(i32),
    BorrowError(i32, String),
    InvalidHeader(i32, String),
}

/// The value of a failure, its texts taken as character sequences.
pub enum FailureV {
    VarNotFound(Seq<char>, i32),
    VarWrongType(Seq<char>, VarTypes, i32),
    TestFailure(Seq<char>, i32),
    InternalError(Seq<char>),
    WebRequestFailure(Seq<char>, i32),
    BadSubfieldAccess(Option<Seq<char>>, Seq<char>, i32),
    TriedToIndexWithNonNumber(i32),
    OutOfBounds(i32),
    BorrowError(i32, Seq<char>),
    InvalidHeader(i32, Seq<char>),
}

impl View for ChimeraRuntimeFailure {
    type V = FailureV;

    open spec fn view(&self) -> FailureV {
        match self {
            ChimeraRuntimeFailure::VarNotFound(a, l) => FailureV::VarNotFound(a@, *l),
            ChimeraRuntimeFailure::VarWrongType(a, t, l) => FailureV::VarWrongType(a@, *t, *l),
            ChimeraRuntimeFailure::TestFailure(a, l) => FailureV::TestFailure(a@, *l),
            ChimeraRuntimeFailure::InternalError(a) => FailureV::InternalError(a@),
            ChimeraRuntimeFailure::WebRequestFailure(a, l) => FailureV::WebRequestFailure(a@, *l),
            ChimeraRuntimeFailure::BadSubfieldAccess(v, a, l) => FailureV::BadSubfieldAccess(
                match v { Some(x) => Some(x@), None => None },
                a@,
                *l,
            ),
            ChimeraRuntimeFailure::TriedToIndexWithNonNumber(l) => FailureV::TriedToIndexWithNonNumber(*l),
            ChimeraRuntimeFailure::OutOfBounds(l) => FailureV::OutOfBounds(*l),
            ChimeraRuntimeFailure::BorrowError(l, a) => FailureV::BorrowError(*l, a@),
            ChimeraRuntimeFailure::InvalidHeader(l, a) => FailureV::InvalidHeader(*l, a@),
        }
    }
}

/// Two failures are equal when they are the same variant, whatever they hold.
impl PartialEq for ChimeraRuntimeFailure {
    fn eq(&self, other: &Self) -> (r: bool) {
        self.variant_index() == other.variant_index()
    }
}

impl vstd::std_specs::cmp::PartialEqSpecImpl for ChimeraRuntimeFailure {
    open spec fn obeys_eq_spec() -> bool {
        true
    }

    open spec fn eq_spec(&self, other: &Self) -> bool {
        self.variant_number() == other.variant_number()
    }
}

/// The text that reports a failure.
pub open spec fn failure_message(f: FailureV) -> Seq<char> {
    match f {
        FailureV::TestFailure(msg, line) =>
            "FAILURE on line "@ + int_text(line as int) + ": "@ + msg,
        FailureV::VarNotFound(var_name, line) =>
            "ERROR on line "@ + int_text(line as int) + ": var '"@ + var_name
                + "' was accessed but is not set"@,
        FailureV::VarWrongType(var_name, expected, line) =>
            "ERROR on line "@ + int_text(line as int) + ": '"@ + var_name
                + "' was expected to be of type "@ + expected.name_text() + " but it was not"@,
        FailureV::InternalError(action) => "Internal error while "@ + action,
        FailureV::WebRequestFailure(endpoint, line) =>
            "ERROR on line "@ + int_text(line as int)
                + ": Failed to make request for endpoint '"@ + endpoint + "'"@,
        FailureV::BadSubfieldAccess(var_name, subfield, line) => match var_name {
            Some(v) =>
                "ERROR on line "@ + int_text(line as int) + ": Failed to access subfield '"@
                    + subfield + "' for variable '"@ + v + "'"@,
            None =>
                "ERROR on line "@ + int_text(line as int) + ": Failed to access subfield '"@
                    + subfield + "'"@,
        },
        FailureV::TriedToIndexWithNonNumber(line) =>
            "ERROR on line "@ + int_text(line as int)
                + ": Arrays can only be indexed with an unsigned integer"@,
        FailureV::OutOfBounds(line) =>
            "ERROR on line "@ + int_text(line as int)
                + ": Tried to access an array with an out-of-bounds value"@,
        FailureV::BorrowError(line, reason) =>
            "ERROR on line "@ + int_text(line as int) + ": "@ + reason,
        FailureV::InvalidHeader(line, header) =>
            "ERROR on line "@ + int_text(line as int) + ": Header '"@ + header
                + "' is not valid"@,
    }
}

impl ChimeraRuntimeFailure {
    /// The position of the variant in the declaration.
    pub open spec fn variant_number(&self) -> nat {
        match self {
            ChimeraRuntimeFailure::VarNotFound(_, _) => 0,
            ChimeraRuntimeFailure::VarWrongType(_, _, _) => 1,
            ChimeraRuntimeFailure::TestFailure(_, _) => 2,
            ChimeraRuntimeFailure::InternalError(_) => 3,
            ChimeraRuntimeFailure::WebRequestFailure(_, _) => 4,
            ChimeraRuntimeFailure::BadSubfieldAccess(_, _, _) => 5,
            ChimeraRuntimeFailure::TriedToIndexWithNonNumber(_) => 6,
            ChimeraRuntimeFailure::OutOfBounds(_) => 7,
            ChimeraRuntimeFailure::BorrowError(_, _) => 8,
            ChimeraRuntimeFailure::InvalidHeader(_, _) => 9,
        }
    }

    /// The position of the variant in the declaration.
    pub fn variant_index(&self) -> (r: u8)
        ensures
            r == self.variant_number(),
    {
        match self {
            ChimeraRuntimeFailure::VarNotFound(_, _) => 0,
            ChimeraRuntimeFailure::VarWrongType(_, _, _) => 1,
            ChimeraRuntimeFailure::TestFailure(_, _) => 2,
            ChimeraRuntimeFailure::InternalError(_) => 3,
            ChimeraRuntimeFailure::WebRequestFailure(_, _) => 4,
            ChimeraRuntimeFailure::BadSubfieldAccess(_, _, _) => 5,
            ChimeraRuntimeFailure::TriedToIndexWithNonNumber(_) => 6,
            ChimeraRuntimeFailure::OutOfBounds(_) => 7,
            ChimeraRuntimeFailure::BorrowError(_, _) => 8,
            ChimeraRuntimeFailure::InvalidHeader(_, _) => 9,
        }
    }

    pub open spec fn variant_name_text(&self) -> Seq<char> {
        match self {
            ChimeraRuntimeFailure::VarNotFound(_, _) => "VarNotFound"@,
            ChimeraRuntimeFailure::VarWrongType(_, _, _) => "VarWrongType"@,
            ChimeraRuntimeFailure::TestFailure(_, _) => "TestFailure"@,
            ChimeraRuntimeFailure::InternalError(_) => "InternalError"@,
            ChimeraRuntimeFailure::WebRequestFailure(_, _) => "WebRequestFailure"@,
            ChimeraRuntimeFailure::BadSubfieldAccess(_, _, _) => "BadSubfieldAccess"@,
            ChimeraRuntimeFailure::TriedToIndexWithNonNumber(_) => "TriedToIndexWithNonNumber"@,
            ChimeraRuntimeFailure::OutOfBounds(_) => "OutOfBounds"@,
            ChimeraRuntimeFailure::BorrowError(_, _) => "BorrowError"@,
            ChimeraRuntimeFailure::InvalidHeader(_, _) => "InvalidHeader"@,
        }
    }

    /// The name of the variant.
    pub fn get_variant_name(&self) -> (r: &'static str)
        ensures
            r@ == self.variant_name_text(),
    {
        match self {
            ChimeraRuntimeFailure::VarNotFound(_, _) => "VarNotFound",
            ChimeraRuntimeFailure::VarWrongType(_, _, _) => "VarWrongType",
            ChimeraRuntimeFailure::TestFailure(_, _) => "TestFailure",
            ChimeraRuntimeFailure::InternalError(_) => "InternalError",
            ChimeraRuntimeFailure::WebRequestFailure(_, _) => "WebRequestFailure",
            ChimeraRuntimeFailure::BadSubfieldAccess(_, _, _) => "BadSubfieldAccess",
            ChimeraRuntimeFailure::TriedToIndexWithNonNumber(_) => "TriedToIndexWithNonNumber",
            ChimeraRuntimeFailure::OutOfBounds(_) => "OutOfBounds",
            ChimeraRuntimeFailure::BorrowError(_, _) => "BorrowError",
            ChimeraRuntimeFailure::InvalidHeader(_, _) => "InvalidHeader",
        }
    }

    /// Whether this failure is a failed assertion rather than an error.
    pub open spec fn is_test_failure(&self) -> bool {
        self is TestFailure
    }

    /// The text that reports this failure.
    pub open spec fn message_text(&self) -> Seq<char> {
        failure_message(self@)
    }

    /// Appends the text that reports this failure.
    pub fn push_message(&self, out: &mut Vec<char>)
        ensures
            final(out)@ == old(out)@ + self.message_text(),
    {
        let ghost start = out@;
        match self {
            ChimeraRuntimeFailure::TestFailure(msg, line) => {
                push_str(out, "FAILURE on line ");
                push_i64(out, *line as i64);
                push_str(out, ": ");
                push_str(out, msg.as_str());
            },
            ChimeraRuntimeFailure::VarNotFound(var_name, line) => {
                push_str(out, "ERROR on line ");
                push_i64(out, *line as i64);
                push_str(out, ": var '");
                push_str(out, var_name.as_str());
                push_str(out, "' was accessed but is not set");
            },
            ChimeraRuntimeFailure::VarWrongType(var_name, expected, line) => {
                push_str(out, "ERROR on line ");
                push_i64(out, *line as i64);
                push_str(out, ": '");
                push_str(out, var_name.as_str());
                push_str(out, "' was expected to be of type ");
                push_str(out, expected.name());
                push_str(out, " but it was not");
            },
            ChimeraRuntimeFailure::InternalError(action) => {
                push_str(out, "Internal error while ");
                push_str(out, action.as_str());
            },
            ChimeraRuntimeFailure::WebRequestFailure(endpoint, line) => {
                push_str(out, "ERROR on line ");
                push_i64(out, *line as i64);
                push_str(out, ": Failed to make request for endpoint '");
                push_str(out, endpoint.as_str());
                push_str(out, "'");
            },
            ChimeraRuntimeFailure::BadSubfieldAccess(var_name, subfield, line) => {
                push_str(out, "ERROR on line ");
                push_i64(out, *line as i64);
                push_str(out, ": Failed to access subfield '");
                push_str(out, subfield.as_str());
                match var_name {
                    Some(v) => {
                        push_str(out, "' for variable '");
                        push_str(out, v.as_str());
                        push_str(out, "'");
                    },
                    None => {
                        push_str(out, "'");
                    },
                }
            },
            ChimeraRuntimeFailure::TriedToIndexWithNonNumber(line) => {
                push_str(out, "ERROR on line ");
                push_i64(out, *line as i64);
                push_str(out, ": Arrays can only be indexed with an unsigned integer");
            },
            ChimeraRuntimeFailure::OutOfBounds(line) => {
                push_str(out, "ERROR on line ");
                push_i64(out, *line as i64);
                push_str(out, ": Tried to access an array with an out-of-bounds value");
            },
            ChimeraRuntimeFailure::BorrowError(line, reason) => {
                push_str(out, "ERROR on line ");
                push_i64(out, *line as i64);
                push_str(out, ": ");
                push_str(out, reason.as_str());
            },
            ChimeraRuntimeFailure::InvalidHeader(line, header) => {
                push_str(out, "ERROR on line ");
                push_i64(out, *line as i64);
                push_str(out, ": Header '");
                push_str(out, header.as_str());
                push_str(out, "' is not valid");
            },
        }
        assert(out@ =~= start + self.message_text());
    }

    /// The text that reports this failure.
    pub fn message(&self) -> (r: String)
        ensures
            r@ == self.message_text(),
    {
        let mut out: Vec<char> = Vec::new();
        self.push_message(&mut out);
        assert(out@ =~= self.message_text());
        chars_to_string(&out)
    }

    /// The line that reports this failure inside a test printed at depth
    /// `padding`: `padding + 1` spaces, then the message.
    pub fn error_line(&self, padding: usize) -> (r: String)
        requires
            padding < usize::MAX,
        ensures
            r@ == spaces((padding + 1) as nat) + self.message_text(),
    {
        let mut out: Vec<char> = Vec::new();
        push_spaces(&mut out, padding + 1);
        self.push_message(&mut out);
        assert(out@ =~= spaces((padding + 1) as nat) + self.message_text());
        chars_to_string(&out)
    }
}

} // verus!
