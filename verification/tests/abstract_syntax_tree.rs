use chimerascript::abstract_syntax_tree::{
    AssertCommand, AssertSubCommand, Expression, HTTPVerb, HttpCommand, ListCommandOperations, ListExpression,
    MutateListOperations, Statement, Value,
};
use chimerascript::grammar::parse_statement;
use chimerascript::literal::{Float, Literal, NumberKind};

fn decode(t: &str) -> Float {
    let f: f64 = t.parse().unwrap();
    Float::new(f.to_bits(), format!("{}", f))
}

fn float_number(f: f64) -> NumberKind {
    NumberKind::F64(Float::new(f.to_bits(), format!("{}", f)))
}

fn str_to_statement(input: &str) -> Statement {
    parse_statement(input, &decode).expect("Failed to convert a ChimeraScript string into a Statement")
}

fn as_assert(statement: Statement) -> AssertCommand {
    match statement {
        Statement::AssertCommand(assert_cmd) => assert_cmd,
        _ => panic!("tried to use a Statement as an AssertCommand when it was not one"),
    }
}

fn as_http(statement: Statement) -> HttpCommand {
    match statement {
        Statement::Expression(Expression::HttpCommand(http_command)) => http_command,
        _ => panic!("tried to use a Statement as an HttpCommand when it was not one"),
    }
}

fn as_list(statement: Statement) -> ListExpression {
    match statement {
        Statement::Expression(Expression::List(list_command)) => list_command,
        _ => panic!("tried to use a Statement as a ListExpression when it was not one"),
    }
}

fn as_literal(statement: Statement) -> Literal {
    match statement {
        Statement::Expression(Expression::Literal(literal)) => literal,
        _ => panic!("tried to use a Statement as a Literal when it was not one"),
    }
}

fn string_value(s: &str) -> Value {
    Value::Literal(Literal::String(s.to_owned()))
}

#[test]
fn simple_parse() {
    match str_to_statement("ASSERT EQUALS 1 1;") {
        Statement::AssertCommand(assert_command) => {
            assert_eq!(assert_command.negate_assertion, false, "negate_assertion should be false for an assertion which does not contain 'NOT'.");
            assert_eq!(assert_command.subcommand, AssertSubCommand::Equals, "Assertion using EQUALS should have an AssertSubCommand::Equals subcommand.");
            assert_eq!(assert_command.left_value, Value::Literal(Literal::Number(NumberKind::U64(1))), "Assertion with a numerical literal should have a Literal::Int() value.");
            assert_eq!(assert_command.right_value, Value::Literal(Literal::Number(NumberKind::U64(1))));
            assert!(assert_command.error_message.is_none(), "Assertion error_message should be None when no message is specified.");
        }
        _ => panic!("An ASSERT statement was not resolved into a Statement::AssertCommand."),
    }
}

#[test]
fn multiline_statement() {
    str_to_statement("ASSERT EQUALS \n\n 1 \n 1;");
}

#[test]
fn abstract_syntax_tree_comments() {
    let assertion_with_comment = as_assert(str_to_statement("ASSERT EQUALS 1 1; //this assertion ends with a comment"));
    assert_eq!(assertion_with_comment.subcommand, AssertSubCommand::Equals);

    let assertion_with_midline_comment = as_assert(str_to_statement("ASSERT EQUALS 1 /*this is a midline comment*/ 1;"));
    assert_eq!(assertion_with_midline_comment.subcommand, AssertSubCommand::Equals);
    assert_eq!(assertion_with_midline_comment.left_value, Value::Literal(Literal::Number(NumberKind::U64(1))));
    assert_eq!(assertion_with_midline_comment.right_value, Value::Literal(Literal::Number(NumberKind::U64(1))));
}

#[test]
fn full_equality_assertion() {
    match str_to_statement("ASSERT NOT EQUALS 1 2 \"foo\";") {
        Statement::AssertCommand(assert_command) => {
            assert!(assert_command.negate_assertion, "negate_assertion should be true for an assertion which contains 'NOT'.");
            assert_eq!(assert_command.subcommand, AssertSubCommand::Equals, "Assertion using EQUALS should have an AssertSubCommand::Equals subcommand.");
            assert_eq!(assert_command.left_value, Value::Literal(Literal::Number(NumberKind::U64(1))));
            assert_eq!(assert_command.right_value, Value::Literal(Literal::Number(NumberKind::U64(2))));
            assert!(assert_command.error_message.is_some(), "Assertion error_message should be Some() when message is specified.");
            assert_eq!(assert_command.error_message.unwrap(), string_value("foo"), "Assertion error message was not a Literal::String equal to the supplied message");
        }
        _ => panic!("An ASSERT statement was not resolved into a Statement::AssertCommand"),
    }
}

#[test]
fn formatted_string_assertion() {
    match str_to_statement("ASSERT EQUALS \"normal str\" \"(var_str)\" \"This is an error (message) with words\";") {
        Statement::AssertCommand(assert_command) => {
            assert_eq!(assert_command.left_value, string_value("normal str"), "Assertion lhs should be a string literal when using a QuoteString");
            assert_eq!(assert_command.right_value, Value::FormattedString(vec![Value::Variable("var_str".to_owned())]));
            assert!(assert_command.error_message.is_some());
            assert_eq!(
                assert_command.error_message.unwrap(),
                Value::FormattedString(vec![
                    string_value("This is an error "),
                    Value::Variable("message".to_owned()),
                    string_value(" with words"),
                ])
            );
        }
        _ => panic!("An ASSERT statement was not resolved into a Statement::AssertCommand when using formatted strings"),
    }
}

#[test]
fn formatted_string_expression() {
    match str_to_statement("FORMAT_STR \"this is a (formatted) string with some (variable_names)\";") {
        Statement::Expression(Expression::FormattedString(formatted_string)) => {
            assert_eq!(formatted_string.len(), 4);
            assert_eq!(
                formatted_string,
                vec![
                    string_value("this is a "),
                    Value::Variable("formatted".to_owned()),
                    string_value(" string with some "),
                    Value::Variable("variable_names".to_owned()),
                ]
            );
        }
        _ => panic!("A FORMAT_STR statement was not resolved into an Expression::FormattedString"),
    }
}

#[test]
fn special_string_characters() {
    match as_literal(str_to_statement("LITERAL \"this is a, wordy, string. It has punctuation! Wow!@#$%^&*-=+<>?\";")) {
        Literal::String(literal_string) => assert_eq!(
            literal_string,
            "this is a, wordy, string. It has punctuation! Wow!@#$%^&*-=+<>?".to_owned(),
            "Failed to assert equality on a string which uses special characters"
        ),
        _ => panic!("A LITERAL statement with a string containing special characters was not resolved into a Literal::String"),
    }
}

#[test]
fn literal_values() {
    let trees: Vec<Literal> = [
        "LITERAL \"this is a string\";",
        "LITERAL \"foo\";",
        "LITERAL 5;",
        "LITERAL 0;",
        "LITERAL -10;",
        "LITERAL 5.5;",
        "LITERAL -10.7;",
        "LITERAL true;",
        "LITERAL True;",
        "LITERAL false;",
        "LITERAL False;",
        "LITERAL null;",
        "LITERAL Null;",
    ]
    .into_iter()
    .map(|x| as_literal(str_to_statement(x)))
    .collect();
    assert_eq!(trees.len(), 13);
    assert_eq!(trees[0], Literal::String("this is a string".to_owned()));
    assert_eq!(trees[1], Literal::String("foo".to_owned()));
    assert_eq!(trees[2], Literal::Number(NumberKind::U64(5u64)));
    assert_eq!(trees[3], Literal::Number(NumberKind::U64(0u64)));
    assert_eq!(trees[4], Literal::Number(NumberKind::I64(-10i64)));
    assert_eq!(trees[5], Literal::Number(float_number(5.5f64)));
    assert_eq!(trees[6], Literal::Number(float_number(-10.7f64)));
    assert_eq!(trees[7], Literal::Bool(true));
    assert_eq!(trees[8], Literal::Bool(true));
    assert_eq!(trees[9], Literal::Bool(false));
    assert_eq!(trees[10], Literal::Bool(false));
    assert_eq!(trees[11], Literal::Null);
    assert_eq!(trees[12], Literal::Null);
}

#[test]
fn assertion_subcommands() {
    let trees: Vec<AssertCommand> = [
        "ASSERT EQUALS 1 1;",
        "ASSERT GTE 1 1;",
        "ASSERT GT 1 1;",
        "ASSERT LTE 1 1;",
        "ASSERT LT 1 1;",
        "ASSERT STATUS 1 1;",
        "ASSERT LENGTH (foo) 1;",
        "ASSERT CONTAINS (foo) 1;",
    ]
    .into_iter()
    .map(|x| as_assert(str_to_statement(x)))
    .collect();
    assert_eq!(trees.len(), 8);
    assert_eq!(trees[0].subcommand, AssertSubCommand::Equals);
    assert_eq!(trees[1].subcommand, AssertSubCommand::GTE);
    assert_eq!(trees[2].subcommand, AssertSubCommand::GT);
    assert_eq!(trees[3].subcommand, AssertSubCommand::LTE);
    assert_eq!(trees[4].subcommand, AssertSubCommand::LT);
    assert_eq!(trees[5].subcommand, AssertSubCommand::Status);
    assert_eq!(trees[6].subcommand, AssertSubCommand::Length);
    assert_eq!(trees[7].subcommand, AssertSubCommand::Contains);
}

#[test]
fn assertion_values() {
    let assertion = as_assert(str_to_statement("ASSERT EQUALS (foo) 1;"));
    assert_eq!(assertion.left_value, Value::Variable("foo".to_owned()));
    assert_eq!(assertion.right_value, Value::Literal(Literal::Number(NumberKind::U64(1))));
}

#[test]
fn print_statement() {
    match str_to_statement("PRINT 5;") {
        Statement::PrintCommand(val) => assert_eq!(val, Value::Literal(Literal::Number(NumberKind::U64(5)))),
        _ => panic!("Statement for a PRINT did not resolve to the correct variant."),
    }
}

#[test]
fn assignment_expression() {
    match str_to_statement("var foo = LITERAL 5;") {
        Statement::AssignmentExpr(assignment_expr) => {
            assert_eq!(assignment_expr.var_name, "foo".to_owned());
            match assignment_expr.expression {
                Expression::Literal(Literal::Number(numberkind)) => assert_eq!(numberkind, NumberKind::U64(5)),
                _ => panic!("Expected a LITERAL expression for a '5' to resolve as a Literal::Number but it did not"),
            }
        }
        _ => panic!("Statement for an assignment expression did not resolve to the correct variant."),
    }
}

#[test]
fn http_expression() {
    let http_commands: Vec<HttpCommand> = ["GET /foo/bar;", "PUT /foo;", "POST /foo;", "DELETE /foo;"]
        .into_iter()
        .map(|x| as_http(str_to_statement(x)))
        .collect();
    assert_eq!(http_commands.len(), 4);
    assert_eq!(http_commands[0].verb, HTTPVerb::Get);
    assert_eq!(http_commands[0].path, vec![string_value("/foo/bar")]);
    assert_eq!(http_commands[1].verb, HTTPVerb::Put);
    assert_eq!(http_commands[2].verb, HTTPVerb::Post);
    assert_eq!(http_commands[3].verb, HTTPVerb::Delete);

    let with_path_assignments = as_http(str_to_statement("GET /foo/bar/baz?foo=5&another=\"bar\"&boolean=true&with_var=(some_var);"));
    assert_eq!(with_path_assignments.path, vec![string_value("/foo/bar/baz")]);
    assert_eq!(with_path_assignments.query_params.len(), 4);
    assert_eq!(with_path_assignments.query_params[0].lhs, "foo");
    assert_eq!(with_path_assignments.query_params[0].rhs, Value::Literal(Literal::Number(NumberKind::U64(5))));
    assert_eq!(with_path_assignments.query_params[1].lhs, "another");
    assert_eq!(with_path_assignments.query_params[1].rhs, string_value("bar"));
    assert_eq!(with_path_assignments.query_params[2].lhs, "boolean");
    assert_eq!(with_path_assignments.query_params[2].rhs, Value::Literal(Literal::Bool(true)));
    assert_eq!(with_path_assignments.query_params[3].lhs, "with_var");
    assert_eq!(with_path_assignments.query_params[3].rhs, Value::Variable("some_var".to_owned()));

    let full_expression = as_http(str_to_statement("GET /foo/bar/baz?foo=5&another=\"bar\" some_num=5 some_str=\"value\" timeout=>60 boolKey=>false;"));
    assert_eq!(full_expression.verb, HTTPVerb::Get);
    assert_eq!(full_expression.path, vec![string_value("/foo/bar/baz")]);
    assert_eq!(full_expression.query_params.len(), 2);
    assert_eq!(full_expression.query_params[0].lhs, "foo");
    assert_eq!(full_expression.query_params[0].rhs, Value::Literal(Literal::Number(NumberKind::U64(5))));
    assert_eq!(full_expression.query_params[1].lhs, "another");
    assert_eq!(full_expression.query_params[1].rhs, string_value("bar"));
    assert_eq!(full_expression.http_assignments.len(), 2);
    assert_eq!(full_expression.http_assignments[0].lhs, "some_num".to_owned());
    assert_eq!(full_expression.http_assignments[0].rhs, Value::Literal(Literal::Number(NumberKind::U64(5))));
    assert_eq!(full_expression.key_val_pairs.len(), 2);
    assert_eq!(full_expression.key_val_pairs[0].key, "timeout".to_owned());
    assert_eq!(full_expression.key_val_pairs[0].value, Value::Literal(Literal::Number(NumberKind::U64(60))));

    let endpoint_with_variable = as_http(str_to_statement("GET /foo/beginning(some_var)end/(another_var)/ending?foo=5&bar=10;"));
    assert_eq!(endpoint_with_variable.path.len(), 5);
    assert_eq!(endpoint_with_variable.path[0], string_value("/foo/beginning"));
    assert_eq!(endpoint_with_variable.path[1], Value::Variable("some_var".to_owned()));
    assert_eq!(endpoint_with_variable.path[2], string_value("end/"));
    assert_eq!(endpoint_with_variable.path[3], Value::Variable("another_var".to_owned()));
    assert_eq!(endpoint_with_variable.path[4], string_value("/ending"));
    assert_eq!(endpoint_with_variable.query_params.len(), 2);
    assert_eq!(endpoint_with_variable.query_params[0].lhs, "foo");
    assert_eq!(endpoint_with_variable.query_params[0].rhs, Value::Literal(Literal::Number(NumberKind::U64(5))));
    assert_eq!(endpoint_with_variable.query_params[1].lhs, "bar");
    assert_eq!(endpoint_with_variable.query_params[1].rhs, Value::Literal(Literal::Number(NumberKind::U64(10))));

    let endpoint_with_header = as_http(str_to_statement("GET /foo/bar authorization:\"bar\" age:(some_var);"));
    assert_eq!(endpoint_with_header.path.len(), 1);
    assert_eq!(endpoint_with_header.path[0], string_value("/foo/bar"));
    assert_eq!(endpoint_with_header.headers.len(), 2);
    assert_eq!(endpoint_with_header.headers[0].lhs, "authorization".to_owned());
    assert_eq!(endpoint_with_header.headers[0].rhs, string_value("bar"));
    assert_eq!(endpoint_with_header.headers[1].lhs, "age".to_owned());
    assert_eq!(endpoint_with_header.headers[1].rhs, Value::Variable("some_var".to_owned()));
}

#[test]
fn list_expression() {
    match as_list(str_to_statement("LIST NEW [];")) {
        ListExpression::New(list_values) => assert_eq!(list_values.len(), 0),
        _ => panic!("Expected a ListExpression::New when making a new list but did not get one"),
    }

    match as_list(str_to_statement("LIST NEW [1, true, \"hello world\", (my_var)];")) {
        ListExpression::New(list_values) => {
            assert_eq!(list_values.len(), 4, "Expected list values to contain 4 values when 4 were provided to LIST NEW");
            assert_eq!(list_values[0], Value::Literal(Literal::Number(NumberKind::U64(1))), "When passing a 1 as the first list value, should have gotten a Value Literal Int");
            assert_eq!(list_values[1], Value::Literal(Literal::Bool(true)));
            assert_eq!(list_values[2], string_value("hello world"));
            assert_eq!(list_values[3], Value::Variable("my_var".to_string()));
        }
        ListExpression::ListArgument(_) => panic!("Got a ListExpression::ListArgument variant when a ListExpression::New was expected"),
    }

    match as_list(str_to_statement("LIST APPEND (my_list) 5;")) {
        ListExpression::New(_) => panic!("Got a ListExpression::New variant when a ListExpression::ListArgument was expected"),
        ListExpression::ListArgument(list_command) => {
            assert_eq!(list_command.list_name.as_str(), "my_list");
            match list_command.operation {
                ListCommandOperations::MutateOperations(MutateListOperations::Append(append_val)) => {
                    assert_eq!(append_val, Value::Literal(Literal::Number(NumberKind::U64(5))))
                }
                _ => panic!("Expected ListCommand's operation field to be of the Append variant when using an APPEND command but it wasn't"),
            }
        }
    }

    match as_list(str_to_statement("LIST REMOVE (my_list) 10;")) {
        ListExpression::New(_) => panic!("Got a ListExpression::New variant when a ListExpression::ListArgument was expected"),
        ListExpression::ListArgument(list_command) => {
            assert_eq!(list_command.list_name.as_str(), "my_list");
            match list_command.operation {
                ListCommandOperations::MutateOperations(MutateListOperations::Remove(remove_val)) => {
                    assert_eq!(remove_val, Value::Literal(Literal::Number(NumberKind::U64(10))))
                }
                _ => panic!("Expected ListCommand's operation field to be of the Remove variant when using an REMOVE command but it wasn't"),
            }
        }
    }

    match as_list(str_to_statement("LIST LENGTH (some_list);")) {
        ListExpression::New(_) => panic!("Got a ListExpression::New variant when a ListExpression::ListArgument was expected"),
        ListExpression::ListArgument(list_command) => {
            assert_eq!(list_command.list_name.as_str(), "some_list");
            match list_command.operation {
                ListCommandOperations::Length => (),
                _ => panic!("Expected ListCommand's operation field to be of the Length variant when using a LENGTH command but it wasn't"),
            }
        }
    }

    match as_list(str_to_statement("LIST POP (some_list);")) {
        ListExpression::New(_) => panic!("Got a ListExpression::New variant when a ListExpression::ListArgument was expected"),
        ListExpression::ListArgument(list_command) => {
            assert_eq!(list_command.list_name.as_str(), "some_list");
            match list_command.operation {
                ListCommandOperations::MutateOperations(MutateListOperations::Pop) => (),
                _ => panic!("Expected ListCommand's operation field to be of the MutateOperations variant when using a POP command but it wasn't"),
            }
        }
    }

    assert!(
        parse_statement("LIST NEW [1,];", &decode).is_err(),
        "Expected list creation to fail when the only value passed in was comma separated"
    );
}

#[test]
fn no_end_of_statement() {
    assert!(parse_statement("ASSERT EQUALS 1 1", &decode).is_err(), "Expected a statement with no EndOf to fail to parse");
}
