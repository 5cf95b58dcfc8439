use chimerascript::abstract_syntax_tree::{ChimeraScriptAST, Expression, HttpCommand, Statement, Value};
use chimerascript::err_handle::{error_line, ChimeraCompileError, ChimeraRuntimeFailure, CLIError, VarTypes};
use chimerascript::float::{float_compare, i64_to_float_bits, u64_to_float_bits, Comparison};
use chimerascript::frontend::{run_functions, Context, ResultCount, Status, TestResult};
use chimerascript::grammar::parse_statement;
use chimerascript::literal::{classify_string, Float, Literal, NumberKind};
use chimerascript::testing::util::fake_client::FakeClient;
use chimerascript::testing::util::test_writer::TestWriter;
use chimerascript::text::{parse_bool, parse_i64, parse_u64};
use chimerascript::util::client::WebClient;
use chimerascript::util::config::Config;
use chimerascript::util::timer::{duration_to_readable_time, Timer};
use chimerascript::variable_map::VariableMap;

fn decode(t: &str) -> Float {
    let f: f64 = t.parse().unwrap();
    Float::new(f.to_bits(), format!("{}", f))
}

fn http_of(text: &str) -> HttpCommand {
    match parse_statement(text, &decode).expect("statement should parse") {
        Statement::Expression(Expression::HttpCommand(h)) => h,
        _ => panic!("expected a web request"),
    }
}

fn run(script: &str) -> (Vec<TestResult>, TestWriter, TestWriter) {
    let ast = ChimeraScriptAST::new(script, &decode).expect("script should parse");
    let client = FakeClient::new("http://host");
    let mut out = TestWriter::new();
    let mut err = TestWriter::new();
    let results = run_functions(ast, &client, &mut out, &mut err);
    (results, out, err)
}

#[test]
fn readable_times() {
    assert_eq!(duration_to_readable_time(0), "0μ");
    assert_eq!(duration_to_readable_time(999), "999μ");
    assert_eq!(duration_to_readable_time(1_000), "1ms");
    assert_eq!(duration_to_readable_time(999_999), "999ms");
    assert_eq!(duration_to_readable_time(1_000_000), "1s");
    assert_eq!(duration_to_readable_time(61_500_000), "61s");
}

#[test]
fn timer_reports_a_time() {
    let started = Timer::new();
    assert!(!started.finish().is_empty());
}

#[test]
fn target_address() {
    let config = Config { ip: "127.0.0.1".to_owned(), port: 5000 };
    assert_eq!(config.get_target_address(), "127.0.0.1:5000");
}

#[test]
fn result_counts_add_up() {
    let a = ResultCount::new((1, 2, 3, 6));
    let b = ResultCount::new((4, 0, 1, 5));
    let sum = a.add(b);
    assert_eq!(sum, ResultCount::new((5, 2, 4, 11)));
    assert_eq!(a.add(b), b.add(a));
    assert_eq!(a.add(ResultCount::new_empty()), a);
    assert_eq!(sum.overall_result(), "FAILED");
    assert_eq!(ResultCount::new((3, 0, 0, 3)).overall_result(), "PASSED");
    assert_eq!(ResultCount::new((3, 0, 0, 3)).summary(), "Ran 3 tests with 3 successes, 0 failures, and 0 errors\n\nPASSED");
    assert_eq!(
        ResultCount::new((1, 1, 0, 2)).summary_with_time("5ms"),
        "Ran 2 tests in 5ms with 1 successes, 1 failures, and 0 errors\n\nFAILED"
    );
}

#[test]
fn nested_result_counts() {
    let child_fail = TestResult::new("c1".to_owned(), Status::Failure(ChimeraRuntimeFailure::TestFailure("x".to_owned(), 0)), vec![]);
    let child_err = TestResult::new("c2".to_owned(), Status::Error(ChimeraRuntimeFailure::OutOfBounds(1)), vec![]);
    let skipped = TestResult::new("c3".to_owned(), Status::Skip, vec![]);
    let parent = TestResult::new("p".to_owned(), Status::ExpectedFailure, vec![child_fail, child_err, skipped]);
    let counts = parent.get_result_counts();
    assert_eq!(counts, ResultCount::new((1, 1, 1, 3)));
    assert!(parent.passed());
    assert_eq!(parent.test_name(), "p");
    assert!(parent.error_kind().is_none());
}

#[test]
fn expected_failure_counts_as_success() {
    let (res, out, _) = run("[test, expected-failure]\ncase will-fail() {\n  ASSERT EQUALS 1 2;\n}\n");
    assert!(res[0].passed());
    assert_eq!(res[0].get_result_counts(), ResultCount::new((1, 0, 0, 1)));
    let lines = out.str_lines();
    assert!(lines[1].ends_with(" - EXPECTED FAILURE"));
}

#[test]
fn unexpected_success_is_reported() {
    let (res, out, _) = run("[test, expected-failure]\ncase will-pass() {\n  ASSERT EQUALS 1 1;\n}\n");
    assert!(res[0].passed());
    assert!(out.str_lines()[1].ends_with(" - UNEXPECTED SUCCESS"));
}

#[test]
fn failure_lines_go_to_the_error_stream() {
    let (res, out, err) = run("[test]\ncase outer() {\n  case inner() {\n    ASSERT EQUALS 1 2 \"numbers differ\";\n  }\n}\n");
    assert!(res[0].passed());
    assert!(!res[0].subtest_results[0].passed());
    let err_lines = err.str_lines();
    assert_eq!(err_lines.len(), 1);
    assert_eq!(
        err_lines[0],
        "  FAILURE on line 0: numbers differ - Expected value 1 to equal value '2'"
    );
    let out_lines = out.str_lines();
    assert_eq!(out_lines[0], "STARTING TEST - outer");
    assert_eq!(out_lines[1], " STARTING TEST - inner");
    assert!(out_lines[2].starts_with(" FINISHED TEST - inner - "));
    assert!(out_lines[2].ends_with(" - FAILURE"));
    assert!(out_lines[3].ends_with(" - SUCCESS"));
}

#[test]
fn errors_are_not_failures() {
    let (res, _, err) = run("[test]\ncase missing() {\n  PRINT (nothing);\n}\n");
    assert!(!res[0].passed());
    assert_eq!(res[0].get_result_counts(), ResultCount::new((0, 0, 1, 1)));
    assert_eq!(err.str_lines()[0], " ERROR on line 0: var 'nothing' was accessed but is not set");
}

#[test]
fn only_test_functions_are_run() {
    let (res, _, _) = run("case helper() {\n  ASSERT EQUALS 1 2;\n}\n[test]\ncase real() {\n  ASSERT EQUALS 1 1;\n}\n");
    assert_eq!(res.len(), 1);
    assert_eq!(res[0].test_name(), "real");
}

#[test]
fn teardown_runs_when_the_test_ends_and_can_fail_it() {
    let (res, _, err) = run("[test]\ncase with-teardown() {\n  var x = LITERAL 1;\n  teardown {\n    ASSERT EQUALS 1 2;\n  }\n  ASSERT EQUALS (x) 1;\n}\n");
    assert!(!res[0].passed());
    match res[0].error_kind() {
        Some(ChimeraRuntimeFailure::TestFailure(_, line)) => assert_eq!(*line, 1),
        _ => panic!("expected the teardown's assertion to fail"),
    }
    assert_eq!(err.str_lines().len(), 1);
}

#[test]
fn teardown_runs_after_a_failure() {
    let (res, out, err) = run("[test]\ncase cleans() {\n  teardown {\n    PRINT \"cleaned\";\n  }\n  ASSERT EQUALS 1 2;\n  PRINT \"not reached\";\n}\n");
    match res[0].error_kind() {
        Some(ChimeraRuntimeFailure::TestFailure(_, line)) => assert_eq!(*line, 1),
        _ => panic!("expected the test's own assertion to decide its status"),
    }
    let lines = out.str_lines();
    assert_eq!(lines.len(), 3);
    assert_eq!(lines[1], "cleaned");
    assert_eq!(err.str_lines().len(), 1);
}

#[test]
fn teardown_stack_runs_last_pushed_first() {
    let (res, out, _) = run("[test]\ncase order() {\n  teardown {\n    PRINT \"first\";\n    PRINT \"first again\";\n  }\n  teardown {\n    PRINT \"second\";\n  }\n  PRINT \"body\";\n}\n");
    assert!(res[0].passed(), "{:?}", res[0].error_kind());
    let lines = out.str_lines();
    assert_eq!(lines[1], "body");
    assert_eq!(lines[2], "second");
    assert_eq!(lines[3], "first");
    assert_eq!(lines[4], "first again");
}

#[test]
fn teardown_sees_the_state_the_test_left() {
    let (res, _, _) = run("[test]\ncase state() {\n  var x = LITERAL 1;\n  teardown {\n    ASSERT EQUALS (x) 2;\n  }\n  var x = LITERAL 2;\n}\n");
    assert!(res[0].passed(), "{:?}", res[0].error_kind());
}

#[test]
fn line_numbers_count_block_entries() {
    let (res, _, _) = run("[test]\ncase lines() {\n  var a = LITERAL 1;\n  var b = LITERAL 2;\n  ASSERT EQUALS (a) (b);\n}\n");
    match res[0].error_kind() {
        Some(ChimeraRuntimeFailure::TestFailure(_, line)) => assert_eq!(*line, 2),
        _ => panic!("expected a failed assertion"),
    }
}

#[test]
fn compile_errors_have_positions() {
    match ChimeraScriptAST::new("[test]\ncase ok() {\n  ASSERT EQUALS 1 1;\n}\nnot a function\n", &decode) {
        Err(e) => {
            assert_eq!(e.error_msg, "Invalid ChimeraScript");
            assert_eq!((e.line, e.column), (5, 1));
            assert_eq!(e.message(), "Failed to compile ChimeraScript with error 'Invalid ChimeraScript' on line 5 column 1");
        }
        Ok(_) => panic!("the trailing text is not a function"),
    }
    match ChimeraScriptAST::new("[test]\ncase big() {\n  ASSERT EQUALS 99999999999999999999 1;\n}\n", &decode) {
        Err(e) => {
            assert_eq!(e.error_msg, "Failed to parse an unsigned number");
            assert_eq!((e.line, e.column), (3, 17));
        }
        Ok(_) => panic!("the number does not fit in a u64"),
    }
    match parse_statement("LITERAL -99999999999999999999;", &decode) {
        Err(e) => assert_eq!(e.error_msg, "Failed to parse a signed number"),
        Ok(_) => panic!("the number does not fit in an i64"),
    }
    match parse_statement("LIST LENGTH (l) 5;", &decode) {
        Err(e) => assert_eq!(e.error_msg, "Invalid list command when using a value"),
        Ok(_) => panic!("LENGTH takes no value"),
    }
    match parse_statement("LIST APPEND (l);", &decode) {
        Err(e) => assert_eq!(e.error_msg, "Invalid list command when not using a value"),
        Ok(_) => panic!("APPEND needs a value"),
    }
    match ChimeraScriptAST::new("[test]\ncase broken() {\n  ASSERT EQUALS 99999999999999999999;\n}\n", &decode) {
        Err(e) => assert_eq!(e.error_msg, "Invalid ChimeraScript"),
        Ok(_) => panic!("the assertion lacks a value"),
    }
}

#[test]
fn decorators_with_values_are_read() {
    let ast = ChimeraScriptAST::new("[test, owner=someone]\ncase decorated() {\n}\n", &decode).unwrap();
    assert!(ast.functions[0].is_test_function());
    assert!(!ast.functions[0].is_expected_failure());
    assert!(ast.functions[0].has_key("test"));
    assert!(!ast.functions[0].has_key("owner"));
    assert!(ast.functions[0].has_name("decorated"));
}

#[test]
fn numbers_parse_as_rust_does() {
    assert_eq!(parse_u64("+42"), Some(42));
    assert_eq!(parse_u64("18446744073709551615"), Some(u64::MAX));
    assert_eq!(parse_u64("18446744073709551616"), None);
    assert_eq!(parse_u64("-1"), None);
    assert_eq!(parse_u64(""), None);
    assert_eq!(parse_i64("-9223372036854775808"), Some(i64::MIN));
    assert_eq!(parse_i64("9223372036854775808"), None);
    assert_eq!(parse_i64("-0"), Some(0));
    assert_eq!(parse_i64("+-1"), None);
    assert_eq!(parse_bool("true"), Some(true));
    assert_eq!(parse_bool("False"), None);
}

#[test]
fn strings_from_json_are_classified() {
    assert_eq!(classify_string("7".to_owned(), None), Literal::Number(NumberKind::U64(7)));
    assert_eq!(classify_string("-7".to_owned(), None), Literal::Number(NumberKind::I64(-7)));
    assert_eq!(classify_string("true".to_owned(), None), Literal::Bool(true));
    assert_eq!(classify_string("hello".to_owned(), None), Literal::String("hello".to_owned()));
    let half = decode("0.5");
    assert_eq!(classify_string("0.5".to_owned(), Some(half.clone())), Literal::Number(NumberKind::F64(half)));
}

#[test]
fn integers_convert_to_floats_as_rust_does() {
    for v in [0i64, 1, -1, 3, i64::MAX, i64::MIN, 9007199254740993, -9007199254740993, 123456789012345678] {
        assert_eq!(i64_to_float_bits(v), (v as f64).to_bits(), "converting {}", v);
    }
    for v in [0u64, 1, u64::MAX, 9007199254740993, 18446744073709551557] {
        assert_eq!(u64_to_float_bits(v), (v as f64).to_bits(), "converting {}", v);
    }
}

#[test]
fn floats_compare_as_rust_does() {
    let pairs = [(1.5f64, 2.5f64), (-0.0, 0.0), (-3.0, -2.0), (f64::INFINITY, 1e300), (2.0, 2.0)];
    for (a, b) in pairs {
        let expected = if a < b { Some(Comparison::Less) } else if a == b { Some(Comparison::Equal) } else { Some(Comparison::Greater) };
        assert_eq!(float_compare(a.to_bits(), b.to_bits()), expected, "comparing {} and {}", a, b);
    }
    assert_eq!(float_compare(f64::NAN.to_bits(), 1.0f64.to_bits()), None);
}

#[test]
fn headers_are_checked() {
    let context = Context::new();
    let mut vm = VariableMap::new();
    let good = http_of("GET /x content-type:\"text\" content-type:\"json\" x-n:5;");
    let headers = good.resolve_header(&context, &mut vm).unwrap();
    assert_eq!(headers, vec![("content-type".to_owned(), "json".to_owned()), ("x-n".to_owned(), "5".to_owned())]);
    let bad_name = http_of("GET /x Content-Type:\"text\";");
    match bad_name.resolve_header(&context, &mut vm) {
        Err(ChimeraRuntimeFailure::InvalidHeader(_, name)) => assert_eq!(name, "Content-Type"),
        _ => panic!("an upper-case header name is refused"),
    }
    let bad_value = http_of("GET /x auth:\"a\u{7f}b\";");
    match bad_value.resolve_header(&context, &mut vm) {
        Err(ChimeraRuntimeFailure::InternalError(action)) => assert_eq!(action, "resolving header value"),
        _ => panic!("a value with a control character is refused"),
    }
}

#[test]
fn paths_and_bodies_resolve() {
    let context = Context::new();
    let mut vm = VariableMap::new();
    let cmd = http_of("POST /a/(x)?q=1&r=\"two\" name=\"n\" name=\"m\" count=3;");
    match cmd.resolve_path(&context, &mut vm, "http://h") {
        Err(ChimeraRuntimeFailure::VarNotFound(name, _)) => assert_eq!(name, "x"),
        _ => panic!("the variable in the path is not set"),
    }
    let cmd = http_of("POST /a/b?q=1&r=\"two\" name=\"n\" name=\"m\" count=3;");
    assert_eq!(cmd.resolve_path(&context, &mut vm, "http://h").unwrap(), "http://h/a/b?q=1&r=two");
    assert_eq!(
        cmd.resolve_body(&context, &mut vm).unwrap(),
        vec![("name".to_owned(), "m".to_owned()), ("count".to_owned(), "3".to_owned())]
    );
}

#[test]
fn fake_client_answers_with_the_request() {
    let client = FakeClient::new("http://fake");
    assert_eq!(client.get_domain(), "http://fake");
    let (res, out, _) = run(
        "[test]\ncase echo() {\n  var r = POST /items?id=4 name=\"box\" x-count:\"12\" x-text:\"hi\";\n  ASSERT STATUS (r) 201;\n  ASSERT EQUALS (r.body.id) 4;\n  ASSERT EQUALS (r.body.name) \"box\";\n  ASSERT EQUALS (r.body.x-count) 12;\n  ASSERT EQUALS (r.body.x-text) \"hi\";\n  ASSERT EQUALS (r.body.path) \"http://host/items?id=4\";\n  PRINT (r.body.name);\n}\n",
    );
    assert!(res[0].passed(), "{:?}", res[0].error_kind());
    assert_eq!(out.str_lines()[1], "box");
}

#[test]
fn writer_reads_lines_back() {
    let mut w = TestWriter::new();
    assert!(w.str_lines().is_empty());
    w.write_line("first");
    w.write_line("second\r");
    w.write_line("");
    assert_eq!(w.str_lines(), vec!["first".to_owned(), "second".to_owned(), "".to_owned()]);
    assert_eq!(w.buffer, "first\nsecond\r\n\n");
}

#[test]
fn error_texts() {
    assert_eq!(error_line("bad path"), "ERROR: bad path");
    let cli = CLIError::new("oops".to_owned(), false);
    assert_eq!(cli.error_line(), "ERROR: oops");
    assert!(!cli.already_reported);
    let compile = ChimeraCompileError::new("Invalid ChimeraScript", (2, 3));
    assert_eq!(compile.message(), "Failed to compile ChimeraScript with error 'Invalid ChimeraScript' on line 2 column 3");
    let wrong = ChimeraRuntimeFailure::VarWrongType("var 'x'".to_owned(), VarTypes::Containable, 4);
    assert_eq!(wrong.message(), "ERROR on line 4: 'var 'x'' was expected to be of type List or Object but it was not");
    assert_eq!(wrong.error_line(1), "  ERROR on line 4: 'var 'x'' was expected to be of type List or Object but it was not");
    assert_eq!(wrong.get_variant_name(), "VarWrongType");
    assert_eq!(ChimeraRuntimeFailure::OutOfBounds(3).message(), "ERROR on line 3: Tried to access an array with an out-of-bounds value");
    assert_eq!(ChimeraRuntimeFailure::InvalidHeader(1, "A".to_owned()).message(), "ERROR on line 1: Header 'A' is not valid");
    assert_eq!(ChimeraRuntimeFailure::WebRequestFailure("/x".to_owned(), 2).message(), "ERROR on line 2: Failed to make request for endpoint '/x'");
    assert_eq!(ChimeraRuntimeFailure::InternalError("doing it".to_owned()).message(), "Internal error while doing it");
    assert_eq!(ChimeraRuntimeFailure::BadSubfieldAccess(Some("v".to_owned()), "f".to_owned(), 0).message(), "ERROR on line 0: Failed to access subfield 'f' for variable 'v'");
    assert_eq!(ChimeraRuntimeFailure::TriedToIndexWithNonNumber(5).message(), "ERROR on line 5: Arrays can only be indexed with an unsigned integer");
    assert_eq!(ChimeraRuntimeFailure::BorrowError(6, "held".to_owned()).message(), "ERROR on line 6: held");
}

#[test]
fn list_commands_follow_the_readme() {
    let (res, _, _) = run(
        "[test]\ncase readme() {\n  var my_list = LIST NEW [200, 400];\n  var res = GET /some_endpoint;\n  ASSERT EQUALS (res.status_code) (my_list.0);\n  var removed_item = LIST REMOVE (my_list) 0;\n  ASSERT EQUALS (removed_item) 200;\n  ASSERT EQUALS (my_list.0) 400;\n  var another_list = LIST NEW [10];\n  LIST APPEND (another_list) 7;\n  LIST APPEND (another_list) \"a string value\";\n  ASSERT EQUALS (another_list.2) \"a string value\";\n  ASSERT EQUALS (another_list.1) 7;\n}\n",
    );
    assert!(res[0].passed(), "{:?}", res[0].error_kind());
}

#[test]
fn formatted_strings_join_texts() {
    let (res, out, _) = run("[test]\ncase fmt() {\n  var who = LITERAL \"world\";\n  var n = LITERAL -3;\n  var s = FORMAT_STR \"hello (who) (n)\";\n  ASSERT EQUALS (s) \"hello world -3\";\n  PRINT \"a (who)\";\n}\n");
    assert!(res[0].passed(), "{:?}", res[0].error_kind());
    assert_eq!(out.str_lines()[1], "a world");
}

#[test]
fn header_values_are_read_as_json_strings() {
    let (res, _, _) = run(
        "[test]\ncase escapes() {\n  var r = GET /x x-e:\"a\\u0041\" x-b:\"false\";\n  ASSERT EQUALS (r.body.x-e) \"aA\";\n  ASSERT EQUALS (r.body.x-b) false;\n}\n",
    );
    assert!(res[0].passed(), "{:?}", res[0].error_kind());
    let (res, _, _) = run("[test]\ncase bad-escape() {\n  var r = GET /x x-e:\"a\\q\";\n}\n");
    match res[0].error_kind() {
        Some(ChimeraRuntimeFailure::InternalError(action)) => assert_eq!(action, "decoding a header value"),
        other => panic!("expected the header value to be refused, got {:?}", other),
    }
}

#[test]
fn parent_without_statements_passes_when_child_fails() {
    let (res, _, _) = run("[test]\ncase parent() {\n  case child() {\n    ASSERT EQUALS 1 2;\n  }\n  case other() {\n    PRINT (missing);\n  }\n}\n");
    assert!(res[0].passed());
    assert_eq!(res[0].subtest_results.len(), 2);
    assert_eq!(res[0].get_result_counts(), ResultCount::new((1, 1, 1, 3)));
}

#[test]
fn swapped_numbers_compare_the_other_way() {
    let numbers = [
        NumberKind::U64(3),
        NumberKind::I64(-2),
        NumberKind::U64(u64::MAX),
        NumberKind::F64(decode("2.5")),
        NumberKind::F64(decode("-0.0")),
        NumberKind::I64(0),
    ];
    for a in numbers.iter() {
        for b in numbers.iter() {
            let forward = a.compare(b);
            let backward = b.compare(a);
            let flipped = match forward {
                Some(Comparison::Less) => Some(Comparison::Greater),
                Some(Comparison::Greater) => Some(Comparison::Less),
                other => other,
            };
            assert_eq!(backward, flipped, "comparing {:?} and {:?}", a, b);
        }
    }
    assert_eq!(NumberKind::F64(decode("2.0")).compare(&NumberKind::U64(2)), Some(Comparison::Equal));
    assert_eq!(NumberKind::I64(-1).compare(&NumberKind::U64(u64::MAX)), Some(Comparison::Less));
}

#[test]
fn assigned_variables_read_back() {
    let (res, _, _) = run("[test]\ncase rebind() {\n  var x = LITERAL 1;\n  var x = LITERAL 2;\n  ASSERT EQUALS (x) 2;\n  var y = LIST NEW [(x)];\n  ASSERT EQUALS (y.0) 2;\n}\n");
    assert!(res[0].passed(), "{:?}", res[0].error_kind());
}

#[test]
fn writer_takes_utf8_bytes() {
    let mut w = TestWriter::new();
    let bytes = "héllo\nwörld".as_bytes();
    assert_eq!(w.write(bytes), Ok(13));
    assert_eq!(w.str_lines(), vec!["héllo".to_owned(), "wörld".to_owned()]);
    assert_eq!(w.flush(), Ok(()));
    assert_eq!(w.buffer, "héllo\nwörld");
}

#[test]
fn writer_refuses_invalid_utf8() {
    let mut w = TestWriter::new();
    w.write_line("kept");
    assert_eq!(w.write(&[0x61, 0xff, 0x62]), Err("Invalid UTF-8 sequence".to_owned()));
    assert_eq!(w.buffer, "kept\n");
}

#[test]
fn bare_words_are_query_values() {
    let h = http_of("GET /my_endpoint?page=7&fields=all;");
    assert_eq!(h.query_params.len(), 2);
    assert_eq!(h.query_params[0].lhs, "page");
    assert_eq!(h.query_params[0].rhs, Value::Literal(Literal::Number(chimerascript::literal::NumberKind::U64(7))));
    assert_eq!(h.query_params[1].lhs, "fields");
    assert_eq!(h.query_params[1].rhs, Value::Literal(Literal::String("all".to_owned())));
    let quoted = http_of("GET /my_endpoint?fields=\"all\";");
    assert_eq!(quoted.query_params[0].rhs, Value::Literal(Literal::String("all".to_owned())));
}

fn error_position(script: &str) -> (usize, usize) {
    match ChimeraScriptAST::new(script, &decode) {
        Err(e) => {
            assert_eq!(e.error_msg, "Invalid ChimeraScript");
            (e.line, e.column)
        }
        Ok(_) => panic!("the script is not valid"),
    }
}

#[test]
fn invalid_scripts_are_reported_where_the_reading_stopped() {
    assert_eq!(error_position("[test]\ncase t() {\n  ASSERT EQUALS 1 1\n}\n"), (4, 1));
    assert_eq!(error_position("[test]\ncase t( {\n}\n"), (2, 9));
    assert_eq!(error_position("[test\ncase t() {\n}\n"), (2, 1));
    assert_eq!(error_position("[test]\ncase t() {\n  teardown {\n    PRINT 1\n  }\n}\n"), (5, 3));
    assert_eq!(error_position("[test]\ncase t() {\n  case inner() {\n    var x = LITERAL 1\n  }\n}\n"), (5, 3));
    assert_eq!(error_position("[test]\ncase t() {\n  ASSERT EQUALS 1 1;\n"), (4, 1));
    match parse_statement("ASSERT EQUALS 1 1", &decode) {
        Err(e) => assert_eq!((e.line, e.column), (1, 18)),
        Ok(_) => panic!("the statement has no ';'"),
    }
    match parse_statement("var x = ;", &decode) {
        Err(e) => assert_eq!((e.line, e.column), (1, 9)),
        Ok(_) => panic!("the assignment has no expression"),
    }
}

fn statement_error_position(text: &str) -> (usize, usize) {
    match parse_statement(text, &decode) {
        Err(e) => {
            assert_eq!(e.error_msg, "Invalid ChimeraScript");
            (e.line, e.column)
        }
        Ok(_) => panic!("the statement is not valid"),
    }
}

#[test]
fn invalid_requests_are_reported_where_the_reading_stopped() {
    assert_eq!(statement_error_position("var r = GET /x a=;"), (1, 18));
    assert_eq!(statement_error_position("var r = GET ;"), (1, 13));
    assert_eq!(statement_error_position("GET /x?a=;"), (1, 10));
    assert_eq!(statement_error_position("GET /x h:"), (1, 10));
    assert_eq!(statement_error_position("var r = LITERAL ;"), (1, 17));
    assert_eq!(statement_error_position("PRINT"), (1, 6));
    assert_eq!(statement_error_position("PRINT (x;"), (1, 9));
    assert_eq!(statement_error_position("ASSERT EQUALS \"abc 1;"), (1, 22));
}

#[test]
fn changes_are_seen_through_shared_paths() {
    let (res, _, _) = run("[test]\ncase shared() {\n  var a = LIST NEW [1];\n  var b = LIST NEW [(a)];\n  LIST APPEND (a) 2;\n  ASSERT LENGTH (b.0) 2;\n  ASSERT EQUALS (b.0.1) 2;\n}\n");
    assert!(res[0].passed(), "{:?}", res[0].error_kind());
}
