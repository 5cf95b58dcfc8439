use chimerascript::abstract_syntax_tree::ChimeraScriptAST;
use chimerascript::err_handle::{ChimeraRuntimeFailure, VarTypes};
use chimerascript::frontend::{run_functions, TestResult};
use chimerascript::literal::Float;
use chimerascript::testing::util::fake_client::FakeClient;
use chimerascript::testing::util::test_writer::TestWriter;

fn decode(t: &str) -> Float {
    let f: f64 = t.parse().unwrap();
    Float::new(f.to_bits(), format!("{}", f))
}

fn read_cs_script(script: &str) -> ChimeraScriptAST {
    match ChimeraScriptAST::new(script, &decode) {
        Ok(ast) => ast,
        Err(e) => panic!("Failed to parse a script into an AST: {:?}", e),
    }
}

fn results_from_script(script: &str) -> (Vec<TestResult>, TestWriter, TestWriter) {
    let ast = read_cs_script(script);
    let client = FakeClient::new("http://127.0.0.1:5000");
    let mut out = TestWriter::new();
    let mut err = TestWriter::new();
    let results = run_functions(ast, &client, &mut out, &mut err);
    (results, out, err)
}

fn results(script: &str) -> Vec<TestResult> {
    results_from_script(script).0
}

fn assert_test_pass(result: &TestResult, while_doing: &str) {
    assert!(result.passed(), "Test case {} failed {}", result.test_name(), while_doing);
}

fn assert_subtest_length(result: &TestResult, expected_len: usize) {
    assert_eq!(result.subtest_results.len(), expected_len, "Test case {} should have {} subtest results", result.test_name(), expected_len);
}

fn assert_test_fail(result: &TestResult, while_doing: &str, should_fail_as: ChimeraRuntimeFailure) {
    assert_eq!(result.passed(), false, "Test case {} should fail {}", result.test_name(), while_doing);
    match result.error_kind() {
        Some(failure) => {
            assert_eq!(failure, &should_fail_as, "Test case {} should fail with error {} but got {}", result.test_name(), should_fail_as.get_variant_name(), failure.get_variant_name());
            if let ChimeraRuntimeFailure::VarWrongType(_, got_var_type, _) = failure {
                if let ChimeraRuntimeFailure::VarWrongType(_, ref should_be_var_type, _) = should_fail_as {
                    assert_eq!(got_var_type, should_be_var_type);
                }
            }
        }
        None => panic!("Test case {} failed but the test result did not contain an error kind", result.test_name()),
    }
}

#[test]
fn invalid_file() {
    match ChimeraScriptAST::new("[test]\ncase broken() {\n  ASSERT EQUALS 1;\n}\n", &decode) {
        Ok(_) => panic!("Trying to parse an invalid ChimeraScript file should result in a compile error"),
        Err(e) => {
            assert_eq!(e.error_msg, "Invalid ChimeraScript");
            assert_eq!((e.line, e.column), (3, 18));
        }
    }
}

#[test]
fn simple_assertion() {
    let ast = read_cs_script("[test]\ncase simplest-test() {\n  ASSERT EQUALS 1 1;\n}\n");
    assert_eq!(ast.functions.len(), 1);
    let (res, out, err) = {
        let client = FakeClient::new("http://127.0.0.1:5000");
        let mut out = TestWriter::new();
        let mut err = TestWriter::new();
        let res = run_functions(ast, &client, &mut out, &mut err);
        (res, out, err)
    };
    assert_eq!(res.len(), 1, "Expected to get a single test result when running a chs file with one test case");
    assert_eq!(res[0].subtest_results.len(), 0);
    assert_test_pass(&res[0], "when asserting that 1 == 1");
    let lines = out.str_lines();
    assert_eq!(lines.len(), 2);
    assert_eq!(lines[0], "STARTING TEST - simplest-test");
    assert!(lines[1].starts_with("FINISHED TEST - simplest-test - "));
    assert!(lines[1].ends_with(" - SUCCESS"));
    assert_eq!(err.str_lines().len(), 0);
}

#[test]
fn literals() {
    let res = results(
        "[test]\ncase literal-equality() {\n  ASSERT EQUALS 1 1;\n  ASSERT EQUALS -5 -5;\n  ASSERT EQUALS 1.5 1.5;\n  ASSERT EQUALS \"a\" \"a\";\n  ASSERT EQUALS true True;\n  ASSERT EQUALS null Null;\n}\n\n\
         [test]\ncase literal-variables() {\n  var a = LITERAL 7;\n  var b = LITERAL \"str\";\n  var c = LITERAL false;\n  ASSERT EQUALS (a) 7;\n  ASSERT EQUALS (b) \"str\";\n  ASSERT EQUALS (c) false;\n  ASSERT GT (a) 6;\n}\n",
    );
    assert_eq!(res.len(), 2, "Expected to get 2 test results when running a chs file with 2 test cases");
    assert_test_pass(&res[0], "when making a basic equality assertion for literal values");
    assert_test_pass(&res[1], "when using literals as variables and running assertions against them");
}

#[test]
fn logical_inversion() {
    let res = results(
        "[test, expected-failure]\ncase expected-to-fail() {\n  ASSERT EQUALS 1 2;\n}\n\
         [test]\ncase negation() {\n  ASSERT NOT EQUALS 1 2;\n}\n\
         [test, expected-failure]\ncase expected-but-passes() {\n  ASSERT EQUALS 1 1;\n}\n",
    );
    assert_eq!(res.len(), 3, "Expected to get 3 test results when running a chs file with 3 test cases");
    assert_test_pass(&res[0], "when using an expected-failure on a failing assertion");
    assert_test_pass(&res[1], "when using an ASSERT NOT EQUALS");
    assert_test_pass(&res[2], "when using an expected-failure on a passing assertion");
}

#[test]
fn failing_tests() {
    let res = results(
        "[test]\ncase bad-equals() {\n  ASSERT EQUALS 1 2;\n  case never-reached() {\n    ASSERT EQUALS 1 1;\n  }\n}\n\
         [test]\ncase bad-gte() {\n  ASSERT GTE 1 2;\n}\n\
         [test]\ncase bad-gt() {\n  ASSERT GT 1 1;\n}\n\
         [test]\ncase bad-lte() {\n  ASSERT LTE 2 1;\n}\n\
         [test]\ncase bad-lt() {\n  ASSERT LT 1 1;\n}\n",
    );
    assert_eq!(res.len(), 5, "Expected to get 5 test results when running a file which has 5 outermost test cases");
    assert_eq!(res[0].subtest_results.len(), 0);
    assert_test_fail(&res[0], "on a bad equality assertion", ChimeraRuntimeFailure::TestFailure("".to_owned(), 0));
    assert_test_fail(&res[1], "on a bad GTE assertion", ChimeraRuntimeFailure::TestFailure("".to_owned(), 0));
    assert_test_fail(&res[2], "on a bad GT assertion", ChimeraRuntimeFailure::TestFailure("".to_owned(), 0));
    assert_test_fail(&res[3], "on a bad LTE assertion", ChimeraRuntimeFailure::TestFailure("".to_owned(), 0));
    assert_test_fail(&res[4], "on a bad LT assertion", ChimeraRuntimeFailure::TestFailure("".to_owned(), 0));
}

#[test]
fn nested_tests() {
    let res = results(
        "[test]\ncase outer() {\n  ASSERT EQUALS 1 1;\n  case middle() {\n    ASSERT EQUALS 1 1;\n    case inner() {\n      ASSERT EQUALS 1 1;\n    }\n  }\n}\n\
         [test]\ncase parent() {\n  ASSERT EQUALS 1 1;\n  case failing-child() {\n    ASSERT EQUALS 1 2;\n  }\n}\n",
    );
    assert_eq!(res.len(), 2);
    assert_subtest_length(&res[0], 1);
    assert_test_pass(&res[0], "when making a simple assertion and having a nested subtest");
    assert_subtest_length(&res[0].subtest_results[0], 1);
    assert_test_pass(&res[0].subtest_results[0], "when making a simple assertion as a subtest with a subtest of its own");
    assert_subtest_length(&res[0].subtest_results[0].subtest_results[0], 0);
    assert_test_pass(&res[0].subtest_results[0].subtest_results[0], "when making a simple assertion as a deeply nested subtest");
    assert_subtest_length(&res[1], 1);
    assert_test_fail(&res[1].subtest_results[0], "when making an assertion that 1==2", ChimeraRuntimeFailure::TestFailure("".to_string(), 0));
    assert_test_pass(&res[1], "when it should pass, even if it has a failing child test");
}

#[test]
fn web_requests() {
    let res = results(
        "[test]\ncase get-request() {\n  var res = GET /foo;\n  ASSERT STATUS (res) 200;\n  case contains-on-response() {\n    ASSERT CONTAINS (res.body) \"path\";\n  }\n}\n\
         [test]\ncase put-request() {\n  var res = PUT /foo some_field=7;\n  ASSERT STATUS (res) 200;\n  ASSERT EQUALS (res.body.some_field) 7;\n  case variable-in-path() {\n    var id = LITERAL 42;\n    var res2 = PUT /foo/(id)/bar;\n    ASSERT EQUALS (res2.body.path) \"http://127.0.0.1:5000/foo/42/bar\";\n  }\n}\n\
         [test]\ncase delete-request() {\n  var res = DELETE /foo;\n  ASSERT STATUS (res) 200;\n}\n\
         [test]\ncase post-request() {\n  var res = POST /foo;\n  ASSERT STATUS (res) 201;\n}\n\
         [test]\ncase print-request() {\n  var res = GET /foo;\n  PRINT (res);\n}\n\
         [test]\ncase query-params() {\n  var res = GET /foo?page=7&fields=\"all\";\n  ASSERT EQUALS (res.body.page) 7;\n  ASSERT EQUALS (res.body.path) \"http://127.0.0.1:5000/foo?page=7&fields=all\";\n  case query-with-variables() {\n    var name = LITERAL \"bob\";\n    var res2 = GET /foo?who=(name)&what=\"(name) says hi\";\n    ASSERT EQUALS (res2.body.who) \"bob\";\n    ASSERT EQUALS (res2.body.what) \"bob says hi\";\n  }\n}\n",
    );
    assert_eq!(res.len(), 6);
    assert_test_pass(&res[0], "to confirm basic usage of a GET request");
    assert_subtest_length(&res[0], 1);
    assert_test_pass(&res[0].subtest_results[0], "to confirm that CONTAINS can be used on a web response");
    assert_test_pass(&res[1], "to confirm basic usage of a PUT request");
    assert_subtest_length(&res[1], 1);
    assert_test_pass(&res[1].subtest_results[0], "to use a variable in an endpoint path");
    assert_test_pass(&res[2], "to confirm basic usage of a DELETE request");
    assert_test_pass(&res[3], "to confirm basic usage of a POST request");
    assert_test_pass(&res[4], "to confirm basic usage of PRINT on a request");
    assert_test_pass(&res[5], "to confirm basic usage of query params in a request");
    assert_subtest_length(&res[5], 1);
    assert_test_pass(&res[5].subtest_results[0], "to confirm usage of variables and strings in request query params");
}

#[test]
fn runtime_errors() {
    let res = results(
        "[test]\ncase missing-var() {\n  ASSERT EQUALS (nope) 1;\n}\n\
         [test]\ncase bad-subfield() {\n  var res = GET /foo;\n  ASSERT EQUALS (res.nothing) 1;\n}\n\
         [test]\ncase gt-on-string() {\n  ASSERT GT \"a\" 1;\n}\n\
         [test]\ncase out-of-bounds() {\n  var l = LIST NEW [1, 2];\n  ASSERT EQUALS (l.5) 1;\n}\n\
         [test]\ncase list-subfield() {\n  var l = LIST NEW [1, 2];\n  ASSERT EQUALS (l.nothing) 1;\n}\n\
         [test]\ncase list-non-number() {\n  var l = LIST NEW [1, 2];\n  ASSERT EQUALS (l.-1) 1;\n}\n",
    );
    assert_eq!(res.len(), 6);
    assert_test_fail(&res[0], "when using a non-existent variable", ChimeraRuntimeFailure::VarNotFound("".to_owned(), 0));
    assert_test_fail(&res[1], "when making a bad subfield access", ChimeraRuntimeFailure::BadSubfieldAccess(None, "".to_owned(), 0));
    assert_test_fail(&res[2], "when using a GT assertion on a non-numeric type", ChimeraRuntimeFailure::VarWrongType("".to_owned(), VarTypes::Number, 0));
    assert_test_fail(&res[3], "when accessing a list with an out of bounds value", ChimeraRuntimeFailure::OutOfBounds(0));
    assert_test_fail(&res[4], "when accessing a list via a non-existent subfield", ChimeraRuntimeFailure::TriedToIndexWithNonNumber(0));
    assert_test_fail(&res[5], "when accessing a list with a non-numerical index", ChimeraRuntimeFailure::TriedToIndexWithNonNumber(0));
}

#[test]
fn print_command() {
    let (res, out, _) = results_from_script("[test]\ncase printing() {\n  PRINT 5;\n  var foo = LITERAL \"bar\";\n  PRINT (foo);\n}\n");
    assert_eq!(res.len(), 1);
    assert_test_pass(&res[0], "when printing a literal and a variable");
    let lines = out.str_lines();
    assert_eq!(lines[1], "5");
    assert_eq!(lines[2], "bar");
}

#[test]
fn list_command() {
    let res = results(
        "[test]\ncase lists() {\n  var my_list = LIST NEW [200, 400];\n\
           case length() {\n    var len = LIST LENGTH (my_list);\n    ASSERT EQUALS (len) 2;\n  }\n\
           case empty() {\n    var e = LIST NEW [];\n    ASSERT LENGTH (e) 0;\n  }\n\
           case printing() {\n    PRINT (my_list);\n  }\n\
           case access() {\n    ASSERT EQUALS (my_list.0) 200;\n  }\n\
           case append() {\n    LIST APPEND (my_list) \"a string value\";\n    ASSERT EQUALS (my_list.2) \"a string value\";\n  }\n\
           case remove() {\n    var removed_item = LIST REMOVE (my_list) 0;\n    ASSERT EQUALS (removed_item) 200;\n    ASSERT EQUALS (my_list.0) 400;\n  }\n\
           case length-assert() {\n    ASSERT LENGTH (my_list) 2;\n  }\n\
           case contains() {\n    ASSERT CONTAINS (my_list) 400;\n  }\n\
           case pop() {\n    var popped = LIST POP (my_list);\n    ASSERT EQUALS (popped) \"a string value\";\n    ASSERT LENGTH (my_list) 1;\n  }\n\
           case equality() {\n    var a = LIST NEW [1, 2];\n    var b = LIST NEW [1, 2];\n    ASSERT EQUALS (a) (b);\n  }\n}\n\
         [test]\ncase remove-out-of-bounds() {\n  var l = LIST NEW [1];\n  LIST REMOVE (l) 5;\n}\n\
         [test]\ncase append-missing() {\n  LIST APPEND (nope) 1;\n}\n\
         [test]\ncase length-non-list() {\n  var x = LITERAL 5;\n  ASSERT LENGTH (x) 1;\n}\n\
         [test]\ncase contains-literal() {\n  var x = LITERAL 5;\n  ASSERT CONTAINS (x) 5;\n}\n\
         [test]\ncase pop-empty() {\n  var l = LIST NEW [];\n  LIST POP (l);\n}\n",
    );
    assert_eq!(res.len(), 6);
    assert_eq!(res[0].subtest_results.len(), 10);
    assert_test_pass(&res[0], "when making a new list");
    assert_test_pass(&res[0].subtest_results[0], "when getting a list length");
    assert_test_pass(&res[0].subtest_results[1], "when making an empty list");
    assert_test_pass(&res[0].subtest_results[2], "when printing a list");
    assert_test_pass(&res[0].subtest_results[3], "when accessing a list by index");
    assert_test_pass(&res[0].subtest_results[4], "when appending to a list");
    assert_test_pass(&res[0].subtest_results[5], "when removing from a list by index");
    assert_test_pass(&res[0].subtest_results[6], "when using LENGTH assertion on a list");
    assert_test_pass(&res[0].subtest_results[7], "when using CONTAINS assertion on a list");
    assert_test_pass(&res[0].subtest_results[8], "when popping from a list");
    assert_test_pass(&res[0].subtest_results[9], "when checking equality between lists");
    assert_test_fail(&res[1], "when removing a value from a list with an out-of-bounds index", ChimeraRuntimeFailure::OutOfBounds(0));
    assert_test_fail(&res[2], "when appending to a list that does not exist", ChimeraRuntimeFailure::VarNotFound("".to_owned(), 0));
    assert_test_fail(&res[3], "when asserting length on a non-list", ChimeraRuntimeFailure::VarWrongType("".to_owned(), VarTypes::List, 0));
    assert_test_fail(&res[4], "when asserting CONTAINS on a literal value", ChimeraRuntimeFailure::VarWrongType("".to_owned(), VarTypes::Containable, 0));
    assert_test_fail(&res[5], "when using POP on an empty list", ChimeraRuntimeFailure::OutOfBounds(0));
}

#[test]
fn number_kinds() {
    let res = results(
        "[test]\ncase number-assertions() {\n  ASSERT EQUALS 5 5;\n  ASSERT EQUALS -5 -5;\n  ASSERT EQUALS 5.5 5.5;\n  ASSERT EQUALS 5 5.0;\n  ASSERT GT 5 -5;\n  ASSERT LT -5.5 5;\n  ASSERT GTE 5.0 5;\n  ASSERT LTE -10 -10.0;\n}\n\
         [test]\ncase numbers-in-lists() {\n  var l = LIST NEW [1, -1, 1.5];\n  ASSERT EQUALS (l.0) 1;\n  ASSERT EQUALS (l.1) -1;\n  ASSERT EQUALS (l.2) 1.5;\n  ASSERT CONTAINS (l) 1.5;\n}\n",
    );
    assert_eq!(res.len(), 2);
    assert_test_pass(&res[0], "when testing assertions on the different types of numbers");
    assert_test_pass(&res[1], "when using the different kinds of numbers in a list");
}

#[test]
fn mod_comments() {
    let res = results(
        "// A comment before the test\n[test]\ncase commented() {\n  // This is a single line comment\n  ASSERT EQUALS 1 1; // This is a comment in an assertion\n  ASSERT EQUALS 1 /* This comment is in the middle */ 1;\n}\n/* a closing comment */\n",
    );
    assert_eq!(res.len(), 1);
    assert_test_pass(&res[0], "when running 1==1 assertions while using comments");
}
