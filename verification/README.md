# ChimeraScript

ChimeraScript is a small language for writing tests against HTTP services.
A script holds test cases; a test makes web requests and asserts on what
comes back.

```
[test]
case my-test() {
  var res = GET /my_endpoint?page=7&fields=all;
  ASSERT STATUS (res) 200 "Failed to make a GET to /my_endpoint";
  ASSERT EQUALS (res.body.my_field) 7 "Expected response to contain my_field set to 7";
}
```

## Layout

- `src/` is the library, verified with Verus: the grammar and parser
  (`grammar.rs`), the syntax tree (`abstract_syntax_tree.rs`, with the
  resolution of web requests in `abstract_syntax_tree/http_request.rs`), the
  run-time values and their heap (`literal.rs`, `variable_map.rs`), the
  commands (`commands/`), the test runner and result counts (`frontend.rs`),
  the errors (`err_handle.rs`), integer and binary64 helpers (`text.rs`,
  `float.rs`), a text buffer and a fake web service for tests (`testing/`),
  and properties that hold across operations (`properties.rs`).
- `tests/` runs the library on scripts.
- `app/` is the command-line program: it reads the configuration (TOML) and
  the `.chs` files, sends the requests with `reqwest`, turns JSON responses
  into values, and prints the reports.

## Grammar

White space and comments (`// ...` to the end of the line, `/* ... */`) may
stand between any two tokens, but not inside a path, a string or a variable.

```
script      = function*
function    = decorators? "case" word "(" ")" "{" entry* "}"
decorators  = "[" decorator ("," decorator)* "]"
decorator   = word "=" word | word
entry       = statement | "teardown" "{" statement* "}" | function
statement   = (assert | "var" name "=" expression | "PRINT" value | expression) ";"
assert      = "ASSERT" "NOT"? comparison value value (quoted | formatted)?
comparison  = "EQUALS" | "GTE" | "GT" | "LTE" | "LT" | "STATUS" | "LENGTH" | "CONTAINS"
expression  = "LITERAL" literal | request | list | "FORMAT_STR" formatted
request     = verb path ("?" name "=" qvalue ("&" name "=" qvalue)*)?
              (name "=" value)* (name ":" value)* (name "=>" value)*
verb        = "GET" | "PUT" | "POST" | "DELETE"
path        = "/" ("/" | word | variable)*
list        = "LIST" "NEW" "[" (value ("," value)*)? "]"
            | "LIST" ("APPEND" | "REMOVE") variable value
            | "LIST" ("LENGTH" | "POP") variable
value       = literal | variable | formatted
qvalue      = value | name
literal     = quoted | number | "true" | "True" | "false" | "False" | "null" | "Null"
number      = "-"? digits "." digits | "-" digits | digits
variable    = "(" name ("." name)* ")"
quoted      = '"' text '"'
formatted   = '"' (text | variable)+ '"'
```

`name` is a run of letters, digits, `_` and `-`; `word` may also hold `.` and
`~`; `text` is any run of characters other than `"` and `(`. A query value
that is a bare `name` is read as a string.

## Running

A test runs the entries of its block in order. A nested function runs as a
test of its own, one level deeper. A statement that fails stops the block.
A `teardown` block is pushed on the test's teardown stack; when the block
ends, whether it succeeded, failed or stopped on an error, the stack is
processed: the block pushed last first, its statements in the order written.
A failure in the teardown stops it, and decides the test's status when the
block itself did not fail.

A web service may answer the same request differently each time, so the
runner's results are stated over the answers it received: the runner records
each answer, and a run is determined by the script and those answers.

A script is read twice: first by the grammar alone, where a text that does
not match is reported as `Invalid ChimeraScript` at the line and column where
the reading stopped, the furthest place where a part that could not be read
was expected (for a statement without its `;`, the place of the `;`); then
with its numbers converted, where the first number that does not fit its type
is reported.
