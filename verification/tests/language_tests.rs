use twot::evaluator::Evaluator;
use twot::lexer::Lexer;
use twot::object::Object;
use twot::parser::Parser;

fn test_eval(input: &str) -> Object {
    let lexer = Lexer::new(input);
    let mut parser = Parser::new(lexer);
    let program = parser.parse_program();
    let mut evaluator = Evaluator::new();
    evaluator.eval_program(program.unwrap())
}

fn expect_int(input: &str, expected: i64) {
    match test_eval(input) {
        Object::Integer(i) => assert_eq!(i, expected, "wrong value for {}", input),
        other => panic!("expected integer for {}, got={:?}", input, other),
    }
}

fn expect_error(input: &str, expected: &str) {
    match test_eval(input) {
        Object::Error(e) => assert_eq!(e, expected, "wrong error for {}", input),
        other => panic!("expected error for {}, got={:?}", input, other),
    }
}

#[test]
fn test_shadowing_keeps_outer_binding() {
    // A binding made inside a call frame shadows the outer binding and
    // never mutates it.
    expect_int("say a = 5; say f = function() { say a = 10; a; }; f();", 10);
    expect_int("say a = 5; say f = function() { say a = 10; a; }; f(); a;", 5);
}

#[test]
fn test_closure_sees_defining_scope() {
    // The captured scope stays alive and readable after the defining call
    // returns.
    expect_int(
        "say maker = function(a) { function(b) { a * 10 + b } }; \
         say f = maker(3); say g = maker(7); f(1) + g(2);",
        103,
    );
}

#[test]
fn test_type_mismatch_for_every_operator() {
    expect_error("5 - true;", "type mismatch: INTEGER - BOOLEAN");
    expect_error("5 * true;", "type mismatch: INTEGER * BOOLEAN");
    expect_error("5 / true;", "type mismatch: INTEGER / BOOLEAN");
    expect_error("5 < true;", "type mismatch: INTEGER < BOOLEAN");
    expect_error("5 == \"5\";", "type mismatch: INTEGER == STRING");
    expect_error("[1] + 1;", "type mismatch: ARRAY + INTEGER");
}

#[test]
fn test_division() {
    expect_int("7 / 2", 3);
    expect_int("-7 / 2", -3);
    expect_int("7 / -2", -3);
    expect_int("-7 / -2", 3);
    expect_error("5 / 0", "division by zero");
    expect_error("say x = 0; 10 / x;", "division by zero");
}

#[test]
fn test_dictionary_key_normalization_paths() {
    // A key built by concatenation and a key written directly normalize
    // identically.
    expect_int(r#"{"thr" + "ee": 6/2}["three"]"#, 3);
    expect_int(r#"{"three": 6/2}["thr" + "ee"]"#, 3);
    // A later pair with the same normalized key overwrites the earlier
    // value.
    expect_int(r#"{"a": 1, "a": 2}["a"]"#, 2);
}

#[test]
fn test_call_arity_is_checked() {
    expect_error(
        "say f = function(x) { x; }; f(1, 2);",
        "wrong number of arguments. got=2, want=1",
    );
    expect_error(
        "say f = function(x, y) { x; }; f(1);",
        "wrong number of arguments. got=1, want=2",
    );
}

#[test]
fn test_recursion_depth_is_limited() {
    // The classic self-application loops forever in an unguarded
    // evaluator; here the depth budget turns it into a reported error.
    expect_error(
        "say f = function(g) { g(g) }; f(f);",
        "recursion depth limit exceeded",
    );
}

#[test]
fn test_index_targets() {
    expect_error(r#""abc"[0]"#, "index operator not supported: STRING");
    expect_error("5[0]", "index operator not supported: INTEGER");
}

#[test]
fn test_not_a_function() {
    expect_error("5(1)", "not a function: INTEGER");
    expect_error(r#""f"(1)"#, "not a function: STRING");
}

#[test]
fn test_array_builtins() {
    expect_int("first([4, 5, 6])", 4);
    expect_int("last([4, 5, 6])", 6);
    expect_int("len(rest([4, 5, 6]))", 2);
    expect_int("rest([4, 5, 6])[0]", 5);
    expect_int("len(push([4, 5], 6))", 3);
    expect_int("push([4, 5], 6)[2]", 6);
    expect_int("len(push([], 1))", 1);
    match test_eval("first([])") {
        Object::Null => {}
        other => panic!("first of an empty array should be Null, got={:?}", other),
    }
    expect_error("first(1)", "argument to 'first' not supported, got=INTEGER");
    expect_error("push([1])", "wrong number of arguments. got=1, want=2");
}

#[test]
fn test_len_counts_bytes() {
    // `len` reports the UTF-8 byte count of a string, not the character
    // count: a two-byte character counts twice.
    expect_int("len(\"four\")", 4);
    expect_int("len(\"h\u{00e9}llo\")", 6);
    expect_int("len(\"\u{00e9}\")", 2);
}

#[test]
fn test_tellme_collects_output() {
    let lexer = Lexer::new(r#"tellme("hello"); tellme(1 + 2, true);"#);
    let mut parser = Parser::new(lexer);
    let program = parser.parse_program().unwrap();
    let mut evaluator = Evaluator::new();
    let result = evaluator.eval_program(program);
    match result {
        Object::Null => {}
        other => panic!("tellme should return Null, got={:?}", other),
    }
    let output = evaluator.output();
    assert_eq!(output.len(), 3);
    assert_eq!(output[0].inspect(), "hello");
    assert_eq!(output[1].inspect(), "3");
    assert_eq!(output[2].inspect(), "true");
}

#[test]
fn test_bindings_persist_across_programs() {
    let mut evaluator = Evaluator::new();
    let first = Parser::new(Lexer::new("say a = 40;")).parse_program().unwrap();
    evaluator.eval_program(first);
    let second = Parser::new(Lexer::new("a + 2")).parse_program().unwrap();
    match evaluator.eval_program(second) {
        Object::Integer(i) => assert_eq!(i, 42),
        other => panic!("expected 42, got={:?}", other),
    }
}

#[test]
fn test_integer_literal_overflow_is_a_syntax_error() {
    let mut parser = Parser::new(Lexer::new("99999999999999999999"));
    match parser.parse_program() {
        Ok(_) => panic!("an overflowing literal parsed"),
        Err(errors) => assert!(errors.len() > 0),
    }
}
