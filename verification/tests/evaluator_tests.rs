use twot::ast::Node;
use twot::evaluator::Evaluator;
use twot::lexer::Lexer;
use twot::object::{Dictado, Object};
use twot::parser::Parser;

fn test_eval(input: &str) -> Object {
    let lexer = Lexer::new(input);
    let mut parser = Parser::new(lexer);
    let program = parser.parse_program();
    let mut evaluator = Evaluator::new();
    evaluator.eval_program(program.unwrap())
}

fn test_integer_object(object: Object, expected: i64) {
    match object {
        Object::Integer(int) => assert_eq!(
            int, expected,
            "Object has wrong value, got={}, want={}",
            int, expected
        ),
        other => panic!("Object is not Integer, got={:?}", other),
    }
}

fn test_boolean_object(object: Object, expected: bool) {
    match object {
        Object::Boolean(b) => assert_eq!(
            b, expected,
            "object wrong value. got={}, want={}",
            b, expected
        ),
        other => panic!("object is not boolean, got={:?}", other),
    }
}

fn test_null_object(object: Object) {
    match object {
        Object::Null => assert!(true),
        _ => assert!(false),
    }
}

#[test]
fn test_evaluation_integer_expression() {
    let tests = vec![
        ("5", 5),
        ("10", 10),
        ("-5", -5),
        ("-10", -10),
        ("5 + 5 + 5 + 5 - 10", 10),
        ("3 * 3 * 3 * 3 * 3", 243),
        ("-132 + 264 + -132", 0),
        ("8 * 4 + 8", 40),
        ("36 / 3 * 3 + 14", 50),
        ("3 * (15 + 5)", 60),
        ("4 * 4 * 4 + 16", 80),
        ("8 + 4 * 2", 16),
        ("8 * (4 + 2)", 48),
        ("(8 + 4 * 2 + 20 / 5) * 2 + -20", 20),
    ];

    for test in tests {
        let evaluated = test_eval(test.0);
        test_integer_object(evaluated, test.1);
    }
}

#[test]
fn test_say_statements() {
    let tests = vec![
        ("say a = 12; a;", 12),
        ("say a = 12 * 5; a;", 60),
        ("say a = 12; say b = a; b;", 12),
        ("say a = 12; say b = a; say c = a + b + 12; c;", 36),
    ];

    for test in tests {
        test_integer_object(test_eval(test.0), test.1);
    }
}

#[test]
fn test_boolean_expression() {
    let tests = vec![
        ("true", true),
        ("false", false),
        ("1 < 2", true),
        ("1 > 2", false),
        ("1 > 2", false),
        ("1 > 1", false),
        ("1 == 1", true),
        ("1 != 1", false),
        ("1 == 2", false),
        ("1 != 2", true),
        ("true == true", true),
        ("false == false", true),
        ("true == false", false),
        ("true != false", true),
        ("false != true", true),
        ("(1 < 2) == true", true),
        ("(1 < 2) == false", false),
        ("(1 > 2) == true", false),
        ("(1 > 2) == false", true),
    ];

    for test in tests {
        let evaluated = test_eval(test.0);
        test_boolean_object(evaluated, test.1);
    }
}

#[test]
fn test_if_else_expression() {
    let tests = vec![
        ("if (true) {10}", 10),
        ("if (false) {10}", -0),
        ("if (1) {10}", 10),
        ("if (1 < 2) {10}", 10),
        ("if (1 > 2) {10}", -0),
        ("if (1 > 2) {10} else {20}", 20),
        ("if (1 < 2) {10} else {20}", 10),
    ];

    for test in tests {
        let evaluated = test_eval(test.0);
        if test.1 == -0 {
            test_null_object(evaluated);
        } else {
            test_integer_object(evaluated, test.1);
        }
    }
}

#[test]
fn test_return_statement() {
    let tests = vec![
        ("return 2003", 2003),
        ("return 1383; 1382", 1383),
        ("return 3 * 5; 25;", 15),
        ("-5; return 2 * 3; -12;", 6),
        (
            "if (2 > 1) {
                if (2 > 1) {
                    return 0;
                }
                return 1;
            }",
            0,
        ),
    ];

    for test in tests {
        let evaluated = test_eval(test.0);
        test_integer_object(evaluated, test.1);
    }
}

#[test]
fn test_error_handling() {
    let tests = vec![
        ("5 + true;", "type mismatch: INTEGER + BOOLEAN"),
        ("5 + true; 5;", "type mismatch: INTEGER + BOOLEAN"),
        ("-true", "unknown operator: -BOOLEAN"),
        ("true + false;", "unknown operator: BOOLEAN + BOOLEAN"),
        ("5; true + false; 5", "unknown operator: BOOLEAN + BOOLEAN"),
        (
            "if (10 > 1) { true + false; }",
            "unknown operator: BOOLEAN + BOOLEAN",
        ),
        (
            "if (10 > 1) {
                if (10 > 1) {
                return true + false;
                }
                return 1;
                }
                ",
            "unknown operator: BOOLEAN + BOOLEAN",
        ),
        ("foobar", "identifier not found: foobar"),
        (r#""Hello" - "World""#, "unknown operator: STRING - STRING"),
        (
            r#"{"name": "TwoT"}[function(x) { x }];"#,
            "unusable as Dictionary key: FUNCTION",
        ),
    ];

    for test in tests {
        let evaluated = test_eval(test.0);
        match evaluated {
            Object::Error(err) => assert_eq!(err, test.1),
            other => panic!("no error object returned. got={:?}", other),
        }
    }
}

#[test]
fn test_bang_operator() {
    let tests = vec![
        ("!true", false),
        ("!false", true),
        ("!1383", false),
        ("!!true", true),
        ("!!false", false),
        ("!!1383", true),
    ];

    for test in tests {
        let evaluated = test_eval(test.0);
        test_boolean_object(evaluated, test.1);
    }
}

#[test]
fn test_closures() {
    let input = r#"
        say newAdder = function(x) {
            function(y) {x + y};
        };

        say addTwo = newAdder(25);
        addTwo(25);
        "#;

    test_integer_object(test_eval(input), 50);
}

#[test]
fn test_function_object() {
    let input = "function(x) {x + 23}";
    let evaluated = test_eval(input);

    match evaluated {
        Object::Function(function) => {
            assert_eq!(
                function.parameters.len(),
                1,
                "function has wrong parameters length, got={}",
                function.parameters.len()
            );
            assert_eq!(
                function.parameters[0].print_string(),
                "x",
                "parameter is not 'x', got={}",
                function.parameters[0].print_string()
            );
            assert_eq!(
                function.body.print_string(),
                "(x + 23)",
                "body is not '(x + 23)', got={}",
                function.body.print_string()
            );
        }
        other => panic!("Entered Object is not function, got={:?}", other),
    }
}

#[test]
fn test_function_application() {
    let tests = vec![
        ("say identity = function(x) { x; }; identity(5);", 5),
        ("say identity = function(x) { return x; }; identity(5);", 5),
        ("say double = function(x) { x * 2; }; double(5);", 10),
        ("say add = function(x, y) { x + y; }; add(5, 5);", 10),
        ("say add = function(x, y) { x+ y; }; add(5 + 5, add(5, 5));", 20),
        ("function(x) { x; }(5)", 5),
    ];

    for test in tests {
        test_integer_object(test_eval(test.0), test.1);
    }
}

#[test]
fn test_string_literal() {
    let input = r#""hello world!!""#;
    let evaluated = test_eval(input);

    match evaluated {
        Object::StringObject(string) => {
            assert_eq!(
                string, "hello world!!",
                "string has wrong value, got={}",
                string
            );
        }
        other => panic!("Entered object is not string: got={:?}", other),
    }
}

#[test]
fn test_string_concatenation() {
    let input = r#"

            "Hello" + " " + "World!!"

        "#;
    let evaluated = test_eval(input);
    match evaluated {
        Object::StringObject(string) => assert_eq!(
            string, "Hello World!!",
            "string has wrong value, got={}",
            string
        ),
        other => panic!("Entered object is not string, got={:?}", other),
    }
}

#[test]
fn test_array_literal() {
    let input = "[0, 2 * 2, 2003 + 2004]";
    let evaluated = test_eval(input);

    match evaluated {
        Object::Array(elements) => {
            assert_eq!(
                elements.len(),
                3,
                "array has wrong num of elements. got={}",
                elements.len()
            );
            test_integer_object(elements[0].clone(), 0);
            test_integer_object(elements[1].clone(), 4);
            test_integer_object(elements[2].clone(), 4007);
        }
        other => panic!("object is not array, got={:?}", other),
    }
}

#[test]
fn test_array_index_expressions() {
    let tests: Vec<(&str, Option<i64>)> = vec![
        ("[1, 2, 3][0]", Some(1)),
        ("[1, 2, 3][1]", Some(2)),
        ("[1, 2, 3][2]", Some(3)),
        ("say i = 0; [1][i];", Some(1)),
        ("[1, 2, 3][1 + 1];", Some(3)),
        ("say Array = [1, 2, 3]; Array[2];", Some(3)),
        ("say Array = [1, 2, 3]; Array[0] + Array[1] + Array[2];", Some(6)),
        ("say Array = [1, 2, 3]; say i = Array[0]; Array[i]", Some(2)),
        ("[1, 2, 3][3]", None),
        ("[1, 2, 3][-1]", None),
    ];

    for test in tests {
        let evaluated = test_eval(test.0);
        match test.1 {
            Some(expected) => test_integer_object(evaluated, expected),
            None => test_null_object(evaluated),
        }
    }
}

#[test]
fn test_builtin_functions() {
    let tests: Vec<(&str, Result<i64, &str>)> = vec![
        (r#"len("")"#, Ok(0)),
        (r#"len("four")"#, Ok(4)),
        (r#"len("arash paghe")"#, Ok(11)),
        (r#"len("hello world")"#, Ok(11)),
        (
            r#"len(1)"#,
            Err("argument to 'len' not supported, got=INTEGER"),
        ),
        (
            r#"len("one", "two")"#,
            Err("wrong number of arguments. got=2, want=1"),
        ),
    ];

    for test in tests {
        let evaluated = test_eval(test.0);
        match test.1 {
            Ok(expected) => test_integer_object(evaluated, expected),
            Err(expected) => match evaluated {
                Object::Error(err) => assert_eq!(
                    err, expected,
                    "wrong error message. expected={}, got={}",
                    expected, err
                ),
                other => panic!("Entered object is not error. got={:?}", other),
            },
        }
    }
}

#[test]
fn test_dictionary_literals() {
    let input = r#"say two = "two";
        {
            "one": 10 - 9,
            "two": 1 + 1,
            "thr" + "ee": 6/2,
            4: 4,
            true: 5,
            false: 6,
        }"#;

    let evaluated = test_eval(input);

    match evaluated {
        Object::DictObject(hash) => {
            let expected = vec![
                (Object::StringObject("one".to_string()).dict_key(), 1),
                (Object::StringObject("two".to_string()).dict_key(), 2),
                (Object::StringObject("three".to_string()).dict_key(), 3),
                (Object::Integer(4).dict_key(), 4),
                (Object::Boolean(true).dict_key(), 5),
                (Object::Boolean(false).dict_key(), 6),
            ];

            assert_eq!(
                hash.pairs.len(),
                expected.len(),
                "dictionary object has wrong number of pairs. got={}, expected={}",
                hash.pairs.len(),
                expected.len()
            );

            for (expected_key, expected_value) in expected {
                let pair = match hash.get(expected_key.as_ref().unwrap()) {
                    Some(pair) => pair,
                    None => panic!("no pair for given key in pairs"),
                };
                test_integer_object(pair.value.clone(), expected_value);
            }
        }
        other => panic!("eval did not return hash object, got={:?}", other),
    }
}

#[test]
fn test_hash_index_expressions() {
    let tests: Vec<(&str, Option<i64>)> = vec![
        (r#"{"five": 5}["five"]"#, Some(5)),
        (r#"{"five": 5}["six"]"#, None),
        (r#"say key = "five"; {"five": 5}[key]"#, Some(5)),
        (r#"{}["five"]"#, None),
        (r#"{5: 5}[5]"#, Some(5)),
        (r#"{true: 5}[true]"#, Some(5)),
        (r#"{false: 5}[false]"#, Some(5)),
    ];

    for test in tests {
        let evaluated = test_eval(test.0);

        match test.1 {
            Some(expected) => test_integer_object(evaluated, expected),
            None => test_null_object(evaluated),
        }
    }
}
