use twot::ast::{ExpressionNode, Node, StatementNode};
use twot::lexer::Lexer;
use twot::parser::Parser;
use twot::token::TokenKind;

fn parse(input: &str) -> twot::ast::Program {
    Parser::new(Lexer::new(input)).parse_program().unwrap()
}

#[test]
fn test_precedence_shapes_the_tree() {
    // The rendering is fully parenthesized, so it shows the tree shape the
    // parser chose.
    let cases = vec![
        ("8 + 4 * 2", "(8 + (4 * 2))"),
        ("8 * (4 + 2)", "(8 * (4 + 2))"),
        ("-a * b", "((-a) * b)"),
        ("!-a", "(!(-a))"),
        ("a + b + c", "((a + b) + c)"),
        ("a + b - c", "((a + b) - c)"),
        ("a * b * c", "((a * b) * c)"),
        ("a + b / c", "(a + (b / c))"),
        ("3 + 4; -5 * 5", "(3 + 4)((-5) * 5)"),
        ("5 > 4 == 3 < 4", "((5 > 4) == (3 < 4))"),
        ("3 + 4 * 5 == 3 * 1 + 4 * 5", "((3 + (4 * 5)) == ((3 * 1) + (4 * 5)))"),
        ("a + add(b * c) + d", "((a + add((b * c))) + d)"),
        ("a * [1, 2, 3, 4][b * c] * d", "((a * ([1, 2, 3, 4][(b * c)])) * d)"),
        ("add(a * b[2], b[1], 2 * [1, 2][1])", "add((a * (b[2])), (b[1]), (2 * ([1, 2][1])))"),
    ];
    for (input, expected) in cases {
        let program = parse(input);
        assert_eq!(program.print_string(), expected, "wrong tree for {}", input);
    }
}

#[test]
fn test_say_statement_shape() {
    let program = parse("say x = 5; say y = true; say foobar = y;");
    assert_eq!(program.statements.len(), 3);
    let names = ["x", "y", "foobar"];
    for (stmt, want) in program.statements.iter().zip(names.iter()) {
        match stmt {
            StatementNode::Say(s) => {
                assert_eq!(s.name.value, *want);
                assert_eq!(s.token.literal, "say");
            }
            other => panic!("not a say statement: {:?}", other),
        }
    }
}

#[test]
fn test_function_literal_shape() {
    let program = parse("function(x, y) { x + y; }");
    assert_eq!(program.statements.len(), 1);
    match &program.statements[0] {
        StatementNode::Expression(es) => match es.expression.as_ref().unwrap() {
            ExpressionNode::Function(f) => {
                assert_eq!(f.parameters.len(), 2);
                assert_eq!(f.parameters[0].value, "x");
                assert_eq!(f.parameters[1].value, "y");
                assert_eq!(f.body.print_string(), "(x + y)");
            }
            other => panic!("not a function literal: {:?}", other),
        },
        other => panic!("not an expression statement: {:?}", other),
    }
}

#[test]
fn test_lexer_token_kinds() {
    let mut lexer = Lexer::new("say five = 5; five == 5; five != 4; \"hi\" [1] {2:3}");
    let expected = vec![
        (TokenKind::Say, "say"),
        (TokenKind::Ident, "five"),
        (TokenKind::Assign, "="),
        (TokenKind::Int, "5"),
        (TokenKind::Semicolon, ";"),
        (TokenKind::Ident, "five"),
        (TokenKind::Equal, "=="),
        (TokenKind::Int, "5"),
        (TokenKind::Semicolon, ";"),
        (TokenKind::Ident, "five"),
        (TokenKind::NotEqual, "!="),
        (TokenKind::Int, "4"),
        (TokenKind::Semicolon, ";"),
        (TokenKind::Str, "hi"),
        (TokenKind::Lbracket, "["),
        (TokenKind::Int, "1"),
        (TokenKind::Rbracket, "]"),
        (TokenKind::Lbrace, "{"),
        (TokenKind::Int, "2"),
        (TokenKind::Colon, ":"),
        (TokenKind::Int, "3"),
        (TokenKind::Rbrace, "}"),
        (TokenKind::Eof, ""),
    ];
    for (kind, literal) in expected {
        let t = lexer.next_token();
        assert_eq!(t.kind, kind, "wrong kind for {}", literal);
        assert_eq!(t.literal, literal);
    }
}

#[test]
fn test_illegal_character_is_a_syntax_error() {
    let mut parser = Parser::new(Lexer::new("say a = 5 @ 3;"));
    assert!(parser.parse_program().is_err());
}

#[test]
fn test_empty_program_evaluates_to_null() {
    let program = parse("");
    let mut evaluator = twot::evaluator::Evaluator::new();
    match evaluator.eval_program(program) {
        twot::object::Object::Null => {}
        other => panic!("empty program should be Null, got={:?}", other),
    }
}
