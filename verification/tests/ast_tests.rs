use twot::ast::{ExpressionNode, Identifier, Node, Program, SayStatement, StatementNode};
use twot::token::{Token, TokenKind};

#[test]
fn test_print_string() {
    let program = Program {
        statements: vec![StatementNode::Say(SayStatement {
            token: Token {
                kind: TokenKind::Say,
                literal: String::from("say"),
            },
            name: Identifier {
                token: Token {
                    kind: TokenKind::Ident,
                    literal: String::from("myName"),
                },
                value: String::from("myName"),
            },
            value: Some(ExpressionNode::IdentifierNode(Identifier {
                token: Token {
                    kind: TokenKind::Ident,
                    literal: String::from("anotherName"),
                },
                value: String::from("anotherName"),
            })),
        })],
    };

    assert_eq!(
        program.print_string(),
        String::from("say myName = anotherName;"),
        "print string wrong. got = {}",
        program.print_string()
    );
}

#[test]
fn test_render_round_trip() {
    // Rendering a parsed expression and reparsing the rendering evaluates
    // to the same result.
    let sources = vec![
        "3 * (15 + 5)",
        "8 + 4 * 2",
        "(8 + 4 * 2 + 20 / 5) * 2 + -20",
        "-132 + 264 + -132",
        "1 < 2",
        "(1 < 2) == true",
        "true != false",
        "!!1383",
        "8 + 4 * 2 == 16",
    ];
    for source in sources {
        let lexer = twot::lexer::Lexer::new(source);
        let mut parser = twot::parser::Parser::new(lexer);
        let program = parser.parse_program().unwrap();
        let rendered = program.print_string();

        let relexer = twot::lexer::Lexer::new(rendered.as_str());
        let mut reparser = twot::parser::Parser::new(relexer);
        let reparsed = reparser.parse_program().unwrap();

        let lexer2 = twot::lexer::Lexer::new(source);
        let mut parser2 = twot::parser::Parser::new(lexer2);
        let original = parser2.parse_program().unwrap();

        let mut ev1 = twot::evaluator::Evaluator::new();
        let mut ev2 = twot::evaluator::Evaluator::new();
        let r1 = ev1.eval_program(original).inspect();
        let r2 = ev2.eval_program(reparsed).inspect();
        assert_eq!(r1, r2, "round trip changed the result of {}", source);
    }
}

#[test]
fn test_parser_reports_syntax_errors() {
    let lexer = twot::lexer::Lexer::new("say = 5; @; if (true {1}");
    let mut parser = twot::parser::Parser::new(lexer);
    let parsed = parser.parse_program();
    match parsed {
        Ok(_) => panic!("a broken program parsed without errors"),
        Err(errors) => assert!(errors.len() > 0),
    }
}
