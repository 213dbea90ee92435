//! The parser: consumes the whole token stream and returns either a
//! complete program or the non-empty list of syntax errors it collected.
//! Expressions are parsed by precedence climbing: parse one prefix
//! expression, then, while the next token binds tighter than the current
//! threshold, consume it and recurse with that operator's precedence — so
//! same-precedence chains come out left-associative and mixed precedence
//! nests correctly. Parsing does not stop at the first error: it records a
//! diagnostic, resynchronizes by skipping a token, and keeps going.

use vstd::prelude::*;

use crate::ast::{
    ArrayLiteral, BlockStatement, Boolean, CallExpression, DictLiteral, ExpressionNode,
    ExpressionStatement, FunctionLiteral, Identifier, IfExpression, IndexExpression,
    InfixExpression, IntegerLiteral, PrefixExpression, Program, ReturnStatement, SayStatement,
    StatementNode, StringLiteral,
};
use crate::ast::{
    block_view, expr_view, exprs_view, idents_view, lemma_exprs_view_index, lemma_exprs_view_len,
    lemma_idents_view_index, lemma_idents_view_len, lemma_stmts_view_index, lemma_stmts_view_len,
    opt_expr_view, opt_stmt_view, pairs_view,
    stmt_view, stmts_view, SArray, SBlock, SBool, SCall, SDict, SExpr, SExprStmt, SFnLit, SIdent,
    SIf, SIndex, SInfix, SInt, SPrefix, SProgram, SReturn, SSay, SStmt, SStrLit,
};
use crate::lexer::{lex_all_spec, next_token_spec, Lexer};
use crate::token::{SToken, Token, TokenKind};

verus! {

/// Binding strength of an infix token; ascending: equality, relational,
/// additive, multiplicative, prefix, call, index. Anything else binds not
/// at all.
pub open spec fn precedence_spec(kind: TokenKind) -> u64 {
    match kind {
        TokenKind::Equal => 1,
        TokenKind::NotEqual => 1,
        TokenKind::Lt => 2,
        TokenKind::Gt => 2,
        TokenKind::Plus => 3,
        TokenKind::Minus => 3,
        TokenKind::Slash => 4,
        TokenKind::Asterisk => 4,
        TokenKind::Lparen => 6,
        TokenKind::Lbracket => 7,
        _ => 0,
    }
}

pub fn precedence_of(kind: TokenKind) -> (r: u64)
    ensures
        r == precedence_spec(kind),
{
    match kind {
        TokenKind::Equal => 1,
        TokenKind::NotEqual => 1,
        TokenKind::Lt => 2,
        TokenKind::Gt => 2,
        TokenKind::Plus => 3,
        TokenKind::Minus => 3,
        TokenKind::Slash => 4,
        TokenKind::Asterisk => 4,
        TokenKind::Lparen => 6,
        TokenKind::Lbracket => 7,
        _ => 0,
    }
}

/// The precedence passed when a prefix operator's operand is parsed.
pub const PREFIX_PRECEDENCE: u64 = 5;


// ---------------------------------------------------------------------------
// The token stream as the specification sees it
// ---------------------------------------------------------------------------

pub open spec fn toks_view(v: Seq<Token>) -> Seq<SToken>
    decreases v.len(),
{
    if v.len() == 0 {
        Seq::empty()
    } else {
        toks_view(v.drop_last()).push(v.last()@)
    }
}

pub broadcast proof fn lemma_toks_view_len(v: Seq<Token>)
    ensures
        (#[trigger] toks_view(v)).len() == v.len(),
    decreases v.len(),
{
    if v.len() > 0 {
        lemma_toks_view_len(v.drop_last());
    }
}

pub broadcast proof fn lemma_toks_view_index(v: Seq<Token>, i: int)
    requires
        0 <= i < v.len(),
    ensures
        #[trigger] toks_view(v)[i] == v[i]@,
    decreases v.len(),
{
    lemma_toks_view_len(v);
    lemma_toks_view_len(v.drop_last());
    if i < v.len() - 1 {
        lemma_toks_view_index(v.drop_last(), i);
        assert(v.drop_last()[i] == v[i]);
    } else {
        assert(v.last() == v[i]);
    }
}

pub open spec fn strings_view(v: Seq<String>) -> Seq<Seq<char>>
    decreases v.len(),
{
    if v.len() == 0 {
        Seq::empty()
    } else {
        strings_view(v.drop_last()).push(v.last()@)
    }
}

pub broadcast proof fn lemma_strings_view_len(v: Seq<String>)
    ensures
        (#[trigger] strings_view(v)).len() == v.len(),
    decreases v.len(),
{
    if v.len() > 0 {
        lemma_strings_view_len(v.drop_last());
    }
}

pub broadcast proof fn lemma_strings_view_index(v: Seq<String>, i: int)
    requires
        0 <= i < v.len(),
    ensures
        #[trigger] strings_view(v)[i] == v[i]@,
    decreases v.len(),
{
    lemma_strings_view_len(v);
    lemma_strings_view_len(v.drop_last());
    if i < v.len() - 1 {
        lemma_strings_view_index(v.drop_last(), i);
        assert(v.drop_last()[i] == v[i]);
    } else {
        assert(v.last() == v[i]);
    }
}

/// The token at a cursor; past the end the stream reads as end-of-input.
pub open spec fn tok_at(toks: Seq<SToken>, i: int) -> SToken {
    if 0 <= i < toks.len() {
        toks[i]
    } else {
        SToken { kind: TokenKind::Eof, literal: Seq::empty() }
    }
}

pub open spec fn kind_at(toks: Seq<SToken>, i: int) -> TokenKind {
    tok_at(toks, i).kind
}

/// Consuming one token; the cursor never leaves the stream.
pub open spec fn advance_spec(toks: Seq<SToken>, p: int) -> int {
    if p < toks.len() {
        p + 1
    } else {
        p
    }
}

/// A cursor handed back by a sub-parse, which never moves backward.
pub open spec fn at_least(base: int, p: int) -> int {
    if p < base {
        base
    } else {
        p
    }
}

/// The diagnostic for a token standing where something else was required.
pub open spec fn msg_expected(expected: Seq<char>, got: Seq<char>) -> Seq<char> {
    "expected "@ + expected + ", got '"@ + got + "'"@
}

/// The diagnostic for an integer literal that does not fit.
pub open spec fn msg_bad_int(lit: Seq<char>) -> Seq<char> {
    "could not parse '"@ + lit + "' as a 64-bit integer"@
}

/// The number an all-digit text denotes, when it is non-empty and fits.
pub open spec fn i64_of_digits(s: Seq<char>) -> Option<i64> {
    if s.len() > 0 && all_digits(s) && digits_value(s) <= i64::MAX {
        Option::Some(digits_value(s) as i64)
    } else {
        Option::None
    }
}

/// Consume the token at `p` when it has the wanted kind, else record the
/// diagnostic and stay put.
pub open spec fn expect_spec(
    toks: Seq<SToken>,
    p: int,
    errs: Seq<Seq<char>>,
    kind: TokenKind,
    expected: Seq<char>,
) -> (int, Seq<Seq<char>>, bool) {
    if kind_at(toks, p) == kind {
        (advance_spec(toks, p), errs, true)
    } else {
        (p, errs.push(msg_expected(expected, tok_at(toks, p).literal)), false)
    }
}

// ---------------------------------------------------------------------------
// The parser's model: one spec function per production, mirroring the
// executable parser step for step; the executable functions are proved to
// compute exactly what these say.
// ---------------------------------------------------------------------------

#[verifier::opaque]
pub open spec fn parse_stmt_spec(toks: Seq<SToken>, pos: int, errs: Seq<Seq<char>>) -> (
    int,
    Seq<Seq<char>>,
    Option<SStmt>,
)
    decreases toks.len() - pos, 6int,
{
    match kind_at(toks, pos) {
        TokenKind::Say => parse_say_spec(toks, pos, errs),
        TokenKind::Return => parse_return_spec(toks, pos, errs),
        _ => parse_exprstmt_spec(toks, pos, errs),
    }
}

pub open spec fn parse_say_spec(toks: Seq<SToken>, pos: int, errs: Seq<Seq<char>>) -> (
    int,
    Seq<Seq<char>>,
    Option<SStmt>,
)
    decreases toks.len() - pos, 5int,
{
    let say_token = tok_at(toks, pos);
    let p1 = advance_spec(toks, pos);
    if kind_at(toks, p1) != TokenKind::Ident {
        (p1, errs.push(msg_expected("an identifier after 'say'"@, tok_at(toks, p1).literal)),
        Option::None)
    } else {
        let name_token = tok_at(toks, p1);
        let name = SIdent { token: name_token, value: name_token.literal };
        let p2 = advance_spec(toks, p1);
        let (p3, e3, ok) = expect_spec(toks, p2, errs, TokenKind::Assign, "'='"@);
        if !ok {
            (p3, e3, Option::None)
        } else {
            let (p4r, e4, value) = parse_expr_spec(toks, p3, e3, 0);
            let p4 = at_least(p3, p4r);
            match value {
                Option::None => (p4, e4, Option::None),
                Option::Some(v) => {
                    let p5 = if kind_at(toks, p4) == TokenKind::Semicolon {
                        advance_spec(toks, p4)
                    } else {
                        p4
                    };
                    (
                        p5,
                        e4,
                        Option::Some(
                            SStmt::Say(
                                SSay { token: say_token, name, value: Option::Some(v) },
                            ),
                        ),
                    )
                },
            }
        }
    }
}

pub open spec fn parse_return_spec(toks: Seq<SToken>, pos: int, errs: Seq<Seq<char>>) -> (
    int,
    Seq<Seq<char>>,
    Option<SStmt>,
)
    decreases toks.len() - pos, 5int,
{
    let return_token = tok_at(toks, pos);
    let p1 = advance_spec(toks, pos);
    if kind_at(toks, p1) == TokenKind::Semicolon {
        (
            advance_spec(toks, p1),
            errs,
            Option::Some(
                SStmt::Return(SReturn { token: return_token, return_value: Option::None }),
            ),
        )
    } else if kind_at(toks, p1) == TokenKind::Rbrace || kind_at(toks, p1) == TokenKind::Eof {
        (
            p1,
            errs,
            Option::Some(
                SStmt::Return(SReturn { token: return_token, return_value: Option::None }),
            ),
        )
    } else {
        let (p2r, e2, value) = parse_expr_spec(toks, p1, errs, 0);
        let p2 = at_least(p1, p2r);
        match value {
            Option::None => (p2, e2, Option::None),
            Option::Some(v) => {
                let p3 = if kind_at(toks, p2) == TokenKind::Semicolon {
                    advance_spec(toks, p2)
                } else {
                    p2
                };
                (
                    p3,
                    e2,
                    Option::Some(
                        SStmt::Return(
                            SReturn { token: return_token, return_value: Option::Some(v) },
                        ),
                    ),
                )
            },
        }
    }
}

pub open spec fn parse_exprstmt_spec(toks: Seq<SToken>, pos: int, errs: Seq<Seq<char>>) -> (
    int,
    Seq<Seq<char>>,
    Option<SStmt>,
)
    decreases toks.len() - pos, 5int,
{
    let token = tok_at(toks, pos);
    let (p1r, e1, e) = parse_expr_spec(toks, pos, errs, 0);
    let p1 = at_least(pos, p1r);
    match e {
        Option::None => (p1, e1, Option::None),
        Option::Some(expr) => {
            let p2 = if kind_at(toks, p1) == TokenKind::Semicolon {
                advance_spec(toks, p1)
            } else {
                p1
            };
            (
                p2,
                e1,
                Option::Some(
                    SStmt::Expression(SExprStmt { token, expression: Option::Some(expr) }),
                ),
            )
        },
    }
}

pub open spec fn parse_expr_spec(
    toks: Seq<SToken>,
    pos: int,
    errs: Seq<Seq<char>>,
    precedence: u64,
) -> (int, Seq<Seq<char>>, Option<SExpr>)
    decreases toks.len() - pos, 3int,
{
    if pos > toks.len() {
        (pos, errs, Option::None)
    } else {
        let (p1r, e1, left) = parse_prefix_spec(toks, pos, errs);
        let p1 = at_least(pos, p1r);
        let p1c = if p1 > toks.len() {
            toks.len() as int
        } else {
            p1
        };
        match left {
            Option::None => (p1c, e1, Option::None),
            Option::Some(l) => parse_infix_chain_spec(toks, p1c, e1, precedence, l),
        }
    }
}

/// The climbing loop: while the next token binds tighter than the
/// threshold, consume it and extend the expression to the left.
pub open spec fn parse_infix_chain_spec(
    toks: Seq<SToken>,
    pos: int,
    errs: Seq<Seq<char>>,
    precedence: u64,
    left: SExpr,
) -> (int, Seq<Seq<char>>, Option<SExpr>)
    decreases toks.len() - pos, 2int,
{
    let next = kind_at(toks, pos);
    if precedence >= precedence_spec(next) {
        (pos, errs, Option::Some(left))
    } else {
        let op_token = tok_at(toks, pos);
        let (p2, e2, left2) = if next == TokenKind::Lparen {
            let pa = advance_spec(toks, pos);
            let (pbr, eb, args) = parse_expr_list_spec(
                toks,
                pa,
                errs,
                TokenKind::Rparen,
                Seq::empty(),
            );
            let pb = at_least(pa, pbr);
            match args {
                Option::None => (pb, eb, Option::<SExpr>::None),
                Option::Some(arguments) => (
                    pb,
                    eb,
                    Option::Some(
                        SExpr::Call(
                            SCall {
                                token: op_token,
                                function: Box::new(left),
                                arguments,
                            },
                        ),
                    ),
                ),
            }
        } else if next == TokenKind::Lbracket {
            let pa = advance_spec(toks, pos);
            let (pbr, eb, idx) = parse_expr_spec(toks, pa, errs, 0);
            let pb = at_least(pa, pbr);
            match idx {
                Option::None => (pb, eb, Option::<SExpr>::None),
                Option::Some(index) => {
                    let (pc, ec, ok) = expect_spec(toks, pb, eb, TokenKind::Rbracket, "']'"@);
                    if !ok {
                        (pc, ec, Option::<SExpr>::None)
                    } else {
                        (
                            pc,
                            ec,
                            Option::Some(
                                SExpr::Index(
                                    SIndex {
                                        token: op_token,
                                        left: Box::new(left),
                                        index: Box::new(index),
                                    },
                                ),
                            ),
                        )
                    }
                },
            }
        } else {
            let pa = advance_spec(toks, pos);
            let (pbr, eb, right) = parse_expr_spec(toks, pa, errs, precedence_spec(next));
            let pb = at_least(pa, pbr);
            match right {
                Option::None => (pb, eb, Option::<SExpr>::None),
                Option::Some(right_expr) => (
                    pb,
                    eb,
                    Option::Some(
                        SExpr::Infix(
                            SInfix {
                                token: op_token,
                                left: Box::new(left),
                                operator: op_token.literal,
                                right: Box::new(right_expr),
                            },
                        ),
                    ),
                ),
            }
        };
        match left2 {
            Option::None => (p2, e2, Option::None),
            Option::Some(l2) => if p2 <= pos {
                (p2, e2, Option::Some(l2))
            } else {
                let p2c = if p2 > toks.len() {
                    toks.len() as int
                } else {
                    p2
                };
                parse_infix_chain_spec(toks, p2c, e2, precedence, l2)
            },
        }
    }
}

pub open spec fn parse_prefix_spec(toks: Seq<SToken>, pos: int, errs: Seq<Seq<char>>) -> (
    int,
    Seq<Seq<char>>,
    Option<SExpr>,
)
    decreases toks.len() - pos, 1int,
{
    let token = tok_at(toks, pos);
    match kind_at(toks, pos) {
        TokenKind::Ident => (
            advance_spec(toks, pos),
            errs,
            Option::Some(SExpr::Ident(SIdent { token, value: token.literal })),
        ),
        TokenKind::Int => {
            let p1 = advance_spec(toks, pos);
            match i64_of_digits(token.literal) {
                Option::Some(value) => (
                    p1,
                    errs,
                    Option::Some(SExpr::Int(SInt { token, value })),
                ),
                Option::None => (p1, errs.push(msg_bad_int(token.literal)), Option::None),
            }
        },
        TokenKind::Str => (
            advance_spec(toks, pos),
            errs,
            Option::Some(SExpr::Str(SStrLit { token, value: token.literal })),
        ),
        TokenKind::True => (
            advance_spec(toks, pos),
            errs,
            Option::Some(SExpr::Bool(SBool { token, value: true })),
        ),
        TokenKind::False => (
            advance_spec(toks, pos),
            errs,
            Option::Some(SExpr::Bool(SBool { token, value: false })),
        ),
        TokenKind::Bang => parse_prefix_operand_spec(toks, pos, errs),
        TokenKind::Minus => parse_prefix_operand_spec(toks, pos, errs),
        TokenKind::Lparen => {
            let pa = advance_spec(toks, pos);
            let (pbr, eb, e) = parse_expr_spec(toks, pa, errs, 0);
            let pb = at_least(pa, pbr);
            match e {
                Option::None => (pb, eb, Option::None),
                Option::Some(inner) => {
                    let (pc, ec, ok) = expect_spec(toks, pb, eb, TokenKind::Rparen, "')'"@);
                    if !ok {
                        (pc, ec, Option::None)
                    } else {
                        (pc, ec, Option::Some(inner))
                    }
                },
            }
        },
        TokenKind::If => parse_if_spec(toks, pos, errs),
        TokenKind::Function => parse_function_spec(toks, pos, errs),
        TokenKind::Lbracket => {
            let pa = advance_spec(toks, pos);
            let (pbr, eb, elements) = parse_expr_list_spec(
                toks,
                pa,
                errs,
                TokenKind::Rbracket,
                Seq::empty(),
            );
            let pb = at_least(pa, pbr);
            match elements {
                Option::None => (pb, eb, Option::None),
                Option::Some(elements) => (
                    pb,
                    eb,
                    Option::Some(SExpr::Array(SArray { token, elements })),
                ),
            }
        },
        TokenKind::Lbrace => parse_dict_spec(toks, pos, errs),
        _ => (
            pos,
            errs.push(msg_expected("an expression"@, token.literal)),
            Option::None,
        ),
    }
}

/// The operand of a prefix operator standing at `pos`.
pub open spec fn parse_prefix_operand_spec(toks: Seq<SToken>, pos: int, errs: Seq<Seq<char>>) -> (
    int,
    Seq<Seq<char>>,
    Option<SExpr>,
)
    decreases toks.len() - pos, 0int,
{
    if pos >= toks.len() {
        (pos, errs, Option::None)
    } else {
        let token = tok_at(toks, pos);
        let pa = pos + 1;
        let (pbr, eb, right) = parse_expr_spec(toks, pa, errs, PREFIX_PRECEDENCE);
        let pb = at_least(pa, pbr);
        match right {
            Option::None => (pb, eb, Option::None),
            Option::Some(right_expr) => (
                pb,
                eb,
                Option::Some(
                    SExpr::Prefix(
                        SPrefix {
                            token,
                            operator: token.literal,
                            right: Box::new(right_expr),
                        },
                    ),
                ),
            ),
        }
    }
}

pub open spec fn parse_if_spec(toks: Seq<SToken>, pos: int, errs: Seq<Seq<char>>) -> (
    int,
    Seq<Seq<char>>,
    Option<SExpr>,
)
    decreases toks.len() - pos, 0int,
{
    if pos >= toks.len() {
        (pos, errs, Option::None)
    } else {
        let token = tok_at(toks, pos);
        let p1 = pos + 1;
        let (p2, e2, ok2) = expect_spec(toks, p1, errs, TokenKind::Lparen, "'(' after 'if'"@);
        if !ok2 {
            (p2, e2, Option::None)
        } else {
            let (p3r, e3, cond) = parse_expr_spec(toks, p2, e2, 0);
            let p3 = at_least(p2, p3r);
            match cond {
                Option::None => (p3, e3, Option::None),
                Option::Some(condition) => {
                    let (p4, e4, ok4) = expect_spec(toks, p3, e3, TokenKind::Rparen, "')'"@);
                    if !ok4 {
                        (p4, e4, Option::None)
                    } else if kind_at(toks, p4) != TokenKind::Lbrace {
                        (
                            p4,
                            e4.push(
                                msg_expected(
                                    "'{' to open the consequence"@,
                                    tok_at(toks, p4).literal,
                                ),
                            ),
                            Option::None,
                        )
                    } else {
                        let (p5r, e5, consequence) = parse_block_spec(toks, p4, e4);
                        let p5 = at_least(p4, p5r);
                        if kind_at(toks, p5) == TokenKind::Else {
                            let p6 = advance_spec(toks, p5);
                            if kind_at(toks, p6) != TokenKind::Lbrace {
                                (
                                    p6,
                                    e5.push(
                                        msg_expected(
                                            "'{' to open the alternative"@,
                                            tok_at(toks, p6).literal,
                                        ),
                                    ),
                                    Option::None,
                                )
                            } else {
                                let (p7r, e7, alt) = parse_block_spec(toks, p6, e5);
                                let p7 = at_least(p6, p7r);
                                (
                                    p7,
                                    e7,
                                    Option::Some(
                                        SExpr::If(
                                            SIf {
                                                token,
                                                condition: Box::new(condition),
                                                consequence,
                                                alternative: Option::Some(alt),
                                            },
                                        ),
                                    ),
                                )
                            }
                        } else {
                            (
                                p5,
                                e5,
                                Option::Some(
                                    SExpr::If(
                                        SIf {
                                            token,
                                            condition: Box::new(condition),
                                            consequence,
                                            alternative: Option::None,
                                        },
                                    ),
                                ),
                            )
                        }
                    }
                },
            }
        }
    }
}

pub open spec fn parse_function_spec(toks: Seq<SToken>, pos: int, errs: Seq<Seq<char>>) -> (
    int,
    Seq<Seq<char>>,
    Option<SExpr>,
)
    decreases toks.len() - pos, 0int,
{
    if pos >= toks.len() {
        (pos, errs, Option::None)
    } else {
        let token = tok_at(toks, pos);
        let p1 = pos + 1;
        let (p2, e2, ok2) = expect_spec(toks, p1, errs, TokenKind::Lparen, "'(' after 'function'"@);
        if !ok2 {
            (p2, e2, Option::None)
        } else {
            let (p3r, e3, params) = parse_params_spec(toks, p2, e2);
            let p3 = at_least(p2, p3r);
            match params {
                Option::None => (p3, e3, Option::None),
                Option::Some(parameters) => {
                    if kind_at(toks, p3) != TokenKind::Lbrace {
                        (
                            p3,
                            e3.push(
                                msg_expected(
                                    "'{' to open the function body"@,
                                    tok_at(toks, p3).literal,
                                ),
                            ),
                            Option::None,
                        )
                    } else {
                        let (p4r, e4, body) = parse_block_spec(toks, p3, e3);
                        let p4 = at_least(p3, p4r);
                        (
                            p4,
                            e4,
                            Option::Some(
                                SExpr::Function(SFnLit { token, parameters, body }),
                            ),
                        )
                    }
                },
            }
        }
    }
}

/// The comma-separated identifier list closed by `)`.
pub open spec fn parse_params_spec(toks: Seq<SToken>, pos: int, errs: Seq<Seq<char>>) -> (
    int,
    Seq<Seq<char>>,
    Option<Seq<SIdent>>,
)
    decreases toks.len() - pos, 4int,
{
    if kind_at(toks, pos) == TokenKind::Rparen {
        (advance_spec(toks, pos), errs, Option::Some(Seq::empty()))
    } else {
        parse_params_loop_spec(toks, pos, errs, Seq::empty())
    }
}

/// One parameter name, then a comma and more, or the closing `)`.
pub open spec fn parse_params_loop_spec(
    toks: Seq<SToken>,
    pos: int,
    errs: Seq<Seq<char>>,
    acc: Seq<SIdent>,
) -> (int, Seq<Seq<char>>, Option<Seq<SIdent>>)
    decreases toks.len() - pos, 0int,
{
    if kind_at(toks, pos) != TokenKind::Ident {
        (
            pos,
            errs.push(msg_expected("a parameter name"@, tok_at(toks, pos).literal)),
            Option::None,
        )
    } else {
        let token = tok_at(toks, pos);
        let acc1 = acc.push(SIdent { token, value: token.literal });
        let p1 = advance_spec(toks, pos);
        if kind_at(toks, p1) == TokenKind::Comma {
            parse_params_loop_spec(toks, advance_spec(toks, p1), errs, acc1)
        } else if kind_at(toks, p1) == TokenKind::Rparen {
            (advance_spec(toks, p1), errs, Option::Some(acc1))
        } else {
            (
                p1,
                errs.push(
                    msg_expected("',' or ')' in the parameter list"@, tok_at(toks, p1).literal),
                ),
                Option::None,
            )
        }
    }
}

/// The comma-separated expression list closed by `end`.
pub open spec fn parse_expr_list_spec(
    toks: Seq<SToken>,
    pos: int,
    errs: Seq<Seq<char>>,
    end: TokenKind,
    acc: Seq<SExpr>,
) -> (int, Seq<Seq<char>>, Option<Seq<SExpr>>)
    decreases toks.len() - pos, 5int,
{
    if kind_at(toks, pos) == end && acc.len() == 0 {
        (advance_spec(toks, pos), errs, Option::Some(acc))
    } else {
        let (p1r, e1, e) = parse_expr_spec(toks, pos, errs, 0);
        let p1 = at_least(pos, p1r);
        match e {
            Option::None => (p1, e1, Option::None),
            Option::Some(expr) => {
                let acc1 = acc.push(expr);
                if p1 <= pos {
                    (
                        p1,
                        e1.push(
                            msg_expected(
                                "an expression in the list"@,
                                tok_at(toks, p1).literal,
                            ),
                        ),
                        Option::None,
                    )
                } else if kind_at(toks, p1) == TokenKind::Comma {
                    parse_expr_list_spec(toks, advance_spec(toks, p1), e1, end, acc1)
                } else if kind_at(toks, p1) == end {
                    (advance_spec(toks, p1), e1, Option::Some(acc1))
                } else {
                    (
                        p1,
                        e1.push(
                            msg_expected(
                                "',' or the closing delimiter"@,
                                tok_at(toks, p1).literal,
                            ),
                        ),
                        Option::None,
                    )
                }
            },
        }
    }
}

pub open spec fn parse_dict_spec(toks: Seq<SToken>, pos: int, errs: Seq<Seq<char>>) -> (
    int,
    Seq<Seq<char>>,
    Option<SExpr>,
)
    decreases toks.len() - pos, 0int,
{
    if pos >= toks.len() {
        (pos, errs, Option::None)
    } else {
        let token = tok_at(toks, pos);
        parse_dict_items_spec(toks, pos + 1, errs, token, Seq::empty())
    }
}

/// The `key:value` pairs of a dictionary literal, closed by `}`.
pub open spec fn parse_dict_items_spec(
    toks: Seq<SToken>,
    pos: int,
    errs: Seq<Seq<char>>,
    token: SToken,
    acc: Seq<(SExpr, SExpr)>,
) -> (int, Seq<Seq<char>>, Option<SExpr>)
    decreases toks.len() - pos, 7int,
{
    if kind_at(toks, pos) == TokenKind::Rbrace {
        (
            advance_spec(toks, pos),
            errs,
            Option::Some(SExpr::Dict(SDict { token, pairs: acc })),
        )
    } else {
        let (p1r, e1, key) = parse_expr_spec(toks, pos, errs, 0);
        let p1 = at_least(pos, p1r);
        match key {
            Option::None => (p1, e1, Option::None),
            Option::Some(k) => {
                let (p2, e2, ok2) = expect_spec(
                    toks,
                    p1,
                    e1,
                    TokenKind::Colon,
                    "':' between key and value"@,
                );
                if !ok2 {
                    (p2, e2, Option::None)
                } else {
                    let (p3r, e3, value) = parse_expr_spec(toks, p2, e2, 0);
                    let p3 = at_least(p2, p3r);
                    match value {
                        Option::None => (p3, e3, Option::None),
                        Option::Some(v) => {
                            let acc1 = acc.push((k, v));
                            if p3 <= pos {
                                (
                                    p3,
                                    e3.push(
                                        msg_expected(
                                            "a key:value pair"@,
                                            tok_at(toks, p3).literal,
                                        ),
                                    ),
                                    Option::None,
                                )
                            } else if kind_at(toks, p3) == TokenKind::Comma {
                                parse_dict_items_spec(
                                    toks,
                                    advance_spec(toks, p3),
                                    e3,
                                    token,
                                    acc1,
                                )
                            } else if kind_at(toks, p3) == TokenKind::Rbrace {
                                (
                                    advance_spec(toks, p3),
                                    e3,
                                    Option::Some(SExpr::Dict(SDict { token, pairs: acc1 })),
                                )
                            } else {
                                (
                                    p3,
                                    e3.push(
                                        msg_expected(
                                            "',' or '}' in the dictionary"@,
                                            tok_at(toks, p3).literal,
                                        ),
                                    ),
                                    Option::None,
                                )
                            }
                        },
                    }
                }
            },
        }
    }
}

pub open spec fn parse_block_spec(toks: Seq<SToken>, pos: int, errs: Seq<Seq<char>>) -> (
    int,
    Seq<Seq<char>>,
    SBlock,
)
    decreases toks.len() - pos, 0int,
{
    if pos >= toks.len() {
        (pos, errs, SBlock { token: tok_at(toks, pos), statements: Seq::empty() })
    } else {
        let token = tok_at(toks, pos);
        let (p1, e1, statements) = parse_block_items_spec(toks, pos + 1, errs, Seq::empty());
        (p1, e1, SBlock { token, statements })
    }
}

/// The statements of a block, up to `}` or a reported end of input.
pub open spec fn parse_block_items_spec(
    toks: Seq<SToken>,
    pos: int,
    errs: Seq<Seq<char>>,
    acc: Seq<SStmt>,
) -> (int, Seq<Seq<char>>, Seq<SStmt>)
    decreases toks.len() - pos, 7int,
{
    if kind_at(toks, pos) == TokenKind::Rbrace {
        (advance_spec(toks, pos), errs, acc)
    } else if kind_at(toks, pos) == TokenKind::Eof {
        (
            pos,
            errs.push(msg_expected("'}' to close the block"@, tok_at(toks, pos).literal)),
            acc,
        )
    } else {
        let (p1r, e1, stmt) = parse_stmt_spec(toks, pos, errs);
        let p1 = at_least(pos, p1r);
        let acc1 = match stmt {
            Option::Some(s) => acc.push(s),
            Option::None => acc,
        };
        let p2 = if p1 <= pos {
            pos + 1
        } else if p1 > toks.len() {
            toks.len() as int
        } else {
            p1
        };
        parse_block_items_spec(toks, p2, e1, acc1)
    }
}

/// The top-level statements, to the end of the stream.
pub open spec fn parse_program_items_spec(
    toks: Seq<SToken>,
    pos: int,
    errs: Seq<Seq<char>>,
    acc: Seq<SStmt>,
) -> (int, Seq<Seq<char>>, Seq<SStmt>)
    decreases toks.len() - pos, 7int,
{
    if kind_at(toks, pos) == TokenKind::Eof || pos >= toks.len() {
        (pos, errs, acc)
    } else {
        let (p1r, e1, stmt) = parse_stmt_spec(toks, pos, errs);
        let p1 = at_least(pos, p1r);
        let acc1 = match stmt {
            Option::Some(s) => acc.push(s),
            Option::None => acc,
        };
        let p2 = if p1 <= pos {
            pos + 1
        } else if p1 > toks.len() {
            toks.len() as int
        } else {
            p1
        };
        parse_program_items_spec(toks, p2, e1, acc1)
    }
}

/// One step of block-statement collection, spelled out.
proof fn lemma_block_items_step(toks: Seq<SToken>, pos: int, errs: Seq<Seq<char>>, acc: Seq<SStmt>)
    requires
        kind_at(toks, pos) != TokenKind::Rbrace,
        kind_at(toks, pos) != TokenKind::Eof,
    ensures
        ({
            let (p1r, e1, stmt) = parse_stmt_spec(toks, pos, errs);
            let p1 = at_least(pos, p1r);
            let acc1 = match stmt {
                Option::Some(s) => acc.push(s),
                Option::None => acc,
            };
            let p2 = if p1 <= pos {
                pos + 1
            } else if p1 > toks.len() {
                toks.len() as int
            } else {
                p1
            };
            parse_block_items_spec(toks, pos, errs, acc) == parse_block_items_spec(
                toks,
                p2,
                e1,
                acc1,
            )
        }),
{
    reveal(parse_stmt_spec);
}

/// Block collection ends at `}` or at a reported end of input.
proof fn lemma_block_items_done(toks: Seq<SToken>, pos: int, errs: Seq<Seq<char>>, acc: Seq<SStmt>)
    ensures
        kind_at(toks, pos) == TokenKind::Rbrace ==> parse_block_items_spec(toks, pos, errs, acc)
            == (advance_spec(toks, pos), errs, acc),
        kind_at(toks, pos) == TokenKind::Eof ==> parse_block_items_spec(toks, pos, errs, acc) == (
            pos,
            errs.push(msg_expected("'}' to close the block"@, tok_at(toks, pos).literal)),
            acc,
        ),
{
    reveal(parse_stmt_spec);
}

/// One step of top-level statement collection, spelled out.
proof fn lemma_program_items_step(
    toks: Seq<SToken>,
    pos: int,
    errs: Seq<Seq<char>>,
    acc: Seq<SStmt>,
)
    requires
        kind_at(toks, pos) != TokenKind::Eof,
        pos < toks.len(),
    ensures
        ({
            let (p1r, e1, stmt) = parse_stmt_spec(toks, pos, errs);
            let p1 = at_least(pos, p1r);
            let acc1 = match stmt {
                Option::Some(s) => acc.push(s),
                Option::None => acc,
            };
            let p2 = if p1 <= pos {
                pos + 1
            } else if p1 > toks.len() {
                toks.len() as int
            } else {
                p1
            };
            parse_program_items_spec(toks, pos, errs, acc) == parse_program_items_spec(
                toks,
                p2,
                e1,
                acc1,
            )
        }),
{
    reveal(parse_stmt_spec);
}

/// Top-level collection ends at the end of the stream.
proof fn lemma_program_items_done(
    toks: Seq<SToken>,
    pos: int,
    errs: Seq<Seq<char>>,
    acc: Seq<SStmt>,
)
    requires
        kind_at(toks, pos) == TokenKind::Eof || pos >= toks.len(),
    ensures
        parse_program_items_spec(toks, pos, errs, acc) == (pos, errs, acc),
{
    reveal(parse_stmt_spec);
}

/// What parsing a whole stream produces: the program when no error was
/// recorded on the way, else the errors.
pub open spec fn parse_program_spec(toks: Seq<SToken>) -> Result<SProgram, Seq<Seq<char>>> {
    let (p1, e1, stmts) = parse_program_items_spec(toks, 0, Seq::empty(), Seq::empty());
    if e1.len() == 0 {
        Result::Ok(SProgram { statements: stmts })
    } else {
        Result::Err(e1)
    }
}

/// Holds the token stream, a cursor into it, and the syntax errors found
/// so far.
pub struct Parser {
    tokens: Vec<Token>,
    position: usize,
    errors: Vec<String>,
}

impl Parser {
    /// The cursor never runs past the end of the token stream.
    pub closed spec fn wf(&self) -> bool {
        self.position <= self.tokens@.len()
    }

    /// The tokens being parsed, as the model sees them.
    pub closed spec fn stream(&self) -> Seq<SToken> {
        toks_view(self.tokens@)
    }

    /// Where the next token will be read.
    pub closed spec fn cursor(&self) -> int {
        self.position as int
    }

    /// The syntax errors recorded so far, as the model sees them.
    pub closed spec fn recorded(&self) -> Seq<Seq<char>> {
        strings_view(self.errors@)
    }

    /// How many syntax errors have been recorded.
    pub closed spec fn error_count(&self) -> int {
        self.errors@.len() as int
    }

    /// Read every token out of the lexer up front, ending with `Eof`.
    pub fn new(lexer: Lexer) -> (r: Parser)
        requires
            lexer.wf(),
        ensures
            r.wf(),
            r.stream() == lex_all_spec(lexer@, lexer.cursor()),
            r.cursor() == 0,
            r.recorded() == Seq::<Seq<char>>::empty(),
    {
        proof {
            broadcast use {lemma_toks_view_len, lemma_toks_view_index};

        }
        let ghost src = lexer@;
        let ghost pos0 = lexer.cursor();
        proof {
            lexer.lemma_wf_bounds();
        }
        let mut lexer = lexer;
        let mut tokens: Vec<Token> = Vec::new();
        loop
            invariant_except_break
                lexer.wf(),
                lexer@ == src,
                lexer.cursor() <= src.len(),
                toks_view(tokens@) + lex_all_spec(src, lexer.cursor()) == lex_all_spec(src, pos0),
            ensures
                toks_view(tokens@) == lex_all_spec(src, pos0),
            decreases lexer.remaining(),
        {
            let ghost cur = lexer.cursor();
            let ghost prev = tokens@;
            proof {
                lexer.lemma_wf_bounds();
            }
            let t = lexer.next_token();
            let is_eof = matches!(t.kind, TokenKind::Eof);
            tokens.push(t);
            proof {
                lexer.lemma_wf_bounds();
                assert(tokens@.drop_last() =~= prev);
                assert(toks_view(tokens@) == toks_view(prev).push(tokens@.last()@));
                let (p2, t2) = next_token_spec(src, cur);
                if is_eof {
                    assert(lex_all_spec(src, cur) =~= seq![t2]);
                    assert(toks_view(tokens@) =~= lex_all_spec(src, pos0));
                } else {
                    assert(lexer.cursor() > cur && lexer.cursor() <= src.len());
                    assert(lex_all_spec(src, cur) == seq![t2] + lex_all_spec(src, p2));
                    assert(toks_view(tokens@) + lex_all_spec(src, lexer.cursor())
                        =~= lex_all_spec(src, pos0));
                }
            }
            if is_eof {
                break ;
            }
        }
        let r = Parser { tokens, position: 0, errors: Vec::new() };
        proof {
            assert(r.recorded() =~= Seq::<Seq<char>>::empty());
        }
        r
    }

    /// The syntax errors collected so far, in order.
    pub fn errors(&self) -> (r: &Vec<String>)
        ensures
            r@.len() == self.error_count(),
            strings_view(r@) == self.recorded(),
    {
        &self.errors
    }

    fn current_kind(&self) -> (r: TokenKind)
        requires
            self.wf(),
        ensures
            r == kind_at(self.stream(), self.cursor()),
            r != TokenKind::Eof ==> self.position < self.tokens@.len(),
    {
        proof {
            broadcast use {lemma_toks_view_len, lemma_toks_view_index};

        }
        if self.position < self.tokens.len() {
            self.tokens[self.position].kind
        } else {
            TokenKind::Eof
        }
    }

    fn current_token(&self) -> (r: Token)
        requires
            self.wf(),
        ensures
            r@ == tok_at(self.stream(), self.cursor()),
    {
        proof {
            broadcast use {lemma_toks_view_len, lemma_toks_view_index};

        }
        if self.position < self.tokens.len() {
            self.tokens[self.position].clone()
        } else {
            let t = Token::new(TokenKind::Eof, String::new());
            proof {
                assert(t@.literal =~= tok_at(self.stream(), self.cursor()).literal);
            }
            t
        }
    }

    fn advance(&mut self)
        requires
            old(self).wf(),
        ensures
            final(self).wf(),
            final(self).tokens@ == old(self).tokens@,
            final(self).errors@ == old(self).errors@,
            final(self).stream() == old(self).stream(),
            final(self).recorded() == old(self).recorded(),
            final(self).cursor() == advance_spec(old(self).stream(), old(self).cursor()),
            final(self).position >= old(self).position,
            old(self).position < old(self).tokens@.len() ==> final(self).position > old(self).position,
    {
        proof {
            broadcast use lemma_toks_view_len;

        }
        if self.position < self.tokens.len() {
            self.position = self.position + 1;
        }
    }

    fn push_error(&mut self, message: String)
        requires
            old(self).wf(),
        ensures
            final(self).wf(),
            final(self).tokens@ == old(self).tokens@,
            final(self).stream() == old(self).stream(),
            final(self).position == old(self).position,
            final(self).recorded() == old(self).recorded().push(message@),
    {
        let ghost prev = self.errors@;
        self.errors.push(message);
        proof {
            assert(self.errors@.drop_last() =~= prev);
            assert(strings_view(self.errors@) == strings_view(self.errors@.drop_last()).push(
                self.errors@.last()@,
            ));
        }
    }

    /// Record a diagnostic naming the token that stood where something
    /// else was required.
    fn error_at_current(&mut self, expected: &str)
        requires
            old(self).wf(),
        ensures
            final(self).wf(),
            final(self).tokens@ == old(self).tokens@,
            final(self).stream() == old(self).stream(),
            final(self).position == old(self).position,
            final(self).recorded() == old(self).recorded().push(
                msg_expected(expected@, tok_at(old(self).stream(), old(self).cursor()).literal),
            ),
    {
        let t = self.current_token();
        let mut m = String::from_str("expected ");
        m.append(expected);
        m.append(", got '");
        m.append(t.literal.as_str());
        m.append("'");
        proof {
            assert(m@ =~= msg_expected(
                expected@,
                tok_at(old(self).stream(), old(self).cursor()).literal,
            ));
        }
        self.push_error(m);
    }

    /// Consume the current token when it has the wanted kind, else record
    /// a diagnostic and stay put.
    fn expect_current(&mut self, kind: TokenKind, expected: &str) -> (r: bool)
        requires
            old(self).wf(),
        ensures
            final(self).wf(),
            final(self).tokens@ == old(self).tokens@,
            final(self).stream() == old(self).stream(),
            final(self).position >= old(self).position,
            ({
                let (p2, e2, ok) = expect_spec(
                    old(self).stream(),
                    old(self).cursor(),
                    old(self).recorded(),
                    kind,
                    expected@,
                );
                final(self).cursor() == p2 && final(self).recorded() == e2 && r == ok
            }),
    {
        if self.current_kind() == kind {
            self.advance();
            true
        } else {
            self.error_at_current(expected);
            false
        }
    }

    /// Parse the whole stream: statements in sequence until the end; a
    /// statement that cannot be parsed records a diagnostic and parsing
    /// resynchronizes at the next token. A program with any recorded error
    /// is never returned, only the errors.
    #[verifier::spinoff_prover]
    #[verifier::rlimit(100)]
    pub fn parse_program(&mut self) -> (r: Result<Program, Vec<String>>)
        requires
            old(self).wf(),
        ensures
            final(self).wf(),
            ({
                let (p2, e2, stmts) = parse_program_items_spec(
                    old(self).stream(),
                    old(self).cursor(),
                    old(self).recorded(),
                    Seq::empty(),
                );
                final(self).cursor() == p2 && final(self).recorded() == e2 && (if e2.len() == 0 {
                    r is Ok && r->Ok_0@ == SProgram { statements: stmts }
                } else {
                    r is Err && strings_view(r->Err_0@) == e2 && r->Err_0@.len() == e2.len()
                        && r->Err_0@.len() > 0
                })
            }),
            r is Ok ==> final(self).error_count() == 0,
            r is Err ==> r->Err_0@.len() > 0,
    {
        proof {
            broadcast use {lemma_strings_view_len, lemma_stmts_view_len, lemma_stmts_view_index};

        }
        let ghost tv = self.stream();
        let ghost p0 = self.cursor();
        let ghost e0 = self.recorded();
        let mut statements: Vec<StatementNode> = Vec::new();
        loop
            invariant_except_break
                self.wf(),
                tv == self.stream(),
                tv == old(self).stream(),
                p0 == old(self).cursor(),
                e0 == old(self).recorded(),
                parse_program_items_spec(tv, p0, e0, Seq::empty()) == parse_program_items_spec(
                    tv,
                    self.cursor(),
                    self.recorded(),
                    stmts_view(statements@),
                ),
            ensures
                self.wf(),
                tv == self.stream(),
                tv == old(self).stream(),
                p0 == old(self).cursor(),
                e0 == old(self).recorded(),
                parse_program_items_spec(tv, p0, e0, Seq::empty()) == (
                    self.cursor(),
                    self.recorded(),
                    stmts_view(statements@),
                ),
            decreases self.tokens@.len() - self.position,
        {
            proof {
                broadcast use lemma_toks_view_len;

            }
            if self.current_kind() == TokenKind::Eof || self.position >= self.tokens.len() {
                proof {
                    lemma_program_items_done(tv, self.cursor(), self.recorded(), stmts_view(
                        statements@,
                    ));
                }
                break ;
            }
            let ghost pre_pos = self.cursor();
            let ghost pre_errs = self.recorded();
            let ghost pre_stmts = stmts_view(statements@);
            proof {
                lemma_program_items_step(tv, pre_pos, pre_errs, pre_stmts);
            }
            let before = self.position;
            let stmt = self.parse_statement();
            match stmt {
                Option::Some(s) => {
                    let ghost prev = statements@;
                    statements.push(s);
                    proof {
                        assert(statements@.drop_last() =~= prev);
                        assert(stmts_view(statements@) == stmts_view(prev).push(
                            stmt_view(statements@.last()),
                        ));
                    }
                },
                Option::None => {},
            }
            if self.position == before {
                self.advance();
            }
        }
        if self.errors.len() == 0 {
            proof {
                assert(self.recorded() =~= Seq::<Seq<char>>::empty()
                    || self.recorded().len() == 0);
            }
            Result::Ok(Program { statements })
        } else {
            let errs = clone_strings(&self.errors);
            Result::Err(errs)
        }
    }

    fn parse_statement(&mut self) -> (r: Option<StatementNode>)
        requires
            old(self).wf(),
        ensures
            final(self).wf(),
            final(self).tokens@ == old(self).tokens@,
            final(self).stream() == old(self).stream(),
            final(self).position >= old(self).position,
            ({
                let (p2, e2, s2) = parse_stmt_spec(
                    old(self).stream(),
                    old(self).cursor(),
                    old(self).recorded(),
                );
                final(self).cursor() == p2 && final(self).recorded() == e2 && opt_stmt_view(r)
                    == s2
            }),
        decreases self.tokens@.len() - self.position, 4int,
    {
        proof {
            reveal(parse_stmt_spec);
        }
        match self.current_kind() {
            TokenKind::Say => self.parse_say_statement(),
            TokenKind::Return => self.parse_return_statement(),
            _ => self.parse_expression_statement(),
        }
    }

    /// `say <identifier> = <expression>;` — the semicolon may be omitted.
    #[verifier::spinoff_prover]
    #[verifier::rlimit(100)]
    fn parse_say_statement(&mut self) -> (r: Option<StatementNode>)
        requires
            old(self).wf(),
        ensures
            final(self).wf(),
            final(self).tokens@ == old(self).tokens@,
            final(self).stream() == old(self).stream(),
            final(self).position >= old(self).position,
            ({
                let (p2, e2, s2) = parse_say_spec(
                    old(self).stream(),
                    old(self).cursor(),
                    old(self).recorded(),
                );
                final(self).cursor() == p2 && final(self).recorded() == e2 && opt_stmt_view(r)
                    == s2
            }),
        decreases self.tokens@.len() - self.position, 3int,
    {
        proof {
            reveal(parse_stmt_spec);
            broadcast use lemma_toks_view_len;

        }
        let say_token = self.current_token();
        self.advance();
        if !(self.current_kind() == TokenKind::Ident) {
            self.error_at_current("an identifier after 'say'");
            proof {
                lemma_opt_stmt_view_cases(Option::<StatementNode>::None);
            }
            return Option::None;
        }
        let name_token = self.current_token();
        let name_value = name_token.literal.clone();
        let name = Identifier { token: name_token, value: name_value };
        self.advance();
        if !self.expect_current(TokenKind::Assign, "'='") {
            proof {
                lemma_opt_stmt_view_cases(Option::<StatementNode>::None);
            }
            return Option::None;
        }
        let ghost mid = self.cursor();
        let value = self.parse_expression(0);
        proof {
            assert(at_least(mid, self.cursor()) == self.cursor());
        }
        match value {
            Option::None => {
                proof {
                    lemma_opt_stmt_view_cases(Option::<StatementNode>::None);
                }
                Option::None
            },
            Option::Some(v) => {
                if self.current_kind() == TokenKind::Semicolon {
                    self.advance();
                }
                let r = Option::Some(make_say_stmt(say_token, name, v));
                proof {
                    lemma_opt_stmt_view_cases(r);
                }
                r
            },
        }
    }

    /// `return <expression>?;` — both the operand and the semicolon may be
    /// omitted.
    #[verifier::spinoff_prover]
    #[verifier::rlimit(100)]
    fn parse_return_statement(&mut self) -> (r: Option<StatementNode>)
        requires
            old(self).wf(),
        ensures
            final(self).wf(),
            final(self).tokens@ == old(self).tokens@,
            final(self).stream() == old(self).stream(),
            final(self).position >= old(self).position,
            ({
                let (p2, e2, s2) = parse_return_spec(
                    old(self).stream(),
                    old(self).cursor(),
                    old(self).recorded(),
                );
                final(self).cursor() == p2 && final(self).recorded() == e2 && opt_stmt_view(r)
                    == s2
            }),
        decreases self.tokens@.len() - self.position, 3int,
    {
        proof {
            reveal(parse_stmt_spec);
            broadcast use lemma_toks_view_len;

        }
        let return_token = self.current_token();
        self.advance();
        if self.current_kind() == TokenKind::Semicolon {
            self.advance();
            let r = Option::Some(make_return_stmt(return_token, Option::None));
            proof {
                crate::ast::lemma_opt_expr_view_cases(Option::<ExpressionNode>::None);
                lemma_opt_stmt_view_cases(r);
            }
            return r;
        }
        if self.current_kind() == TokenKind::Rbrace || self.current_kind() == TokenKind::Eof {
            let r = Option::Some(make_return_stmt(return_token, Option::None));
            proof {
                crate::ast::lemma_opt_expr_view_cases(Option::<ExpressionNode>::None);
                lemma_opt_stmt_view_cases(r);
            }
            return r;
        }
        let ghost mid = self.cursor();
        let value = self.parse_expression(0);
        proof {
            assert(at_least(mid, self.cursor()) == self.cursor());
        }
        match value {
            Option::None => {
                proof {
                    lemma_opt_stmt_view_cases(Option::<StatementNode>::None);
                }
                Option::None
            },
            Option::Some(v) => {
                if self.current_kind() == TokenKind::Semicolon {
                    self.advance();
                }
                let ghost vv = v;
                let r = Option::Some(make_return_stmt(return_token, Option::Some(v)));
                proof {
                    crate::ast::lemma_opt_expr_view_cases(Option::Some(vv));
                    lemma_opt_stmt_view_cases(r);
                }
                r
            },
        }
    }

    /// A bare expression in statement position, with an optional semicolon.
    #[verifier::spinoff_prover]
    fn parse_expression_statement(&mut self) -> (r: Option<StatementNode>)
        requires
            old(self).wf(),
        ensures
            final(self).wf(),
            final(self).tokens@ == old(self).tokens@,
            final(self).stream() == old(self).stream(),
            final(self).position >= old(self).position,
            ({
                let (p2, e2, s2) = parse_exprstmt_spec(
                    old(self).stream(),
                    old(self).cursor(),
                    old(self).recorded(),
                );
                final(self).cursor() == p2 && final(self).recorded() == e2 && opt_stmt_view(r)
                    == s2
            }),
        decreases self.tokens@.len() - self.position, 3int,
    {
        proof {
            reveal(parse_stmt_spec);
        }
        let ghost mid = self.cursor();
        let token = self.current_token();
        let e = self.parse_expression(0);
        proof {
            assert(at_least(mid, self.cursor()) == self.cursor());
        }
        match e {
            Option::None => {
                proof {
                    lemma_opt_stmt_view_cases(Option::<StatementNode>::None);
                }
                Option::None
            },
            Option::Some(expr) => {
                if self.current_kind() == TokenKind::Semicolon {
                    self.advance();
                }
                let r = Option::Some(make_expr_stmt(token, expr));
                proof {
                    lemma_opt_stmt_view_cases(r);
                }
                r
            },
        }
    }

    /// Precedence climbing: one prefix expression, then infix operators
    /// while the next token binds tighter than `precedence`.
    #[verifier::spinoff_prover]
    #[verifier::rlimit(100)]
    fn parse_expression(&mut self, precedence: u64) -> (r: Option<ExpressionNode>)
        requires
            old(self).wf(),
        ensures
            final(self).wf(),
            final(self).tokens@ == old(self).tokens@,
            final(self).stream() == old(self).stream(),
            final(self).position >= old(self).position,
            ({
                let (p2, e2, r2) = parse_expr_spec(
                    old(self).stream(),
                    old(self).cursor(),
                    old(self).recorded(),
                    precedence,
                );
                final(self).cursor() == p2 && final(self).recorded() == e2 && opt_expr_view(r)
                    == r2
            }),
        decreases self.tokens@.len() - self.position, 2int,
    {
        proof {
            reveal(parse_stmt_spec);
            broadcast use lemma_toks_view_len;

        }
        let ghost tv = self.stream();
        let ghost p0 = self.cursor();
        let ghost e0 = self.recorded();
        let left = self.parse_prefix_position();
        proof {
            assert(at_least(p0, self.cursor()) == self.cursor());
            assert(self.cursor() <= tv.len());
        }
        let mut left = match left {
            Option::None => {
                proof {
                    crate::ast::lemma_opt_expr_view_cases(Option::<ExpressionNode>::None);
                }
                return Option::None;
            },
            Option::Some(e) => e,
        };
        proof {
            crate::ast::lemma_opt_expr_view_cases(Option::Some(left));
        }
        loop
            invariant_except_break
                self.wf(),
                self.tokens@ == old(self).tokens@,
                self.position >= old(self).position,
                tv == self.stream(),
                tv == old(self).stream(),
                p0 == old(self).cursor(),
                e0 == old(self).recorded(),
                parse_expr_spec(tv, p0, e0, precedence) == parse_infix_chain_spec(
                    tv,
                    self.cursor(),
                    self.recorded(),
                    precedence,
                    expr_view(left),
                ),
            ensures
                self.wf(),
                self.tokens@ == old(self).tokens@,
                self.position >= old(self).position,
                tv == self.stream(),
                parse_expr_spec(tv, p0, e0, precedence) == (
                    self.cursor(),
                    self.recorded(),
                    Option::Some(expr_view(left)),
                ),
            decreases self.tokens@.len() - self.position,
        {
            proof {
                reveal(parse_stmt_spec);
                broadcast use lemma_toks_view_len;

            }
            let next = self.current_kind();
            if precedence >= precedence_of(next) {
                break ;
            }
            let ghost it_pos = self.cursor();
            let ghost it_errs = self.recorded();
            let ghost it_left = expr_view(left);
            let before = self.position;
            let op_token = self.current_token();
            match next {
                TokenKind::Lparen => {
                    self.advance();
                    let ghost mid = self.cursor();
                    let args = self.parse_expression_list(TokenKind::Rparen);
                    proof {
                        assert(at_least(mid, self.cursor()) == self.cursor());
                    }
                    match args {
                        Option::None => {
                            proof {
                                crate::ast::lemma_opt_expr_view_cases(
                                    Option::<ExpressionNode>::None,
                                );
                            }
                            return Option::None;
                        },
                        Option::Some(arguments) => {
                            left = make_call(op_token, left, arguments);
                        },
                    }
                },
                TokenKind::Lbracket => {
                    self.advance();
                    let ghost mid = self.cursor();
                    let idx = self.parse_expression(0);
                    proof {
                        assert(at_least(mid, self.cursor()) == self.cursor());
                    }
                    match idx {
                        Option::None => {
                            proof {
                                crate::ast::lemma_opt_expr_view_cases(
                                    Option::<ExpressionNode>::None,
                                );
                            }
                            return Option::None;
                        },
                        Option::Some(index) => {
                            if !self.expect_current(TokenKind::Rbracket, "']'") {
                                proof {
                                    crate::ast::lemma_opt_expr_view_cases(
                                        Option::<ExpressionNode>::None,
                                    );
                                }
                                return Option::None;
                            }
                            left = make_index(op_token, left, index);
                        },
                    }
                },
                _ => {
                    self.advance();
                    let ghost mid = self.cursor();
                    let right = self.parse_expression(precedence_of(next));
                    proof {
                        assert(at_least(mid, self.cursor()) == self.cursor());
                    }
                    match right {
                        Option::None => {
                            proof {
                                crate::ast::lemma_opt_expr_view_cases(
                                    Option::<ExpressionNode>::None,
                                );
                            }
                            return Option::None;
                        },
                        Option::Some(right_expr) => {
                            left = make_infix(op_token, left, right_expr);
                        },
                    }
                },
            }
            proof {
                assert(self.cursor() <= tv.len());
                if self.cursor() <= it_pos {
                    assert(parse_infix_chain_spec(tv, it_pos, it_errs, precedence, it_left) == (
                        self.cursor(),
                        self.recorded(),
                        Option::Some(expr_view(left)),
                    ));
                } else {
                    assert(parse_infix_chain_spec(tv, it_pos, it_errs, precedence, it_left)
                        == parse_infix_chain_spec(
                        tv,
                        self.cursor(),
                        self.recorded(),
                        precedence,
                        expr_view(left),
                    ));
                }
            }
            if self.position == before {
                break ;
            }
        }
        proof {
            crate::ast::lemma_opt_expr_view_cases(Option::Some(left));
        }
        Option::Some(left)
    }

    /// The prefix position: literals, identifiers, prefix operators,
    /// grouping, `if`, function literals, array and dictionary literals.
    #[verifier::spinoff_prover]
    #[verifier::rlimit(100)]
    fn parse_prefix_position(&mut self) -> (r: Option<ExpressionNode>)
        requires
            old(self).wf(),
        ensures
            final(self).wf(),
            final(self).tokens@ == old(self).tokens@,
            final(self).stream() == old(self).stream(),
            final(self).position >= old(self).position,
            ({
                let (p2, e2, r2) = parse_prefix_spec(
                    old(self).stream(),
                    old(self).cursor(),
                    old(self).recorded(),
                );
                final(self).cursor() == p2 && final(self).recorded() == e2 && opt_expr_view(r)
                    == r2
            }),
        decreases self.tokens@.len() - self.position, 1int,
    {
        proof {
            reveal(parse_stmt_spec);
            broadcast use lemma_toks_view_len;

        }
        let token = self.current_token();
        match self.current_kind() {
            TokenKind::Ident => {
                self.advance();
                let value = token.literal.clone();
                let r = Option::Some(make_ident_node(token, value));
                proof {
                    crate::ast::lemma_opt_expr_view_cases(r);
                }
                r
            },
            TokenKind::Int => {
                self.advance();
                let parsed = parse_i64(&token.literal);
                match parsed {
                    Option::Some(value) => {
                        let r = Option::Some(make_int_node(token, value));
                        proof {
                            crate::ast::lemma_opt_expr_view_cases(r);
                        }
                        r
                    },
                    Option::None => {
                        let mut m = String::from_str("could not parse '");
                        m.append(token.literal.as_str());
                        m.append("' as a 64-bit integer");
                        proof {
                            assert(m@ =~= msg_bad_int(
                                tok_at(old(self).stream(), old(self).cursor()).literal,
                            ));
                        }
                        self.push_error(m);
                        proof {
                            crate::ast::lemma_opt_expr_view_cases(
                                Option::<ExpressionNode>::None,
                            );
                        }
                        Option::None
                    },
                }
            },
            TokenKind::Str => {
                self.advance();
                let value = token.literal.clone();
                let r = Option::Some(make_str_node(token, value));
                proof {
                    crate::ast::lemma_opt_expr_view_cases(r);
                }
                r
            },
            TokenKind::True => {
                self.advance();
                let r = Option::Some(make_bool_node(token, true));
                proof {
                    crate::ast::lemma_opt_expr_view_cases(r);
                }
                r
            },
            TokenKind::False => {
                self.advance();
                let r = Option::Some(make_bool_node(token, false));
                proof {
                    crate::ast::lemma_opt_expr_view_cases(r);
                }
                r
            },
            TokenKind::Bang => self.parse_prefix_operand(token),
            TokenKind::Minus => self.parse_prefix_operand(token),
            TokenKind::Lparen => {
                self.advance();
                let ghost mid = self.cursor();
                let e = self.parse_expression(0);
                proof {
                    assert(at_least(mid, self.cursor()) == self.cursor());
                }
                match e {
                    Option::None => {
                        proof {
                            crate::ast::lemma_opt_expr_view_cases(
                                Option::<ExpressionNode>::None,
                            );
                        }
                        Option::None
                    },
                    Option::Some(inner) => {
                        if !self.expect_current(TokenKind::Rparen, "')'") {
                            proof {
                                crate::ast::lemma_opt_expr_view_cases(
                                    Option::<ExpressionNode>::None,
                                );
                            }
                            return Option::None;
                        }
                        let r = Option::Some(inner);
                        proof {
                            crate::ast::lemma_opt_expr_view_cases(r);
                        }
                        r
                    },
                }
            },
            TokenKind::If => self.parse_if_expression(token),
            TokenKind::Function => self.parse_function_literal(token),
            TokenKind::Lbracket => {
                self.advance();
                let ghost mid = self.cursor();
                let elements = self.parse_expression_list(TokenKind::Rbracket);
                proof {
                    assert(at_least(mid, self.cursor()) == self.cursor());
                }
                match elements {
                    Option::None => {
                        proof {
                            crate::ast::lemma_opt_expr_view_cases(
                                Option::<ExpressionNode>::None,
                            );
                        }
                        Option::None
                    },
                    Option::Some(elements) => {
                        let r = Option::Some(make_array(token, elements));
                        proof {
                            crate::ast::lemma_opt_expr_view_cases(r);
                        }
                        r
                    },
                }
            },
            TokenKind::Lbrace => self.parse_dict_literal(token),
            _ => {
                self.error_at_current("an expression");
                proof {
                    crate::ast::lemma_opt_expr_view_cases(Option::<ExpressionNode>::None);
                }
                Option::None
            },
        }
    }

    /// The operand of a prefix operator whose token is already consumed.
    #[verifier::spinoff_prover]
    fn parse_prefix_operand(&mut self, token: Token) -> (r: Option<ExpressionNode>)
        requires
            old(self).wf(),
            old(self).position < old(self).tokens@.len(),
            token@ == tok_at(old(self).stream(), old(self).cursor()),
        ensures
            final(self).wf(),
            final(self).tokens@ == old(self).tokens@,
            final(self).stream() == old(self).stream(),
            final(self).position >= old(self).position,
            ({
                let (p2, e2, r2) = parse_prefix_operand_spec(
                    old(self).stream(),
                    old(self).cursor(),
                    old(self).recorded(),
                );
                final(self).cursor() == p2 && final(self).recorded() == e2 && opt_expr_view(r)
                    == r2
            }),
        decreases self.tokens@.len() - self.position, 0int,
    {
        proof {
            reveal(parse_stmt_spec);
            broadcast use lemma_toks_view_len;

        }
        let operator = token.literal.clone();
        self.advance();
        let ghost mid = self.cursor();
        let right = self.parse_expression(PREFIX_PRECEDENCE);
        proof {
            assert(at_least(mid, self.cursor()) == self.cursor());
        }
        match right {
            Option::None => {
                proof {
                    crate::ast::lemma_opt_expr_view_cases(Option::<ExpressionNode>::None);
                }
                Option::None
            },
            Option::Some(right_expr) => {
                let r = Option::Some(make_prefix(token, operator, right_expr));
                proof {
                    crate::ast::lemma_opt_expr_view_cases(r);
                }
                r
            },
        }
    }

    /// `if (<condition>) { <consequence> }` with an optional
    /// `else { <alternative> }`.
    #[verifier::spinoff_prover]
    #[verifier::rlimit(100)]
    fn parse_if_expression(&mut self, token: Token) -> (r: Option<ExpressionNode>)
        requires
            old(self).wf(),
            old(self).position < old(self).tokens@.len(),
            token@ == tok_at(old(self).stream(), old(self).cursor()),
        ensures
            final(self).wf(),
            final(self).tokens@ == old(self).tokens@,
            final(self).stream() == old(self).stream(),
            final(self).position >= old(self).position,
            ({
                let (p2, e2, r2) = parse_if_spec(
                    old(self).stream(),
                    old(self).cursor(),
                    old(self).recorded(),
                );
                final(self).cursor() == p2 && final(self).recorded() == e2 && opt_expr_view(r)
                    == r2
            }),
        decreases self.tokens@.len() - self.position, 0int,
    {
        proof {
            reveal(parse_stmt_spec);
            broadcast use lemma_toks_view_len;

        }
        self.advance();
        if !self.expect_current(TokenKind::Lparen, "'(' after 'if'") {
            {
                proof {
                    crate::ast::lemma_opt_expr_view_cases(Option::<ExpressionNode>::None);
                }
                return Option::None;
            }
        }
        let ghost mid = self.cursor();
        let condition = self.parse_expression(0);
        proof {
            assert(at_least(mid, self.cursor()) == self.cursor());
        }
        let condition = match condition {
            Option::None => {
                {
                proof {
                    crate::ast::lemma_opt_expr_view_cases(Option::<ExpressionNode>::None);
                }
                return Option::None;
            }
            },
            Option::Some(c) => c,
        };
        if !self.expect_current(TokenKind::Rparen, "')'") {
            {
                proof {
                    crate::ast::lemma_opt_expr_view_cases(Option::<ExpressionNode>::None);
                }
                return Option::None;
            }
        }
        if !(self.current_kind() == TokenKind::Lbrace) {
            self.error_at_current("'{' to open the consequence");
            {
                proof {
                    crate::ast::lemma_opt_expr_view_cases(Option::<ExpressionNode>::None);
                }
                return Option::None;
            }
        }
        let ghost mid2 = self.cursor();
        let consequence = self.parse_block_statement();
        proof {
            assert(at_least(mid2, self.cursor()) == self.cursor());
        }
        let alternative = if self.current_kind() == TokenKind::Else {
            self.advance();
            if !(self.current_kind() == TokenKind::Lbrace) {
                self.error_at_current("'{' to open the alternative");
                {
                proof {
                    crate::ast::lemma_opt_expr_view_cases(Option::<ExpressionNode>::None);
                }
                return Option::None;
            }
            }
            let ghost mid3 = self.cursor();
            let alt = self.parse_block_statement();
            proof {
                assert(at_least(mid3, self.cursor()) == self.cursor());
            }
            Option::Some(alt)
        } else {
            Option::None
        };
        let r = Option::Some(make_if(token, condition, consequence, alternative));
        proof {
            crate::ast::lemma_opt_expr_view_cases(r);
        }
        r
    }

    /// `function(<parameters>) { <body> }`.
    #[verifier::spinoff_prover]
    #[verifier::rlimit(100)]
    fn parse_function_literal(&mut self, token: Token) -> (r: Option<ExpressionNode>)
        requires
            old(self).wf(),
            old(self).position < old(self).tokens@.len(),
            token@ == tok_at(old(self).stream(), old(self).cursor()),
        ensures
            final(self).wf(),
            final(self).tokens@ == old(self).tokens@,
            final(self).stream() == old(self).stream(),
            final(self).position >= old(self).position,
            ({
                let (p2, e2, r2) = parse_function_spec(
                    old(self).stream(),
                    old(self).cursor(),
                    old(self).recorded(),
                );
                final(self).cursor() == p2 && final(self).recorded() == e2 && opt_expr_view(r)
                    == r2
            }),
        decreases self.tokens@.len() - self.position, 0int,
    {
        proof {
            reveal(parse_stmt_spec);
            broadcast use lemma_toks_view_len;

        }
        self.advance();
        if !self.expect_current(TokenKind::Lparen, "'(' after 'function'") {
            {
                proof {
                    crate::ast::lemma_opt_expr_view_cases(Option::<ExpressionNode>::None);
                }
                return Option::None;
            }
        }
        let ghost mid = self.cursor();
        let parameters = self.parse_function_parameters();
        proof {
            assert(at_least(mid, self.cursor()) == self.cursor());
        }
        let parameters = match parameters {
            Option::None => {
                {
                proof {
                    crate::ast::lemma_opt_expr_view_cases(Option::<ExpressionNode>::None);
                }
                return Option::None;
            }
            },
            Option::Some(p) => p,
        };
        if !(self.current_kind() == TokenKind::Lbrace) {
            self.error_at_current("'{' to open the function body");
            {
                proof {
                    crate::ast::lemma_opt_expr_view_cases(Option::<ExpressionNode>::None);
                }
                return Option::None;
            }
        }
        let ghost mid2 = self.cursor();
        let body = self.parse_block_statement();
        proof {
            assert(at_least(mid2, self.cursor()) == self.cursor());
        }
        let r = Option::Some(make_function(token, parameters, body));
        proof {
            crate::ast::lemma_opt_expr_view_cases(r);
        }
        r
    }

    /// A comma-separated identifier list closed by `)`.
    #[verifier::spinoff_prover]
    #[verifier::rlimit(100)]
    fn parse_function_parameters(&mut self) -> (r: Option<Vec<Identifier>>)
        requires
            old(self).wf(),
        ensures
            final(self).wf(),
            final(self).tokens@ == old(self).tokens@,
            final(self).stream() == old(self).stream(),
            final(self).position >= old(self).position,
            ({
                let (p2, e2, r2) = parse_params_spec(
                    old(self).stream(),
                    old(self).cursor(),
                    old(self).recorded(),
                );
                final(self).cursor() == p2 && final(self).recorded() == e2 && (match r {
                    Option::Some(v) => r2 == Option::Some(idents_view(v@)),
                    Option::None => r2 is None,
                })
            }),
        decreases self.tokens@.len() - self.position, 0int,
    {
        proof {
            reveal(parse_stmt_spec);
            broadcast use {lemma_idents_view_len, lemma_idents_view_index};

        }
        let ghost tv = self.stream();
        let mut parameters: Vec<Identifier> = Vec::new();
        if self.current_kind() == TokenKind::Rparen {
            self.advance();
            proof {
                assert(idents_view(parameters@) =~= Seq::<SIdent>::empty());
            }
            return Option::Some(parameters);
        }
        let ghost l0 = self.cursor();
        let ghost er0 = self.recorded();
        proof {
            assert(idents_view(parameters@) =~= Seq::<SIdent>::empty());
        }
        loop
            invariant
                self.wf(),
                self.tokens@ == old(self).tokens@,
                self.position >= old(self).position,
                tv == self.stream(),
                tv == old(self).stream(),
                l0 == old(self).cursor(),
                er0 == old(self).recorded(),
                kind_at(tv, old(self).cursor()) != TokenKind::Rparen,
                parse_params_loop_spec(tv, l0, er0, Seq::empty()) == parse_params_loop_spec(
                    tv,
                    self.cursor(),
                    self.recorded(),
                    idents_view(parameters@),
                ),
            decreases self.tokens@.len() - self.position,
        {
            proof {
                reveal(parse_stmt_spec);
            }
            if !(self.current_kind() == TokenKind::Ident) {
                self.error_at_current("a parameter name");
                return Option::None;
            }
            let token = self.current_token();
            let value = token.literal.clone();
            let ghost prev = parameters@;
            parameters.push(Identifier { token, value });
            proof {
                assert(parameters@.drop_last() =~= prev);
                assert(idents_view(parameters@) == idents_view(prev).push(
                    crate::ast::ident_view(parameters@.last()),
                ));
            }
            self.advance();
            if self.current_kind() == TokenKind::Comma {
                self.advance();
            } else if self.current_kind() == TokenKind::Rparen {
                self.advance();
                return Option::Some(parameters);
            } else {
                self.error_at_current("',' or ')' in the parameter list");
                return Option::None;
            }
        }
    }

    /// A comma-separated expression list closed by `end` (`)` or `]`).
    #[verifier::spinoff_prover]
    #[verifier::rlimit(100)]
    fn parse_expression_list(&mut self, end: TokenKind) -> (r: Option<Vec<ExpressionNode>>)
        requires
            old(self).wf(),
        ensures
            final(self).wf(),
            final(self).tokens@ == old(self).tokens@,
            final(self).stream() == old(self).stream(),
            final(self).position >= old(self).position,
            ({
                let (p2, e2, r2) = parse_expr_list_spec(
                    old(self).stream(),
                    old(self).cursor(),
                    old(self).recorded(),
                    end,
                    Seq::empty(),
                );
                final(self).cursor() == p2 && final(self).recorded() == e2 && (match r {
                    Option::Some(v) => r2 == Option::Some(exprs_view(v@)),
                    Option::None => r2 is None,
                })
            }),
        decreases self.tokens@.len() - self.position, 3int,
    {
        proof {
            reveal(parse_stmt_spec);
            broadcast use {lemma_exprs_view_len, lemma_exprs_view_index};

        }
        let ghost tv = self.stream();
        let mut elements: Vec<ExpressionNode> = Vec::new();
        if self.current_kind() == end {
            self.advance();
            proof {
                assert(exprs_view(elements@) =~= Seq::<SExpr>::empty());
            }
            return Option::Some(elements);
        }
        let ghost l0 = self.cursor();
        let ghost er0 = self.recorded();
        proof {
            assert(exprs_view(elements@) =~= Seq::<SExpr>::empty());
        }
        loop
            invariant
                self.wf(),
                self.tokens@ == old(self).tokens@,
                self.position >= old(self).position,
                tv == self.stream(),
                tv == old(self).stream(),
                l0 == old(self).cursor(),
                er0 == old(self).recorded(),
                kind_at(tv, l0) != end,
                elements@.len() == 0 ==> self.cursor() == l0 && self.recorded() == er0,
                parse_expr_list_spec(tv, l0, er0, end, Seq::empty()) == parse_expr_list_spec(
                    tv,
                    self.cursor(),
                    self.recorded(),
                    end,
                    exprs_view(elements@),
                ),
            decreases self.tokens@.len() - self.position,
        {
            proof {
                reveal(parse_stmt_spec);
                broadcast use {lemma_toks_view_len, lemma_exprs_view_len};

            }
            let ghost it_pos = self.cursor();
            let before = self.position;
            let e = self.parse_expression(0);
            proof {
                assert(at_least(it_pos, self.cursor()) == self.cursor());
            }
            match e {
                Option::None => {
                    return Option::None;
                },
                Option::Some(expr) => {
                    let ghost prev = elements@;
                    elements.push(expr);
                    proof {
                        assert(elements@.drop_last() =~= prev);
                        assert(exprs_view(elements@) == exprs_view(prev).push(
                            expr_view(elements@.last()),
                        ));
                    }
                },
            }
            if self.position == before {
                self.error_at_current("an expression in the list");
                return Option::None;
            }
            if self.current_kind() == TokenKind::Comma {
                self.advance();
            } else if self.current_kind() == end {
                self.advance();
                return Option::Some(elements);
            } else {
                self.error_at_current("',' or the closing delimiter");
                return Option::None;
            }
        }
    }

    /// `{ <key>:<value>, ... }`; trailing commas are allowed.
    #[verifier::spinoff_prover]
    #[verifier::rlimit(100)]
    fn parse_dict_literal(&mut self, token: Token) -> (r: Option<ExpressionNode>)
        requires
            old(self).wf(),
            old(self).position < old(self).tokens@.len(),
            token@ == tok_at(old(self).stream(), old(self).cursor()),
        ensures
            final(self).wf(),
            final(self).tokens@ == old(self).tokens@,
            final(self).stream() == old(self).stream(),
            final(self).position >= old(self).position,
            ({
                let (p2, e2, r2) = parse_dict_spec(
                    old(self).stream(),
                    old(self).cursor(),
                    old(self).recorded(),
                );
                final(self).cursor() == p2 && final(self).recorded() == e2 && opt_expr_view(r)
                    == r2
            }),
        decreases self.tokens@.len() - self.position, 0int,
    {
        proof {
            reveal(parse_stmt_spec);
            broadcast use lemma_toks_view_len;

        }
        let ghost tv = self.stream();
        let ghost tok0 = token@;
        self.advance();
        let ghost l0 = self.cursor();
        let ghost er0 = self.recorded();
        let mut pairs: Vec<(ExpressionNode, ExpressionNode)> = Vec::new();
        loop
            invariant
                self.wf(),
                self.tokens@ == old(self).tokens@,
                self.position > old(self).position,
                tv == self.stream(),
                tok0 == token@,
                tv == old(self).stream(),
                ({
                    let (p2, e2, r2) = parse_dict_spec(
                        old(self).stream(),
                        old(self).cursor(),
                        old(self).recorded(),
                    );
                    (p2, e2, r2) == parse_dict_items_spec(tv, l0, er0, tok0, Seq::empty())
                }),
                parse_dict_items_spec(tv, l0, er0, tok0, Seq::empty()) == parse_dict_items_spec(
                    tv,
                    self.cursor(),
                    self.recorded(),
                    tok0,
                    pairs_view(pairs@),
                ),
            decreases self.tokens@.len() - self.position,
        {
            proof {
                reveal(parse_stmt_spec);
            }
            if self.current_kind() == TokenKind::Rbrace {
                self.advance();
                let r = Option::Some(make_dict(token, pairs));
                proof {
                    crate::ast::lemma_opt_expr_view_cases(r);
                }
                return r;
            }
            let ghost it_pos = self.cursor();
            let before = self.position;
            let key = self.parse_expression(0);
            proof {
                assert(at_least(it_pos, self.cursor()) == self.cursor());
            }
            let key = match key {
                Option::None => {
                    proof {
                        crate::ast::lemma_opt_expr_view_cases(Option::<ExpressionNode>::None);
                    }
                    return Option::None;
                },
                Option::Some(k) => k,
            };
            if !self.expect_current(TokenKind::Colon, "':' between key and value") {
                proof {
                    crate::ast::lemma_opt_expr_view_cases(Option::<ExpressionNode>::None);
                }
                return Option::None;
            }
            let ghost mid = self.cursor();
            let value = self.parse_expression(0);
            proof {
                assert(at_least(mid, self.cursor()) == self.cursor());
            }
            let value = match value {
                Option::None => {
                    proof {
                        crate::ast::lemma_opt_expr_view_cases(Option::<ExpressionNode>::None);
                    }
                    return Option::None;
                },
                Option::Some(v) => v,
            };
            let ghost prev = pairs@;
            pairs.push((key, value));
            proof {
                assert(pairs@.drop_last() =~= prev);
                crate::ast::lemma_pairs_view_push(pairs@);
            }
            if self.position == before {
                self.error_at_current("a key:value pair");
                proof {
                    crate::ast::lemma_opt_expr_view_cases(Option::<ExpressionNode>::None);
                }
                return Option::None;
            }
            if self.current_kind() == TokenKind::Comma {
                self.advance();
            } else if self.current_kind() == TokenKind::Rbrace {
                self.advance();
                let r = Option::Some(make_dict(token, pairs));
                proof {
                    crate::ast::lemma_opt_expr_view_cases(r);
                }
                return r;
            } else {
                self.error_at_current("',' or '}' in the dictionary");
                proof {
                    crate::ast::lemma_opt_expr_view_cases(Option::<ExpressionNode>::None);
                }
                return Option::None;
            }
        }
    }

    /// `{ <statements> }`; a missing `}` is reported when the input ends.
    #[verifier::spinoff_prover]
    #[verifier::rlimit(100)]
    fn parse_block_statement(&mut self) -> (r: BlockStatement)
        requires
            old(self).wf(),
            old(self).position < old(self).tokens@.len(),
        ensures
            final(self).wf(),
            final(self).tokens@ == old(self).tokens@,
            final(self).stream() == old(self).stream(),
            final(self).position >= old(self).position,
            ({
                let (p2, e2, b2) = parse_block_spec(
                    old(self).stream(),
                    old(self).cursor(),
                    old(self).recorded(),
                );
                final(self).cursor() == p2 && final(self).recorded() == e2 && block_view(r) == b2
            }),
        decreases self.tokens@.len() - self.position, 0int,
    {
        proof {
            reveal(parse_stmt_spec);
            broadcast use {lemma_toks_view_len, lemma_stmts_view_len, lemma_stmts_view_index};

        }
        let ghost tv = self.stream();
        let token = self.current_token();
        self.advance();
        let ghost l0 = self.cursor();
        let ghost er0 = self.recorded();
        let mut statements: Vec<StatementNode> = Vec::new();
        loop
            invariant_except_break
                self.wf(),
                self.tokens@ == old(self).tokens@,
                self.position > old(self).position,
                tv == self.stream(),
                tv == old(self).stream(),
                l0 == old(self).cursor() + 1,
                parse_block_items_spec(tv, l0, er0, Seq::empty()) == parse_block_items_spec(
                    tv,
                    self.cursor(),
                    self.recorded(),
                    stmts_view(statements@),
                ),
            ensures
                self.wf(),
                self.tokens@ == old(self).tokens@,
                self.position >= old(self).position,
                tv == self.stream(),
                ({
                    let (p1, e1, ss) = parse_block_items_spec(tv, l0, er0, Seq::empty());
                    self.cursor() == p1 && self.recorded() == e1 && stmts_view(statements@) == ss
                }),
            decreases self.tokens@.len() - self.position,
        {
            proof {
                broadcast use lemma_toks_view_len;

            }
            if self.current_kind() == TokenKind::Rbrace {
                proof {
                    lemma_block_items_done(tv, self.cursor(), self.recorded(), stmts_view(
                        statements@,
                    ));
                }
                self.advance();
                break ;
            }
            if self.current_kind() == TokenKind::Eof {
                proof {
                    lemma_block_items_done(tv, self.cursor(), self.recorded(), stmts_view(
                        statements@,
                    ));
                }
                self.error_at_current("'}' to close the block");
                break ;
            }
            let ghost it_pos = self.cursor();
            let ghost it_errs = self.recorded();
            let ghost it_acc = stmts_view(statements@);
            proof {
                lemma_block_items_step(tv, it_pos, it_errs, it_acc);
            }
            let before = self.position;
            let stmt = self.parse_statement();
            proof {
                assert(at_least(it_pos, self.cursor()) == self.cursor());
            }
            match stmt {
                Option::Some(s) => {
                    let ghost prev = statements@;
                    statements.push(s);
                    proof {
                        assert(statements@.drop_last() =~= prev);
                        assert(stmts_view(statements@) == stmts_view(prev).push(
                            stmt_view(statements@.last()),
                        ));
                    }
                },
                Option::None => {},
            }
            if self.position == before {
                self.advance();
            }
        }
        BlockStatement { token, statements }
    }
}

/// Whether every character of `s` is a decimal digit.
pub open spec fn all_digits(s: Seq<char>) -> bool {
    forall|i: int| 0 <= i < s.len() ==> '0' <= #[trigger] s[i] <= '9'
}

/// The number the digits of `s` denote.
pub open spec fn digits_value(s: Seq<char>) -> int
    decreases s.len(),
{
    if s.len() == 0 {
        0
    } else {
        digits_value(s.drop_last()) * 10 + (s.last() as int - 48)
    }
}

/// Build a call node; named so the callers' proofs stay small.
fn make_call(token: Token, function: ExpressionNode, arguments: Vec<ExpressionNode>) -> (r:
    ExpressionNode)
    ensures
        expr_view(r) == SExpr::Call(
            SCall {
                token: token@,
                function: Box::new(expr_view(function)),
                arguments: exprs_view(arguments@),
            },
        ),
{
    proof {
        reveal(crate::ast::expr_view);
    }
    ExpressionNode::Call(CallExpression { token, function: Box::new(function), arguments })
}

/// Build an index node; named so the callers' proofs stay small.
fn make_index(token: Token, left: ExpressionNode, index: ExpressionNode) -> (r: ExpressionNode)
    ensures
        expr_view(r) == SExpr::Index(
            SIndex {
                token: token@,
                left: Box::new(expr_view(left)),
                index: Box::new(expr_view(index)),
            },
        ),
{
    proof {
        reveal(crate::ast::expr_view);
    }
    ExpressionNode::Index(IndexExpression { token, left: Box::new(left), index: Box::new(index) })
}

/// Build an infix node; named so the callers' proofs stay small.
fn make_infix(token: Token, left: ExpressionNode, right: ExpressionNode) -> (r: ExpressionNode)
    ensures
        expr_view(r) == SExpr::Infix(
            SInfix {
                token: token@,
                left: Box::new(expr_view(left)),
                operator: token@.literal,
                right: Box::new(expr_view(right)),
            },
        ),
{
    proof {
        reveal(crate::ast::expr_view);
    }
    let operator = token.literal.clone();
    ExpressionNode::Infix(
        InfixExpression { token, left: Box::new(left), operator, right: Box::new(right) },
    )
}

/// Build the statement nodes; named so the callers' proofs stay small.
fn make_say_stmt(token: Token, name: Identifier, value: ExpressionNode) -> (r: StatementNode)
    ensures
        stmt_view(r) == SStmt::Say(
            SSay {
                token: token@,
                name: crate::ast::ident_view(name),
                value: Option::Some(expr_view(value)),
            },
        ),
{
    proof {
        reveal(crate::ast::stmt_view);
        reveal(crate::ast::expr_view);
    }
    StatementNode::Say(SayStatement { token, name, value: Option::Some(value) })
}

fn make_return_stmt(token: Token, value: Option<ExpressionNode>) -> (r: StatementNode)
    ensures
        stmt_view(r) == SStmt::Return(
            SReturn { token: token@, return_value: opt_expr_view(value) },
        ),
{
    proof {
        reveal(crate::ast::stmt_view);
    }
    StatementNode::Return(ReturnStatement { token, return_value: value })
}

fn make_expr_stmt(token: Token, expression: ExpressionNode) -> (r: StatementNode)
    ensures
        stmt_view(r) == SStmt::Expression(
            SExprStmt { token: token@, expression: Option::Some(expr_view(expression)) },
        ),
{
    proof {
        reveal(crate::ast::stmt_view);
        reveal(crate::ast::expr_view);
    }
    StatementNode::Expression(ExpressionStatement { token, expression: Option::Some(expression) })
}

/// What the optional-statement view does on each constructor.
proof fn lemma_opt_stmt_view_cases(os: Option<StatementNode>)
    ensures
        os is Some ==> opt_stmt_view(os) == Option::Some(stmt_view(os->0)),
        os is None ==> opt_stmt_view(os) == Option::<SStmt>::None,
{
}

/// Build the simple literal nodes; named so the callers' proofs stay small.
fn make_ident_node(token: Token, value: String) -> (r: ExpressionNode)
    ensures
        expr_view(r) == SExpr::Ident(SIdent { token: token@, value: value@ }),
{
    proof {
        reveal(crate::ast::expr_view);
    }
    ExpressionNode::IdentifierNode(Identifier { token, value })
}

fn make_int_node(token: Token, value: i64) -> (r: ExpressionNode)
    ensures
        expr_view(r) == SExpr::Int(SInt { token: token@, value }),
{
    proof {
        reveal(crate::ast::expr_view);
    }
    ExpressionNode::Integer(IntegerLiteral { token, value })
}

fn make_str_node(token: Token, value: String) -> (r: ExpressionNode)
    ensures
        expr_view(r) == SExpr::Str(SStrLit { token: token@, value: value@ }),
{
    proof {
        reveal(crate::ast::expr_view);
    }
    ExpressionNode::StringExp(StringLiteral { token, value })
}

fn make_bool_node(token: Token, value: bool) -> (r: ExpressionNode)
    ensures
        expr_view(r) == SExpr::Bool(SBool { token: token@, value }),
{
    proof {
        reveal(crate::ast::expr_view);
    }
    ExpressionNode::BooleanNode(Boolean { token, value })
}

/// Build an array node; named so the callers' proofs stay small.
fn make_array(token: Token, elements: Vec<ExpressionNode>) -> (r: ExpressionNode)
    ensures
        expr_view(r) == SExpr::Array(
            SArray { token: token@, elements: exprs_view(elements@) },
        ),
{
    proof {
        reveal(crate::ast::expr_view);
    }
    ExpressionNode::Array(ArrayLiteral { token, elements })
}

/// Build a prefix-operator node; named so the callers' proofs stay small.
fn make_prefix(token: Token, operator: String, right: ExpressionNode) -> (r: ExpressionNode)
    ensures
        expr_view(r) == SExpr::Prefix(
            SPrefix {
                token: token@,
                operator: operator@,
                right: Box::new(expr_view(right)),
            },
        ),
{
    proof {
        reveal(crate::ast::expr_view);
    }
    ExpressionNode::Prefix(PrefixExpression { token, operator, right: Box::new(right) })
}

/// Build an if node; named so the callers' proofs stay small.
fn make_if(
    token: Token,
    condition: ExpressionNode,
    consequence: BlockStatement,
    alternative: Option<BlockStatement>,
) -> (r: ExpressionNode)
    ensures
        expr_view(r) == SExpr::If(
            SIf {
                token: token@,
                condition: Box::new(expr_view(condition)),
                consequence: block_view(consequence),
                alternative: match alternative {
                    Option::Some(b) => Option::Some(block_view(b)),
                    Option::None => Option::None,
                },
            },
        ),
{
    proof {
        reveal(crate::ast::expr_view);
    }
    ExpressionNode::IfExpressionNode(
        IfExpression { token, condition: Box::new(condition), consequence, alternative },
    )
}

/// Build a function node; named so the callers' proofs stay small.
fn make_function(token: Token, parameters: Vec<Identifier>, body: BlockStatement) -> (r:
    ExpressionNode)
    ensures
        expr_view(r) == SExpr::Function(
            SFnLit {
                token: token@,
                parameters: idents_view(parameters@),
                body: block_view(body),
            },
        ),
{
    proof {
        reveal(crate::ast::expr_view);
    }
    ExpressionNode::Function(FunctionLiteral { token, parameters, body })
}

/// Build the dictionary node; named so the callers' proofs stay small.
fn make_dict(token: Token, pairs: Vec<(ExpressionNode, ExpressionNode)>) -> (r: ExpressionNode)
    ensures
        expr_view(r) == SExpr::Dict(SDict { token: token@, pairs: pairs_view(pairs@) }),
{
    proof {
        reveal(crate::ast::expr_view);
    }
    ExpressionNode::Dictionary(DictLiteral { token, pairs })
}

/// Decimal digits to a 64-bit signed integer: the denoted number exactly
/// when the text is non-empty, all digits, and the number fits; nothing
/// otherwise.
pub fn parse_i64(s: &String) -> (r: Option<i64>)
    ensures
        r == i64_of_digits(s@),
{
    let slice = s.as_str();
    let n = slice.unicode_len();
    if n == 0 {
        return Option::None;
    }
    let mut acc: u64 = 0;
    let mut i: usize = 0;
    while i < n
        invariant
            n == slice@.len(),
            slice@ == s@,
            n > 0,
            i <= n,
            acc <= 0x7fff_ffff_ffff_ffffu64,
            all_digits(s@.subrange(0, i as int)),
            acc as int == digits_value(s@.subrange(0, i as int)),
        decreases n - i,
    {
        let ghost prefix = s@.subrange(0, i as int);
        let c = slice.get_char(i);
        if !('0' <= c && c <= '9') {
            proof {
                assert(!all_digits(s@));
            }
            return Option::None;
        }
        let d: u64 = (c as u64) - 48;
        proof {
            assert(d <= 9);
        }
        if acc > (0x7fff_ffff_ffff_ffffu64 - d) / 10 {
            proof {
                if all_digits(s@) {
                    let cur = s@.subrange(0, i as int + 1);
                    assert(cur.drop_last() =~= prefix);
                    assert(cur.last() == s@[i as int]);
                    assert(digits_value(cur) == acc as int * 10 + d);
                    assert(acc as int * 10 + d > i64::MAX);
                    lemma_digits_value_grows(s@, i as int + 1);
                    assert(digits_value(s@) > i64::MAX);
                }
            }
            return Option::None;
        }
        acc = acc * 10 + d;
        i = i + 1;
        proof {
            let cur = s@.subrange(0, i as int);
            assert(cur.drop_last() =~= prefix);
            assert(cur.last() == s@[i - 1]);
        }
    }
    proof {
        assert(s@.subrange(0, n as int) =~= s@);
    }
    Option::Some(acc as i64)
}

/// More digits never shrink the denoted number.
proof fn lemma_digits_value_grows(s: Seq<char>, i: int)
    requires
        0 <= i <= s.len(),
        all_digits(s),
    ensures
        digits_value(s) >= digits_value(s.subrange(0, i)),
        digits_value(s) >= 0,
        digits_value(s.subrange(0, i)) >= 0,
    decreases s.len() - i,
{
    lemma_digits_value_nonneg(s.subrange(0, i));
    lemma_digits_value_nonneg(s);
    if i < s.len() {
        lemma_digits_value_grows(s, i + 1);
        let longer = s.subrange(0, i + 1);
        assert(longer.drop_last() =~= s.subrange(0, i));
        assert('0' <= longer.last() <= '9');
    } else {
        assert(s.subrange(0, i) =~= s);
    }
}

proof fn lemma_digits_value_nonneg(s: Seq<char>)
    requires
        all_digits(s),
    ensures
        digits_value(s) >= 0,
    decreases s.len(),
{
    if s.len() > 0 {
        assert(all_digits(s.drop_last())) by {
            assert(forall|j: int|
                0 <= j < s.len() - 1 ==> s.drop_last()[j] == #[trigger] s[j]);
        }
        lemma_digits_value_nonneg(s.drop_last());
        assert('0' <= s.last() <= '9');
    }
}

fn clone_strings(v: &Vec<String>) -> (r: Vec<String>)
    ensures
        r@.len() == v@.len(),
        strings_view(r@) == strings_view(v@),
{
    proof {
        broadcast use {lemma_strings_view_len, lemma_strings_view_index};

    }
    let mut out: Vec<String> = Vec::new();
    let mut k: usize = 0;
    while k < v.len()
        invariant
            k <= v@.len(),
            out@.len() == k,
            strings_view(out@) == strings_view(v@.subrange(0, k as int)),
        decreases v.len() - k,
    {
        let ghost prev = v@.subrange(0, k as int);
        let ghost prev_out = out@;
        out.push(v[k].clone());
        k = k + 1;
        proof {
            let cur = v@.subrange(0, k as int);
            assert(cur.drop_last() =~= prev);
            assert(out@.drop_last() =~= prev_out);
            assert(strings_view(out@) == strings_view(out@.drop_last()).push(out@.last()@));
            assert(strings_view(cur) == strings_view(cur.drop_last()).push(cur.last()@));
        }
    }
    proof {
        assert(v@.subrange(0, v@.len() as int) =~= v@);
    }
    out
}

} // verus!
