//! The lexer: source characters in, tokens out, with one-character
//! lookahead and maximal munch for the two-character operators `==` and
//! `!=`. An unrecognized character becomes an `Illegal` token; the parser
//! turns that into a reported syntax error.

use vstd::prelude::*;

use crate::token::{SToken, Token, TokenKind};

verus! {


/// The characters the lexer skips between tokens.
pub open spec fn is_whitespace_char(c: char) -> bool {
    c == ' ' || c == '\t' || c == '\n' || c == '\r'
}

/// The first position at or after `i` holding a non-whitespace character.
pub open spec fn skip_ws_spec(src: Seq<char>, i: int) -> int
    decreases src.len() - i,
{
    if i < 0 || i >= src.len() {
        i
    } else if is_whitespace_char(src[i]) {
        skip_ws_spec(src, i + 1)
    } else {
        i
    }
}

/// The end of an identifier that continues at `i`.
pub open spec fn ident_end_spec(src: Seq<char>, i: int) -> int
    decreases src.len() - i,
{
    if i < 0 || i >= src.len() {
        i
    } else if is_letter_spec(src[i]) || is_digit_spec(src[i]) {
        ident_end_spec(src, i + 1)
    } else {
        i
    }
}

/// The end of a run of digits that continues at `i`.
pub open spec fn digit_end_spec(src: Seq<char>, i: int) -> int
    decreases src.len() - i,
{
    if i < 0 || i >= src.len() {
        i
    } else if is_digit_spec(src[i]) {
        digit_end_spec(src, i + 1)
    } else {
        i
    }
}

/// The position of the closing quote of a string whose content starts at
/// `i`, or the end of the input when the literal is unterminated.
pub open spec fn string_end_spec(src: Seq<char>, i: int) -> int
    decreases src.len() - i,
{
    if i < 0 || i >= src.len() {
        i
    } else if src[i] == '"' {
        i
    } else {
        string_end_spec(src, i + 1)
    }
}

/// The fixed keyword set, by identifier text.
pub open spec fn keyword_kind_spec(s: Seq<char>) -> TokenKind {
    if s == "function"@ {
        TokenKind::Function
    } else if s == "say"@ {
        TokenKind::Say
    } else if s == "true"@ {
        TokenKind::True
    } else if s == "false"@ {
        TokenKind::False
    } else if s == "if"@ {
        TokenKind::If
    } else if s == "else"@ {
        TokenKind::Else
    } else if s == "return"@ {
        TokenKind::Return
    } else {
        TokenKind::Ident
    }
}

/// What one step of lexing produces: the next cursor position and the
/// token read, exactly.
pub open spec fn next_token_spec(src: Seq<char>, pos: int) -> (int, SToken) {
    let i = skip_ws_spec(src, pos);
    if i >= src.len() {
        (i, SToken { kind: TokenKind::Eof, literal: Seq::empty() })
    } else {
        let c = src[i];
        if c == '=' {
            if i + 1 < src.len() && src[i + 1] == '=' {
                (i + 2, SToken { kind: TokenKind::Equal, literal: "=="@ })
            } else {
                (i + 1, SToken { kind: TokenKind::Assign, literal: "="@ })
            }
        } else if c == '!' {
            if i + 1 < src.len() && src[i + 1] == '=' {
                (i + 2, SToken { kind: TokenKind::NotEqual, literal: "!="@ })
            } else {
                (i + 1, SToken { kind: TokenKind::Bang, literal: "!"@ })
            }
        } else if c == '+' {
            (i + 1, SToken { kind: TokenKind::Plus, literal: "+"@ })
        } else if c == '-' {
            (i + 1, SToken { kind: TokenKind::Minus, literal: "-"@ })
        } else if c == '*' {
            (i + 1, SToken { kind: TokenKind::Asterisk, literal: "*"@ })
        } else if c == '/' {
            (i + 1, SToken { kind: TokenKind::Slash, literal: "/"@ })
        } else if c == '<' {
            (i + 1, SToken { kind: TokenKind::Lt, literal: "<"@ })
        } else if c == '>' {
            (i + 1, SToken { kind: TokenKind::Gt, literal: ">"@ })
        } else if c == ',' {
            (i + 1, SToken { kind: TokenKind::Comma, literal: ","@ })
        } else if c == ';' {
            (i + 1, SToken { kind: TokenKind::Semicolon, literal: ";"@ })
        } else if c == ':' {
            (i + 1, SToken { kind: TokenKind::Colon, literal: ":"@ })
        } else if c == '(' {
            (i + 1, SToken { kind: TokenKind::Lparen, literal: "("@ })
        } else if c == ')' {
            (i + 1, SToken { kind: TokenKind::Rparen, literal: ")"@ })
        } else if c == '{' {
            (i + 1, SToken { kind: TokenKind::Lbrace, literal: "{"@ })
        } else if c == '}' {
            (i + 1, SToken { kind: TokenKind::Rbrace, literal: "}"@ })
        } else if c == '[' {
            (i + 1, SToken { kind: TokenKind::Lbracket, literal: "["@ })
        } else if c == ']' {
            (i + 1, SToken { kind: TokenKind::Rbracket, literal: "]"@ })
        } else if c == '"' {
            let e = string_end_spec(src, i + 1);
            (
                if e < src.len() {
                    e + 1
                } else {
                    e
                },
                SToken { kind: TokenKind::Str, literal: src.subrange(i + 1, e) },
            )
        } else if is_letter_spec(c) {
            let e = ident_end_spec(src, i + 1);
            (e, SToken { kind: keyword_kind_spec(src.subrange(i, e)), literal: src.subrange(i, e) })
        } else if is_digit_spec(c) {
            let e = digit_end_spec(src, i + 1);
            (e, SToken { kind: TokenKind::Int, literal: src.subrange(i, e) })
        } else {
            (i + 1, SToken { kind: TokenKind::Illegal, literal: src.subrange(i, i + 1) })
        }
    }
}

/// Every token of the source from `pos` on, in order, ending with the
/// end-of-input token.
pub open spec fn lex_all_spec(src: Seq<char>, pos: int) -> Seq<SToken>
    decreases src.len() - pos,
{
    let (p2, t) = next_token_spec(src, pos);
    if t.kind == TokenKind::Eof {
        seq![t]
    } else {
        let np = if p2 > pos {
            p2
        } else {
            pos + 1
        };
        let npc = if np > src.len() {
            src.len() as int
        } else {
            np
        };
        seq![t] + lex_all_spec(src, npc)
    }
}

/// Reads the source left to right, one token per call.
pub struct Lexer {
    input: String,
    position: usize,
    length: usize,
}

impl Lexer {
    /// The cursor stays inside the source, whose character count is cached.
    pub closed spec fn wf(&self) -> bool {
        &&& self.length == self.input@.len()
        &&& self.position <= self.length
    }

    pub fn new(input: &str) -> (r: Lexer)
        ensures
            r.wf(),
            r@ == input@,
    {
        let owned = input.to_owned();
        let length = owned.as_str().unicode_len();
        Lexer { input: owned, position: 0, length }
    }

    /// How much input is left to scan.
    pub closed spec fn remaining(&self) -> int {
        self.length - self.position
    }

    /// How far the cursor has come.
    pub closed spec fn cursor(&self) -> int {
        self.position as int
    }

    /// What well-formedness pins down, spelled out for callers.
    pub proof fn lemma_wf_bounds(&self)
        requires
            self.wf(),
        ensures
            0 <= self.cursor() <= self@.len(),
            self.remaining() == self@.len() - self.cursor(),
    {
    }

    fn peek_is(&self, i: usize, c: char) -> (r: bool)
        requires
            self.wf(),
        ensures
            r == (i < self@.len() && self@[i as int] == c),
    {
        i < self.length && self.input.as_str().get_char(i) == c
    }

    /// The next token. Every call either consumes at least one character
    /// or reports the end of the input.
    pub fn next_token(&mut self) -> (t: Token)
        requires
            old(self).wf(),
        ensures
            final(self).wf(),
            final(self)@ == old(self)@,
            final(self).remaining() <= old(self).remaining(),
            final(self).remaining() >= 0,
            t@.kind == TokenKind::Eof || final(self).remaining() < old(self).remaining(),
            ({
                let (p2, t2) = next_token_spec(old(self)@, old(self).cursor());
                final(self).cursor() == p2 && t@ == t2
            }),
    {
        self.skip_whitespace();
        if self.position >= self.length {
            return Token::new(TokenKind::Eof, String::new());
        }
        let c = self.input.as_str().get_char(self.position);
        if c == '=' {
            if self.peek_is(self.position + 1, '=') {
                self.position = self.position + 2;
                Token::new(TokenKind::Equal, String::from_str("=="))
            } else {
                self.position = self.position + 1;
                Token::new(TokenKind::Assign, String::from_str("="))
            }
        } else if c == '!' {
            if self.peek_is(self.position + 1, '=') {
                self.position = self.position + 2;
                Token::new(TokenKind::NotEqual, String::from_str("!="))
            } else {
                self.position = self.position + 1;
                Token::new(TokenKind::Bang, String::from_str("!"))
            }
        } else if c == '+' {
            self.position = self.position + 1;
            Token::new(TokenKind::Plus, String::from_str("+"))
        } else if c == '-' {
            self.position = self.position + 1;
            Token::new(TokenKind::Minus, String::from_str("-"))
        } else if c == '*' {
            self.position = self.position + 1;
            Token::new(TokenKind::Asterisk, String::from_str("*"))
        } else if c == '/' {
            self.position = self.position + 1;
            Token::new(TokenKind::Slash, String::from_str("/"))
        } else if c == '<' {
            self.position = self.position + 1;
            Token::new(TokenKind::Lt, String::from_str("<"))
        } else if c == '>' {
            self.position = self.position + 1;
            Token::new(TokenKind::Gt, String::from_str(">"))
        } else if c == ',' {
            self.position = self.position + 1;
            Token::new(TokenKind::Comma, String::from_str(","))
        } else if c == ';' {
            self.position = self.position + 1;
            Token::new(TokenKind::Semicolon, String::from_str(";"))
        } else if c == ':' {
            self.position = self.position + 1;
            Token::new(TokenKind::Colon, String::from_str(":"))
        } else if c == '(' {
            self.position = self.position + 1;
            Token::new(TokenKind::Lparen, String::from_str("("))
        } else if c == ')' {
            self.position = self.position + 1;
            Token::new(TokenKind::Rparen, String::from_str(")"))
        } else if c == '{' {
            self.position = self.position + 1;
            Token::new(TokenKind::Lbrace, String::from_str("{"))
        } else if c == '}' {
            self.position = self.position + 1;
            Token::new(TokenKind::Rbrace, String::from_str("}"))
        } else if c == '[' {
            self.position = self.position + 1;
            Token::new(TokenKind::Lbracket, String::from_str("["))
        } else if c == ']' {
            self.position = self.position + 1;
            Token::new(TokenKind::Rbracket, String::from_str("]"))
        } else if c == '"' {
            self.read_string()
        } else if is_letter(c) {
            self.read_identifier()
        } else if is_digit(c) {
            self.read_number()
        } else {
            let start = self.position;
            self.position = self.position + 1;
            let lit = self.input.as_str().substring_char(start, self.position).to_owned();
            Token::new(TokenKind::Illegal, lit)
        }
    }

    fn skip_whitespace(&mut self)
        requires
            old(self).wf(),
        ensures
            final(self).wf(),
            final(self)@ == old(self)@,
            final(self).position >= old(self).position,
            final(self).position as int == skip_ws_spec(old(self)@, old(self).position as int),
    {
        while self.position < self.length
            invariant
                self.wf(),
                self@ == old(self)@,
                self.position >= old(self).position,
                skip_ws_spec(self@, old(self).position as int) == skip_ws_spec(
                    self@,
                    self.position as int,
                ),
            decreases self.length - self.position,
        {
            let c = self.input.as_str().get_char(self.position);
            if c == ' ' || c == '\t' || c == '\n' || c == '\r' {
                self.position = self.position + 1;
            } else {
                return ;
            }
        }
    }

    /// A string literal: the raw characters between the quotes; an
    /// unterminated literal runs to the end of the input.
    fn read_string(&mut self) -> (t: Token)
        requires
            old(self).wf(),
            old(self).position < old(self).length,
        ensures
            final(self).wf(),
            final(self)@ == old(self)@,
            final(self).position > old(self).position,
            ({
                let e = string_end_spec(old(self)@, old(self).position + 1);
                final(self).position as int == (if e < old(self)@.len() {
                    e + 1
                } else {
                    e
                }) && t@.kind == TokenKind::Str && t@.literal == old(self)@.subrange(
                    old(self).position + 1,
                    e,
                )
            }),
    {
        let start = self.position + 1;
        let mut end = start;
        while end < self.length
            invariant_except_break
                string_end_spec(self@, start as int) == string_end_spec(self@, end as int),
            invariant
                self.wf(),
                self@ == old(self)@,
                start <= end,
                end <= self.length,
            ensures
                string_end_spec(self@, start as int) == end as int,
            decreases self.length - end,
        {
            if self.input.as_str().get_char(end) == '"' {
                proof {
                    assert(string_end_spec(self@, end as int) == end as int);
                }
                break ;
            }
            end = end + 1;
        }
        let lit = self.input.as_str().substring_char(start, end).to_owned();
        self.position = if end < self.length {
            end + 1
        } else {
            end
        };
        Token::new(TokenKind::Str, lit)
    }

    fn read_identifier(&mut self) -> (t: Token)
        requires
            old(self).wf(),
            old(self).position < old(self).length,
        ensures
            final(self).wf(),
            final(self)@ == old(self)@,
            final(self).position > old(self).position,
            ({
                let e = ident_end_spec(old(self)@, old(self).position + 1);
                final(self).position as int == e && t@.kind == keyword_kind_spec(
                    old(self)@.subrange(old(self).position as int, e),
                ) && t@.literal == old(self)@.subrange(old(self).position as int, e)
            }),
    {
        let start = self.position;
        let mut end = start + 1;
        while end < self.length
            invariant_except_break
                ident_end_spec(self@, start + 1) == ident_end_spec(self@, end as int),
            invariant
                self.wf(),
                self@ == old(self)@,
                start < end,
                end <= self.length,
            ensures
                ident_end_spec(self@, start + 1) == end as int,
            decreases self.length - end,
        {
            let c = self.input.as_str().get_char(end);
            if is_letter(c) || is_digit(c) {
                end = end + 1;
            } else {
                proof {
                    assert(ident_end_spec(self@, end as int) == end as int);
                }
                break ;
            }
        }
        let lit = self.input.as_str().substring_char(start, end).to_owned();
        self.position = end;
        let kind = lookup_identifier(&lit);
        Token { kind, literal: lit }
    }

    fn read_number(&mut self) -> (t: Token)
        requires
            old(self).wf(),
            old(self).position < old(self).length,
        ensures
            final(self).wf(),
            final(self)@ == old(self)@,
            final(self).position > old(self).position,
            ({
                let e = digit_end_spec(old(self)@, old(self).position + 1);
                final(self).position as int == e && t@.kind == TokenKind::Int && t@.literal == old(
                    self,
                )@.subrange(old(self).position as int, e)
            }),
    {
        let start = self.position;
        let mut end = start + 1;
        while end < self.length
            invariant_except_break
                digit_end_spec(self@, start + 1) == digit_end_spec(self@, end as int),
            invariant
                self.wf(),
                self@ == old(self)@,
                start < end,
                end <= self.length,
            ensures
                digit_end_spec(self@, start + 1) == end as int,
            decreases self.length - end,
        {
            if is_digit(self.input.as_str().get_char(end)) {
                end = end + 1;
            } else {
                proof {
                    assert(digit_end_spec(self@, end as int) == end as int);
                }
                break ;
            }
        }
        let lit = self.input.as_str().substring_char(start, end).to_owned();
        self.position = end;
        Token::new(TokenKind::Int, lit)
    }
}

impl View for Lexer {
    type V = Seq<char>;

    closed spec fn view(&self) -> Seq<char> {
        self.input@
    }
}

pub open spec fn is_letter_spec(c: char) -> bool {
    ('a' <= c && c <= 'z') || ('A' <= c && c <= 'Z') || c == '_'
}

pub open spec fn is_digit_spec(c: char) -> bool {
    '0' <= c && c <= '9'
}

pub fn is_letter(c: char) -> (r: bool)
    ensures
        r == is_letter_spec(c),
{
    ('a' <= c && c <= 'z') || ('A' <= c && c <= 'Z') || c == '_'
}

pub fn is_digit(c: char) -> (r: bool)
    ensures
        r == is_digit_spec(c),
{
    '0' <= c && c <= '9'
}

/// The fixed keyword set; any other identifier text is a plain identifier.
fn lookup_identifier(lit: &String) -> (r: TokenKind)
    ensures
        r == keyword_kind_spec(lit@),
{
    let function_kw = String::from_str("function");
    let say_kw = String::from_str("say");
    let true_kw = String::from_str("true");
    let false_kw = String::from_str("false");
    let if_kw = String::from_str("if");
    let else_kw = String::from_str("else");
    let return_kw = String::from_str("return");
    if *lit == function_kw {
        TokenKind::Function
    } else if *lit == say_kw {
        TokenKind::Say
    } else if *lit == true_kw {
        TokenKind::True
    } else if *lit == false_kw {
        TokenKind::False
    } else if *lit == if_kw {
        TokenKind::If
    } else if *lit == else_kw {
        TokenKind::Else
    } else if *lit == return_kw {
        TokenKind::Return
    } else {
        TokenKind::Ident
    }
}

} // verus!
