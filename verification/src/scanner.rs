//! Lexical analysis: a character stream with single-character lookahead and a
//! lazy scanner with two-token lookahead.
//!
//! The scanner's behaviour is pinned by a specification-level tokenizer,
//! [`spec_scan`], that maps the remaining characters to the next token, the
//! characters left after it, and the diagnostics reported while finding it.

use vstd::prelude::*;

use crate::diagnostics::Diagnostic;
use crate::diagnostics::DiagView;
use crate::diagnostics::diags_view;
use crate::diagnostics::lemma_diags_view_push;
use crate::text::char_to_string;
use crate::text::chars_to_string;
use crate::text::str_eq;

verus! {

/// A classified fragment of source text, carrying its literal text.
#[derive(Debug)]
pub enum Token {
    Keyword(String),
    Identifier(String),
    StringLiteral(String),
    IntegerLiteral(String),
    DecimalLiteral(String),
    NullLiteral,
    BooleanLiteral(String),
    Seperator(String),
    Operator(String),
    EOF,
}

/// Mathematical model of a [`Token`]: its text is a sequence of characters.
#[verifier::ext_equal]
pub enum TokenView {
    Keyword(Seq<char>),
    Identifier(Seq<char>),
    StringLiteral(Seq<char>),
    IntegerLiteral(Seq<char>),
    DecimalLiteral(Seq<char>),
    NullLiteral,
    BooleanLiteral(Seq<char>),
    Seperator(Seq<char>),
    Operator(Seq<char>),
    EndOfInput,
}

impl View for Token {
    type V = TokenView;

    open spec fn view(&self) -> TokenView {
        match self {
            Token::Keyword(t) => TokenView::Keyword(t@),
            Token::Identifier(t) => TokenView::Identifier(t@),
            Token::StringLiteral(t) => TokenView::StringLiteral(t@),
            Token::IntegerLiteral(t) => TokenView::IntegerLiteral(t@),
            Token::DecimalLiteral(t) => TokenView::DecimalLiteral(t@),
            Token::NullLiteral => TokenView::NullLiteral,
            Token::BooleanLiteral(t) => TokenView::BooleanLiteral(t@),
            Token::Seperator(t) => TokenView::Seperator(t@),
            Token::Operator(t) => TokenView::Operator(t@),
            Token::EOF => TokenView::EndOfInput,
        }
    }
}

/// The text a token reports: its payload, or empty for the null literal and
/// for the end-of-input marker.
pub open spec fn tv_text(t: TokenView) -> Seq<char> {
    match t {
        TokenView::Keyword(s) => s,
        TokenView::Identifier(s) => s,
        TokenView::StringLiteral(s) => s,
        TokenView::IntegerLiteral(s) => s,
        TokenView::DecimalLiteral(s) => s,
        TokenView::BooleanLiteral(s) => s,
        TokenView::Seperator(s) => s,
        TokenView::Operator(s) => s,
        TokenView::NullLiteral => Seq::<char>::empty(),
        TokenView::EndOfInput => Seq::<char>::empty(),
    }
}

impl Clone for Token {
    fn clone(&self) -> (r: Token)
        ensures
            r@ == self@,
    {
        match self {
            Token::Keyword(t) => Token::Keyword(t.clone()),
            Token::Identifier(t) => Token::Identifier(t.clone()),
            Token::StringLiteral(t) => Token::StringLiteral(t.clone()),
            Token::IntegerLiteral(t) => Token::IntegerLiteral(t.clone()),
            Token::DecimalLiteral(t) => Token::DecimalLiteral(t.clone()),
            Token::NullLiteral => Token::NullLiteral,
            Token::BooleanLiteral(t) => Token::BooleanLiteral(t.clone()),
            Token::Seperator(t) => Token::Seperator(t.clone()),
            Token::Operator(t) => Token::Operator(t.clone()),
            Token::EOF => Token::EOF,
        }
    }
}

impl Token {
    /// The token's literal text, empty for the null literal and end of input.
    pub fn text(&self) -> (r: &str)
        ensures
            r@ == tv_text(self@),
    {
        match self {
            Token::Keyword(t) => t.as_str(),
            Token::Identifier(t) => t.as_str(),
            Token::StringLiteral(t) => t.as_str(),
            Token::IntegerLiteral(t) => t.as_str(),
            Token::DecimalLiteral(t) => t.as_str(),
            Token::BooleanLiteral(t) => t.as_str(),
            Token::Seperator(t) => t.as_str(),
            Token::Operator(t) => t.as_str(),
            _ => {
                proof {
                    reveal_strlit("");
                    assert(""@ =~= Seq::<char>::empty());
                }
                ""
            },
        }
    }
}

/// A stream over the characters of one source text. `peek` reads the current
/// character without advancing, `next` reads it and advances, and both yield
/// the null sentinel at (and past) the end of the input; `line` and `col`
/// track the position just past the characters already read.
pub struct CharStream {
    pub code: String,
    pub chars: Vec<char>,
    pub pos: usize,
    pub line: usize,
    pub col: usize,
}

impl CharStream {
    /// The characters not yet read.
    pub open spec fn remaining(&self) -> Seq<char> {
        self.chars@.skip(self.pos as int)
    }

    /// The character `peek` reports: the current one, or the null sentinel.
    pub open spec fn peek_spec(&self) -> char {
        if self.remaining().len() > 0 {
            self.remaining()[0]
        } else {
            '\0'
        }
    }

    /// Well-formedness: the character vector mirrors the text, the position
    /// stays in range, and line and column are bounded by the progress made.
    pub open spec fn wf(&self) -> bool {
        &&& self.chars@ == self.code@
        &&& self.pos <= self.chars@.len()
        &&& self.chars@.len() < usize::MAX
        &&& 1 <= self.line
        &&& self.line <= self.pos + 1
        &&& self.col <= self.pos
    }

    pub fn new(code: String) -> (r: CharStream)
        requires
            code@.len() < usize::MAX,
        ensures
            r.wf(),
            r.remaining() == code@,
            r.code@ == code@,
            r.line == 1,
            r.col == 0,
    {
        let n = code.as_str().unicode_len();
        let mut chars: Vec<char> = Vec::new();
        let mut i: usize = 0;
        while i < n
            invariant
                n == code@.len(),
                i <= n,
                chars@ == code@.take(i as int),
            decreases n - i,
        {
            chars.push(code.as_str().get_char(i));
            proof {
                assert(chars@ =~= code@.take(i + 1 as int));
            }
            i += 1;
        }
        proof {
            assert(code@.take(n as int) =~= code@);
        }
        let r = CharStream { code, chars, pos: 0, line: 1, col: 0 };
        proof {
            assert(r.remaining() =~= r.chars@);
        }
        r
    }

    pub fn peek(&self) -> (c: char)
        requires
            self.wf(),
        ensures
            c == self.peek_spec(),
    {
        if self.pos >= self.chars.len() {
            return '\0';
        }
        self.chars[self.pos]
    }

    pub fn next(&mut self) -> (c: char)
        requires
            old(self).wf(),
        ensures
            final(self).wf(),
            c == old(self).peek_spec(),
            final(self).code == old(self).code,
            old(self).remaining().len() > 0 ==> final(self).remaining() == old(
                self,
            ).remaining().drop_first(),
            old(self).remaining().len() == 0 ==> *final(self) == *old(self),
            old(self).remaining().len() > 0 ==> (if c == '\n' {
                final(self).line == old(self).line + 1 && final(self).col == 0
            } else {
                final(self).line == old(self).line && final(self).col == old(self).col + 1
            }),
    {
        let c = self.peek();
        if self.pos < self.chars.len() {
            self.pos += 1;
            if c == '\n' {
                self.line += 1;
                self.col = 0;
            } else {
                self.col += 1;
            }
            proof {
                assert(final(self).remaining() =~= old(self).remaining().drop_first());
            }
        }
        c
    }

    /// The character after the current one — the second character of
    /// lookahead — or the null sentinel within one character of the end.
    pub fn peek_next(&self) -> (c: char)
        requires
            self.wf(),
        ensures
            c == (if self.remaining().len() > 1 {
                self.remaining()[1]
            } else {
                '\0'
            }),
    {
        if self.pos + 1 >= self.chars.len() {
            return '\0';
        }
        self.chars[self.pos + 1]
    }

    /// Whether `peek` would report the end-of-input sentinel.
    pub fn eof(&self) -> (r: bool)
        requires
            self.wf(),
        ensures
            r == (self.peek_spec() == '\0'),
    {
        self.peek() == '\0'
    }
}

} // verus!

verus! {

// ---------------------------------------------------------------------------
// Character classes and fixed vocabulary
// ---------------------------------------------------------------------------

/// End of input: nothing left, or the sentinel character itself.
pub open spec fn at_end(s: Seq<char>) -> bool {
    s.len() == 0 || s[0] == '\0'
}

pub open spec fn is_letter_char(c: char) -> bool {
    ('a' <= c && c <= 'z') || ('A' <= c && c <= 'Z')
}

pub open spec fn is_digit_char(c: char) -> bool {
    '0' <= c && c <= '9'
}

pub open spec fn is_space_char(c: char) -> bool {
    c == ' ' || c == '\n' || c == '\t'
}

pub open spec fn is_ident_char(c: char) -> bool {
    is_letter_char(c) || is_digit_char(c) || c == '_'
}

/// The characters that form one-character separator tokens.
pub open spec fn is_sep_char(c: char) -> bool {
    c == '(' || c == ')' || c == '{' || c == '}' || c == '[' || c == ']' || c == ',' || c == ';'
        || c == ':' || c == '@' || c == '?'
}

/// The fixed keyword set of the language.
pub open spec fn is_keyword_seq(s: Seq<char>) -> bool {
    ||| s == "fn"@
    ||| s == "class"@
    ||| s == "break"@
    ||| s == "delete"@
    ||| s == "return"@
    ||| s == "case"@
    ||| s == "do"@
    ||| s == "let"@
    ||| s == "if"@
    ||| s == "match"@
    ||| s == "catch"@
    ||| s == "else"@
    ||| s == "in"@
    ||| s == "self"@
    ||| s == "void"@
    ||| s == "continue"@
    ||| s == "is_instance"@
    ||| s == "throw"@
    ||| s == "for"@
    ||| s == "try"@
    ||| s == "implements"@
    ||| s == "pub"@
    ||| s == "yield"@
    ||| s == "interface"@
    ||| s == "package"@
    ||| s == "static"@
}

// ---------------------------------------------------------------------------
// The specification-level tokenizer
// ---------------------------------------------------------------------------

/// Result of scanning one token: the token, the characters left after it,
/// and the diagnostics reported while finding it.
#[verifier::ext_equal]
pub struct ScanOut {
    pub token: TokenView,
    pub rest: Seq<char>,
    pub diags: Seq<DiagView>,
}

/// Result of scanning the inside of a string literal, up to (but not
/// including) the closing quote or the end of input.
#[verifier::ext_equal]
pub struct StrBodyOut {
    pub text: Seq<char>,
    pub rest: Seq<char>,
    pub diags: Seq<DiagView>,
}

/// Result of skipping a block comment: what is left, and whether the
/// closing `*/` was found.
#[verifier::ext_equal]
pub struct BlockOut {
    pub rest: Seq<char>,
    pub closed: bool,
}

/// Drops leading whitespace.
pub open spec fn skip_ws(s: Seq<char>) -> Seq<char>
    decreases s.len(),
{
    if s.len() > 0 && is_space_char(s[0]) {
        skip_ws(s.drop_first())
    } else {
        s
    }
}

/// Drops the rest of a line comment, stopping at (and keeping) the newline.
pub open spec fn skip_line(s: Seq<char>) -> Seq<char>
    decreases s.len(),
{
    if s.len() > 0 && s[0] != '\n' && s[0] != '\0' {
        skip_line(s.drop_first())
    } else {
        s
    }
}

/// Skips a block comment body, where `prev` is the previously read character.
pub open spec fn skip_block_from(prev: char, s: Seq<char>) -> BlockOut
    decreases s.len(),
{
    if at_end(s) {
        BlockOut { rest: s, closed: false }
    } else if prev == '*' && s[0] == '/' {
        BlockOut { rest: s.drop_first(), closed: true }
    } else {
        skip_block_from(s[0], s.drop_first())
    }
}

/// Skips a block comment body, `s` being the characters after the opening `/*`.
pub open spec fn skip_block(s: Seq<char>) -> BlockOut {
    if at_end(s) {
        BlockOut { rest: s, closed: false }
    } else {
        skip_block_from(s[0], s.drop_first())
    }
}

/// The maximal digit prefix of `s`.
pub open spec fn take_digits(s: Seq<char>) -> Seq<char>
    decreases s.len(),
{
    if s.len() > 0 && is_digit_char(s[0]) {
        seq![s[0]] + take_digits(s.drop_first())
    } else {
        Seq::empty()
    }
}

/// What is left of `s` after its maximal digit prefix.
pub open spec fn drop_digits(s: Seq<char>) -> Seq<char>
    decreases s.len(),
{
    if s.len() > 0 && is_digit_char(s[0]) {
        drop_digits(s.drop_first())
    } else {
        s
    }
}

/// The maximal identifier-character prefix of `s`.
pub open spec fn take_ident(s: Seq<char>) -> Seq<char>
    decreases s.len(),
{
    if s.len() > 0 && is_ident_char(s[0]) {
        seq![s[0]] + take_ident(s.drop_first())
    } else {
        Seq::empty()
    }
}

/// What is left of `s` after its maximal identifier-character prefix.
pub open spec fn drop_ident(s: Seq<char>) -> Seq<char>
    decreases s.len(),
{
    if s.len() > 0 && is_ident_char(s[0]) {
        drop_ident(s.drop_first())
    } else {
        s
    }
}

/// Scans an identifier-like word starting at `t` and classifies it as a
/// keyword, a literal spelling (`null`, `true`, `false`) or an identifier.
pub open spec fn scan_word(t: Seq<char>) -> ScanOut {
    let text = take_ident(t);
    let token = if is_keyword_seq(text) {
        TokenView::Keyword(text)
    } else if text == "null"@ {
        TokenView::NullLiteral
    } else if text == "true"@ {
        TokenView::BooleanLiteral(text)
    } else if text == "false"@ {
        TokenView::BooleanLiteral(text)
    } else {
        TokenView::Identifier(text)
    };
    ScanOut { token, rest: drop_ident(t), diags: Seq::empty() }
}

/// Scans a numeric literal starting at the digit `t[0]`, outside the
/// leading-zero error case: digits followed by `.` and more digits make a
/// decimal literal; otherwise the digits alone make an integer literal,
/// and a dot with no digit after it is left for the next scan.
pub open spec fn scan_number(t: Seq<char>) -> ScanOut {
    let ip = take_digits(t);
    let r1 = drop_digits(t);
    if r1.len() > 1 && r1[0] == '.' && is_digit_char(r1[1]) {
        let frac = take_digits(r1.drop_first());
        ScanOut {
            token: TokenView::DecimalLiteral(ip + seq!['.'] + frac),
            rest: drop_digits(r1.drop_first()),
            diags: Seq::empty(),
        }
    } else {
        ScanOut { token: TokenView::IntegerLiteral(ip), rest: r1, diags: Seq::empty() }
    }
}

/// Scans the inside of a string literal: `s` is what follows the opening
/// quote. Escapes `\n`, `\t`, `\"` and the null escape are substituted; an
/// unrecognized escape is reported and substituted with the null character.
pub open spec fn scan_string_body(s: Seq<char>) -> StrBodyOut
    decreases s.len(),
{
    if at_end(s) || s[0] == '"' {
        StrBodyOut { text: Seq::empty(), rest: s, diags: Seq::empty() }
    } else if s[0] == '\\' {
        let t = s.drop_first();
        if t.len() > 0 {
            let c2 = t[0];
            let mapped = if c2 == 'n' {
                '\n'
            } else if c2 == 't' {
                '\t'
            } else if c2 == '"' {
                '"'
            } else {
                '\0'
            };
            let d: Seq<DiagView> = if c2 == '\0' || c2 == 'n' || c2 == 't' || c2 == '"' {
                Seq::empty()
            } else {
                seq![DiagView::UnrecognizedEscape(c2)]
            };
            let sub = scan_string_body(t.drop_first());
            StrBodyOut { text: seq![mapped] + sub.text, rest: sub.rest, diags: d + sub.diags }
        } else {
            StrBodyOut { text: seq!['\0'], rest: t, diags: Seq::empty() }
        }
    } else {
        let sub = scan_string_body(s.drop_first());
        StrBodyOut { text: seq![s[0]] + sub.text, rest: sub.rest, diags: sub.diags }
    }
}

/// Scans a whole string literal, `s` being what follows the opening quote.
/// An unterminated literal is reported and yields the empty string.
pub open spec fn scan_string(s: Seq<char>) -> ScanOut {
    let b = scan_string_body(s);
    if b.rest.len() > 0 && b.rest[0] == '"' {
        ScanOut {
            token: TokenView::StringLiteral(b.text),
            rest: b.rest.drop_first(),
            diags: b.diags,
        }
    } else {
        ScanOut {
            token: TokenView::StringLiteral(Seq::empty()),
            rest: b.rest,
            diags: b.diags.push(DiagView::UnterminatedString),
        }
    }
}

/// The specification-level tokenizer: one token from the characters `s`,
/// after whitespace, comments and erroneous input are skipped. Mirrors the
/// scanner's recovery policy: unrecognized input is reported and skipped,
/// and scanning retries; the scan is never fatal.
pub open spec fn spec_scan(s: Seq<char>) -> ScanOut
    decreases s.len(),
    via spec_scan_decreases
{
    let t = skip_ws(s);
    if at_end(t) {
        ScanOut { token: TokenView::EndOfInput, rest: t, diags: Seq::empty() }
    } else {
        let c = t[0];
        let u = t.drop_first();
        if is_letter_char(c) || c == '_' {
            scan_word(t)
        } else if is_digit_char(c) {
            if c == '0' && u.len() > 0 && is_digit_char(u[0]) {
                let out = spec_scan(drop_digits(u));
                ScanOut {
                    token: out.token,
                    rest: out.rest,
                    diags: seq![DiagView::LeadingZeroDigit] + out.diags,
                }
            } else {
                scan_number(t)
            }
        } else if c == '.' {
            if u.len() > 0 && is_digit_char(u[0]) {
                ScanOut {
                    token: TokenView::DecimalLiteral(seq!['.'] + take_digits(u)),
                    rest: drop_digits(u),
                    diags: Seq::empty(),
                }
            } else if u.len() > 0 && u[0] == '.' {
                let v = u.drop_first();
                if v.len() > 0 && v[0] == '.' {
                    ScanOut {
                        token: TokenView::Seperator("..."@),
                        rest: v.drop_first(),
                        diags: Seq::empty(),
                    }
                } else {
                    let out = spec_scan(v);
                    ScanOut {
                        token: out.token,
                        rest: out.rest,
                        diags: seq![DiagView::IncompleteEllipsis] + out.diags,
                    }
                }
            } else {
                ScanOut { token: TokenView::Seperator("."@), rest: u, diags: Seq::empty() }
            }
        } else if c == '"' {
            scan_string(u)
        } else if is_sep_char(c) {
            ScanOut { token: TokenView::Seperator(seq![c]), rest: u, diags: Seq::empty() }
        } else if c == '/' {
            if u.len() > 0 && u[0] == '*' {
                let b = skip_block(u.drop_first());
                let out = spec_scan(b.rest);
                let d: Seq<DiagView> = if b.closed {
                    Seq::empty()
                } else {
                    seq![DiagView::UnterminatedComment]
                };
                ScanOut { token: out.token, rest: out.rest, diags: d + out.diags }
            } else if u.len() > 0 && u[0] == '/' {
                spec_scan(skip_line(u.drop_first()))
            } else if u.len() > 0 && u[0] == '=' {
                ScanOut {
                    token: TokenView::Operator("/="@),
                    rest: u.drop_first(),
                    diags: Seq::empty(),
                }
            } else {
                ScanOut { token: TokenView::Operator("/"@), rest: u, diags: Seq::empty() }
            }
        } else if c == '+' {
            if u.len() > 0 && u[0] == '+' {
                ScanOut {
                    token: TokenView::Operator("++"@),
                    rest: u.drop_first(),
                    diags: Seq::empty(),
                }
            } else if u.len() > 0 && u[0] == '=' {
                ScanOut {
                    token: TokenView::Operator("+="@),
                    rest: u.drop_first(),
                    diags: Seq::empty(),
                }
            } else {
                ScanOut { token: TokenView::Operator("+"@), rest: u, diags: Seq::empty() }
            }
        } else if c == '-' {
            if u.len() > 0 && u[0] == '-' {
                ScanOut {
                    token: TokenView::Operator("--"@),
                    rest: u.drop_first(),
                    diags: Seq::empty(),
                }
            } else if u.len() > 0 && u[0] == '=' {
                ScanOut {
                    token: TokenView::Operator("-="@),
                    rest: u.drop_first(),
                    diags: Seq::empty(),
                }
            } else if u.len() > 0 && u[0] == '>' {
                ScanOut {
                    token: TokenView::Operator("->"@),
                    rest: u.drop_first(),
                    diags: Seq::empty(),
                }
            } else {
                ScanOut { token: TokenView::Operator("-"@), rest: u, diags: Seq::empty() }
            }
        } else if c == '*' {
            if u.len() > 0 && u[0] == '=' {
                ScanOut {
                    token: TokenView::Operator("*="@),
                    rest: u.drop_first(),
                    diags: Seq::empty(),
                }
            } else if u.len() > 0 && u[0] == '*' {
                ScanOut {
                    token: TokenView::Operator("**"@),
                    rest: u.drop_first(),
                    diags: Seq::empty(),
                }
            } else {
                ScanOut { token: TokenView::Operator("*"@), rest: u, diags: Seq::empty() }
            }
        } else if c == '%' {
            if u.len() > 0 && u[0] == '=' {
                ScanOut {
                    token: TokenView::Operator("%="@),
                    rest: u.drop_first(),
                    diags: Seq::empty(),
                }
            } else {
                ScanOut { token: TokenView::Operator("%"@), rest: u, diags: Seq::empty() }
            }
        } else if c == '>' {
            if u.len() > 0 && u[0] == '=' {
                ScanOut {
                    token: TokenView::Operator(">="@),
                    rest: u.drop_first(),
                    diags: Seq::empty(),
                }
            } else if u.len() > 0 && u[0] == '>' {
                let v = u.drop_first();
                if v.len() > 0 && v[0] == '=' {
                    ScanOut {
                        token: TokenView::Operator(">>="@),
                        rest: v.drop_first(),
                        diags: Seq::empty(),
                    }
                } else {
                    ScanOut { token: TokenView::Operator(">>"@), rest: v, diags: Seq::empty() }
                }
            } else {
                ScanOut { token: TokenView::Operator(">"@), rest: u, diags: Seq::empty() }
            }
        } else if c == '<' {
            if u.len() > 0 && u[0] == '=' {
                ScanOut {
                    token: TokenView::Operator("<="@),
                    rest: u.drop_first(),
                    diags: Seq::empty(),
                }
            } else if u.len() > 0 && u[0] == '<' {
                let v = u.drop_first();
                if v.len() > 0 && v[0] == '=' {
                    ScanOut {
                        token: TokenView::Operator("<<="@),
                        rest: v.drop_first(),
                        diags: Seq::empty(),
                    }
                } else {
                    ScanOut { token: TokenView::Operator("<<"@), rest: v, diags: Seq::empty() }
                }
            } else {
                ScanOut { token: TokenView::Operator("<"@), rest: u, diags: Seq::empty() }
            }
        } else if c == '=' {
            if u.len() > 0 && u[0] == '=' {
                ScanOut {
                    token: TokenView::Operator("=="@),
                    rest: u.drop_first(),
                    diags: Seq::empty(),
                }
            } else {
                ScanOut { token: TokenView::Operator("="@), rest: u, diags: Seq::empty() }
            }
        } else if c == '!' {
            if u.len() > 0 && u[0] == '=' {
                ScanOut {
                    token: TokenView::Operator("!="@),
                    rest: u.drop_first(),
                    diags: Seq::empty(),
                }
            } else {
                ScanOut { token: TokenView::Operator("!"@), rest: u, diags: Seq::empty() }
            }
        } else if c == '|' {
            if u.len() > 0 && u[0] == '|' {
                ScanOut {
                    token: TokenView::Operator("||"@),
                    rest: u.drop_first(),
                    diags: Seq::empty(),
                }
            } else if u.len() > 0 && u[0] == '=' {
                ScanOut {
                    token: TokenView::Operator("|="@),
                    rest: u.drop_first(),
                    diags: Seq::empty(),
                }
            } else {
                ScanOut { token: TokenView::Operator("|"@), rest: u, diags: Seq::empty() }
            }
        } else if c == '&' {
            if u.len() > 0 && u[0] == '&' {
                ScanOut {
                    token: TokenView::Operator("&&"@),
                    rest: u.drop_first(),
                    diags: Seq::empty(),
                }
            } else if u.len() > 0 && u[0] == '=' {
                ScanOut {
                    token: TokenView::Operator("&="@),
                    rest: u.drop_first(),
                    diags: Seq::empty(),
                }
            } else {
                ScanOut { token: TokenView::Operator("&"@), rest: u, diags: Seq::empty() }
            }
        } else if c == '^' {
            if u.len() > 0 && u[0] == '=' {
                ScanOut {
                    token: TokenView::Operator("^="@),
                    rest: u.drop_first(),
                    diags: Seq::empty(),
                }
            } else {
                ScanOut { token: TokenView::Operator("^"@), rest: u, diags: Seq::empty() }
            }
        } else if c == '~' {
            ScanOut { token: TokenView::Operator("~"@), rest: u, diags: Seq::empty() }
        } else {
            let out = spec_scan(u);
            ScanOut {
                token: out.token,
                rest: out.rest,
                diags: seq![DiagView::UnrecognizedChar(c)] + out.diags,
            }
        }
    }
}

#[via_fn]
proof fn spec_scan_decreases(s: Seq<char>) {
    lemma_skip_ws_len(s);
    let t = skip_ws(s);
    if !at_end(t) {
        let u = t.drop_first();
        lemma_drop_digits_len(u);
        if u.len() > 0 {
            lemma_skip_line_len(u.drop_first());
            lemma_skip_block_from_len(u[0], u.drop_first());
            if u.drop_first().len() > 0 {
                lemma_skip_block_from_len(u.drop_first()[0], u.drop_first().drop_first());
            }
        }
    }
}

pub proof fn lemma_skip_ws_len(s: Seq<char>)
    ensures
        skip_ws(s).len() <= s.len(),
    decreases s.len(),
{
    if s.len() > 0 && is_space_char(s[0]) {
        lemma_skip_ws_len(s.drop_first());
    }
}

pub proof fn lemma_skip_line_len(s: Seq<char>)
    ensures
        skip_line(s).len() <= s.len(),
    decreases s.len(),
{
    if s.len() > 0 && s[0] != '\n' && s[0] != '\0' {
        lemma_skip_line_len(s.drop_first());
    }
}

pub proof fn lemma_skip_block_from_len(prev: char, s: Seq<char>)
    ensures
        skip_block_from(prev, s).rest.len() <= s.len(),
    decreases s.len(),
{
    if !at_end(s) && !(prev == '*' && s[0] == '/') {
        lemma_skip_block_from_len(s[0], s.drop_first());
    }
}

pub proof fn lemma_drop_digits_len(s: Seq<char>)
    ensures
        drop_digits(s).len() <= s.len(),
    decreases s.len(),
{
    if s.len() > 0 && is_digit_char(s[0]) {
        lemma_drop_digits_len(s.drop_first());
    }
}

pub proof fn lemma_drop_ident_len(s: Seq<char>)
    ensures
        drop_ident(s).len() <= s.len(),
    decreases s.len(),
{
    if s.len() > 0 && is_ident_char(s[0]) {
        lemma_drop_ident_len(s.drop_first());
    }
}

pub proof fn lemma_scan_string_body_len(s: Seq<char>)
    ensures
        scan_string_body(s).rest.len() <= s.len(),
    decreases s.len(),
{
    if at_end(s) || s[0] == '"' {
    } else if s[0] == '\\' {
        let t = s.drop_first();
        if t.len() > 0 {
            lemma_scan_string_body_len(t.drop_first());
        }
    } else {
        lemma_scan_string_body_len(s.drop_first());
    }
}

/// What one scan consumes: never more than there is, at least one character
/// when a real token comes out, and everything (to the end) when the
/// end-of-input marker comes out.
pub proof fn lemma_spec_scan_props(s: Seq<char>)
    ensures
        spec_scan(s).rest.len() <= s.len(),
        spec_scan(s).token != TokenView::EndOfInput ==> spec_scan(s).rest.len() < s.len(),
        spec_scan(s).token == TokenView::EndOfInput ==> at_end(spec_scan(s).rest),
    decreases s.len(),
{
    lemma_skip_ws_len(s);
    let t = skip_ws(s);
    if !at_end(t) {
        let c = t[0];
        let u = t.drop_first();
        if is_letter_char(c) || c == '_' {
            lemma_drop_ident_len(u);
        } else if is_digit_char(c) {
            if c == '0' && u.len() > 0 && is_digit_char(u[0]) {
                lemma_drop_digits_len(u);
                lemma_spec_scan_props(drop_digits(u));
            } else {
                lemma_drop_digits_len(u);
                let r1 = drop_digits(t);
                if r1.len() > 1 && r1[0] == '.' && is_digit_char(r1[1]) {
                    lemma_drop_digits_len(r1.drop_first());
                }
            }
        } else if c == '.' {
            if u.len() > 0 && is_digit_char(u[0]) {
                lemma_drop_digits_len(u.drop_first());
                assert(drop_digits(u) == drop_digits(u.drop_first()));
            } else if u.len() > 0 && u[0] == '.' {
                let v = u.drop_first();
                if v.len() > 0 && v[0] == '.' {
                } else {
                    lemma_spec_scan_props(v);
                }
            }
        } else if c == '"' {
            lemma_scan_string_body_len(u);
        } else if is_sep_char(c) {
        } else if c == '/' {
            if u.len() > 0 && u[0] == '*' {
                lemma_skip_block_from_len(u.drop_first()[0], u.drop_first().drop_first());
                if u.drop_first().len() > 0 {
                    lemma_skip_block_from_len(
                        u.drop_first()[0],
                        u.drop_first().drop_first(),
                    );
                }
                lemma_spec_scan_props(skip_block(u.drop_first()).rest);
            } else if u.len() > 0 && u[0] == '/' {
                lemma_skip_line_len(u.drop_first());
                lemma_spec_scan_props(skip_line(u.drop_first()));
            }
        } else if c == '+' || c == '-' || c == '*' || c == '%' || c == '>' || c == '<' || c == '='
            || c == '!' || c == '|' || c == '&' || c == '^' || c == '~' {
        } else {
            lemma_spec_scan_props(u);
        }
    }
}

} // verus!

verus! {

// ---------------------------------------------------------------------------
// Token streams of a whole input
// ---------------------------------------------------------------------------

/// All tokens of `s`, in order, up to (excluding) the end-of-input marker.
pub open spec fn spec_tokens(s: Seq<char>) -> Seq<TokenView>
    decreases s.len(),
    via spec_tokens_decreases
{
    let out = spec_scan(s);
    if out.token is EndOfInput {
        Seq::empty()
    } else {
        seq![out.token] + spec_tokens(out.rest)
    }
}

#[via_fn]
proof fn spec_tokens_decreases(s: Seq<char>) {
    lemma_spec_scan_props(s);
}

/// All diagnostics scanning `s` to its end reports, in order.
pub open spec fn spec_all_diags(s: Seq<char>) -> Seq<DiagView>
    decreases s.len(),
    via spec_all_diags_decreases
{
    let out = spec_scan(s);
    if out.token is EndOfInput {
        out.diags
    } else {
        out.diags + spec_all_diags(out.rest)
    }
}

#[via_fn]
proof fn spec_all_diags_decreases(s: Seq<char>) {
    lemma_spec_scan_props(s);
}

/// At the end of input the scan yields the end-of-input marker, consumes
/// nothing and reports nothing.
pub proof fn lemma_scan_at_end(s: Seq<char>)
    requires
        at_end(s),
    ensures
        spec_scan(s) == (ScanOut {
            token: TokenView::EndOfInput,
            rest: s,
            diags: Seq::<DiagView>::empty(),
        }),
        spec_tokens(s) == Seq::<TokenView>::empty(),
        spec_all_diags(s) == Seq::<DiagView>::empty(),
{
    assert(skip_ws(s) == s);
}

proof fn lemma_add_empty_diags(s: Seq<DiagView>)
    ensures
        s + Seq::<DiagView>::empty() == s,
        Seq::<DiagView>::empty() + s == s,
{
    assert(s + Seq::<DiagView>::empty() =~= s);
    assert(Seq::<DiagView>::empty() + s =~= s);
}

// ---------------------------------------------------------------------------
// The scanner
// ---------------------------------------------------------------------------

/// The lexical analyzer. Its interface is a lazy stream of tokens:
/// `next` returns the current token and moves past it, `peek` and `peek2`
/// report the first and second upcoming tokens without consuming them,
/// backed by a two-slot lookahead buffer filled on demand. Diagnostics are
/// collected in `diags` as the input is scanned.
pub struct Scanner {
    pub stream: CharStream,
    pub tok0: Option<Token>,
    pub tok1: Option<Token>,
    pub diags: Vec<Diagnostic>,
}

impl Scanner {
    /// The tokens buffered ahead, oldest first, without end-of-input markers.
    pub open spec fn buffered(self) -> Seq<TokenView> {
        let a: Seq<TokenView> = match self.tok0 {
            Some(t) => if t@ is EndOfInput {
                Seq::empty()
            } else {
                seq![t@]
            },
            None => Seq::empty(),
        };
        let b: Seq<TokenView> = match self.tok1 {
            Some(t) => if t@ is EndOfInput {
                Seq::empty()
            } else {
                seq![t@]
            },
            None => Seq::empty(),
        };
        a + b
    }

    /// The tokens still to come: the buffered ones, then those of the
    /// characters not yet scanned.
    pub open spec fn toks(self) -> Seq<TokenView> {
        self.buffered() + spec_tokens(self.stream.remaining())
    }

    /// The diagnostics already collected together with those the rest of the
    /// input will produce; scanning moves diagnostics from the second group
    /// to the first without changing the whole.
    pub open spec fn committed_diags(self) -> Seq<DiagView> {
        diags_view(self.diags@) + spec_all_diags(self.stream.remaining())
    }

    /// Well-formedness: the stream is sound, the buffer fills front first,
    /// and a buffered end-of-input marker means the input is exhausted.
    pub open spec fn wf(self) -> bool {
        &&& self.stream.wf()
        &&& (self.tok0 is None ==> self.tok1 is None)
        &&& (match self.tok0 {
            Some(t) => t@ is EndOfInput ==> spec_tokens(self.stream.remaining()).len() == 0
                && spec_all_diags(self.stream.remaining()).len() == 0,
            None => true,
        })
        &&& (match self.tok1 {
            Some(t) => t@ is EndOfInput ==> spec_tokens(self.stream.remaining()).len() == 0
                && spec_all_diags(self.stream.remaining()).len() == 0,
            None => true,
        })
        &&& (match (&self.tok0, &self.tok1) {
            (Some(a), Some(b)) => a@ is EndOfInput ==> b@ is EndOfInput,
            _ => true,
        })
    }

    pub fn new(stream: CharStream) -> (r: Scanner)
        requires
            stream.wf(),
        ensures
            r.wf(),
            r.toks() == spec_tokens(stream.remaining()),
            r.committed_diags() == spec_all_diags(stream.remaining()),
            r.diags@ =~= Seq::<Diagnostic>::empty(),
            r.stream == stream,
    {
        let r = Scanner { stream, tok0: None, tok1: None, diags: Vec::new() };
        proof {
            assert(r.buffered() =~= Seq::<TokenView>::empty());
            assert(r.toks() =~= spec_tokens(r.stream.remaining()));
            assert(diags_view(r.diags@) =~= Seq::<DiagView>::empty());
            assert(r.committed_diags() =~= spec_all_diags(r.stream.remaining()));
        }
        r
    }

    fn is_letter_digit_underscore(&self, ch: char) -> (b: bool)
        ensures
            b == is_ident_char(ch),
    {
        self.is_letter(ch) || self.is_digit(ch) || ch == '_'
    }

    fn is_letter(&self, ch: char) -> (b: bool)
        ensures
            b == is_letter_char(ch),
    {
        ch >= 'a' && ch <= 'z' || ch >= 'A' && ch <= 'Z'
    }

    fn is_digit(&self, ch: char) -> (b: bool)
        ensures
            b == is_digit_char(ch),
    {
        ch >= '0' && ch <= '9'
    }

    fn is_white_space(&self, ch: char) -> (b: bool)
        ensures
            b == is_space_char(ch),
    {
        ch == ' ' || ch == '\n' || ch == '\t'
    }

    fn is_underline(&self, ch: char) -> (b: bool)
        ensures
            b == (ch == '_'),
    {
        ch == '_'
    }

    /// Whether `text` spells one of the fixed keywords.
    fn is_keyword(&self, text: &str) -> (b: bool)
        ensures
            b == is_keyword_seq(text@),
    {
        str_eq(text, "fn") || str_eq(text, "class") || str_eq(text, "break") || str_eq(
            text,
            "delete",
        ) || str_eq(text, "return") || str_eq(text, "case") || str_eq(text, "do") || str_eq(
            text,
            "let",
        ) || str_eq(text, "if") || str_eq(text, "match") || str_eq(text, "catch") || str_eq(
            text,
            "else",
        ) || str_eq(text, "in") || str_eq(text, "self") || str_eq(text, "void") || str_eq(
            text,
            "continue",
        ) || str_eq(text, "is_instance") || str_eq(text, "throw") || str_eq(text, "for") || str_eq(
            text,
            "try",
        ) || str_eq(text, "implements") || str_eq(text, "pub") || str_eq(text, "yield") || str_eq(
            text,
            "interface",
        ) || str_eq(text, "package") || str_eq(text, "static")
    }

    fn skip_white_spaces(&mut self)
        requires
            old(self).stream.wf(),
        ensures
            final(self).stream.wf(),
            final(self).stream.remaining() == skip_ws(old(self).stream.remaining()),
            final(self).stream.code == old(self).stream.code,
            final(self).tok0 == old(self).tok0,
            final(self).tok1 == old(self).tok1,
            final(self).diags == old(self).diags,
    {
        while self.is_white_space(self.stream.peek())
            invariant
                self.stream.wf(),
                skip_ws(self.stream.remaining()) == skip_ws(old(self).stream.remaining()),
                self.stream.code == old(self).stream.code,
                self.tok0 == old(self).tok0,
                self.tok1 == old(self).tok1,
                self.diags == old(self).diags,
            decreases self.stream.remaining().len(),
        {
            self.stream.next();
        }
    }

    fn skip_single_comments(&mut self)
        requires
            old(self).stream.wf(),
            old(self).stream.remaining().len() > 0,
            old(self).stream.remaining()[0] == '/',
        ensures
            final(self).stream.wf(),
            final(self).stream.remaining() == skip_line(
                old(self).stream.remaining().drop_first(),
            ),
            final(self).stream.code == old(self).stream.code,
            final(self).tok0 == old(self).tok0,
            final(self).tok1 == old(self).tok1,
            final(self).diags == old(self).diags,
    {
        self.stream.next();
        while self.stream.peek() != '\n' && !self.stream.eof()
            invariant
                self.stream.wf(),
                skip_line(self.stream.remaining()) == skip_line(
                    old(self).stream.remaining().drop_first(),
                ),
                self.stream.code == old(self).stream.code,
                self.tok0 == old(self).tok0,
                self.tok1 == old(self).tok1,
                self.diags == old(self).diags,
            decreases self.stream.remaining().len(),
        {
            self.stream.next();
        }
    }

    fn skip_multiple_comments(&mut self)
        requires
            old(self).stream.wf(),
            old(self).stream.remaining().len() > 0,
            old(self).stream.remaining()[0] == '*',
        ensures
            final(self).stream.wf(),
            final(self).stream.code == old(self).stream.code,
            final(self).tok0 == old(self).tok0,
            final(self).tok1 == old(self).tok1,
            ({
                let b = skip_block(old(self).stream.remaining().drop_first());
                &&& final(self).stream.remaining() == b.rest
                &&& diags_view(final(self).diags@) == diags_view(old(self).diags@) + (if b.closed {
                    Seq::<DiagView>::empty()
                } else {
                    seq![DiagView::UnterminatedComment]
                })
            }),
    {
        self.stream.next();
        if !self.stream.eof() {
            let mut ch1 = self.stream.next();
            while !self.stream.eof()
                invariant
                    self.stream.wf(),
                    skip_block_from(ch1, self.stream.remaining()) == skip_block(
                        old(self).stream.remaining().drop_first(),
                    ),
                    self.stream.code == old(self).stream.code,
                    self.tok0 == old(self).tok0,
                    self.tok1 == old(self).tok1,
                    self.diags == old(self).diags,
                decreases self.stream.remaining().len(),
            {
                let ch2 = self.stream.next();
                if ch1 == '*' && ch2 == '/' {
                    proof {
                        lemma_add_empty_diags(diags_view(self.diags@));
                    }
                    return ;
                }
                ch1 = ch2;
            }
        }
        self.diags.push(Diagnostic::UnterminatedComment);
        proof {
            lemma_diags_view_push(old(self).diags@, Diagnostic::UnterminatedComment);
            assert(diags_view(old(self).diags@).push(DiagView::UnterminatedComment) =~= diags_view(
                old(self).diags@,
            ) + seq![DiagView::UnterminatedComment]);
        }
    }

    /// Reads the maximal run of digits, appending them to `text`.
    fn read_digits(&mut self, text: &mut Vec<char>)
        requires
            old(self).stream.wf(),
        ensures
            final(self).stream.wf(),
            final(text)@ == old(text)@ + take_digits(old(self).stream.remaining()),
            final(self).stream.remaining() == drop_digits(old(self).stream.remaining()),
            final(self).stream.code == old(self).stream.code,
            final(self).tok0 == old(self).tok0,
            final(self).tok1 == old(self).tok1,
            final(self).diags == old(self).diags,
    {
        while self.is_digit(self.stream.peek())
            invariant
                self.stream.wf(),
                old(text)@ + take_digits(old(self).stream.remaining()) == text@ + take_digits(
                    self.stream.remaining(),
                ),
                drop_digits(self.stream.remaining()) == drop_digits(old(self).stream.remaining()),
                self.stream.code == old(self).stream.code,
                self.tok0 == old(self).tok0,
                self.tok1 == old(self).tok1,
                self.diags == old(self).diags,
            decreases self.stream.remaining().len(),
        {
            proof {
                let cur = self.stream.remaining();
                assert(take_digits(cur) == seq![cur[0]] + take_digits(cur.drop_first()));
            }
            let ghost prev_text = text@;
            let ghost cur = self.stream.remaining();
            let c = self.stream.next();
            text.push(c);
            proof {
                assert(text@ =~= prev_text + seq![c]);
                assert(prev_text + take_digits(cur) =~= (prev_text + seq![c]) + take_digits(
                    cur.drop_first(),
                ));
            }
        }
        proof {
            assert(text@ =~= text@ + take_digits(self.stream.remaining()));
            assert(old(text)@ + take_digits(old(self).stream.remaining()) =~= text@);
        }
    }

    /// Skips the maximal run of digits.
    fn skip_digits(&mut self)
        requires
            old(self).stream.wf(),
        ensures
            final(self).stream.wf(),
            final(self).stream.remaining() == drop_digits(old(self).stream.remaining()),
            final(self).stream.code == old(self).stream.code,
            final(self).tok0 == old(self).tok0,
            final(self).tok1 == old(self).tok1,
            final(self).diags == old(self).diags,
    {
        while self.is_digit(self.stream.peek())
            invariant
                self.stream.wf(),
                drop_digits(self.stream.remaining()) == drop_digits(old(self).stream.remaining()),
                self.stream.code == old(self).stream.code,
                self.tok0 == old(self).tok0,
                self.tok1 == old(self).tok1,
                self.diags == old(self).diags,
            decreases self.stream.remaining().len(),
        {
            self.stream.next();
        }
    }

    /// Finishes a numeric literal whose first digit `first` is already
    /// consumed: the remaining digits, and a fraction where a `.` with at
    /// least one digit follows; a trailing `.` is left for the next scan.
    fn finish_number(&mut self, first: char) -> (t: Token)
        requires
            old(self).stream.wf(),
            is_digit_char(first),
            !(first == '0' && old(self).stream.remaining().len() > 0 && is_digit_char(
                old(self).stream.remaining()[0],
            )),
        ensures
            final(self).stream.wf(),
            final(self).stream.code == old(self).stream.code,
            final(self).tok0 == old(self).tok0,
            final(self).tok1 == old(self).tok1,
            final(self).diags == old(self).diags,
            ({
                let out = scan_number(seq![first] + old(self).stream.remaining());
                &&& t@ == out.token
                &&& final(self).stream.remaining() == out.rest
            }),
    {
        let ghost t0 = seq![first] + old(self).stream.remaining();
        proof {
            assert(t0.drop_first() =~= old(self).stream.remaining());
            assert(take_digits(t0) == seq![t0[0]] + take_digits(t0.drop_first()));
            assert(drop_digits(t0) == drop_digits(t0.drop_first()));
            if first == '0' {
                assert(take_digits(old(self).stream.remaining()) =~= Seq::<char>::empty());
                assert(take_digits(t0) =~= seq![first]);
            }
        }
        let mut text: Vec<char> = Vec::new();
        text.push(first);
        proof {
            assert(text@ =~= seq![first]);
        }
        self.read_digits(&mut text);
        proof {
            assert(text@ =~= take_digits(t0));
        }
        if self.stream.peek() == '.' && self.is_digit(self.stream.peek_next()) {
            let ghost r1 = self.stream.remaining();
            self.stream.next();
            text.push('.');
            self.read_digits(&mut text);
            proof {
                assert(text@ =~= take_digits(t0) + seq!['.'] + take_digits(r1.drop_first()));
            }
            return Token::DecimalLiteral(chars_to_string(&text));
        }
        Token::IntegerLiteral(chars_to_string(&text))
    }

    /// Scans an identifier-like word and classifies it.
    fn parse_identifier(&mut self) -> (t: Token)
        requires
            old(self).stream.wf(),
            old(self).stream.remaining().len() > 0,
            is_letter_char(old(self).stream.remaining()[0]) || old(self).stream.remaining()[0]
                == '_',
        ensures
            final(self).stream.wf(),
            final(self).stream.code == old(self).stream.code,
            final(self).tok0 == old(self).tok0,
            final(self).tok1 == old(self).tok1,
            final(self).diags == old(self).diags,
            ({
                let out = scan_word(old(self).stream.remaining());
                &&& t@ == out.token
                &&& final(self).stream.remaining() == out.rest
            }),
    {
        let ghost t0 = old(self).stream.remaining();
        let mut text: Vec<char> = Vec::new();
        let c = self.stream.next();
        text.push(c);
        proof {
            assert(text@ =~= seq![t0[0]]);
            assert(take_ident(t0) == seq![t0[0]] + take_ident(t0.drop_first()));
            assert(drop_ident(t0) == drop_ident(t0.drop_first()));
        }
        while !self.stream.eof() && self.is_letter_digit_underscore(self.stream.peek())
            invariant
                self.stream.wf(),
                seq![t0[0]] + take_ident(t0.drop_first()) == text@ + take_ident(
                    self.stream.remaining(),
                ),
                drop_ident(self.stream.remaining()) == drop_ident(t0.drop_first()),
                self.stream.code == old(self).stream.code,
                self.tok0 == old(self).tok0,
                self.tok1 == old(self).tok1,
                self.diags == old(self).diags,
            decreases self.stream.remaining().len(),
        {
            proof {
                let cur = self.stream.remaining();
                assert(take_ident(cur) == seq![cur[0]] + take_ident(cur.drop_first()));
            }
            let ghost prev_text = text@;
            let ghost cur = self.stream.remaining();
            let c2 = self.stream.next();
            text.push(c2);
            proof {
                assert(text@ =~= prev_text + seq![c2]);
                assert(prev_text + take_ident(cur) =~= (prev_text + seq![c2]) + take_ident(
                    cur.drop_first(),
                ));
            }
        }
        proof {
            if !at_end(self.stream.remaining()) {
                assert(!is_ident_char(self.stream.remaining()[0]));
            }
            assert(take_ident(self.stream.remaining()) =~= Seq::<char>::empty());
            assert(text@ =~= text@ + take_ident(self.stream.remaining()));
            assert(text@ =~= take_ident(t0));
            assert(drop_ident(self.stream.remaining()) == self.stream.remaining());
        }
        let s = chars_to_string(&text);
        if self.is_keyword(s.as_str()) {
            Token::Keyword(s)
        } else if str_eq(s.as_str(), "null") {
            Token::NullLiteral
        } else if str_eq(s.as_str(), "true") {
            Token::BooleanLiteral(s)
        } else if str_eq(s.as_str(), "false") {
            Token::BooleanLiteral(s)
        } else {
            Token::Identifier(s)
        }
    }

    /// Scans a string literal; the opening quote is still unconsumed.
    fn parse_string_literal(&mut self) -> (t: Token)
        requires
            old(self).stream.wf(),
            old(self).stream.remaining().len() > 0,
            old(self).stream.remaining()[0] == '"',
        ensures
            final(self).stream.wf(),
            final(self).stream.code == old(self).stream.code,
            final(self).tok0 == old(self).tok0,
            final(self).tok1 == old(self).tok1,
            ({
                let out = scan_string(old(self).stream.remaining().drop_first());
                &&& t@ == out.token
                &&& final(self).stream.remaining() == out.rest
                &&& diags_view(final(self).diags@) == diags_view(old(self).diags@) + out.diags
            }),
    {
        let ghost u0 = old(self).stream.remaining().drop_first();
        self.stream.next();
        let mut text: Vec<char> = Vec::new();
        while !self.stream.eof() && self.stream.peek() != '"'
            invariant
                self.stream.wf(),
                scan_string_body(u0).text == text@ + scan_string_body(self.stream.remaining()).text,
                scan_string_body(u0).rest == scan_string_body(self.stream.remaining()).rest,
                diags_view(old(self).diags@) + scan_string_body(u0).diags == diags_view(
                    self.diags@,
                ) + scan_string_body(self.stream.remaining()).diags,
                self.stream.code == old(self).stream.code,
                self.tok0 == old(self).tok0,
                self.tok1 == old(self).tok1,
            decreases self.stream.remaining().len(),
        {
            let ghost cur = self.stream.remaining();
            let ghost prev_text = text@;
            let ghost prev_diags = self.diags@;
            let mut next = self.stream.next();
            if next == '\\' {
                let ghost t = cur.drop_first();
                let next_next = self.stream.next();
                if next_next == '\0' {
                    next = '\0';
                } else if next_next == 'n' {
                    next = '\n';
                } else if next_next == 't' {
                    next = '\t';
                } else if next_next == '"' {
                    next = '"';
                } else {
                    self.diags.push(Diagnostic::UnrecognizedEscape(next_next));
                    proof {
                        lemma_diags_view_push(
                            prev_diags,
                            Diagnostic::UnrecognizedEscape(next_next),
                        );
                    }
                    next = '\0';
                }
                text.push(next);
                proof {
                    if t.len() > 0 {
                        let sub = scan_string_body(t.drop_first());
                        assert(text@ =~= prev_text + seq![next]);
                        assert(prev_text + (seq![next] + sub.text) =~= text@ + sub.text);
                        assert(scan_string_body(u0).text =~= text@ + sub.text);
                        let d: Seq<DiagView> = if next_next == '\0' || next_next == 'n'
                            || next_next == 't' || next_next == '"' {
                            Seq::empty()
                        } else {
                            seq![DiagView::UnrecognizedEscape(next_next)]
                        };
                        assert(diags_view(self.diags@) =~= diags_view(prev_diags) + d);
                        assert((diags_view(prev_diags) + d) + sub.diags =~= diags_view(self.diags@)
                            + sub.diags);
                        assert(diags_view(prev_diags) + (d + sub.diags) =~= (diags_view(prev_diags)
                            + d) + sub.diags);
                    } else {
                        assert(text@ =~= prev_text + seq!['\0']);
                        assert(scan_string_body(cur).text =~= seq!['\0']);
                        assert(scan_string_body(u0).text =~= text@ + scan_string_body(
                            self.stream.remaining(),
                        ).text);
                    }
                }
            } else {
                text.push(next);
                proof {
                    let sub = scan_string_body(cur.drop_first());
                    assert(text@ =~= prev_text + seq![next]);
                    assert(prev_text + (seq![next] + sub.text) =~= text@ + sub.text);
                }
            }
        }
        proof {
            let fin = self.stream.remaining();
            assert(scan_string_body(fin).text =~= Seq::<char>::empty());
            assert(text@ =~= text@ + scan_string_body(fin).text);
            assert(scan_string_body(u0).text =~= text@);
            lemma_add_empty_diags(diags_view(self.diags@));
        }
        if self.stream.peek() == '"' {
            self.stream.next();
            return Token::StringLiteral(chars_to_string(&text));
        }
        let ghost prev = self.diags@;
        self.diags.push(Diagnostic::UnterminatedString);
        proof {
            lemma_diags_view_push(prev, Diagnostic::UnterminatedString);
            let b = scan_string_body(u0);
            assert(diags_view(old(self).diags@) + b.diags.push(DiagView::UnterminatedString) =~= (
            diags_view(old(self).diags@) + b.diags).push(DiagView::UnterminatedString));
        }
        Token::StringLiteral(String::new())
    }
}

} // verus!

verus! {

impl Scanner {
    /// Scans one token from the stream, mirroring [`spec_scan`]: skips
    /// whitespace and comments, recovers from malformed input by reporting
    /// and skipping it, and applies maximal munch to operators.
    fn get_a_token(&mut self) -> (t: Token)
        requires
            old(self).stream.wf(),
        ensures
            final(self).stream.wf(),
            final(self).stream.code == old(self).stream.code,
            final(self).tok0 == old(self).tok0,
            final(self).tok1 == old(self).tok1,
            ({
                let out = spec_scan(old(self).stream.remaining());
                &&& t@ == out.token
                &&& final(self).stream.remaining() == out.rest
                &&& diags_view(final(self).diags@) == diags_view(old(self).diags@) + out.diags
            }),
        decreases old(self).stream.remaining().len(),
    {
        proof {
            lemma_skip_ws_len(old(self).stream.remaining());
        }
        self.skip_white_spaces();
        let ghost t0 = self.stream.remaining();
        let ghost d0 = self.diags@;
        if self.stream.eof() {
            proof {
                lemma_add_empty_diags(diags_view(self.diags@));
            }
            return Token::EOF;
        }
        let ch = self.stream.peek();
        if self.is_letter(ch) || self.is_underline(ch) {
            let t = self.parse_identifier();
            proof {
                lemma_add_empty_diags(diags_view(self.diags@));
            }
            return t;
        }
        if self.is_digit(ch) {
            self.stream.next();
            if ch == '0' && self.is_digit(self.stream.peek()) {
                self.diags.push(Diagnostic::LeadingZeroDigit);
                proof {
                    lemma_diags_view_push(d0, Diagnostic::LeadingZeroDigit);
                }
                self.skip_digits();
                proof {
                    lemma_drop_digits_len(t0.drop_first());
                }
                let t = self.get_a_token();
                proof {
                    let out = spec_scan(drop_digits(t0.drop_first()));
                    assert((diags_view(d0) + seq![DiagView::LeadingZeroDigit]) + out.diags =~= diags_view(
                    d0) + (seq![DiagView::LeadingZeroDigit] + out.diags));
                    assert(diags_view(d0).push(DiagView::LeadingZeroDigit) =~= diags_view(d0)
                        + seq![DiagView::LeadingZeroDigit]);
                }
                return t;
            }
            proof {
                assert(t0 =~= seq![t0[0]] + t0.drop_first());
            }
            let t = self.finish_number(ch);
            proof {
                lemma_add_empty_diags(diags_view(self.diags@));
            }
            return t;
        }
        if ch == '.' {
            self.stream.next();
            let ch1 = self.stream.peek();
            if self.is_digit(ch1) {
                let mut text: Vec<char> = Vec::new();
                text.push('.');
                proof {
                    assert(text@ =~= seq!['.']);
                }
                self.read_digits(&mut text);
                proof {
                    lemma_add_empty_diags(diags_view(self.diags@));
                }
                return Token::DecimalLiteral(chars_to_string(&text));
            } else if ch1 == '.' {
                self.stream.next();
                let ch2 = self.stream.peek();
                if ch2 == '.' {
                    self.stream.next();
                    proof {
                        lemma_add_empty_diags(diags_view(self.diags@));
                    }
                    return Token::Seperator(String::from_str("..."));
                }
                self.diags.push(Diagnostic::IncompleteEllipsis);
                proof {
                    lemma_diags_view_push(d0, Diagnostic::IncompleteEllipsis);
                }
                let t = self.get_a_token();
                proof {
                    let out = spec_scan(t0.drop_first().drop_first());
                    assert((diags_view(d0) + seq![DiagView::IncompleteEllipsis]) + out.diags =~= diags_view(
                    d0) + (seq![DiagView::IncompleteEllipsis] + out.diags));
                    assert(diags_view(d0).push(DiagView::IncompleteEllipsis) =~= diags_view(d0)
                        + seq![DiagView::IncompleteEllipsis]);
                }
                return t;
            }
            proof {
                lemma_add_empty_diags(diags_view(self.diags@));
            }
            return Token::Seperator(String::from_str("."));
        }
        if ch == '"' {
            let t = self.parse_string_literal();
            return t;
        }
        if ch == '(' || ch == ')' || ch == '{' || ch == '}' || ch == '[' || ch == ']' || ch == ','
            || ch == ';' || ch == ':' || ch == '@' || ch == '?' {
            self.stream.next();
            proof {
                lemma_add_empty_diags(diags_view(self.diags@));
            }
            return Token::Seperator(char_to_string(ch));
        }
        if ch == '/' {
            self.stream.next();
            let ch1 = self.stream.peek();
            if ch1 == '*' {
                self.skip_multiple_comments();
                proof {
                    let v = t0.drop_first().drop_first();
                    if !at_end(v) {
                        lemma_skip_block_from_len(v[0], v.drop_first());
                    }
                }
                let t = self.get_a_token();
                proof {
                    let b = skip_block(t0.drop_first().drop_first());
                    let d: Seq<DiagView> = if b.closed {
                        Seq::empty()
                    } else {
                        seq![DiagView::UnterminatedComment]
                    };
                    let out = spec_scan(b.rest);
                    assert((diags_view(d0) + d) + out.diags =~= diags_view(d0) + (d + out.diags));
                }
                return t;
            }
            if ch1 == '/' {
                self.skip_single_comments();
                proof {
                    lemma_skip_line_len(t0.drop_first().drop_first());
                }
                let t = self.get_a_token();
                proof {
                    let out = spec_scan(skip_line(t0.drop_first().drop_first()));
                    lemma_add_empty_diags(out.diags);
                }
                return t;
            }
            if ch1 == '=' {
                self.stream.next();
                proof {
                    lemma_add_empty_diags(diags_view(self.diags@));
                }
                return Token::Operator(String::from_str("/="));
            }
            proof {
                lemma_add_empty_diags(diags_view(self.diags@));
            }
            return Token::Operator(String::from_str("/"));
        }
        if ch == '+' {
            self.stream.next();
            let ch1 = self.stream.peek();
            proof {
                lemma_add_empty_diags(diags_view(self.diags@));
            }
            if ch1 == '+' {
                self.stream.next();
                return Token::Operator(String::from_str("++"));
            }
            if ch1 == '=' {
                self.stream.next();
                return Token::Operator(String::from_str("+="));
            }
            return Token::Operator(String::from_str("+"));
        }
        if ch == '-' {
            self.stream.next();
            let ch1 = self.stream.peek();
            proof {
                lemma_add_empty_diags(diags_view(self.diags@));
            }
            if ch1 == '-' {
                self.stream.next();
                return Token::Operator(String::from_str("--"));
            }
            if ch1 == '=' {
                self.stream.next();
                return Token::Operator(String::from_str("-="));
            }
            if ch1 == '>' {
                self.stream.next();
                return Token::Operator(String::from_str("->"));
            }
            return Token::Operator(String::from_str("-"));
        }
        if ch == '*' {
            self.stream.next();
            let ch1 = self.stream.peek();
            proof {
                lemma_add_empty_diags(diags_view(self.diags@));
            }
            if ch1 == '=' {
                self.stream.next();
                return Token::Operator(String::from_str("*="));
            }
            if ch1 == '*' {
                self.stream.next();
                return Token::Operator(String::from_str("**"));
            }
            return Token::Operator(String::from_str("*"));
        }
        if ch == '%' {
            self.stream.next();
            let ch1 = self.stream.peek();
            proof {
                lemma_add_empty_diags(diags_view(self.diags@));
            }
            if ch1 == '=' {
                self.stream.next();
                return Token::Operator(String::from_str("%="));
            }
            return Token::Operator(String::from_str("%"));
        }
        if ch == '>' {
            self.stream.next();
            let ch1 = self.stream.peek();
            proof {
                lemma_add_empty_diags(diags_view(self.diags@));
            }
            if ch1 == '=' {
                self.stream.next();
                return Token::Operator(String::from_str(">="));
            }
            if ch1 == '>' {
                self.stream.next();
                let ch2 = self.stream.peek();
                if ch2 == '=' {
                    self.stream.next();
                    return Token::Operator(String::from_str(">>="));
                }
                return Token::Operator(String::from_str(">>"));
            }
            return Token::Operator(String::from_str(">"));
        }
        if ch == '<' {
            self.stream.next();
            let ch1 = self.stream.peek();
            proof {
                lemma_add_empty_diags(diags_view(self.diags@));
            }
            if ch1 == '=' {
                self.stream.next();
                return Token::Operator(String::from_str("<="));
            }
            if ch1 == '<' {
                self.stream.next();
                let ch2 = self.stream.peek();
                if ch2 == '=' {
                    self.stream.next();
                    return Token::Operator(String::from_str("<<="));
                }
                return Token::Operator(String::from_str("<<"));
            }
            return Token::Operator(String::from_str("<"));
        }
        if ch == '=' {
            self.stream.next();
            let ch1 = self.stream.peek();
            proof {
                lemma_add_empty_diags(diags_view(self.diags@));
            }
            if ch1 == '=' {
                self.stream.next();
                return Token::Operator(String::from_str("=="));
            }
            return Token::Operator(String::from_str("="));
        }
        if ch == '!' {
            self.stream.next();
            let ch1 = self.stream.peek();
            proof {
                lemma_add_empty_diags(diags_view(self.diags@));
            }
            if ch1 == '=' {
                self.stream.next();
                return Token::Operator(String::from_str("!="));
            }
            return Token::Operator(String::from_str("!"));
        }
        if ch == '|' {
            self.stream.next();
            let ch1 = self.stream.peek();
            proof {
                lemma_add_empty_diags(diags_view(self.diags@));
            }
            if ch1 == '|' {
                self.stream.next();
                return Token::Operator(String::from_str("||"));
            }
            if ch1 == '=' {
                self.stream.next();
                return Token::Operator(String::from_str("|="));
            }
            return Token::Operator(String::from_str("|"));
        }
        if ch == '&' {
            self.stream.next();
            let ch1 = self.stream.peek();
            proof {
                lemma_add_empty_diags(diags_view(self.diags@));
            }
            if ch1 == '&' {
                self.stream.next();
                return Token::Operator(String::from_str("&&"));
            }
            if ch1 == '=' {
                self.stream.next();
                return Token::Operator(String::from_str("&="));
            }
            return Token::Operator(String::from_str("&"));
        }
        if ch == '^' {
            self.stream.next();
            let ch1 = self.stream.peek();
            proof {
                lemma_add_empty_diags(diags_view(self.diags@));
            }
            if ch1 == '=' {
                self.stream.next();
                return Token::Operator(String::from_str("^="));
            }
            return Token::Operator(String::from_str("^"));
        }
        if ch == '~' {
            self.stream.next();
            proof {
                lemma_add_empty_diags(diags_view(self.diags@));
            }
            return Token::Operator(String::from_str("~"));
        }
        self.diags.push(Diagnostic::UnrecognizedChar(ch));
        proof {
            lemma_diags_view_push(d0, Diagnostic::UnrecognizedChar(ch));
        }
        self.stream.next();
        let t = self.get_a_token();
        proof {
            let out = spec_scan(t0.drop_first());
            assert((diags_view(d0) + seq![DiagView::UnrecognizedChar(t0[0])]) + out.diags
                =~= diags_view(d0) + (seq![DiagView::UnrecognizedChar(t0[0])] + out.diags));
            assert(diags_view(d0).push(DiagView::UnrecognizedChar(t0[0])) =~= diags_view(d0)
                + seq![DiagView::UnrecognizedChar(t0[0])]);
        }
        t
    }
}

} // verus!

verus! {

impl Scanner {
    /// Extends wf-related facts of one scan to the buffered-token view.
    proof fn lemma_after_scan(self, prev: Scanner)
        requires
            prev.stream.wf(),
            self.stream.remaining() == spec_scan(prev.stream.remaining()).rest,
            diags_view(self.diags@) == diags_view(prev.diags@) + spec_scan(
                prev.stream.remaining(),
            ).diags,
        ensures
            ({
                let out = spec_scan(prev.stream.remaining());
                &&& (out.token is EndOfInput ==> spec_tokens(prev.stream.remaining())
                    == Seq::<TokenView>::empty() && spec_tokens(self.stream.remaining())
                    == Seq::<TokenView>::empty() && spec_all_diags(self.stream.remaining())
                    == Seq::<DiagView>::empty())
                &&& (!(out.token is EndOfInput) ==> spec_tokens(prev.stream.remaining())
                    == seq![out.token] + spec_tokens(self.stream.remaining()))
                &&& diags_view(self.diags@) + spec_all_diags(self.stream.remaining())
                    == diags_view(prev.diags@) + spec_all_diags(prev.stream.remaining())
            }),
    {
        let out = spec_scan(prev.stream.remaining());
        lemma_spec_scan_props(prev.stream.remaining());
        if out.token is EndOfInput {
            lemma_scan_at_end(out.rest);
            assert(spec_all_diags(prev.stream.remaining()) == out.diags);
            assert((diags_view(prev.diags@) + out.diags) + Seq::<DiagView>::empty() =~= diags_view(
            prev.diags@) + out.diags);
        } else {
            assert(spec_all_diags(prev.stream.remaining()) == out.diags + spec_all_diags(
                out.rest,
            ));
            assert((diags_view(prev.diags@) + out.diags) + spec_all_diags(out.rest) =~= diags_view(
            prev.diags@) + (out.diags + spec_all_diags(out.rest)));
        }
    }

    /// Returns the current token and moves past it; at the end of the token
    /// stream it returns the end-of-input marker and changes nothing.
    pub fn next(&mut self) -> (t: Token)
        requires
            old(self).wf(),
        ensures
            final(self).wf(),
            final(self).committed_diags() == old(self).committed_diags(),
            old(self).toks().len() > 0 ==> t@ == old(self).toks()[0] && final(self).toks() == old(
                self,
            ).toks().drop_first(),
            old(self).toks().len() == 0 ==> t@ is EndOfInput && final(self).toks()
                == Seq::<TokenView>::empty(),
    {
        match &self.tok0 {
            Some(t) => {
                let f = t.clone();
                let n1 = match &self.tok1 {
                    Some(u) => Some(u.clone()),
                    None => None,
                };
                self.tok0 = n1;
                self.tok1 = None;
                proof {
                    if old(self).toks().len() > 0 {
                        assert(final(self).toks() =~= old(self).toks().drop_first());
                    } else {
                        assert(final(self).toks() =~= Seq::<TokenView>::empty());
                    }
                }
                f
            },
            None => {
                let ghost prev = *self;
                let t = self.get_a_token();
                proof {
                    self.lemma_after_scan(prev);
                    let out = spec_scan(prev.stream.remaining());
                    if !(out.token is EndOfInput) {
                        assert(old(self).toks() =~= seq![out.token] + spec_tokens(
                            self.stream.remaining(),
                        ));
                        assert(final(self).toks() =~= old(self).toks().drop_first());
                    } else {
                        assert(final(self).toks() =~= Seq::<TokenView>::empty());
                        assert(old(self).toks() =~= Seq::<TokenView>::empty());
                    }
                }
                t
            },
        }
    }

    /// Reports the first upcoming token without consuming it; at the end of
    /// the token stream it reports the end-of-input marker.
    pub fn peek(&mut self) -> (t: Token)
        requires
            old(self).wf(),
        ensures
            final(self).wf(),
            final(self).toks() == old(self).toks(),
            final(self).committed_diags() == old(self).committed_diags(),
            old(self).toks().len() > 0 ==> t@ == old(self).toks()[0],
            old(self).toks().len() == 0 ==> t@ is EndOfInput,
    {
        match &self.tok0 {
            Some(t) => t.clone(),
            None => {
                let ghost prev = *self;
                let t = self.get_a_token();
                let t2 = t.clone();
                self.tok0 = Some(t);
                proof {
                    self.lemma_after_scan(prev);
                    let out = spec_scan(prev.stream.remaining());
                    if !(out.token is EndOfInput) {
                        assert(old(self).toks() =~= seq![out.token] + spec_tokens(
                            self.stream.remaining(),
                        ));
                        assert(final(self).toks() =~= old(self).toks());
                    } else {
                        assert(final(self).toks() =~= old(self).toks());
                    }
                }
                t2
            },
        }
    }

    /// Reports the second upcoming token without consuming anything; where
    /// fewer than two tokens remain it reports the end-of-input marker.
    pub fn peek2(&mut self) -> (t: Token)
        requires
            old(self).wf(),
        ensures
            final(self).wf(),
            final(self).toks() == old(self).toks(),
            final(self).committed_diags() == old(self).committed_diags(),
            old(self).toks().len() > 1 ==> t@ == old(self).toks()[1],
            old(self).toks().len() <= 1 ==> t@ is EndOfInput,
    {
        match &self.tok1 {
            Some(t) => {
                proof {
                    assert(old(self).toks().len() > 1 ==> t@ == old(self).toks()[1]);
                }
                t.clone()
            },
            None => {
                if self.tok0.is_none() {
                    let ghost prev = *self;
                    let t0 = self.get_a_token();
                    self.tok0 = Some(t0);
                    proof {
                        self.lemma_after_scan(prev);
                        let out = spec_scan(prev.stream.remaining());
                        if !(out.token is EndOfInput) {
                            assert(old(self).toks() =~= seq![out.token] + spec_tokens(
                                self.stream.remaining(),
                            ));
                        }
                        assert(self.toks() =~= old(self).toks());
                        assert(self.committed_diags() =~= old(self).committed_diags());
                    }
                }
                let ghost mid = *self;
                let t = self.get_a_token();
                let t2 = t.clone();
                self.tok1 = Some(t);
                proof {
                    self.lemma_after_scan(mid);
                    let out = spec_scan(mid.stream.remaining());
                    if !(out.token is EndOfInput) {
                        assert(mid.toks() =~= mid.buffered() + (seq![out.token] + spec_tokens(
                            self.stream.remaining(),
                        )));
                    }
                    assert(final(self).toks() =~= mid.toks());
                    assert(final(self).toks() =~= old(self).toks());
                }
                t2
            },
        }
    }
}

} // verus!

verus! {

/// The token stream of an input never contains the end-of-input marker.
pub proof fn lemma_spec_tokens_no_eof(s: Seq<char>)
    ensures
        forall|i: int|
            0 <= i < spec_tokens(s).len() ==> !(#[trigger] spec_tokens(s)[i] is EndOfInput),
    decreases s.len(),
{
    let out = spec_scan(s);
    if !(out.token is EndOfInput) {
        lemma_spec_scan_props(s);
        lemma_spec_tokens_no_eof(out.rest);
        assert forall|i: int|
            0 <= i < spec_tokens(s).len() implies !(#[trigger] spec_tokens(s)[i]
            is EndOfInput) by {
            if i > 0 {
                assert(spec_tokens(s)[i] == spec_tokens(out.rest)[i - 1]);
            }
        }
    }
}

/// No upcoming token of a sound scanner is the end-of-input marker.
pub proof fn lemma_toks_no_eof(sc: Scanner)
    ensures
        forall|i: int| 0 <= i < sc.toks().len() ==> !(#[trigger] sc.toks()[i] is EndOfInput),
{
    lemma_spec_tokens_no_eof(sc.stream.remaining());
    let b = sc.buffered();
    assert forall|i: int| 0 <= i < sc.toks().len() implies !(#[trigger] sc.toks()[i]
        is EndOfInput) by {
        if i < b.len() {
            assert(sc.toks()[i] == b[i]);
        } else {
            assert(sc.toks()[i] == spec_tokens(sc.stream.remaining())[i - b.len()]);
        }
    }
}

} // verus!
