use vstd::prelude::*;
use vstd::utf8::decode_utf8;

use crate::frontend::lexer::pos::FileView;
use crate::frontend::lexer::token::{keyword_or_identifier, Tok};
use crate::frontend::lexer::unicode::{
    char_is_alphabetic, char_is_numeric, char_is_whitespace, hex_value, is_digit_byte,
    is_digit_char, lemma_width, rune_at, width_at, BOM, REPLACEMENT,
};

verus! {

/// The errors that the lexer reports, each with the message it passes to the error callback.
#[derive(Debug, Clone, Copy, PartialEq, Eq, Structural)]
pub enum LexError {
    NullCharacter,
    IllegalCharacter,
    UnexpectedBom,
    InvalidEllipsis,
    UnexpectedCharacter,
    NoDigitsAfterBase,
    NoDigitsAfterExponent,
    UnterminatedEscape,
    UnknownEscape,
    IllegalEscape,
    UnterminatedString,
    UnterminatedChar,
    EmptyChar,
    CharTooWide,
}

impl LexError {
    /// The message of the error.
    pub open spec fn text(self) -> Seq<char> {
        match self {
            LexError::NullCharacter => "unexpected null character"@,
            LexError::IllegalCharacter => "illegal unicode character in lexer stream"@,
            LexError::UnexpectedBom => "unexpected UTF_8 BOM"@,
            LexError::InvalidEllipsis => "invalid ellipsis mark"@,
            LexError::UnexpectedCharacter => "unexpected unicode character"@,
            LexError::NoDigitsAfterBase => "no digits after base specifier"@,
            LexError::NoDigitsAfterExponent => "no digits after exponent"@,
            LexError::UnterminatedEscape => "unterminated escape sequence"@,
            LexError::UnknownEscape => "unknown escape sequence"@,
            LexError::IllegalEscape => "illegal unicode escape sequence"@,
            LexError::UnterminatedString => "unterminated string literal"@,
            LexError::UnterminatedChar => "unterminated char literal"@,
            LexError::EmptyChar => "empty char literal"@,
            LexError::CharTooWide => "char literal too wide"@,
        }
    }

    /// The message of the error.
    pub fn message(&self) -> (r: &'static str)
        ensures
            r@ == self.text(),
    {
        match self {
            LexError::NullCharacter => "unexpected null character",
            LexError::IllegalCharacter => "illegal unicode character in lexer stream",
            LexError::UnexpectedBom => "unexpected UTF_8 BOM",
            LexError::InvalidEllipsis => "invalid ellipsis mark",
            LexError::UnexpectedCharacter => "unexpected unicode character",
            LexError::NoDigitsAfterBase => "no digits after base specifier",
            LexError::NoDigitsAfterExponent => "no digits after exponent",
            LexError::UnterminatedEscape => "unterminated escape sequence",
            LexError::UnknownEscape => "unknown escape sequence",
            LexError::IllegalEscape => "illegal unicode escape sequence",
            LexError::UnterminatedString => "unterminated string literal",
            LexError::UnterminatedChar => "unterminated char literal",
            LexError::EmptyChar => "empty char literal",
            LexError::CharTooWide => "char literal too wide",
        }
    }
}

/// A reported error: what went wrong, and the byte offset in the file that it is reported at.
pub type Report = (LexError, int);

/// The character at byte `p` of `src`, or `None` at and past the end.
pub open spec fn char_at(src: Seq<u8>, p: int) -> Option<char> {
    if 0 <= p < src.len() {
        Some(rune_at(src, p))
    } else {
        None
    }
}

/// The offset of the character after the one at `p`; the end stays the end.
pub open spec fn next_pos(src: Seq<u8>, p: int) -> int {
    if 0 <= p < src.len() {
        p + width_at(src, p)
    } else {
        src.len() as int
    }
}

/// The byte after the character at `p`, or 0 when there is none.
pub open spec fn peek_byte(src: Seq<u8>, p: int) -> u8 {
    let r = next_pos(src, p);
    if 0 <= r < src.len() {
        src[r]
    } else {
        0
    }
}

/// The errors reported on reading the character at `n`: a NUL character, bytes that are not
/// UTF-8, or a byte order mark after the first byte.
pub open spec fn read_errors(src: Seq<u8>, n: int) -> Seq<Report> {
    if 0 <= n < src.len() {
        let c = rune_at(src, n);
        if c == '\0' {
            seq![(LexError::NullCharacter, n)]
        } else if c == REPLACEMENT && width_at(src, n) == 1 {
            seq![(LexError::IllegalCharacter, n)]
        } else if c == BOM && n > 0 {
            seq![(LexError::UnexpectedBom, n)]
        } else {
            seq![]
        }
    } else {
        seq![]
    }
}

/// The offset of the first character at or after `p` that `pred` rejects, or the end.
pub open spec fn skip_while(src: Seq<u8>, p: int, pred: spec_fn(char) -> bool) -> int
    decreases src.len() - p,
{
    if 0 <= p < src.len() && pred(rune_at(src, p)) {
        proof {
            lemma_width(src, p);
        }
        skip_while(src, next_pos(src, p), pred)
    } else {
        p
    }
}

/// The errors reported on reading the characters after `p` up to `q`.
pub open spec fn run_errors(src: Seq<u8>, p: int, q: int) -> Seq<Report>
    decreases src.len() - p,
{
    if 0 <= p < q && p < src.len() {
        proof {
            lemma_width(src, p);
        }
        read_errors(src, next_pos(src, p)) + run_errors(src, next_pos(src, p), q)
    } else {
        seq![]
    }
}

/// The line table of `f` after the bytes from `p` up to `q` are read: each newline byte at
/// offset `i` records a line starting at `i + 1`.
pub open spec fn nl_lines(f: FileView, src: Seq<u8>, p: int, q: int) -> FileView
    decreases q - p,
{
    if 0 <= p < q && p < src.len() {
        let g = if src[p] == 10 {
            f.with_line((p + 1) as usize)
        } else {
            f
        };
        nl_lines(g, src, p + 1, q)
    } else {
        f
    }
}

/// Characters that whitespace skipping passes.
pub open spec fn ws_pred() -> spec_fn(char) -> bool {
    |c: char| char_is_whitespace(c)
}

/// Characters that continue an identifier.
pub open spec fn ident_pred() -> spec_fn(char) -> bool {
    |c: char| char_is_alphabetic(c) || char_is_numeric(c)
}

/// Characters that continue a comment.
pub open spec fn comment_pred() -> spec_fn(char) -> bool {
    |c: char| c != '\n'
}

/// Characters that continue a digit sequence in `base`: digits of the base and `_`.
pub open spec fn digit_pred(base: u32) -> spec_fn(char) -> bool {
    |c: char| c == '_' || hex_value(c) < base
}

/// The base that a number at `p` is written in: 2, 8 or 16 after `0b`, `0o` or `0x` (either
/// case), 10 otherwise.
pub open spec fn number_base(src: Seq<u8>, p: int) -> u32 {
    let b = peek_byte(src, p);
    if char_at(src, p) == Some('0') && (b == 98 || b == 66) {
        2
    } else if char_at(src, p) == Some('0') && (b == 111 || b == 79) {
        8
    } else if char_at(src, p) == Some('0') && (b == 120 || b == 88) {
        16
    } else {
        10
    }
}

/// Where the digits of a number at `p` start: after the two characters of a base prefix.
pub open spec fn number_digits_start(src: Seq<u8>, p: int) -> int {
    if number_base(src, p) != 10 {
        next_pos(src, next_pos(src, p))
    } else {
        p
    }
}

/// True when a base prefix is not followed by a character and then a hexadecimal digit.
pub open spec fn number_missing_digits(src: Seq<u8>, p: int) -> bool {
    number_base(src, p) != 10 && hex_value(peek_byte(src, number_digits_start(src, p)) as char)
        == 16
}

/// The end of the integer digits of a number at `p`.
pub open spec fn number_int_end(src: Seq<u8>, p: int) -> int {
    skip_while(src, number_digits_start(src, p), digit_pred(number_base(src, p)))
}

/// True when a decimal number at `p` has a fraction.
pub open spec fn number_has_fraction(src: Seq<u8>, p: int) -> bool {
    char_at(src, number_int_end(src, p)) == Some('.') && number_base(src, p) == 10
}

/// The end of the digits and fraction of a number at `p`.
pub open spec fn number_mantissa_end(src: Seq<u8>, p: int) -> int {
    if number_has_fraction(src, p) {
        skip_while(src, next_pos(src, number_int_end(src, p)), digit_pred(number_base(src, p)))
    } else {
        number_int_end(src, p)
    }
}

/// True when a number at `p` has an exponent.
pub open spec fn number_has_exponent(src: Seq<u8>, p: int) -> bool {
    let q = number_mantissa_end(src, p);
    char_at(src, q) == Some('e') || char_at(src, q) == Some('E')
}

/// True when the exponent of a number at `p` has a sign.
pub open spec fn number_exponent_signed(src: Seq<u8>, p: int) -> bool {
    let q = next_pos(src, number_mantissa_end(src, p));
    char_at(src, q) == Some('-') || char_at(src, q) == Some('+')
}

/// Where the exponent digits of a number at `p` start.
pub open spec fn number_exponent_digits_start(src: Seq<u8>, p: int) -> int {
    let q = next_pos(src, number_mantissa_end(src, p));
    if number_exponent_signed(src, p) {
        next_pos(src, q)
    } else {
        q
    }
}

/// A number literal at `p`: its kind, its end, and the error that it ends with, if any.
///
/// A prefix `0b`, `0o` or `0x` (either case) sets the base; it must be followed by a
/// character that is followed by a hexadecimal digit. Then come digits of the base and `_`,
/// a fraction (base 10 only), and an exponent `e`/`E` with an optional sign and decimal
/// digits.
pub open spec fn number_scan(src: Seq<u8>, p: int) -> (Tok, int, Seq<Report>) {
    if number_missing_digits(src, p) {
        (Tok::IntegerLiteral, number_digits_start(src, p), seq![(LexError::NoDigitsAfterBase, p)])
    } else if number_has_exponent(src, p) {
        let q4 = number_exponent_digits_start(src, p);
        let q5 = skip_while(src, q4, digit_pred(10));
        (
            Tok::RealLiteral,
            q5,
            if q5 == q4 {
                seq![(LexError::NoDigitsAfterExponent, q4)]
            } else {
                seq![]
            },
        )
    } else {
        (if number_has_fraction(src, p) {
            Tok::RealLiteral
        } else {
            Tok::IntegerLiteral
        }, number_mantissa_end(src, p), seq![])
    }
}

/// The rest of a numeric escape from `q`: `n` more digits in `base` accumulate into `x`, and
/// the value must not exceed `max` nor be a surrogate; `start` is where the escape began.
/// The result tells whether the escape is valid, where it ends, and what it reports.
pub open spec fn escape_digits(
    src: Seq<u8>,
    start: int,
    q: int,
    n: nat,
    base: int,
    max: int,
    x: int,
) -> (bool, int, Seq<Report>)
    decreases n,
{
    if n == 0 {
        if x > max || (0xD800 <= x < 0xE000) {
            (false, q, seq![(LexError::IllegalEscape, start)])
        } else {
            (true, q, seq![])
        }
    } else {
        match char_at(src, q) {
            None => (false, q, seq![(LexError::UnterminatedEscape, q)]),
            Some(ch) => {
                let d = hex_value(ch) as int;
                if d >= base {
                    (false, q, seq![(LexError::IllegalEscape, q)])
                } else {
                    let nq = next_pos(src, q);
                    let r = escape_digits(src, start, nq, (n - 1) as nat, base, max, x * base + d);
                    (r.0, r.1, read_errors(src, nq) + r.2)
                }
            },
        }
    }
}

/// An escape sequence whose backslash came just before `p`, inside a literal closed by
/// `quote`: whether it is valid, where it ends, and what it reports.
pub open spec fn escape_scan(src: Seq<u8>, p: int, quote: char) -> (bool, int, Seq<Report>) {
    match char_at(src, p) {
        None => (false, p, seq![(LexError::UnterminatedEscape, p)]),
        Some(c) => {
            let n = next_pos(src, p);
            if c == 'a' || c == 'b' || c == 'f' || c == 'n' || c == 'r' || c == 't' || c == 'v'
                || c == '\\' || c == quote {
                (true, n, read_errors(src, n))
            } else if '0' <= c <= '7' {
                escape_digits(src, p, p, 3, 8, 255, 0)
            } else if c == 'x' || c == 'u' || c == 'U' {
                let r = if c == 'x' {
                    escape_digits(src, p, n, 2, 16, 255, 0)
                } else if c == 'u' {
                    escape_digits(src, p, n, 4, 16, 0x10FFFF, 0)
                } else {
                    escape_digits(src, p, n, 8, 16, 0x10FFFF, 0)
                };
                (r.0, r.1, read_errors(src, n) + r.2)
            } else {
                (false, p, seq![(LexError::UnknownEscape, p)])
            }
        },
    }
}

/// The body of a string literal from `q`, whose opening quote is at `start`: where it ends
/// and what it reports.
pub open spec fn string_scan(src: Seq<u8>, q: int, start: int) -> (int, Seq<Report>)
    decreases src.len() - q,
{
    match char_at(src, q) {
        None => (q, seq![(LexError::UnterminatedString, start)]),
        Some(ch) => {
            if ch == '\n' {
                (q, seq![(LexError::UnterminatedString, start)])
            } else {
                proof {
                    lemma_width(src, q);
                }
                let n = next_pos(src, q);
                let e1 = read_errors(src, n);
                if ch == '"' {
                    (n, e1)
                } else if ch == '\\' {
                    let esc = escape_scan(src, n, '"');
                    proof {
                        lemma_escape_scan(src, n, '"');
                    }
                    let rest = string_scan(src, esc.1, start);
                    (rest.0, e1 + esc.2 + rest.1)
                } else {
                    let rest = string_scan(src, n, start);
                    (rest.0, e1 + rest.1)
                }
            }
        },
    }
}

/// The body of a char literal from `q`, whose opening quote is at `start`, after `n`
/// characters, the last escape having been `valid`: where it ends and what it reports.
pub open spec fn char_scan(src: Seq<u8>, q: int, start: int, valid: bool, n: int) -> (
    int,
    Seq<Report>,
)
    decreases src.len() - q,
{
    let unterminated = (
        q,
        if valid {
            seq![(LexError::UnterminatedChar, start)]
        } else {
            seq![]
        },
    );
    match char_at(src, q) {
        None => unterminated,
        Some(ch) => {
            if ch == '\n' {
                unterminated
            } else {
                proof {
                    lemma_width(src, q);
                }
                let nx = next_pos(src, q);
                let e1 = read_errors(src, nx);
                if ch == '\'' {
                    (
                        nx,
                        e1 + if n == 0 {
                            seq![(LexError::EmptyChar, start)]
                        } else if valid && n != 1 {
                            seq![(LexError::CharTooWide, start)]
                        } else {
                            seq![]
                        },
                    )
                } else if ch == '\\' {
                    let esc = escape_scan(src, nx, '\'');
                    proof {
                        lemma_escape_scan(src, nx, '\'');
                    }
                    let rest = char_scan(src, esc.1, start, esc.0, n + 1);
                    (rest.0, e1 + esc.2 + rest.1)
                } else {
                    let rest = char_scan(src, nx, start, valid, n + 1);
                    (rest.0, e1 + rest.1)
                }
            }
        },
    }
}

/// The operator or punctuation `c` at `w`, the character after it being at `n`: its token,
/// its end, and the error it reports besides those of reading; `Tok::Invalid` for any other
/// character.
pub open spec fn punct_scan(src: Seq<u8>, c: char, w: int, n: int) -> (Tok, int, Seq<Report>) {
    let n2 = next_pos(src, n);
    let n3 = next_pos(src, n2);
    let after = char_at(src, n);
    let none = Seq::<Report>::empty();
    let with_eq = |t1: Tok, t2: Tok|
        if after == Some('=') {
            (t2, n2, none)
        } else {
            (t1, n, none)
        };
    if c == '?' {
        (Tok::Question, n, none)
    } else if c == '(' {
        (Tok::LeftParen, n, none)
    } else if c == ')' {
        (Tok::RightParen, n, none)
    } else if c == '[' {
        (Tok::LeftBracket, n, none)
    } else if c == ']' {
        (Tok::RightBracket, n, none)
    } else if c == '{' {
        (Tok::LeftBrace, n, none)
    } else if c == '}' {
        (Tok::RightBrace, n, none)
    } else if c == ',' {
        (Tok::Comma, n, none)
    } else if c == ';' {
        (Tok::Semicolon, n, none)
    } else if c == ':' {
        (Tok::Colon, n, none)
    } else if c == '=' {
        with_eq(Tok::Assign, Tok::Equals)
    } else if c == '+' {
        with_eq(Tok::Plus, Tok::PlusEq)
    } else if c == '*' {
        with_eq(Tok::Star, Tok::StarEq)
    } else if c == '/' {
        with_eq(Tok::Slash, Tok::SlashEq)
    } else if c == '%' {
        with_eq(Tok::Percent, Tok::PercentEq)
    } else if c == '!' {
        with_eq(Tok::Bang, Tok::BangEq)
    } else if c == '^' {
        with_eq(Tok::Xor, Tok::XorEq)
    } else if c == '-' {
        with_eq(Tok::Minus, Tok::MinusEq)
    } else if c == '>' {
        if after == Some('>') {
            if char_at(src, n2) == Some('=') {
                (Tok::RshiftEq, n3, none)
            } else {
                (Tok::RightShift, n2, none)
            }
        } else if after == Some('=') {
            (Tok::GreaterEq, n2, none)
        } else {
            (Tok::Greater, n, none)
        }
    } else if c == '<' {
        if after == Some('<') {
            if char_at(src, n2) == Some('=') {
                (Tok::LshiftEq, n3, none)
            } else {
                (Tok::LeftShift, n2, none)
            }
        } else if after == Some('=') {
            (Tok::LessEq, n2, none)
        } else {
            (Tok::Less, n, none)
        }
    } else if c == '&' {
        if after == Some('=') {
            (Tok::AndEq, n2, none)
        } else if after == Some('&') {
            (Tok::And, n2, none)
        } else {
            (Tok::Ampersand, n, none)
        }
    } else if c == '|' {
        if after == Some('=') {
            (Tok::OrEq, n2, none)
        } else if after == Some('|') {
            (Tok::Or, n2, none)
        } else {
            (Tok::Pipe, n, none)
        }
    } else if c == '.' {
        if after == Some('.') {
            if char_at(src, n2) == Some('.') {
                (Tok::DotDotDot, n3, none)
            } else {
                (Tok::Dot, n2, seq![(LexError::InvalidEllipsis, w)])
            }
        } else {
            (Tok::Dot, n, none)
        }
    } else {
        (
            Tok::Invalid,
            n,
            if c != BOM {
                seq![(LexError::UnexpectedCharacter, w)]
            } else {
                none
            },
        )
    }
}

/// The literal text of a token: given text, or the source bytes from `.0` up to `.1`.
pub enum Lit {
    Text(Seq<char>),
    Source(int, int),
}

/// The outcome of one scan: the token, its literal, the offset where it starts, the offset
/// where the lexer stops, and the errors reported on the way.
pub struct TokenScan {
    pub tok: Tok,
    pub lit: Lit,
    pub pos: int,
    pub end: int,
    pub errs: Seq<Report>,
}

/// True when `c` starts an identifier.
pub open spec fn starts_ident(c: char) -> bool {
    c == '_' || char_is_alphabetic(c)
}

/// True when `c` at `w` starts a number: a digit, or a `.` before a digit.
pub open spec fn starts_number(src: Seq<u8>, c: char, w: int) -> bool {
    is_digit_char(c) || (c == '.' && is_digit_byte(peek_byte(src, w)))
}

#[verifier::opaque]
/// One scan from `p`: whitespace is skipped, then one token is read. Comments are tokens
/// when `parse_comment` holds and are skipped otherwise.
pub open spec fn scan_spec(src: Seq<u8>, parse_comment: bool, p: int) -> TokenScan
    decreases src.len() - p,
{
    let w = skip_while(src, p, ws_pred());
    let e0 = run_errors(src, p, w);
    match char_at(src, w) {
        None => TokenScan { tok: Tok::Eof, lit: Lit::Text(Tok::Eof.spelling()), pos: w, end: w, errs: e0 },
        Some(c) => {
            if starts_ident(c) {
                let e = skip_while(src, w, ident_pred());
                TokenScan {
                    tok: keyword_or_identifier(decode_utf8(src.subrange(w, e))),
                    lit: Lit::Source(w, e),
                    pos: w,
                    end: e,
                    errs: e0 + run_errors(src, w, e),
                }
            } else if starts_number(src, c, w) {
                let (t, e, extra) = number_scan(src, w);
                TokenScan {
                    tok: t,
                    lit: Lit::Source(w, e),
                    pos: w,
                    end: e,
                    errs: e0 + run_errors(src, w, e) + extra,
                }
            } else {
                proof {
                    lemma_skip_while(src, p, ws_pred());
                    lemma_width(src, w);
                }
                let n = next_pos(src, w);
                let e1 = read_errors(src, n);
                if c == '"' {
                    let (e, es) = string_scan(src, n, w);
                    TokenScan {
                        tok: Tok::StringLiteral,
                        lit: Lit::Source(w, e),
                        pos: w,
                        end: e,
                        errs: e0 + e1 + es,
                    }
                } else if c == '\'' {
                    let (e, es) = char_scan(src, n, w, true, 0);
                    TokenScan {
                        tok: Tok::CharLiteral,
                        lit: Lit::Source(w, e),
                        pos: w,
                        end: e,
                        errs: e0 + e1 + es,
                    }
                } else if c == '#' {
                    let ce = skip_while(src, n, comment_pred());
                    proof {
                        lemma_skip_while(src, n, comment_pred());
                    }
                    if parse_comment {
                        TokenScan {
                            tok: Tok::Comment,
                            lit: Lit::Source(w, ce),
                            pos: w,
                            end: ce,
                            errs: e0 + e1 + run_errors(src, n, ce),
                        }
                    } else {
                        let rest = scan_spec(src, parse_comment, ce);
                        TokenScan { errs: e0 + e1 + run_errors(src, n, ce) + rest.errs, ..rest }
                    }
                } else {
                    let (t, e, extra) = punct_scan(src, c, w, n);
                    TokenScan {
                        tok: t,
                        lit: if t == Tok::Invalid {
                            Lit::Text(seq![c])
                        } else {
                            Lit::Text(t.spelling())
                        },
                        pos: w,
                        end: e,
                        errs: e0 + e1 + run_errors(src, n, e) + extra,
                    }
                }
            }
        },
    }
}

/// A literal read from the source is valid UTF-8; a spelled one always is.
pub open spec fn lit_valid(src: Seq<u8>, lit: Lit) -> bool {
    match lit {
        Lit::Text(_) => true,
        Lit::Source(a, b) => vstd::utf8::valid_utf8(src.subrange(a, b)),
    }
}

/// The text of a literal.
pub open spec fn lit_text(src: Seq<u8>, lit: Lit) -> Seq<char> {
    match lit {
        Lit::Text(t) => t,
        Lit::Source(a, b) => decode_utf8(src.subrange(a, b)),
    }
}

#[verifier::opaque]
/// True when the scan from `p` reads only literals whose source bytes are valid UTF-8,
/// comments that it skips included.
pub open spec fn scan_safe(src: Seq<u8>, parse_comment: bool, p: int) -> bool
    decreases src.len() - p,
{
    let w = skip_while(src, p, ws_pred());
    if !parse_comment && char_at(src, w) == Some('#') && !starts_ident('#') {
        proof {
            lemma_skip_while(src, p, ws_pred());
            lemma_width(src, w);
            lemma_skip_while(src, next_pos(src, w), comment_pred());
        }
        let ce = skip_while(src, next_pos(src, w), comment_pred());
        vstd::utf8::valid_utf8(src.subrange(w, ce)) && scan_safe(src, parse_comment, ce)
    } else {
        match scan_spec(src, parse_comment, p).lit {
            Lit::Source(a, b) => vstd::utf8::valid_utf8(src.subrange(a, b)),
            Lit::Text(_) => true,
        }
    }
}

/// Skipping stays between the start and the end of the source, and stops at a character
/// that the predicate rejects.
pub proof fn lemma_skip_while(src: Seq<u8>, p: int, pred: spec_fn(char) -> bool)
    requires
        0 <= p <= src.len(),
    ensures
        p <= skip_while(src, p, pred) <= src.len(),
        skip_while(src, p, pred) < src.len() ==> !pred(
            rune_at(src, skip_while(src, p, pred)),
        ),
    decreases src.len() - p,
{
    if 0 <= p < src.len() && pred(rune_at(src, p)) {
        lemma_width(src, p);
        lemma_skip_while(src, next_pos(src, p), pred);
    }
}

/// The digits of a numeric escape end between `q` and the end of the source.
pub proof fn lemma_escape_digits(
    src: Seq<u8>,
    start: int,
    q: int,
    n: nat,
    base: int,
    max: int,
    x: int,
)
    requires
        0 <= q <= src.len(),
    ensures
        q <= escape_digits(src, start, q, n, base, max, x).1 <= src.len(),
    decreases n,
{
    if n > 0 {
        if let Some(ch) = char_at(src, q) {
            let d = hex_value(ch) as int;
            if d < base {
                lemma_width(src, q);
                lemma_escape_digits(src, start, next_pos(src, q), (n - 1) as nat, base, max, x * base + d);
            }
        }
    }
}

/// An escape ends between its start and the end of the source.
pub proof fn lemma_escape_scan(src: Seq<u8>, p: int, quote: char)
    requires
        0 <= p <= src.len(),
    ensures
        p <= escape_scan(src, p, quote).1 <= src.len(),
{
    if let Some(c) = char_at(src, p) {
        lemma_width(src, p);
        let n = next_pos(src, p);
        lemma_escape_digits(src, p, p, 3, 8, 255, 0);
        lemma_escape_digits(src, p, n, 2, 16, 255, 0);
        lemma_escape_digits(src, p, n, 4, 16, 0x10FFFF, 0);
        lemma_escape_digits(src, p, n, 8, 16, 0x10FFFF, 0);
    }
}

/// The points that a number literal passes lie in order between its start and its end,
/// and it ends after its start and at or before the end of the source.
pub proof fn lemma_number_scan(src: Seq<u8>, p: int)
    requires
        0 <= p < src.len(),
        is_digit_char(rune_at(src, p)) || (rune_at(src, p) == '.' && is_digit_byte(
            peek_byte(src, p),
        )),
    ensures
        ({
            let end = number_scan(src, p).1;
            let p2 = number_digits_start(src, p);
            let q1 = number_int_end(src, p);
            let q2 = number_mantissa_end(src, p);
            let q3 = next_pos(src, q2);
            let q4 = number_exponent_digits_start(src, p);
            &&& p < end <= src.len()
            &&& number_base(src, p) != 10 ==> p < next_pos(src, p) <= p2 <= end
            &&& number_base(src, p) == 10 ==> p2 == p
            &&& !number_missing_digits(src, p) ==> p2 <= q1 <= q2 <= end
            &&& !number_missing_digits(src, p) && number_has_fraction(src, p) ==> q1 < next_pos(
                src,
                q1,
            ) <= q2
            &&& !number_missing_digits(src, p) && number_has_exponent(src, p) ==> q2 < q3 <= q4
                <= end
            &&& !number_missing_digits(src, p) && number_has_exponent(src, p)
                && number_exponent_signed(src, p) ==> q3 < next_pos(src, q3) == q4
        }),
{
    let base = number_base(src, p);
    lemma_width(src, p);
    let a = next_pos(src, p);
    if base != 10 && a < src.len() {
        lemma_width(src, a);
    }
    let p2 = number_digits_start(src, p);
    lemma_skip_while(src, p2, digit_pred(base));
    let q1 = number_int_end(src, p);
    if number_has_fraction(src, p) {
        lemma_width(src, q1);
        lemma_skip_while(src, next_pos(src, q1), digit_pred(base));
    }
    let q2 = number_mantissa_end(src, p);
    if number_has_exponent(src, p) {
        lemma_width(src, q2);
        let q3 = next_pos(src, q2);
        if number_exponent_signed(src, p) {
            lemma_width(src, q3);
        }
        lemma_skip_while(src, number_exponent_digits_start(src, p), digit_pred(10));
    }
    if base == 10 && is_digit_char(rune_at(src, p)) {
        assert(hex_value(rune_at(src, p)) < 10);
    }
}

/// A string literal body ends between its start and the end of the source.
pub proof fn lemma_string_scan(src: Seq<u8>, q: int, start: int)
    requires
        0 <= q <= src.len(),
    ensures
        q <= string_scan(src, q, start).0 <= src.len(),
    decreases src.len() - q,
{
    if let Some(ch) = char_at(src, q) {
        if ch != '\n' {
            lemma_width(src, q);
            let n = next_pos(src, q);
            if ch == '\\' {
                lemma_escape_scan(src, n, '"');
                lemma_string_scan(src, escape_scan(src, n, '"').1, start);
            } else if ch != '"' {
                lemma_string_scan(src, n, start);
            }
        }
    }
}

/// A char literal body ends between its start and the end of the source.
pub proof fn lemma_char_scan(src: Seq<u8>, q: int, start: int, valid: bool, n: int)
    requires
        0 <= q <= src.len(),
    ensures
        q <= char_scan(src, q, start, valid, n).0 <= src.len(),
    decreases src.len() - q,
{
    if let Some(ch) = char_at(src, q) {
        if ch != '\n' {
            lemma_width(src, q);
            let nx = next_pos(src, q);
            if ch == '\\' {
                lemma_escape_scan(src, nx, '\'');
                let esc = escape_scan(src, nx, '\'');
                lemma_char_scan(src, esc.1, start, esc.0, n + 1);
            } else if ch != '\'' {
                lemma_char_scan(src, nx, start, valid, n + 1);
            }
        }
    }
}

/// Moving on from a character stays inside the source and, before its end, moves forward.
pub proof fn lemma_next_pos(src: Seq<u8>, p: int)
    requires
        0 <= p <= src.len(),
    ensures
        p <= next_pos(src, p) <= src.len(),
        p < src.len() ==> p < next_pos(src, p),
{
    if p < src.len() {
        lemma_width(src, p);
    }
}

/// Reading one character reports at most one error.
pub proof fn lemma_read_errors(src: Seq<u8>, n: int)
    ensures
        read_errors(src, n).len() <= 1,
{
}

/// Reading from `p` up to `q` reports at most one error per byte.
pub proof fn lemma_run_errors_len(src: Seq<u8>, p: int, q: int)
    requires
        0 <= p,
    ensures
        run_errors(src, p, q).len() <= (if q > p {
            q - p
        } else {
            0
        }),
    decreases src.len() - p,
{
    if 0 <= p < q && p < src.len() {
        lemma_width(src, p);
        lemma_run_errors_len(src, next_pos(src, p), q);
    }
}

/// The digits of a numeric escape report at most one error per byte, plus one.
pub proof fn lemma_escape_digits_errors(
    src: Seq<u8>,
    start: int,
    q: int,
    n: nat,
    base: int,
    max: int,
    x: int,
)
    requires
        0 <= q <= src.len(),
    ensures
        escape_digits(src, start, q, n, base, max, x).2.len() <= escape_digits(
            src,
            start,
            q,
            n,
            base,
            max,
            x,
        ).1 - q + 1,
    decreases n,
{
    lemma_escape_digits(src, start, q, n, base, max, x);
    if n > 0 {
        if let Some(ch) = char_at(src, q) {
            let d = hex_value(ch) as int;
            if d < base {
                lemma_width(src, q);
                let nq = next_pos(src, q);
                lemma_escape_digits_errors(src, start, nq, (n - 1) as nat, base, max, x * base + d);
                lemma_read_errors(src, nq);
            }
        }
    }
}

/// An escape reports at most two errors per byte, plus one.
pub proof fn lemma_escape_errors(src: Seq<u8>, p: int, quote: char)
    requires
        0 <= p <= src.len(),
    ensures
        escape_scan(src, p, quote).2.len() <= 2 * (escape_scan(src, p, quote).1 - p) + 1,
{
    lemma_escape_scan(src, p, quote);
    if let Some(c) = char_at(src, p) {
        lemma_width(src, p);
        let n = next_pos(src, p);
        lemma_read_errors(src, n);
        lemma_escape_digits_errors(src, p, p, 3, 8, 255, 0);
        lemma_escape_digits_errors(src, p, n, 2, 16, 255, 0);
        lemma_escape_digits_errors(src, p, n, 4, 16, 0x10FFFF, 0);
        lemma_escape_digits_errors(src, p, n, 8, 16, 0x10FFFF, 0);
    }
}

/// A string literal body reports at most two errors per byte, plus one.
pub proof fn lemma_string_errors(src: Seq<u8>, q: int, start: int)
    requires
        0 <= q <= src.len(),
    ensures
        string_scan(src, q, start).1.len() <= 2 * (string_scan(src, q, start).0 - q) + 1,
    decreases src.len() - q,
{
    lemma_string_scan(src, q, start);
    if let Some(ch) = char_at(src, q) {
        if ch != '\n' {
            lemma_width(src, q);
            let n = next_pos(src, q);
            lemma_read_errors(src, n);
            if ch == '\\' {
                lemma_escape_errors(src, n, '"');
                lemma_escape_scan(src, n, '"');
                lemma_string_errors(src, escape_scan(src, n, '"').1, start);
                lemma_string_scan(src, escape_scan(src, n, '"').1, start);
            } else if ch != '"' {
                lemma_string_errors(src, n, start);
                lemma_string_scan(src, n, start);
            }
        }
    }
}

/// A char literal body reports at most two errors per byte, plus one.
pub proof fn lemma_char_errors(src: Seq<u8>, q: int, start: int, valid: bool, n: int)
    requires
        0 <= q <= src.len(),
    ensures
        char_scan(src, q, start, valid, n).1.len() <= 2 * (char_scan(src, q, start, valid, n).0
            - q) + 1,
    decreases src.len() - q,
{
    lemma_char_scan(src, q, start, valid, n);
    if let Some(ch) = char_at(src, q) {
        if ch != '\n' {
            lemma_width(src, q);
            let nx = next_pos(src, q);
            lemma_read_errors(src, nx);
            if ch == '\\' {
                lemma_escape_errors(src, nx, '\'');
                lemma_escape_scan(src, nx, '\'');
                let esc = escape_scan(src, nx, '\'');
                lemma_char_errors(src, esc.1, start, esc.0, n + 1);
                lemma_char_scan(src, esc.1, start, esc.0, n + 1);
            } else if ch != '\'' {
                lemma_char_errors(src, nx, start, valid, n + 1);
                lemma_char_scan(src, nx, start, valid, n + 1);
            }
        }
    }
}

/// An operator ends after its first character, within the source, and passes each of its
/// characters in order.
pub proof fn lemma_punct_scan(src: Seq<u8>, c: char, w: int, n: int)
    requires
        0 <= w < n <= src.len(),
    ensures
        n <= punct_scan(src, c, w, n).1 <= src.len(),
        punct_scan(src, c, w, n).2.len() <= 1,
        n <= next_pos(src, n) <= next_pos(src, next_pos(src, n)) <= src.len(),
{
    lemma_next_pos(src, n);
    lemma_next_pos(src, next_pos(src, n));
}

/// What a scan reports and where it stops: its token starts after whitespace at or after
/// `p`, it stops at or before the end of the source, and it reports at most two errors per
/// byte it moves over.
pub proof fn lemma_scan_spec(src: Seq<u8>, pc: bool, p: int)
    requires
        0 <= p <= src.len(),
    ensures
        p <= skip_while(src, p, ws_pred()) == scan_spec(src, pc, p).pos || (!pc
            && char_at(src, skip_while(src, p, ws_pred())) == Some('#')),
        p <= scan_spec(src, pc, p).pos <= scan_spec(src, pc, p).end <= src.len(),
        scan_spec(src, pc, p).errs.len() <= 2 * (scan_spec(src, pc, p).end - p),
        run_errors(src, p, skip_while(src, p, ws_pred())).len() <= scan_spec(src, pc, p).errs.len(),
    decreases src.len() - p,
{
    reveal(scan_spec);
    lemma_skip_while(src, p, ws_pred());
    let w = skip_while(src, p, ws_pred());
    lemma_run_errors_len(src, p, w);
    if let Some(c) = char_at(src, w) {
        lemma_width(src, w);
        let n = next_pos(src, w);
        lemma_read_errors(src, n);
        if starts_ident(c) {
            lemma_skip_while(src, w, ident_pred());
            lemma_run_errors_len(src, w, skip_while(src, w, ident_pred()));
        } else if starts_number(src, c, w) {
            lemma_number_scan(src, w);
            lemma_run_errors_len(src, w, number_scan(src, w).1);
        } else if c == '"' {
            lemma_string_errors(src, n, w);
            lemma_string_scan(src, n, w);
        } else if c == '\'' {
            lemma_char_errors(src, n, w, true, 0);
            lemma_char_scan(src, n, w, true, 0);
        } else if c == '#' {
            lemma_skip_while(src, n, comment_pred());
            let ce = skip_while(src, n, comment_pred());
            lemma_run_errors_len(src, n, ce);
            if !pc {
                lemma_scan_spec(src, pc, ce);
            }
        } else {
            lemma_punct_scan(src, c, w, n);
            lemma_run_errors_len(src, n, punct_scan(src, c, w, n).1);
        }
    }
}

/// An operator scan yields an operator or punctuation token, or `Tok::Invalid`.
pub proof fn lemma_punct_kind(src: Seq<u8>, c: char, w: int, n: int)
    ensures
        ({
            let t = punct_scan(src, c, w, n).0;
            (t != Tok::Invalid) == (t.ordinal_between(Tok::LeftParen, Tok::DotDotDot)
                || t.ordinal_between(Tok::Plus, Tok::Question))
        }),
{
}

/// A scan that finds the end of the source after whitespace yields `Eof`.
pub proof fn lemma_scan_eof(src: Seq<u8>, pc: bool, p: int)
    requires
        0 <= p <= src.len(),
        char_at(src, skip_while(src, p, ws_pred())) is None,
    ensures
        ({
            let w = skip_while(src, p, ws_pred());
            scan_spec(src, pc, p) == TokenScan {
                tok: Tok::Eof,
                lit: Lit::Text(Tok::Eof.spelling()),
                pos: w,
                end: w,
                errs: run_errors(src, p, w),
            }
        }),
        scan_safe(src, pc, p),
{
    reveal(scan_spec);
    reveal(scan_safe);
}

/// A scan that finds an identifier yields it, with the keyword it spells.
pub proof fn lemma_scan_ident(src: Seq<u8>, pc: bool, p: int)
    requires
        0 <= p <= src.len(),
        char_at(src, skip_while(src, p, ws_pred())) matches Some(c) && starts_ident(c),
    ensures
        ({
            let w = skip_while(src, p, ws_pred());
            let e = skip_while(src, w, ident_pred());
            &&& scan_spec(src, pc, p) == TokenScan {
                tok: keyword_or_identifier(decode_utf8(src.subrange(w, e))),
                lit: Lit::Source(w, e),
                pos: w,
                end: e,
                errs: run_errors(src, p, w) + run_errors(src, w, e),
            }
            &&& scan_safe(src, pc, p) == vstd::utf8::valid_utf8(src.subrange(w, e))
        }),
{
    reveal(scan_spec);
    reveal(scan_safe);
}

/// A scan that finds a number yields it.
pub proof fn lemma_scan_number(src: Seq<u8>, pc: bool, p: int)
    requires
        0 <= p <= src.len(),
        char_at(src, skip_while(src, p, ws_pred())) matches Some(c) && !starts_ident(c)
            && starts_number(src, c, skip_while(src, p, ws_pred())),
    ensures
        ({
            let w = skip_while(src, p, ws_pred());
            let ns = number_scan(src, w);
            &&& scan_spec(src, pc, p) == TokenScan {
                tok: ns.0,
                lit: Lit::Source(w, ns.1),
                pos: w,
                end: ns.1,
                errs: run_errors(src, p, w) + run_errors(src, w, ns.1) + ns.2,
            }
            &&& scan_safe(src, pc, p) == vstd::utf8::valid_utf8(src.subrange(w, ns.1))
        }),
{
    reveal(scan_spec);
    reveal(scan_safe);
}

/// What a scan yields after reading the first character `c` of a token that is no
/// identifier and no number.
pub open spec fn scan_rest(src: Seq<u8>, pc: bool, p: int, c: char) -> bool {
    let w = skip_while(src, p, ws_pred());
    let n = next_pos(src, w);
    let e0 = run_errors(src, p, w) + read_errors(src, n);
    if c == '"' {
        let (e, es) = string_scan(src, n, w);
        &&& scan_spec(src, pc, p) == TokenScan {
            tok: Tok::StringLiteral,
            lit: Lit::Source(w, e),
            pos: w,
            end: e,
            errs: e0 + es,
        }
        &&& scan_safe(src, pc, p) == vstd::utf8::valid_utf8(src.subrange(w, e))
    } else if c == '\'' {
        let (e, es) = char_scan(src, n, w, true, 0);
        &&& scan_spec(src, pc, p) == TokenScan {
            tok: Tok::CharLiteral,
            lit: Lit::Source(w, e),
            pos: w,
            end: e,
            errs: e0 + es,
        }
        &&& scan_safe(src, pc, p) == vstd::utf8::valid_utf8(src.subrange(w, e))
    } else if c == '#' {
        let ce = skip_while(src, n, comment_pred());
        if pc {
            &&& scan_spec(src, pc, p) == TokenScan {
                tok: Tok::Comment,
                lit: Lit::Source(w, ce),
                pos: w,
                end: ce,
                errs: e0 + run_errors(src, n, ce),
            }
            &&& scan_safe(src, pc, p) == vstd::utf8::valid_utf8(src.subrange(w, ce))
        } else {
            let rest = scan_spec(src, pc, ce);
            &&& scan_spec(src, pc, p) == TokenScan {
                errs: e0 + run_errors(src, n, ce) + rest.errs,
                ..rest
            }
            &&& scan_safe(src, pc, p) == (vstd::utf8::valid_utf8(src.subrange(w, ce))
                && scan_safe(src, pc, ce))
        }
    } else {
        let (t, e, extra) = punct_scan(src, c, w, n);
        &&& scan_spec(src, pc, p) == TokenScan {
            tok: t,
            lit: if t == Tok::Invalid {
                Lit::Text(seq![c])
            } else {
                Lit::Text(t.spelling())
            },
            pos: w,
            end: e,
            errs: e0 + run_errors(src, n, e) + extra,
        }
        &&& scan_safe(src, pc, p)
    }
}

/// A scan that finds a character `c` that starts no identifier and no number reads it and
/// goes on as `scan_rest` says.
pub proof fn lemma_scan_rest(src: Seq<u8>, pc: bool, p: int)
    requires
        0 <= p <= src.len(),
        char_at(src, skip_while(src, p, ws_pred())) matches Some(c) && !starts_ident(c)
            && !starts_number(src, c, skip_while(src, p, ws_pred())),
    ensures
        scan_rest(src, pc, p, rune_at(src, skip_while(src, p, ws_pred()))),
{
    reveal(scan_spec);
    reveal(scan_safe);
    let w = skip_while(src, p, ws_pred());
    let c = rune_at(src, w);
    let n = next_pos(src, w);
    let e0 = run_errors(src, p, w) + read_errors(src, n);
    if c == '"' {
        let (e, es) = string_scan(src, n, w);
        assert(run_errors(src, p, w) + read_errors(src, n) + es =~= e0 + es);
    } else if c == '\'' {
        let (e, es) = char_scan(src, n, w, true, 0);
        assert(run_errors(src, p, w) + read_errors(src, n) + es =~= e0 + es);
    } else if c == '#' {
        let ce = skip_while(src, n, comment_pred());
        let rest = scan_spec(src, pc, ce);
        assert(run_errors(src, p, w) + read_errors(src, n) + run_errors(src, n, ce) + rest.errs
            =~= e0 + run_errors(src, n, ce) + rest.errs);
    } else {
        let (t, e, extra) = punct_scan(src, c, w, n);
        assert(run_errors(src, p, w) + read_errors(src, n) + run_errors(src, n, e) + extra
            =~= e0 + run_errors(src, n, e) + extra);
    }
}

/// A scan that yields `Eof` has reached the end of the source, and scanning again there
/// yields `Eof` once more, at the same place and without errors.
pub proof fn lemma_eof_sticky(src: Seq<u8>, pc: bool, p: int)
    requires
        0 <= p <= src.len(),
        scan_spec(src, pc, p).tok == Tok::Eof,
    ensures
        scan_spec(src, pc, p).end == src.len(),
        scan_spec(src, pc, src.len() as int) == (TokenScan {
            tok: Tok::Eof,
            lit: Lit::Text(Tok::Eof.spelling()),
            pos: src.len() as int,
            end: src.len() as int,
            errs: Seq::empty(),
        }),
    decreases src.len() - p,
{
    reveal(scan_spec);
    lemma_skip_while(src, p, ws_pred());
    let w = skip_while(src, p, ws_pred());
    if let Some(c) = char_at(src, w) {
        lemma_width(src, w);
        let n = next_pos(src, w);
        if !starts_ident(c) && !starts_number(src, c, w) && c == '#' && !pc {
            lemma_skip_while(src, n, comment_pred());
            lemma_eof_sticky(src, pc, skip_while(src, n, comment_pred()));
        }
    }
    let l = src.len() as int;
    assert(skip_while(src, l, ws_pred()) == l);
    assert(run_errors(src, l, l) =~= Seq::<Report>::empty());
}

/// Reading whitespace reports nothing: no whitespace character is NUL, a byte that does not
/// decode, or a byte order mark.
proof fn lemma_blank_errors(src: Seq<u8>, p: int)
    requires
        0 <= p <= src.len(),
        skip_while(src, p, ws_pred()) == src.len(),
    ensures
        run_errors(src, p, src.len() as int) == Seq::<Report>::empty(),
    decreases src.len() - p,
{
    if p < src.len() {
        lemma_width(src, p);
        let n = next_pos(src, p);
        lemma_blank_errors(src, n);
        if n < src.len() {
            assert((ws_pred())(rune_at(src, n)));
        }
        assert(read_errors(src, n) =~= Seq::<Report>::empty());
        assert(run_errors(src, p, src.len() as int) =~= read_errors(src, n) + run_errors(
            src,
            n,
            src.len() as int,
        ));
    }
}

/// When only whitespace is left, a scan yields `Eof` at the end of the source, with no
/// errors, and so does every scan after it.
pub proof fn lemma_blank_rest(src: Seq<u8>, pc: bool, p: int)
    requires
        0 <= p <= src.len(),
        skip_while(src, p, ws_pred()) == src.len(),
    ensures
        scan_spec(src, pc, p) == (TokenScan {
            tok: Tok::Eof,
            lit: Lit::Text(Tok::Eof.spelling()),
            pos: src.len() as int,
            end: src.len() as int,
            errs: Seq::empty(),
        }),
        scan_spec(src, pc, src.len() as int) == scan_spec(src, pc, p),
{
    reveal(scan_spec);
    lemma_blank_errors(src, p);
    let l = src.len() as int;
    assert(skip_while(src, l, ws_pred()) == l);
    assert(run_errors(src, l, l) =~= Seq::<Report>::empty());
}

/// Skipping comments drops exactly the comment tokens: where a scan that returns comments
/// yields a comment, a scan that skips them goes on after it, and reports the comment's
/// errors first; anywhere else both scans agree.
pub proof fn lemma_comment_skipping(src: Seq<u8>, p: int)
    requires
        0 <= p <= src.len(),
    ensures
        ({
            let with = scan_spec(src, true, p);
            let without = scan_spec(src, false, p);
            if with.tok == Tok::Comment {
                &&& p <= with.end <= src.len()
                &&& without == TokenScan {
                    errs: with.errs + scan_spec(src, false, with.end).errs,
                    ..scan_spec(src, false, with.end)
                }
            } else {
                without == with
            }
        }),
{
    reveal(scan_spec);
    lemma_skip_while(src, p, ws_pred());
    let w = skip_while(src, p, ws_pred());
    if let Some(c) = char_at(src, w) {
        lemma_width(src, w);
        let n = next_pos(src, w);
        lemma_skip_while(src, n, comment_pred());
        if !starts_ident(c) && !starts_number(src, c, w) && c == '#' {
            let ce = skip_while(src, n, comment_pred());
            let rest = scan_spec(src, false, ce);
            assert(run_errors(src, p, w) + read_errors(src, n) + run_errors(src, n, ce) + rest.errs
                =~= (run_errors(src, p, w) + read_errors(src, n) + run_errors(src, n, ce))
                + rest.errs);
        }
    }
}

/// A scan that does not yield `Eof` moves past the token it yields, except at an
/// underscore that is not itself part of an identifier, where it yields an empty
/// identifier and stays.
pub proof fn lemma_scan_progress(src: Seq<u8>, pc: bool, p: int)
    requires
        0 <= p <= src.len(),
    ensures
        scan_spec(src, pc, p).tok != Tok::Eof ==> scan_spec(src, pc, p).pos < scan_spec(
            src,
            pc,
            p,
        ).end || (rune_at(src, scan_spec(src, pc, p).pos) == '_' && !(ident_pred())('_')),
    decreases src.len() - p,
{
    reveal(scan_spec);
    lemma_skip_while(src, p, ws_pred());
    let w = skip_while(src, p, ws_pred());
    if let Some(c) = char_at(src, w) {
        lemma_width(src, w);
        let n = next_pos(src, w);
        if starts_ident(c) {
            lemma_skip_while(src, next_pos(src, w), ident_pred());
        } else if starts_number(src, c, w) {
            lemma_number_scan(src, w);
        } else if c == '"' {
            lemma_string_scan(src, n, w);
        } else if c == '\'' {
            lemma_char_scan(src, n, w, true, 0);
        } else if c == '#' {
            lemma_skip_while(src, n, comment_pred());
            if !pc {
                lemma_scan_progress(src, pc, skip_while(src, n, comment_pred()));
            }
        } else {
            lemma_punct_scan(src, c, w, n);
        }
    }
}

/// The literal of a token read from the source is the text from the token's position to
/// where the scan stops; every other literal is the spelling of its kind, or the single
/// unexpected character of an invalid token.
pub proof fn lemma_literal_source(src: Seq<u8>, pc: bool, p: int)
    requires
        0 <= p <= src.len(),
    ensures
        ({
            let s = scan_spec(src, pc, p);
            match s.lit {
                Lit::Source(a, b) => a == s.pos && b == s.end,
                Lit::Text(t) => t == s.tok.spelling() || (s.tok == Tok::Invalid && t == seq![
                    rune_at(src, s.pos),
                ]),
            }
        }),
    decreases src.len() - p,
{
    reveal(scan_spec);
    lemma_skip_while(src, p, ws_pred());
    let w = skip_while(src, p, ws_pred());
    if let Some(c) = char_at(src, w) {
        lemma_width(src, w);
        let n = next_pos(src, w);
        if !starts_ident(c) && !starts_number(src, c, w) && c == '#' && !pc {
            lemma_skip_while(src, n, comment_pred());
            lemma_literal_source(src, pc, skip_while(src, n, comment_pred()));
        }
    }
}

} // verus!
