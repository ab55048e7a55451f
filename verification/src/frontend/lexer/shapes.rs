use vstd::prelude::*;

use crate::frontend::lexer::rules::{
    char_at, escape_scan, lemma_skip_while, next_pos, read_errors, run_errors, scan_spec,
    skip_while, ws_pred, Lit, Report, TokenScan,
};
use crate::frontend::lexer::token::Tok;
use crate::frontend::lexer::unicode::{char_is_alphabetic, lemma_width, rune_at, width_at};

verus! {

/// True for the bytes of the ASCII hexadecimal digits `0`-`9`, `a`-`f` and `A`-`F`.
pub open spec fn is_hex_byte(b: u8) -> bool {
    (48 <= b <= 57) || (97 <= b <= 102) || (65 <= b <= 70)
}

/// An ASCII byte is a character of its own.
proof fn lemma_ascii_byte(src: Seq<u8>, i: int)
    requires
        0 <= i < src.len(),
        src[i] < 0x80,
    ensures
        rune_at(src, i) == src[i] as char,
        width_at(src, i) == 1,
        next_pos(src, i) == i + 1,
        char_at(src, i) == Some(src[i] as char),
{
    lemma_width(src, i);
}

/// Every character that is a letter in the Unicode sense, or an underscore, starts an
/// identifier or keyword: the token begins at that character and is read from the source,
/// a letter is part of it, and the scan reports only the errors of reading its characters.
pub proof fn lemma_letter_starts_word(src: Seq<u8>, pc: bool, p: int)
    requires
        0 <= p <= src.len(),
        char_at(src, skip_while(src, p, ws_pred())) matches Some(c) && (c == '_'
            || char_is_alphabetic(c)),
    ensures
        ({
            let w = skip_while(src, p, ws_pred());
            let s = scan_spec(src, pc, p);
            &&& s.pos == w
            &&& s.tok == Tok::Identifier || s.tok.is_keyword()
            &&& s.lit == Lit::Source(w, s.end)
            &&& char_is_alphabetic(rune_at(src, w)) ==> w < s.end
            &&& s.errs == run_errors(src, p, w) + run_errors(src, w, s.end)
        }),
{
    lemma_skip_while(src, p, ws_pred());
    let w = skip_while(src, p, ws_pred());
    lemma_width(src, w);
    crate::frontend::lexer::rules::lemma_scan_ident(src, pc, p);
    lemma_skip_while(src, next_pos(src, w), crate::frontend::lexer::rules::ident_pred());
    let word = vstd::utf8::decode_utf8(
        src.subrange(w, skip_while(src, w, crate::frontend::lexer::rules::ident_pred())),
    );
    crate::frontend::lexer::token::lemma_keyword_exact(word);
}

/// A backslash and a backslash, a quote of the literal or one of `a b f n r t v` make a
/// valid escape of one character: it ends right after that character.
pub proof fn lemma_simple_escape(src: Seq<u8>, p: int, quote: char)
    requires
        char_at(src, p) matches Some(c) && (c == '\\' || c == quote || c == 'a' || c == 'b'
            || c == 'f' || c == 'n' || c == 'r' || c == 't' || c == 'v'),
    ensures
        escape_scan(src, p, quote) == (true, next_pos(src, p), read_errors(src, next_pos(src, p))),
{
}

/// The bytes of a quote, a backslash, an escape character and the same quote again.
pub open spec fn escaped_one(src: Seq<u8>, p: int, quote: u8) -> bool {
    &&& 0 <= p
    &&& p + 4 <= src.len()
    &&& src[p] == quote
    &&& src[p + 1] == 92
    &&& (src[p + 2] == 92 || src[p + 2] == quote || src[p + 2] == 97 || src[p + 2] == 98
        || src[p + 2] == 102 || src[p + 2] == 110 || src[p + 2] == 114 || src[p + 2] == 116
        || src[p + 2] == 118)
    &&& src[p + 3] == quote
}

/// A char literal holding one simple escape, such as `'\\'` or `'\n'`, is one token of four
/// bytes, with no error of its own.
pub proof fn lemma_escaped_char_literal(src: Seq<u8>, pc: bool, p: int)
    requires
        escaped_one(src, p, 39),
    ensures
        scan_spec(src, pc, p) == (TokenScan {
            tok: Tok::CharLiteral,
            lit: Lit::Source(p, p + 4),
            pos: p,
            end: p + 4,
            errs: read_errors(src, p + 4),
        }),
{
    reveal(scan_spec);
    lemma_ascii_byte(src, p);
    lemma_ascii_byte(src, p + 1);
    lemma_ascii_byte(src, p + 2);
    lemma_ascii_byte(src, p + 3);
    assert(skip_while(src, p, ws_pred()) == p);
    assert(run_errors(src, p, p) =~= Seq::<Report>::empty());
    assert(read_errors(src, p + 1) =~= Seq::<Report>::empty());
    assert(read_errors(src, p + 2) =~= Seq::<Report>::empty());
    assert(read_errors(src, p + 3) =~= Seq::<Report>::empty());
    let esc = escape_scan(src, p + 2, '\'');
    assert(esc == (true, p + 3, read_errors(src, p + 3)));
    assert(crate::frontend::lexer::rules::char_scan(src, p + 3, p, true, 1) == (
        p + 4,
        read_errors(src, p + 4),
    ));
    assert(crate::frontend::lexer::rules::char_scan(src, p + 1, p, true, 0) == (
        p + 4,
        read_errors(src, p + 4),
    ));
}

/// A string literal holding one simple escape, such as `"\\"` or `"\""`, is one token of
/// four bytes, with no error of its own.
pub proof fn lemma_escaped_string_literal(src: Seq<u8>, pc: bool, p: int)
    requires
        escaped_one(src, p, 34),
    ensures
        scan_spec(src, pc, p) == (TokenScan {
            tok: Tok::StringLiteral,
            lit: Lit::Source(p, p + 4),
            pos: p,
            end: p + 4,
            errs: read_errors(src, p + 4),
        }),
{
    reveal(scan_spec);
    lemma_ascii_byte(src, p);
    lemma_ascii_byte(src, p + 1);
    lemma_ascii_byte(src, p + 2);
    lemma_ascii_byte(src, p + 3);
    assert(skip_while(src, p, ws_pred()) == p);
    assert(run_errors(src, p, p) =~= Seq::<Report>::empty());
    assert(read_errors(src, p + 1) =~= Seq::<Report>::empty());
    assert(read_errors(src, p + 2) =~= Seq::<Report>::empty());
    assert(read_errors(src, p + 3) =~= Seq::<Report>::empty());
    let esc = escape_scan(src, p + 2, '"');
    assert(esc == (true, p + 3, read_errors(src, p + 3)));
    assert(crate::frontend::lexer::rules::string_scan(src, p + 3, p) == (
        p + 4,
        read_errors(src, p + 4),
    ));
    assert(crate::frontend::lexer::rules::string_scan(src, p + 1, p) == (
        p + 4,
        read_errors(src, p + 4),
    ));
}

/// True for the bytes that may continue a hexadecimal number: its digits and `_`.
pub open spec fn is_hex_part(b: u8) -> bool {
    is_hex_byte(b) || b == 95
}

/// A run of hexadecimal digits and underscores from `j` ends at `q`, the first byte that
/// continues no such run.
proof fn lemma_hex_run(src: Seq<u8>, j: int, q: int)
    requires
        0 <= j <= q <= src.len(),
        forall|k: int| j <= k < q ==> is_hex_part(#[trigger] src[k]),
        q == src.len() || !is_hex_part(src[q]),
    ensures
        skip_while(src, j, crate::frontend::lexer::rules::digit_pred(16)) == q,
    decreases q - j,
{
    if j < q {
        assert(is_hex_part(src[j]));
        lemma_ascii_byte(src, j);
        lemma_hex_run(src, j + 1, q);
    } else if q < src.len() {
        lemma_width(src, q);
        if src[q] < 0x80 {
            lemma_ascii_byte(src, q);
        }
    }
}

/// A `0` followed by `x` or `X` starts a hexadecimal number, which runs over all the
/// hexadecimal digits and underscores after the prefix, provided a digit stands right
/// after the first character behind the prefix; the scan reports only the errors of
/// reading its characters.
pub proof fn lemma_hex_literal(src: Seq<u8>, pc: bool, p: int, q: int)
    requires
        0 <= p,
        p + 4 <= q <= src.len(),
        src[p] == 48,
        src[p + 1] == 120 || src[p + 1] == 88,
        forall|k: int| p + 2 <= k < q ==> is_hex_part(#[trigger] src[k]),
        is_hex_byte(src[p + 3]),
        q == src.len() || !is_hex_part(src[q]),
    ensures
        scan_spec(src, pc, p) == (TokenScan {
            tok: Tok::IntegerLiteral,
            lit: Lit::Source(p, q),
            pos: p,
            end: q,
            errs: run_errors(src, p, q),
        }),
{
    reveal(scan_spec);
    lemma_ascii_byte(src, p);
    lemma_ascii_byte(src, p + 1);
    assert(is_hex_part(src[p + 2]));
    lemma_ascii_byte(src, p + 2);
    lemma_ascii_byte(src, p + 3);
    assert(skip_while(src, p, ws_pred()) == p);
    assert(run_errors(src, p, p) =~= Seq::<Report>::empty());
    lemma_hex_run(src, p + 2, q);
    assert(crate::frontend::lexer::rules::number_base(src, p) == 16);
    assert(crate::frontend::lexer::rules::number_digits_start(src, p) == p + 2);
    assert(!crate::frontend::lexer::rules::number_missing_digits(src, p));
    assert(crate::frontend::lexer::rules::number_int_end(src, p) == q);
    if q < src.len() {
        lemma_width(src, q);
        if src[q] < 0x80 {
            lemma_ascii_byte(src, q);
        }
    }
    assert(!crate::frontend::lexer::rules::number_has_exponent(src, p));
    assert(run_errors(src, p, q) + Seq::<Report>::empty() =~= run_errors(src, p, q));
}

/// A byte beyond ASCII starts a character beyond ASCII.
proof fn lemma_beyond_ascii(src: Seq<u8>, i: int)
    requires
        0 <= i < src.len(),
        src[i] >= 0x80,
    ensures
        rune_at(src, i) as u32 >= 0x80,
        char_at(src, i) == Some(rune_at(src, i)),
{
    lemma_width(src, i);
}

/// Skipping over ASCII characters that `pred` accepts stops at the first character it
/// rejects.
proof fn lemma_ascii_skip(src: Seq<u8>, j: int, q: int, pred: spec_fn(char) -> bool)
    requires
        0 <= j <= q <= src.len(),
        forall|k: int| j <= k < q ==> #[trigger] src[k] < 0x80 && pred(src[k] as char),
        q < src.len() ==> !pred(rune_at(src, q)),
    ensures
        skip_while(src, j, pred) == q,
    decreases q - j,
{
    if j < q {
        assert(src[j] < 0x80 && pred(src[j] as char));
        lemma_ascii_byte(src, j);
        lemma_ascii_skip(src, j + 1, q, pred);
    }
}

/// True for the bytes of decimal digits and `_`.
pub open spec fn is_dec_part(b: u8) -> bool {
    (48 <= b <= 57) || b == 95
}

/// The character at `q`, when there is one, is none of the given ASCII bytes.
pub open spec fn stops_at(src: Seq<u8>, q: int, accepted: spec_fn(u8) -> bool) -> bool {
    q < src.len() ==> (src[q] >= 0x80 || !accepted(src[q]))
}

/// A decimal number without fraction or exponent: a digit that starts no base prefix,
/// then decimal digits and underscores up to `q`, where neither another digit, an
/// underscore, a point nor an `e` follows; it is an integer literal from `p` to `q`.
pub proof fn lemma_decimal_integer(src: Seq<u8>, pc: bool, p: int, q: int)
    requires
        0 <= p < q <= src.len(),
        48 <= src[p] <= 57,
        !(src[p] == 48 && p + 1 < src.len() && (src[p + 1] == 98 || src[p + 1] == 66
            || src[p + 1] == 111 || src[p + 1] == 79 || src[p + 1] == 120 || src[p + 1] == 88)),
        forall|k: int| p <= k < q ==> is_dec_part(#[trigger] src[k]),
        stops_at(src, q, |b: u8| is_dec_part(b) || b == 46 || b == 101 || b == 69),
    ensures
        scan_spec(src, pc, p) == (TokenScan {
            tok: Tok::IntegerLiteral,
            lit: Lit::Source(p, q),
            pos: p,
            end: q,
            errs: run_errors(src, p, q),
        }),
{
    reveal(scan_spec);
    lemma_ascii_byte(src, p);
    if p + 1 < src.len() && src[p + 1] < 0x80 {
        lemma_ascii_byte(src, p + 1);
    } else if p + 1 < src.len() {
        lemma_beyond_ascii(src, p + 1);
    }
    assert(skip_while(src, p, ws_pred()) == p);
    assert(run_errors(src, p, p) =~= Seq::<Report>::empty());
    if q < src.len() {
        if src[q] < 0x80 {
            lemma_ascii_byte(src, q);
        } else {
            lemma_beyond_ascii(src, q);
        }
    }
    assert forall|k: int| p <= k < q implies #[trigger] src[k] < 0x80
        && (crate::frontend::lexer::rules::digit_pred(10))(src[k] as char) by {
        assert(is_dec_part(src[k]));
    }
    lemma_ascii_skip(src, p, q, crate::frontend::lexer::rules::digit_pred(10));
    assert(crate::frontend::lexer::rules::number_base(src, p) == 10);
    assert(crate::frontend::lexer::rules::number_int_end(src, p) == q);
    assert(run_errors(src, p, q) + Seq::<Report>::empty() =~= run_errors(src, p, q));
}

/// A decimal number with a fraction: digits and underscores up to a point at `q`, then
/// digits and underscores up to `r`, where neither another digit, an underscore nor an `e`
/// follows; it is a real literal from `p` to `r`.
pub proof fn lemma_decimal_fraction(src: Seq<u8>, pc: bool, p: int, q: int, r: int)
    requires
        0 <= p < q < r <= src.len(),
        48 <= src[p] <= 57,
        forall|k: int| p <= k < q ==> is_dec_part(#[trigger] src[k]),
        src[q] == 46,
        forall|k: int| q < k < r ==> is_dec_part(#[trigger] src[k]),
        stops_at(src, r, |b: u8| is_dec_part(b) || b == 101 || b == 69),
    ensures
        scan_spec(src, pc, p) == (TokenScan {
            tok: Tok::RealLiteral,
            lit: Lit::Source(p, r),
            pos: p,
            end: r,
            errs: run_errors(src, p, r),
        }),
{
    reveal(scan_spec);
    lemma_ascii_byte(src, p);
    lemma_ascii_byte(src, p + 1);
    lemma_ascii_byte(src, q);
    assert(skip_while(src, p, ws_pred()) == p);
    assert(run_errors(src, p, p) =~= Seq::<Report>::empty());
    if r < src.len() {
        if src[r] < 0x80 {
            lemma_ascii_byte(src, r);
        } else {
            lemma_beyond_ascii(src, r);
        }
    }
    let dp = crate::frontend::lexer::rules::digit_pred(10);
    assert forall|k: int| p <= k < q implies #[trigger] src[k] < 0x80 && dp(src[k] as char) by {
        assert(is_dec_part(src[k]));
    }
    lemma_ascii_skip(src, p, q, dp);
    assert forall|k: int| q + 1 <= k < r implies #[trigger] src[k] < 0x80 && dp(
        src[k] as char,
    ) by {
        assert(is_dec_part(src[k]));
    }
    lemma_ascii_skip(src, q + 1, r, dp);
    assert(crate::frontend::lexer::rules::number_base(src, p) == 10);
    assert(crate::frontend::lexer::rules::number_int_end(src, p) == q);
    assert(crate::frontend::lexer::rules::number_has_fraction(src, p));
    assert(crate::frontend::lexer::rules::number_mantissa_end(src, p) == r);
    assert(run_errors(src, p, r) + Seq::<Report>::empty() =~= run_errors(src, p, r));
}

/// A number that starts with a point: a point, a digit, then digits and underscores up to
/// `r`, where neither another digit, an underscore nor an `e` follows; it is a real
/// literal from `p` to `r`.
pub proof fn lemma_point_fraction(src: Seq<u8>, pc: bool, p: int, r: int)
    requires
        0 <= p,
        p + 2 <= r <= src.len(),
        src[p] == 46,
        48 <= src[p + 1] <= 57,
        forall|k: int| p < k < r ==> is_dec_part(#[trigger] src[k]),
        stops_at(src, r, |b: u8| is_dec_part(b) || b == 101 || b == 69),
    ensures
        scan_spec(src, pc, p) == (TokenScan {
            tok: Tok::RealLiteral,
            lit: Lit::Source(p, r),
            pos: p,
            end: r,
            errs: run_errors(src, p, r),
        }),
{
    reveal(scan_spec);
    lemma_ascii_byte(src, p);
    lemma_ascii_byte(src, p + 1);
    assert(skip_while(src, p, ws_pred()) == p);
    assert(run_errors(src, p, p) =~= Seq::<Report>::empty());
    if r < src.len() {
        if src[r] < 0x80 {
            lemma_ascii_byte(src, r);
        } else {
            lemma_beyond_ascii(src, r);
        }
    }
    let dp = crate::frontend::lexer::rules::digit_pred(10);
    assert(skip_while(src, p, dp) == p);
    assert forall|k: int| p + 1 <= k < r implies #[trigger] src[k] < 0x80 && dp(
        src[k] as char,
    ) by {
        assert(is_dec_part(src[k]));
    }
    lemma_ascii_skip(src, p + 1, r, dp);
    assert(crate::frontend::lexer::rules::number_base(src, p) == 10);
    assert(crate::frontend::lexer::rules::number_int_end(src, p) == p);
    assert(crate::frontend::lexer::rules::number_has_fraction(src, p));
    assert(crate::frontend::lexer::rules::number_mantissa_end(src, p) == r);
    assert(run_errors(src, p, r) + Seq::<Report>::empty() =~= run_errors(src, p, r));
}

/// A decimal number with an exponent: digits and underscores up to an `e` or `E` at `q`,
/// an optional sign, then digits and underscores from `d` up to `r`, where no other digit
/// or underscore follows; it is a real literal from `p` to `r`, and when the exponent has
/// no digits the scan reports that at `d`.
pub proof fn lemma_decimal_exponent(src: Seq<u8>, pc: bool, p: int, q: int, d: int, r: int)
    requires
        0 <= p < q,
        q + 1 <= d <= r <= src.len(),
        48 <= src[p] <= 57,
        forall|k: int| p <= k < q ==> is_dec_part(#[trigger] src[k]),
        src[q] == 101 || src[q] == 69,
        d == q + 1 || (d == q + 2 && (src[q + 1] == 43 || src[q + 1] == 45)),
        d == q + 1 && q + 1 < src.len() ==> src[q + 1] != 43 && src[q + 1] != 45,
        forall|k: int| d <= k < r ==> is_dec_part(#[trigger] src[k]),
        stops_at(src, r, |b: u8| is_dec_part(b)),
    ensures
        scan_spec(src, pc, p) == (TokenScan {
            tok: Tok::RealLiteral,
            lit: Lit::Source(p, r),
            pos: p,
            end: r,
            errs: run_errors(src, p, r) + if r == d {
                seq![(crate::frontend::lexer::rules::LexError::NoDigitsAfterExponent, d)]
            } else {
                Seq::<Report>::empty()
            },
        }),
{
    reveal(scan_spec);
    lemma_ascii_byte(src, p);
    lemma_ascii_byte(src, q);
    if q + 1 < src.len() {
        if src[q + 1] < 0x80 {
            lemma_ascii_byte(src, q + 1);
        } else {
            lemma_beyond_ascii(src, q + 1);
        }
    }
    if p + 1 < src.len() {
        if src[p + 1] < 0x80 {
            lemma_ascii_byte(src, p + 1);
        } else {
            lemma_beyond_ascii(src, p + 1);
        }
    }
    assert(skip_while(src, p, ws_pred()) == p);
    assert(run_errors(src, p, p) =~= Seq::<Report>::empty());
    if r < src.len() {
        if src[r] < 0x80 {
            lemma_ascii_byte(src, r);
        } else {
            lemma_beyond_ascii(src, r);
        }
    }
    let dp = crate::frontend::lexer::rules::digit_pred(10);
    assert forall|k: int| p <= k < q implies #[trigger] src[k] < 0x80 && dp(src[k] as char) by {
        assert(is_dec_part(src[k]));
    }
    lemma_ascii_skip(src, p, q, dp);
    assert forall|k: int| d <= k < r implies #[trigger] src[k] < 0x80 && dp(src[k] as char) by {
        assert(is_dec_part(src[k]));
    }
    lemma_ascii_skip(src, d, r, dp);
    assert(crate::frontend::lexer::rules::number_base(src, p) == 10);
    assert(crate::frontend::lexer::rules::number_int_end(src, p) == q);
    assert(!crate::frontend::lexer::rules::number_has_fraction(src, p));
    assert(crate::frontend::lexer::rules::number_mantissa_end(src, p) == q);
    assert(crate::frontend::lexer::rules::number_has_exponent(src, p));
    assert(crate::frontend::lexer::rules::number_exponent_digits_start(src, p) == d);
}

/// True for the bytes of the digits of `base` (2, 8 or 16).
pub open spec fn is_base_digit(b: u8, base: u32) -> bool {
    if base == 2 {
        48 <= b <= 49
    } else if base == 8 {
        48 <= b <= 55
    } else {
        is_hex_byte(b)
    }
}

/// True for the letters that, after a `0`, select `base`: `b` or `B` for 2, `o` or `O` for
/// 8, `x` or `X` for 16.
pub open spec fn is_base_letter(b: u8, base: u32) -> bool {
    if base == 2 {
        b == 98 || b == 66
    } else if base == 8 {
        b == 111 || b == 79
    } else {
        b == 120 || b == 88
    }
}

/// A `0`, a base letter, then digits of that base and underscores up to `q`: when an ASCII
/// character follows the prefix and a hexadecimal digit stands right after it, and neither
/// another digit of the base, an underscore nor an `e` follows, it is an integer literal
/// from `p` to `q` in that base.
pub proof fn lemma_prefixed_literal(src: Seq<u8>, pc: bool, p: int, q: int, base: u32)
    requires
        base == 2 || base == 8 || base == 16,
        0 <= p,
        p + 2 <= q <= src.len(),
        p + 4 <= src.len(),
        src[p] == 48,
        is_base_letter(src[p + 1], base),
        forall|k: int| p + 2 <= k < q ==> is_base_digit(#[trigger] src[k], base) || src[k] == 95,
        src[p + 2] < 0x80,
        is_hex_byte(src[p + 3]),
        stops_at(src, q, |b: u8| is_base_digit(b, base) || b == 95 || b == 101 || b == 69),
    ensures
        scan_spec(src, pc, p) == (TokenScan {
            tok: Tok::IntegerLiteral,
            lit: Lit::Source(p, q),
            pos: p,
            end: q,
            errs: run_errors(src, p, q),
        }),
{
    reveal(scan_spec);
    lemma_ascii_byte(src, p);
    lemma_ascii_byte(src, p + 1);
    lemma_ascii_byte(src, p + 2);
    lemma_ascii_byte(src, p + 3);
    assert(skip_while(src, p, ws_pred()) == p);
    assert(run_errors(src, p, p) =~= Seq::<Report>::empty());
    if q < src.len() {
        if src[q] < 0x80 {
            lemma_ascii_byte(src, q);
        } else {
            lemma_beyond_ascii(src, q);
        }
    }
    let dp = crate::frontend::lexer::rules::digit_pred(base);
    assert forall|k: int| p + 2 <= k < q implies #[trigger] src[k] < 0x80 && dp(src[k] as char) by {
        assert(is_base_digit(src[k], base) || src[k] == 95);
    }
    lemma_ascii_skip(src, p + 2, q, dp);
    assert(crate::frontend::lexer::rules::number_base(src, p) == base);
    assert(crate::frontend::lexer::rules::number_digits_start(src, p) == p + 2);
    assert(!crate::frontend::lexer::rules::number_missing_digits(src, p));
    assert(crate::frontend::lexer::rules::number_int_end(src, p) == q);
    assert(!crate::frontend::lexer::rules::number_has_exponent(src, p));
    assert(run_errors(src, p, q) + Seq::<Report>::empty() =~= run_errors(src, p, q));
}

/// A `0` and a base letter, followed by an ASCII character, or by nothing, with no
/// hexadecimal digit right after it is the two-character literal of the prefix alone, reported as having no digits.
pub proof fn lemma_prefix_without_digits(src: Seq<u8>, pc: bool, p: int, base: u32)
    requires
        base == 2 || base == 8 || base == 16,
        0 <= p,
        p + 2 <= src.len(),
        src[p] == 48,
        is_base_letter(src[p + 1], base),
        p + 2 < src.len() ==> src[p + 2] < 0x80,
        p + 3 < src.len() ==> !is_hex_byte(src[p + 3]),
    ensures
        scan_spec(src, pc, p) == (TokenScan {
            tok: Tok::IntegerLiteral,
            lit: Lit::Source(p, p + 2),
            pos: p,
            end: p + 2,
            errs: run_errors(src, p, p + 2) + seq![
                (crate::frontend::lexer::rules::LexError::NoDigitsAfterBase, p),
            ],
        }),
{
    reveal(scan_spec);
    lemma_ascii_byte(src, p);
    lemma_ascii_byte(src, p + 1);
    if p + 2 < src.len() {
        lemma_ascii_byte(src, p + 2);
    }
    if p + 3 < src.len() {
        if src[p + 3] < 0x80 {
            lemma_ascii_byte(src, p + 3);
        } else {
            lemma_beyond_ascii(src, p + 3);
        }
    }
    assert(skip_while(src, p, ws_pred()) == p);
    assert(run_errors(src, p, p) =~= Seq::<Report>::empty());
    assert(crate::frontend::lexer::rules::number_base(src, p) == base);
    assert(crate::frontend::lexer::rules::number_digits_start(src, p) == p + 2);
    assert(crate::frontend::lexer::rules::number_missing_digits(src, p));
}

/// True for the ASCII bytes that may stand inside a literal closed by `quote` with no
/// escape: not the quote, not a backslash, not a newline.
pub open spec fn is_plain(b: u8, quote: u8) -> bool {
    b < 0x80 && b != quote && b != 92 && b != 10
}

/// The rest of a string literal of plain characters from `k` runs to its closing quote at
/// `q`, reporting the errors of reading up to the character after the quote.
proof fn lemma_plain_string(src: Seq<u8>, k: int, q: int, start: int)
    requires
        0 <= k <= q < src.len(),
        forall|j: int| k <= j < q ==> is_plain(#[trigger] src[j], 34),
        src[q] == 34,
    ensures
        crate::frontend::lexer::rules::string_scan(src, k, start) == (q + 1, run_errors(
            src,
            k,
            q + 1,
        )),
    decreases q - k,
{
    lemma_ascii_byte(src, k);
    if k < q {
        assert(is_plain(src[k], 34));
        lemma_plain_string(src, k + 1, q, start);
    } else {
        assert(run_errors(src, q + 1, q + 1) =~= Seq::<Report>::empty());
        assert(run_errors(src, q, q + 1) =~= read_errors(src, q + 1));
    }
}

/// The rest of a string literal of plain characters from `k` that meets a newline or the
/// end at `q` stops there, unterminated.
proof fn lemma_open_string(src: Seq<u8>, k: int, q: int, start: int)
    requires
        0 <= k <= q <= src.len(),
        forall|j: int| k <= j < q ==> is_plain(#[trigger] src[j], 34),
        q == src.len() || src[q] == 10,
    ensures
        crate::frontend::lexer::rules::string_scan(src, k, start) == (q, run_errors(src, k, q)
            + seq![(crate::frontend::lexer::rules::LexError::UnterminatedString, start)]),
    decreases q - k,
{
    if k < q {
        assert(is_plain(src[k], 34));
        lemma_ascii_byte(src, k);
        lemma_open_string(src, k + 1, q, start);
        assert(read_errors(src, k + 1) + (run_errors(src, k + 1, q) + seq![
            (crate::frontend::lexer::rules::LexError::UnterminatedString, start),
        ]) =~= run_errors(src, k, q) + seq![
            (crate::frontend::lexer::rules::LexError::UnterminatedString, start),
        ]);
    } else {
        if q < src.len() {
            lemma_ascii_byte(src, q);
        }
        assert(run_errors(src, q, q) =~= Seq::<Report>::empty());
    }
}

/// A string literal of plain characters closed by a quote at `q` is one token from `p` to
/// just after the quote, with no error of its own.
pub proof fn lemma_plain_string_literal(src: Seq<u8>, pc: bool, p: int, q: int)
    requires
        0 <= p < q < src.len(),
        src[p] == 34,
        forall|j: int| p < j < q ==> is_plain(#[trigger] src[j], 34),
        src[q] == 34,
    ensures
        scan_spec(src, pc, p) == (TokenScan {
            tok: Tok::StringLiteral,
            lit: Lit::Source(p, q + 1),
            pos: p,
            end: q + 1,
            errs: run_errors(src, p, q + 1),
        }),
{
    reveal(scan_spec);
    lemma_ascii_byte(src, p);
    if p + 1 < src.len() {
        lemma_width(src, p + 1);
    }
    assert(skip_while(src, p, ws_pred()) == p);
    assert(run_errors(src, p, p) =~= Seq::<Report>::empty());
    lemma_plain_string(src, p + 1, q, p);
    assert(Seq::<Report>::empty() + read_errors(src, p + 1) + run_errors(src, p + 1, q + 1)
        =~= run_errors(src, p, q + 1));
}

/// A string literal of plain characters that meets a newline or the end at `q` is one
/// token from `p` to `q`, reported as unterminated at `p`.
pub proof fn lemma_open_string_literal(src: Seq<u8>, pc: bool, p: int, q: int)
    requires
        0 <= p < q <= src.len(),
        src[p] == 34,
        forall|j: int| p < j < q ==> is_plain(#[trigger] src[j], 34),
        q == src.len() || src[q] == 10,
    ensures
        scan_spec(src, pc, p) == (TokenScan {
            tok: Tok::StringLiteral,
            lit: Lit::Source(p, q),
            pos: p,
            end: q,
            errs: run_errors(src, p, q) + seq![
                (crate::frontend::lexer::rules::LexError::UnterminatedString, p),
            ],
        }),
{
    reveal(scan_spec);
    lemma_ascii_byte(src, p);
    assert(skip_while(src, p, ws_pred()) == p);
    assert(run_errors(src, p, p) =~= Seq::<Report>::empty());
    lemma_open_string(src, p + 1, q, p);
    assert(Seq::<Report>::empty() + read_errors(src, p + 1) + (run_errors(src, p + 1, q) + seq![
        (crate::frontend::lexer::rules::LexError::UnterminatedString, p),
    ]) =~= run_errors(src, p, q) + seq![
        (crate::frontend::lexer::rules::LexError::UnterminatedString, p),
    ]);
}

/// What a char literal of `m` plain characters reports of its own: empty, too wide, or
/// nothing for exactly one character.
pub open spec fn char_count_errors(m: int, start: int) -> Seq<Report> {
    if m == 0 {
        seq![(crate::frontend::lexer::rules::LexError::EmptyChar, start)]
    } else if m != 1 {
        seq![(crate::frontend::lexer::rules::LexError::CharTooWide, start)]
    } else {
        Seq::<Report>::empty()
    }
}

/// The rest of a char literal of plain characters from `k`, `n` of them already read, runs
/// to its closing quote at `q`.
proof fn lemma_plain_char(src: Seq<u8>, k: int, q: int, start: int, n: int)
    requires
        0 <= k <= q < src.len(),
        0 <= n,
        forall|j: int| k <= j < q ==> is_plain(#[trigger] src[j], 39),
        src[q] == 39,
    ensures
        crate::frontend::lexer::rules::char_scan(src, k, start, true, n) == (q + 1, run_errors(
            src,
            k,
            q + 1,
        ) + char_count_errors(n + (q - k), start)),
    decreases q - k,
{
    lemma_ascii_byte(src, k);
    if k < q {
        assert(is_plain(src[k], 39));
        lemma_plain_char(src, k + 1, q, start, n + 1);
        assert(read_errors(src, k + 1) + (run_errors(src, k + 1, q + 1) + char_count_errors(
            n + 1 + (q - (k + 1)),
            start,
        )) =~= run_errors(src, k, q + 1) + char_count_errors(n + (q - k), start));
    } else {
        assert(run_errors(src, q + 1, q + 1) =~= Seq::<Report>::empty());
        assert(run_errors(src, q, q + 1) =~= read_errors(src, q + 1));
    }
}

/// The rest of a char literal of plain characters from `k` that meets a newline or the end
/// at `q` stops there, unterminated.
proof fn lemma_open_char(src: Seq<u8>, k: int, q: int, start: int, n: int)
    requires
        0 <= k <= q <= src.len(),
        forall|j: int| k <= j < q ==> is_plain(#[trigger] src[j], 39),
        q == src.len() || src[q] == 10,
    ensures
        crate::frontend::lexer::rules::char_scan(src, k, start, true, n) == (q, run_errors(
            src,
            k,
            q,
        ) + seq![(crate::frontend::lexer::rules::LexError::UnterminatedChar, start)]),
    decreases q - k,
{
    if k < q {
        assert(is_plain(src[k], 39));
        lemma_ascii_byte(src, k);
        lemma_open_char(src, k + 1, q, start, n + 1);
        assert(read_errors(src, k + 1) + (run_errors(src, k + 1, q) + seq![
            (crate::frontend::lexer::rules::LexError::UnterminatedChar, start),
        ]) =~= run_errors(src, k, q) + seq![
            (crate::frontend::lexer::rules::LexError::UnterminatedChar, start),
        ]);
    } else {
        if q < src.len() {
            lemma_ascii_byte(src, q);
        }
        assert(run_errors(src, q, q) =~= Seq::<Report>::empty());
    }
}

/// A char literal of plain characters closed by a quote at `q` is one token from `p` to
/// just after the quote; it is reported as empty when it holds no character and as too
/// wide when it holds more than one.
pub proof fn lemma_plain_char_literal(src: Seq<u8>, pc: bool, p: int, q: int)
    requires
        0 <= p < q < src.len(),
        src[p] == 39,
        forall|j: int| p < j < q ==> is_plain(#[trigger] src[j], 39),
        src[q] == 39,
    ensures
        scan_spec(src, pc, p) == (TokenScan {
            tok: Tok::CharLiteral,
            lit: Lit::Source(p, q + 1),
            pos: p,
            end: q + 1,
            errs: run_errors(src, p, q + 1) + if q == p + 1 {
                seq![(crate::frontend::lexer::rules::LexError::EmptyChar, p)]
            } else if q > p + 2 {
                seq![(crate::frontend::lexer::rules::LexError::CharTooWide, p)]
            } else {
                Seq::<Report>::empty()
            },
        }),
{
    reveal(scan_spec);
    lemma_ascii_byte(src, p);
    if p + 1 < src.len() {
        lemma_width(src, p + 1);
    }
    assert(skip_while(src, p, ws_pred()) == p);
    assert(run_errors(src, p, p) =~= Seq::<Report>::empty());
    lemma_plain_char(src, p + 1, q, p, 0);
    assert(Seq::<Report>::empty() + read_errors(src, p + 1) + (run_errors(src, p + 1, q + 1)
        + char_count_errors(q - (p + 1), p)) =~= run_errors(src, p, q + 1) + char_count_errors(
        q - (p + 1),
        p,
    ));
}

/// A char literal of plain characters that meets a newline or the end at `q` is one token
/// from `p` to `q`, reported as unterminated at `p`.
pub proof fn lemma_open_char_literal(src: Seq<u8>, pc: bool, p: int, q: int)
    requires
        0 <= p < q <= src.len(),
        src[p] == 39,
        forall|j: int| p < j < q ==> is_plain(#[trigger] src[j], 39),
        q == src.len() || src[q] == 10,
    ensures
        scan_spec(src, pc, p) == (TokenScan {
            tok: Tok::CharLiteral,
            lit: Lit::Source(p, q),
            pos: p,
            end: q,
            errs: run_errors(src, p, q) + seq![
                (crate::frontend::lexer::rules::LexError::UnterminatedChar, p),
            ],
        }),
{
    reveal(scan_spec);
    lemma_ascii_byte(src, p);
    assert(skip_while(src, p, ws_pred()) == p);
    assert(run_errors(src, p, p) =~= Seq::<Report>::empty());
    lemma_open_char(src, p + 1, q, p, 0);
    assert(Seq::<Report>::empty() + read_errors(src, p + 1) + (run_errors(src, p + 1, q) + seq![
        (crate::frontend::lexer::rules::LexError::UnterminatedChar, p),
    ]) =~= run_errors(src, p, q) + seq![
        (crate::frontend::lexer::rules::LexError::UnterminatedChar, p),
    ]);
}

/// A comment of ASCII characters runs from its `#` up to the next newline or the end: when
/// comments are tokens it is one comment token from `p` to `q`, newline excluded.
pub proof fn lemma_ascii_comment(src: Seq<u8>, p: int, q: int)
    requires
        0 <= p < q <= src.len(),
        src[p] == 35,
        forall|j: int| p < j < q ==> #[trigger] src[j] < 0x80 && src[j] != 10,
        q == src.len() || src[q] == 10,
    ensures
        scan_spec(src, true, p) == (TokenScan {
            tok: Tok::Comment,
            lit: Lit::Source(p, q),
            pos: p,
            end: q,
            errs: run_errors(src, p, q),
        }),
{
    reveal(scan_spec);
    lemma_ascii_byte(src, p);
    assert(skip_while(src, p, ws_pred()) == p);
    assert(run_errors(src, p, p) =~= Seq::<Report>::empty());
    if q < src.len() {
        lemma_ascii_byte(src, q);
    }
    let cp = crate::frontend::lexer::rules::comment_pred();
    assert forall|k: int| p + 1 <= k < q implies #[trigger] src[k] < 0x80 && cp(src[k] as char) by {
        assert(src[k] < 0x80 && src[k] != 10);
    }
    lemma_ascii_skip(src, p + 1, q, cp);
    crate::frontend::lexer::lex::lemma_run_step(src, p, q);
    assert(Seq::<Report>::empty() + read_errors(src, p + 1) + run_errors(src, p + 1, q)
        =~= run_errors(src, p, q));
}

/// True for the bytes of the ASCII characters that begin a token other than an identifier or
/// a number: quotes, `#`, and the first characters of operators and punctuation.
pub open spec fn is_token_punct(b: u8) -> bool {
    ||| b == 34 || b == 39 || b == 35
    ||| b == 40 || b == 41 || b == 91 || b == 93 || b == 123 || b == 125
    ||| b == 44 || b == 59 || b == 58 || b == 46 || b == 63
    ||| b == 61 || b == 43 || b == 45 || b == 42 || b == 47 || b == 37
    ||| b == 33 || b == 94 || b == 60 || b == 62 || b == 38 || b == 124
}

/// True for the bytes of ASCII whitespace: tab, line feed, vertical tab, form feed,
/// carriage return and space.
pub open spec fn is_ascii_space(b: u8) -> bool {
    (9 <= b <= 13) || b == 32
}

/// Any other ASCII character (such as `@`, `$`, a backquote or a backslash) is an invalid
/// token of its own: its literal is the character, and the scan reports it as unexpected.
pub proof fn lemma_stray_character(src: Seq<u8>, pc: bool, p: int)
    requires
        0 <= p < src.len(),
        src[p] < 0x80,
        !is_ascii_space(src[p]),
        !is_token_punct(src[p]),
        !(48 <= src[p] <= 57),
        !(65 <= src[p] <= 90),
        !(97 <= src[p] <= 122),
        src[p] != 95,
    ensures
        scan_spec(src, pc, p) == (TokenScan {
            tok: Tok::Invalid,
            lit: Lit::Text(seq![src[p] as char]),
            pos: p,
            end: p + 1,
            errs: run_errors(src, p, p + 1) + seq![
                (crate::frontend::lexer::rules::LexError::UnexpectedCharacter, p),
            ],
        }),
{
    reveal(scan_spec);
    lemma_ascii_byte(src, p);
    assert(skip_while(src, p, ws_pred()) == p);
    assert(run_errors(src, p, p) =~= Seq::<Report>::empty());
    crate::frontend::lexer::lex::lemma_run_step(src, p, p + 1);
    assert(run_errors(src, p + 1, p + 1) =~= Seq::<Report>::empty());
}

/// Two points that a third does not follow are a point, reported as an invalid ellipsis;
/// three points are an ellipsis.
pub proof fn lemma_points(src: Seq<u8>, pc: bool, p: int)
    requires
        0 <= p,
        p + 2 <= src.len(),
        src[p] == 46,
        src[p + 1] == 46,
    ensures
        ({
            let s = scan_spec(src, pc, p);
            if p + 2 < src.len() && src[p + 2] == 46 {
                s == TokenScan {
                    tok: Tok::DotDotDot,
                    lit: Lit::Text(Tok::DotDotDot.spelling()),
                    pos: p,
                    end: p + 3,
                    errs: run_errors(src, p, p + 3),
                }
            } else {
                s == TokenScan {
                    tok: Tok::Dot,
                    lit: Lit::Text(Tok::Dot.spelling()),
                    pos: p,
                    end: p + 2,
                    errs: run_errors(src, p, p + 2) + seq![
                        (crate::frontend::lexer::rules::LexError::InvalidEllipsis, p),
                    ],
                }
            }
        }),
{
    reveal(scan_spec);
    lemma_ascii_byte(src, p);
    lemma_ascii_byte(src, p + 1);
    if p + 2 < src.len() {
        if src[p + 2] < 0x80 {
            lemma_ascii_byte(src, p + 2);
        } else {
            lemma_beyond_ascii(src, p + 2);
        }
    }
    assert(skip_while(src, p, ws_pred()) == p);
    assert(run_errors(src, p, p) =~= Seq::<Report>::empty());
    if p + 2 < src.len() && src[p + 2] == 46 {
        crate::frontend::lexer::lex::lemma_run_step(src, p, p + 3);
        crate::frontend::lexer::lex::lemma_run_step(src, p + 1, p + 3);
        crate::frontend::lexer::lex::lemma_run_step(src, p + 2, p + 3);
        assert(run_errors(src, p + 3, p + 3) =~= Seq::<Report>::empty());
        assert(Seq::<Report>::empty() + read_errors(src, p + 1) + run_errors(src, p + 1, p + 3)
            + Seq::<Report>::empty() =~= run_errors(src, p, p + 3));
    } else {
        crate::frontend::lexer::lex::lemma_run_step(src, p, p + 2);
        crate::frontend::lexer::lex::lemma_run_step(src, p + 1, p + 2);
        assert(run_errors(src, p + 2, p + 2) =~= Seq::<Report>::empty());
        assert(Seq::<Report>::empty() + read_errors(src, p + 1) + run_errors(src, p + 1, p + 2)
            =~= run_errors(src, p, p + 2));
    }
}

/// Skipping from `p` passes ASCII characters that the predicate accepts up to `w` and goes on
/// as skipping from `w`, reporting the errors of reading them first.
proof fn lemma_skip_prefix(src: Seq<u8>, p: int, w: int, pred: spec_fn(char) -> bool, r: int)
    requires
        0 <= p <= w <= r <= src.len(),
        forall|k: int| p <= k < w ==> #[trigger] src[k] < 0x80 && pred(src[k] as char),
    ensures
        skip_while(src, p, pred) == skip_while(src, w, pred),
        run_errors(src, p, r) == run_errors(src, p, w) + run_errors(src, w, r),
    decreases w - p,
{
    if p < w {
        assert(src[p] < 0x80 && pred(src[p] as char));
        lemma_ascii_byte(src, p);
        lemma_skip_prefix(src, p + 1, w, pred, r);
        crate::frontend::lexer::lex::lemma_run_step(src, p, r);
        crate::frontend::lexer::lex::lemma_run_step(src, p, w);
        assert(run_errors(src, p, r) =~= run_errors(src, p, w) + run_errors(src, w, r));
    } else {
        assert(run_errors(src, p, p) =~= Seq::<Report>::empty());
        assert(run_errors(src, p, r) =~= run_errors(src, p, w) + run_errors(src, w, r));
    }
}

/// ASCII whitespace before a token changes nothing but the errors of reading it, which come
/// first: tabs, newlines, vertical tabs, form feeds, carriage returns and spaces are skipped.
pub proof fn lemma_space_before(src: Seq<u8>, pc: bool, p: int, w: int)
    requires
        0 <= p <= w <= src.len(),
        forall|k: int| p <= k < w ==> is_ascii_space(#[trigger] src[k]),
    ensures
        scan_spec(src, pc, p) == (TokenScan {
            errs: run_errors(src, p, w) + scan_spec(src, pc, w).errs,
            ..scan_spec(src, pc, w)
        }),
{
    let wp = ws_pred();
    assert forall|k: int| p <= k < w implies #[trigger] src[k] < 0x80 && wp(src[k] as char) by {
        assert(is_ascii_space(src[k]));
    }
    lemma_skip_while(src, w, wp);
    let x = skip_while(src, w, wp);
    lemma_skip_prefix(src, p, w, wp, x);
    lemma_scan_from_skip(src, pc, p);
    lemma_scan_from_skip(src, pc, w);
    let s = scan_spec(src, pc, x);
    assert(run_errors(src, p, x) + s.errs =~= run_errors(src, p, w) + (run_errors(src, w, x)
        + s.errs));
}

/// A scan from `p` is the scan from the first character after the whitespace at `p`, with
/// the errors of reading the whitespace first.
#[verifier::spinoff_prover]
proof fn lemma_scan_from_skip(src: Seq<u8>, pc: bool, p: int)
    requires
        0 <= p <= src.len(),
    ensures
        ({
            let x = skip_while(src, p, ws_pred());
            scan_spec(src, pc, p) == (TokenScan {
                errs: run_errors(src, p, x) + scan_spec(src, pc, x).errs,
                ..scan_spec(src, pc, x)
            })
        }),
{
    lemma_skip_while(src, p, ws_pred());
    let x = skip_while(src, p, ws_pred());
    assert(skip_while(src, x, ws_pred()) == x);
    assert(run_errors(src, x, x) =~= Seq::<Report>::empty());
    match char_at(src, x) {
        None => {
            crate::frontend::lexer::rules::lemma_scan_eof(src, pc, p);
            crate::frontend::lexer::rules::lemma_scan_eof(src, pc, x);
        },
        Some(c) => {
            if crate::frontend::lexer::rules::starts_ident(c) {
                crate::frontend::lexer::rules::lemma_scan_ident(src, pc, p);
                crate::frontend::lexer::rules::lemma_scan_ident(src, pc, x);
                let e = skip_while(src, x, crate::frontend::lexer::rules::ident_pred());
                assert(run_errors(src, p, x) + (Seq::<Report>::empty() + run_errors(src, x, e))
                    =~= run_errors(src, p, x) + run_errors(src, x, e));
            } else if crate::frontend::lexer::rules::starts_number(src, c, x) {
                crate::frontend::lexer::rules::lemma_scan_number(src, pc, p);
                crate::frontend::lexer::rules::lemma_scan_number(src, pc, x);
                reveal(scan_spec);
                let ns = number_scan_of(src, x);
                assert(run_errors(src, p, x) + (Seq::<Report>::empty() + run_errors(src, x, ns.1)
                    + ns.2) =~= run_errors(src, p, x) + run_errors(src, x, ns.1) + ns.2);
            } else {
                reveal(scan_spec);
                let n = next_pos(src, x);
                assert(scan_spec(src, pc, p).errs =~= run_errors(src, p, x) + scan_spec(
                    src,
                    pc,
                    x,
                ).errs);
            }
        },
    }
}

/// The kind, end and extra errors of the number at `w`.
spec fn number_scan_of(src: Seq<u8>, w: int) -> (Tok, int, Seq<Report>) {
    crate::frontend::lexer::rules::number_scan(src, w)
}

/// `u` is an operator or punctuation whose spelling is that of `t` followed by `c`.
pub open spec fn extends(t: Tok, u: Tok, c: char) -> bool {
    u.ordinal_between(Tok::LeftParen, Tok::Question) && u.spelling() == t.spelling().push(c)
}

/// The longest spelling wins: the spelling of an operator or punctuation mark, followed by a
/// character that no longer operator continues it with (and, after a single point, neither
/// a point nor a digit), is that token, with no error of its own.
#[verifier::spinoff_prover]
#[verifier::rlimit(100)]
pub proof fn lemma_operator_followed(t: Tok, src: Seq<u8>, pc: bool, p: int)
    requires
        t.ordinal_between(Tok::LeftParen, Tok::Question),
        0 <= p,
        p + t.spelling().len() <= src.len(),
        src.subrange(p, p + t.spelling().len()) == crate::frontend::lexer::spelled::ascii_bytes(
            t.spelling(),
        ),
        p + t.spelling().len() < src.len() ==> forall|u: Tok|
            !#[trigger] extends(t, u, rune_at(src, p + t.spelling().len())),
        t == Tok::Dot && p + 1 < src.len() ==> src[p + 1] != 46 && !(48 <= src[p + 1] <= 57),
    ensures
        scan_spec(src, pc, p) == (TokenScan {
            tok: t,
            lit: Lit::Text(t.spelling()),
            pos: p,
            end: p + t.spelling().len(),
            errs: run_errors(src, p, p + t.spelling().len()),
        }),
{
    reveal(scan_spec);
    assert(run_errors(src, p, p) =~= Seq::<Report>::empty());
    match t {
        Tok::LeftParen => {
            reveal_strlit("(");
            let s = "("@;
            assert(src[p + 0] == src.subrange(p, p + 1)[0]);
            lemma_ascii_byte(src, p + 0);
            crate::frontend::lexer::lex::lemma_run_step(src, p + 0, p + 1);
            assert(run_errors(src, p + 1, p + 1) =~= Seq::<Report>::empty());
            if p + 1 < src.len() {
                lemma_width(src, p + 1);
            }
        },
        Tok::RightParen => {
            reveal_strlit(")");
            let s = ")"@;
            assert(src[p + 0] == src.subrange(p, p + 1)[0]);
            lemma_ascii_byte(src, p + 0);
            crate::frontend::lexer::lex::lemma_run_step(src, p + 0, p + 1);
            assert(run_errors(src, p + 1, p + 1) =~= Seq::<Report>::empty());
            if p + 1 < src.len() {
                lemma_width(src, p + 1);
            }
        },
        Tok::LeftBracket => {
            reveal_strlit("[");
            let s = "["@;
            assert(src[p + 0] == src.subrange(p, p + 1)[0]);
            lemma_ascii_byte(src, p + 0);
            crate::frontend::lexer::lex::lemma_run_step(src, p + 0, p + 1);
            assert(run_errors(src, p + 1, p + 1) =~= Seq::<Report>::empty());
            if p + 1 < src.len() {
                lemma_width(src, p + 1);
            }
        },
        Tok::RightBracket => {
            reveal_strlit("]");
            let s = "]"@;
            assert(src[p + 0] == src.subrange(p, p + 1)[0]);
            lemma_ascii_byte(src, p + 0);
            crate::frontend::lexer::lex::lemma_run_step(src, p + 0, p + 1);
            assert(run_errors(src, p + 1, p + 1) =~= Seq::<Report>::empty());
            if p + 1 < src.len() {
                lemma_width(src, p + 1);
            }
        },
        Tok::LeftBrace => {
            reveal_strlit("{");
            let s = "{"@;
            assert(src[p + 0] == src.subrange(p, p + 1)[0]);
            lemma_ascii_byte(src, p + 0);
            crate::frontend::lexer::lex::lemma_run_step(src, p + 0, p + 1);
            assert(run_errors(src, p + 1, p + 1) =~= Seq::<Report>::empty());
            if p + 1 < src.len() {
                lemma_width(src, p + 1);
            }
        },
        Tok::RightBrace => {
            reveal_strlit("}");
            let s = "}"@;
            assert(src[p + 0] == src.subrange(p, p + 1)[0]);
            lemma_ascii_byte(src, p + 0);
            crate::frontend::lexer::lex::lemma_run_step(src, p + 0, p + 1);
            assert(run_errors(src, p + 1, p + 1) =~= Seq::<Report>::empty());
            if p + 1 < src.len() {
                lemma_width(src, p + 1);
            }
        },
        Tok::Comma => {
            reveal_strlit(",");
            let s = ","@;
            assert(src[p + 0] == src.subrange(p, p + 1)[0]);
            lemma_ascii_byte(src, p + 0);
            crate::frontend::lexer::lex::lemma_run_step(src, p + 0, p + 1);
            assert(run_errors(src, p + 1, p + 1) =~= Seq::<Report>::empty());
            if p + 1 < src.len() {
                lemma_width(src, p + 1);
            }
        },
        Tok::Colon => {
            reveal_strlit(":");
            let s = ":"@;
            assert(src[p + 0] == src.subrange(p, p + 1)[0]);
            lemma_ascii_byte(src, p + 0);
            crate::frontend::lexer::lex::lemma_run_step(src, p + 0, p + 1);
            assert(run_errors(src, p + 1, p + 1) =~= Seq::<Report>::empty());
            if p + 1 < src.len() {
                lemma_width(src, p + 1);
            }
        },
        Tok::Semicolon => {
            reveal_strlit(";");
            let s = ";"@;
            assert(src[p + 0] == src.subrange(p, p + 1)[0]);
            lemma_ascii_byte(src, p + 0);
            crate::frontend::lexer::lex::lemma_run_step(src, p + 0, p + 1);
            assert(run_errors(src, p + 1, p + 1) =~= Seq::<Report>::empty());
            if p + 1 < src.len() {
                lemma_width(src, p + 1);
            }
        },
        Tok::Dot => {
            reveal_strlit(".");
            let s = "."@;
            assert(src[p + 0] == src.subrange(p, p + 1)[0]);
            lemma_ascii_byte(src, p + 0);
            crate::frontend::lexer::lex::lemma_run_step(src, p + 0, p + 1);
            assert(run_errors(src, p + 1, p + 1) =~= Seq::<Report>::empty());
            if p + 1 < src.len() {
                lemma_width(src, p + 1);
            }
        },
        Tok::DotDotDot => {
            reveal_strlit("...");
            let s = "..."@;
            assert(src[p + 0] == src.subrange(p, p + 3)[0]);
            lemma_ascii_byte(src, p + 0);
            crate::frontend::lexer::lex::lemma_run_step(src, p + 0, p + 3);
            assert(src[p + 1] == src.subrange(p, p + 3)[1]);
            lemma_ascii_byte(src, p + 1);
            crate::frontend::lexer::lex::lemma_run_step(src, p + 1, p + 3);
            assert(src[p + 2] == src.subrange(p, p + 3)[2]);
            lemma_ascii_byte(src, p + 2);
            crate::frontend::lexer::lex::lemma_run_step(src, p + 2, p + 3);
            assert(run_errors(src, p + 3, p + 3) =~= Seq::<Report>::empty());
            if p + 3 < src.len() {
                lemma_width(src, p + 3);
            }
        },
        Tok::Plus => {
            reveal_strlit("+");
            reveal_strlit("+=");
            let s = "+"@;
            assert(src[p + 0] == src.subrange(p, p + 1)[0]);
            lemma_ascii_byte(src, p + 0);
            crate::frontend::lexer::lex::lemma_run_step(src, p + 0, p + 1);
            assert(run_errors(src, p + 1, p + 1) =~= Seq::<Report>::empty());
            if p + 1 < src.len() {
                lemma_width(src, p + 1);
                if rune_at(src, p + 1) == '=' {
                    assert(Tok::PlusEq.spelling() =~= s.push('='));
                    assert(extends(Tok::Plus, Tok::PlusEq, rune_at(src, p + 1)));
                }
            }
        },
        Tok::Minus => {
            reveal_strlit("-");
            reveal_strlit("-=");
            let s = "-"@;
            assert(src[p + 0] == src.subrange(p, p + 1)[0]);
            lemma_ascii_byte(src, p + 0);
            crate::frontend::lexer::lex::lemma_run_step(src, p + 0, p + 1);
            assert(run_errors(src, p + 1, p + 1) =~= Seq::<Report>::empty());
            if p + 1 < src.len() {
                lemma_width(src, p + 1);
                if rune_at(src, p + 1) == '=' {
                    assert(Tok::MinusEq.spelling() =~= s.push('='));
                    assert(extends(Tok::Minus, Tok::MinusEq, rune_at(src, p + 1)));
                }
            }
        },
        Tok::Star => {
            reveal_strlit("*");
            reveal_strlit("*=");
            let s = "*"@;
            assert(src[p + 0] == src.subrange(p, p + 1)[0]);
            lemma_ascii_byte(src, p + 0);
            crate::frontend::lexer::lex::lemma_run_step(src, p + 0, p + 1);
            assert(run_errors(src, p + 1, p + 1) =~= Seq::<Report>::empty());
            if p + 1 < src.len() {
                lemma_width(src, p + 1);
                if rune_at(src, p + 1) == '=' {
                    assert(Tok::StarEq.spelling() =~= s.push('='));
                    assert(extends(Tok::Star, Tok::StarEq, rune_at(src, p + 1)));
                }
            }
        },
        Tok::Slash => {
            reveal_strlit("/");
            reveal_strlit("/=");
            let s = "/"@;
            assert(src[p + 0] == src.subrange(p, p + 1)[0]);
            lemma_ascii_byte(src, p + 0);
            crate::frontend::lexer::lex::lemma_run_step(src, p + 0, p + 1);
            assert(run_errors(src, p + 1, p + 1) =~= Seq::<Report>::empty());
            if p + 1 < src.len() {
                lemma_width(src, p + 1);
                if rune_at(src, p + 1) == '=' {
                    assert(Tok::SlashEq.spelling() =~= s.push('='));
                    assert(extends(Tok::Slash, Tok::SlashEq, rune_at(src, p + 1)));
                }
            }
        },
        Tok::Percent => {
            reveal_strlit("%");
            reveal_strlit("%=");
            let s = "%"@;
            assert(src[p + 0] == src.subrange(p, p + 1)[0]);
            lemma_ascii_byte(src, p + 0);
            crate::frontend::lexer::lex::lemma_run_step(src, p + 0, p + 1);
            assert(run_errors(src, p + 1, p + 1) =~= Seq::<Report>::empty());
            if p + 1 < src.len() {
                lemma_width(src, p + 1);
                if rune_at(src, p + 1) == '=' {
                    assert(Tok::PercentEq.spelling() =~= s.push('='));
                    assert(extends(Tok::Percent, Tok::PercentEq, rune_at(src, p + 1)));
                }
            }
        },
        Tok::Ampersand => {
            reveal_strlit("&");
            reveal_strlit("&=");
            reveal_strlit("&&");
            let s = "&"@;
            assert(src[p + 0] == src.subrange(p, p + 1)[0]);
            lemma_ascii_byte(src, p + 0);
            crate::frontend::lexer::lex::lemma_run_step(src, p + 0, p + 1);
            assert(run_errors(src, p + 1, p + 1) =~= Seq::<Report>::empty());
            if p + 1 < src.len() {
                lemma_width(src, p + 1);
                if rune_at(src, p + 1) == '=' {
                    assert(Tok::AndEq.spelling() =~= s.push('='));
                    assert(extends(Tok::Ampersand, Tok::AndEq, rune_at(src, p + 1)));
                }
                if rune_at(src, p + 1) == '&' {
                    assert(Tok::And.spelling() =~= s.push('&'));
                    assert(extends(Tok::Ampersand, Tok::And, rune_at(src, p + 1)));
                }
            }
        },
        Tok::Pipe => {
            reveal_strlit("|");
            reveal_strlit("|=");
            reveal_strlit("||");
            let s = "|"@;
            assert(src[p + 0] == src.subrange(p, p + 1)[0]);
            lemma_ascii_byte(src, p + 0);
            crate::frontend::lexer::lex::lemma_run_step(src, p + 0, p + 1);
            assert(run_errors(src, p + 1, p + 1) =~= Seq::<Report>::empty());
            if p + 1 < src.len() {
                lemma_width(src, p + 1);
                if rune_at(src, p + 1) == '=' {
                    assert(Tok::OrEq.spelling() =~= s.push('='));
                    assert(extends(Tok::Pipe, Tok::OrEq, rune_at(src, p + 1)));
                }
                if rune_at(src, p + 1) == '|' {
                    assert(Tok::Or.spelling() =~= s.push('|'));
                    assert(extends(Tok::Pipe, Tok::Or, rune_at(src, p + 1)));
                }
            }
        },
        Tok::Xor => {
            reveal_strlit("^");
            reveal_strlit("^=");
            let s = "^"@;
            assert(src[p + 0] == src.subrange(p, p + 1)[0]);
            lemma_ascii_byte(src, p + 0);
            crate::frontend::lexer::lex::lemma_run_step(src, p + 0, p + 1);
            assert(run_errors(src, p + 1, p + 1) =~= Seq::<Report>::empty());
            if p + 1 < src.len() {
                lemma_width(src, p + 1);
                if rune_at(src, p + 1) == '=' {
                    assert(Tok::XorEq.spelling() =~= s.push('='));
                    assert(extends(Tok::Xor, Tok::XorEq, rune_at(src, p + 1)));
                }
            }
        },
        Tok::LeftShift => {
            reveal_strlit("<<");
            reveal_strlit("<<=");
            let s = "<<"@;
            assert(src[p + 0] == src.subrange(p, p + 2)[0]);
            lemma_ascii_byte(src, p + 0);
            crate::frontend::lexer::lex::lemma_run_step(src, p + 0, p + 2);
            assert(src[p + 1] == src.subrange(p, p + 2)[1]);
            lemma_ascii_byte(src, p + 1);
            crate::frontend::lexer::lex::lemma_run_step(src, p + 1, p + 2);
            assert(run_errors(src, p + 2, p + 2) =~= Seq::<Report>::empty());
            if p + 2 < src.len() {
                lemma_width(src, p + 2);
                if rune_at(src, p + 2) == '=' {
                    assert(Tok::LshiftEq.spelling() =~= s.push('='));
                    assert(extends(Tok::LeftShift, Tok::LshiftEq, rune_at(src, p + 2)));
                }
            }
        },
        Tok::RightShift => {
            reveal_strlit(">>");
            reveal_strlit(">>=");
            let s = ">>"@;
            assert(src[p + 0] == src.subrange(p, p + 2)[0]);
            lemma_ascii_byte(src, p + 0);
            crate::frontend::lexer::lex::lemma_run_step(src, p + 0, p + 2);
            assert(src[p + 1] == src.subrange(p, p + 2)[1]);
            lemma_ascii_byte(src, p + 1);
            crate::frontend::lexer::lex::lemma_run_step(src, p + 1, p + 2);
            assert(run_errors(src, p + 2, p + 2) =~= Seq::<Report>::empty());
            if p + 2 < src.len() {
                lemma_width(src, p + 2);
                if rune_at(src, p + 2) == '=' {
                    assert(Tok::RshiftEq.spelling() =~= s.push('='));
                    assert(extends(Tok::RightShift, Tok::RshiftEq, rune_at(src, p + 2)));
                }
            }
        },
        Tok::PlusEq => {
            reveal_strlit("+=");
            let s = "+="@;
            assert(src[p + 0] == src.subrange(p, p + 2)[0]);
            lemma_ascii_byte(src, p + 0);
            crate::frontend::lexer::lex::lemma_run_step(src, p + 0, p + 2);
            assert(src[p + 1] == src.subrange(p, p + 2)[1]);
            lemma_ascii_byte(src, p + 1);
            crate::frontend::lexer::lex::lemma_run_step(src, p + 1, p + 2);
            assert(run_errors(src, p + 2, p + 2) =~= Seq::<Report>::empty());
            if p + 2 < src.len() {
                lemma_width(src, p + 2);
            }
        },
        Tok::MinusEq => {
            reveal_strlit("-=");
            let s = "-="@;
            assert(src[p + 0] == src.subrange(p, p + 2)[0]);
            lemma_ascii_byte(src, p + 0);
            crate::frontend::lexer::lex::lemma_run_step(src, p + 0, p + 2);
            assert(src[p + 1] == src.subrange(p, p + 2)[1]);
            lemma_ascii_byte(src, p + 1);
            crate::frontend::lexer::lex::lemma_run_step(src, p + 1, p + 2);
            assert(run_errors(src, p + 2, p + 2) =~= Seq::<Report>::empty());
            if p + 2 < src.len() {
                lemma_width(src, p + 2);
            }
        },
        Tok::StarEq => {
            reveal_strlit("*=");
            let s = "*="@;
            assert(src[p + 0] == src.subrange(p, p + 2)[0]);
            lemma_ascii_byte(src, p + 0);
            crate::frontend::lexer::lex::lemma_run_step(src, p + 0, p + 2);
            assert(src[p + 1] == src.subrange(p, p + 2)[1]);
            lemma_ascii_byte(src, p + 1);
            crate::frontend::lexer::lex::lemma_run_step(src, p + 1, p + 2);
            assert(run_errors(src, p + 2, p + 2) =~= Seq::<Report>::empty());
            if p + 2 < src.len() {
                lemma_width(src, p + 2);
            }
        },
        Tok::SlashEq => {
            reveal_strlit("/=");
            let s = "/="@;
            assert(src[p + 0] == src.subrange(p, p + 2)[0]);
            lemma_ascii_byte(src, p + 0);
            crate::frontend::lexer::lex::lemma_run_step(src, p + 0, p + 2);
            assert(src[p + 1] == src.subrange(p, p + 2)[1]);
            lemma_ascii_byte(src, p + 1);
            crate::frontend::lexer::lex::lemma_run_step(src, p + 1, p + 2);
            assert(run_errors(src, p + 2, p + 2) =~= Seq::<Report>::empty());
            if p + 2 < src.len() {
                lemma_width(src, p + 2);
            }
        },
        Tok::PercentEq => {
            reveal_strlit("%=");
            let s = "%="@;
            assert(src[p + 0] == src.subrange(p, p + 2)[0]);
            lemma_ascii_byte(src, p + 0);
            crate::frontend::lexer::lex::lemma_run_step(src, p + 0, p + 2);
            assert(src[p + 1] == src.subrange(p, p + 2)[1]);
            lemma_ascii_byte(src, p + 1);
            crate::frontend::lexer::lex::lemma_run_step(src, p + 1, p + 2);
            assert(run_errors(src, p + 2, p + 2) =~= Seq::<Report>::empty());
            if p + 2 < src.len() {
                lemma_width(src, p + 2);
            }
        },
        Tok::XorEq => {
            reveal_strlit("^=");
            let s = "^="@;
            assert(src[p + 0] == src.subrange(p, p + 2)[0]);
            lemma_ascii_byte(src, p + 0);
            crate::frontend::lexer::lex::lemma_run_step(src, p + 0, p + 2);
            assert(src[p + 1] == src.subrange(p, p + 2)[1]);
            lemma_ascii_byte(src, p + 1);
            crate::frontend::lexer::lex::lemma_run_step(src, p + 1, p + 2);
            assert(run_errors(src, p + 2, p + 2) =~= Seq::<Report>::empty());
            if p + 2 < src.len() {
                lemma_width(src, p + 2);
            }
        },
        Tok::AndEq => {
            reveal_strlit("&=");
            let s = "&="@;
            assert(src[p + 0] == src.subrange(p, p + 2)[0]);
            lemma_ascii_byte(src, p + 0);
            crate::frontend::lexer::lex::lemma_run_step(src, p + 0, p + 2);
            assert(src[p + 1] == src.subrange(p, p + 2)[1]);
            lemma_ascii_byte(src, p + 1);
            crate::frontend::lexer::lex::lemma_run_step(src, p + 1, p + 2);
            assert(run_errors(src, p + 2, p + 2) =~= Seq::<Report>::empty());
            if p + 2 < src.len() {
                lemma_width(src, p + 2);
            }
        },
        Tok::OrEq => {
            reveal_strlit("|=");
            let s = "|="@;
            assert(src[p + 0] == src.subrange(p, p + 2)[0]);
            lemma_ascii_byte(src, p + 0);
            crate::frontend::lexer::lex::lemma_run_step(src, p + 0, p + 2);
            assert(src[p + 1] == src.subrange(p, p + 2)[1]);
            lemma_ascii_byte(src, p + 1);
            crate::frontend::lexer::lex::lemma_run_step(src, p + 1, p + 2);
            assert(run_errors(src, p + 2, p + 2) =~= Seq::<Report>::empty());
            if p + 2 < src.len() {
                lemma_width(src, p + 2);
            }
        },
        Tok::LshiftEq => {
            reveal_strlit("<<=");
            let s = "<<="@;
            assert(src[p + 0] == src.subrange(p, p + 3)[0]);
            lemma_ascii_byte(src, p + 0);
            crate::frontend::lexer::lex::lemma_run_step(src, p + 0, p + 3);
            assert(src[p + 1] == src.subrange(p, p + 3)[1]);
            lemma_ascii_byte(src, p + 1);
            crate::frontend::lexer::lex::lemma_run_step(src, p + 1, p + 3);
            assert(src[p + 2] == src.subrange(p, p + 3)[2]);
            lemma_ascii_byte(src, p + 2);
            crate::frontend::lexer::lex::lemma_run_step(src, p + 2, p + 3);
            assert(run_errors(src, p + 3, p + 3) =~= Seq::<Report>::empty());
            if p + 3 < src.len() {
                lemma_width(src, p + 3);
            }
        },
        Tok::RshiftEq => {
            reveal_strlit(">>=");
            let s = ">>="@;
            assert(src[p + 0] == src.subrange(p, p + 3)[0]);
            lemma_ascii_byte(src, p + 0);
            crate::frontend::lexer::lex::lemma_run_step(src, p + 0, p + 3);
            assert(src[p + 1] == src.subrange(p, p + 3)[1]);
            lemma_ascii_byte(src, p + 1);
            crate::frontend::lexer::lex::lemma_run_step(src, p + 1, p + 3);
            assert(src[p + 2] == src.subrange(p, p + 3)[2]);
            lemma_ascii_byte(src, p + 2);
            crate::frontend::lexer::lex::lemma_run_step(src, p + 2, p + 3);
            assert(run_errors(src, p + 3, p + 3) =~= Seq::<Report>::empty());
            if p + 3 < src.len() {
                lemma_width(src, p + 3);
            }
        },
        Tok::Assign => {
            reveal_strlit("=");
            reveal_strlit("==");
            let s = "="@;
            assert(src[p + 0] == src.subrange(p, p + 1)[0]);
            lemma_ascii_byte(src, p + 0);
            crate::frontend::lexer::lex::lemma_run_step(src, p + 0, p + 1);
            assert(run_errors(src, p + 1, p + 1) =~= Seq::<Report>::empty());
            if p + 1 < src.len() {
                lemma_width(src, p + 1);
                if rune_at(src, p + 1) == '=' {
                    assert(Tok::Equals.spelling() =~= s.push('='));
                    assert(extends(Tok::Assign, Tok::Equals, rune_at(src, p + 1)));
                }
            }
        },
        Tok::Equals => {
            reveal_strlit("==");
            let s = "=="@;
            assert(src[p + 0] == src.subrange(p, p + 2)[0]);
            lemma_ascii_byte(src, p + 0);
            crate::frontend::lexer::lex::lemma_run_step(src, p + 0, p + 2);
            assert(src[p + 1] == src.subrange(p, p + 2)[1]);
            lemma_ascii_byte(src, p + 1);
            crate::frontend::lexer::lex::lemma_run_step(src, p + 1, p + 2);
            assert(run_errors(src, p + 2, p + 2) =~= Seq::<Report>::empty());
            if p + 2 < src.len() {
                lemma_width(src, p + 2);
            }
        },
        Tok::And => {
            reveal_strlit("&&");
            let s = "&&"@;
            assert(src[p + 0] == src.subrange(p, p + 2)[0]);
            lemma_ascii_byte(src, p + 0);
            crate::frontend::lexer::lex::lemma_run_step(src, p + 0, p + 2);
            assert(src[p + 1] == src.subrange(p, p + 2)[1]);
            lemma_ascii_byte(src, p + 1);
            crate::frontend::lexer::lex::lemma_run_step(src, p + 1, p + 2);
            assert(run_errors(src, p + 2, p + 2) =~= Seq::<Report>::empty());
            if p + 2 < src.len() {
                lemma_width(src, p + 2);
            }
        },
        Tok::Or => {
            reveal_strlit("||");
            let s = "||"@;
            assert(src[p + 0] == src.subrange(p, p + 2)[0]);
            lemma_ascii_byte(src, p + 0);
            crate::frontend::lexer::lex::lemma_run_step(src, p + 0, p + 2);
            assert(src[p + 1] == src.subrange(p, p + 2)[1]);
            lemma_ascii_byte(src, p + 1);
            crate::frontend::lexer::lex::lemma_run_step(src, p + 1, p + 2);
            assert(run_errors(src, p + 2, p + 2) =~= Seq::<Report>::empty());
            if p + 2 < src.len() {
                lemma_width(src, p + 2);
            }
        },
        Tok::Bang => {
            reveal_strlit("!");
            reveal_strlit("!=");
            let s = "!"@;
            assert(src[p + 0] == src.subrange(p, p + 1)[0]);
            lemma_ascii_byte(src, p + 0);
            crate::frontend::lexer::lex::lemma_run_step(src, p + 0, p + 1);
            assert(run_errors(src, p + 1, p + 1) =~= Seq::<Report>::empty());
            if p + 1 < src.len() {
                lemma_width(src, p + 1);
                if rune_at(src, p + 1) == '=' {
                    assert(Tok::BangEq.spelling() =~= s.push('='));
                    assert(extends(Tok::Bang, Tok::BangEq, rune_at(src, p + 1)));
                }
            }
        },
        Tok::BangEq => {
            reveal_strlit("!=");
            let s = "!="@;
            assert(src[p + 0] == src.subrange(p, p + 2)[0]);
            lemma_ascii_byte(src, p + 0);
            crate::frontend::lexer::lex::lemma_run_step(src, p + 0, p + 2);
            assert(src[p + 1] == src.subrange(p, p + 2)[1]);
            lemma_ascii_byte(src, p + 1);
            crate::frontend::lexer::lex::lemma_run_step(src, p + 1, p + 2);
            assert(run_errors(src, p + 2, p + 2) =~= Seq::<Report>::empty());
            if p + 2 < src.len() {
                lemma_width(src, p + 2);
            }
        },
        Tok::Less => {
            reveal_strlit("<");
            reveal_strlit("<<");
            reveal_strlit("<=");
            let s = "<"@;
            assert(src[p + 0] == src.subrange(p, p + 1)[0]);
            lemma_ascii_byte(src, p + 0);
            crate::frontend::lexer::lex::lemma_run_step(src, p + 0, p + 1);
            assert(run_errors(src, p + 1, p + 1) =~= Seq::<Report>::empty());
            if p + 1 < src.len() {
                lemma_width(src, p + 1);
                if rune_at(src, p + 1) == '<' {
                    assert(Tok::LeftShift.spelling() =~= s.push('<'));
                    assert(extends(Tok::Less, Tok::LeftShift, rune_at(src, p + 1)));
                }
                if rune_at(src, p + 1) == '=' {
                    assert(Tok::LessEq.spelling() =~= s.push('='));
                    assert(extends(Tok::Less, Tok::LessEq, rune_at(src, p + 1)));
                }
            }
        },
        Tok::Greater => {
            reveal_strlit(">");
            reveal_strlit(">>");
            reveal_strlit(">=");
            let s = ">"@;
            assert(src[p + 0] == src.subrange(p, p + 1)[0]);
            lemma_ascii_byte(src, p + 0);
            crate::frontend::lexer::lex::lemma_run_step(src, p + 0, p + 1);
            assert(run_errors(src, p + 1, p + 1) =~= Seq::<Report>::empty());
            if p + 1 < src.len() {
                lemma_width(src, p + 1);
                if rune_at(src, p + 1) == '>' {
                    assert(Tok::RightShift.spelling() =~= s.push('>'));
                    assert(extends(Tok::Greater, Tok::RightShift, rune_at(src, p + 1)));
                }
                if rune_at(src, p + 1) == '=' {
                    assert(Tok::GreaterEq.spelling() =~= s.push('='));
                    assert(extends(Tok::Greater, Tok::GreaterEq, rune_at(src, p + 1)));
                }
            }
        },
        Tok::LessEq => {
            reveal_strlit("<=");
            let s = "<="@;
            assert(src[p + 0] == src.subrange(p, p + 2)[0]);
            lemma_ascii_byte(src, p + 0);
            crate::frontend::lexer::lex::lemma_run_step(src, p + 0, p + 2);
            assert(src[p + 1] == src.subrange(p, p + 2)[1]);
            lemma_ascii_byte(src, p + 1);
            crate::frontend::lexer::lex::lemma_run_step(src, p + 1, p + 2);
            assert(run_errors(src, p + 2, p + 2) =~= Seq::<Report>::empty());
            if p + 2 < src.len() {
                lemma_width(src, p + 2);
            }
        },
        Tok::GreaterEq => {
            reveal_strlit(">=");
            let s = ">="@;
            assert(src[p + 0] == src.subrange(p, p + 2)[0]);
            lemma_ascii_byte(src, p + 0);
            crate::frontend::lexer::lex::lemma_run_step(src, p + 0, p + 2);
            assert(src[p + 1] == src.subrange(p, p + 2)[1]);
            lemma_ascii_byte(src, p + 1);
            crate::frontend::lexer::lex::lemma_run_step(src, p + 1, p + 2);
            assert(run_errors(src, p + 2, p + 2) =~= Seq::<Report>::empty());
            if p + 2 < src.len() {
                lemma_width(src, p + 2);
            }
        },
        Tok::Question => {
            reveal_strlit("?");
            let s = "?"@;
            assert(src[p + 0] == src.subrange(p, p + 1)[0]);
            lemma_ascii_byte(src, p + 0);
            crate::frontend::lexer::lex::lemma_run_step(src, p + 0, p + 1);
            assert(run_errors(src, p + 1, p + 1) =~= Seq::<Report>::empty());
            if p + 1 < src.len() {
                lemma_width(src, p + 1);
            }
        },
        _ => {},
    }
}

/// What reading a character reports, by its bytes: a NUL byte is a null character, a byte
/// that cannot start a UTF-8 character (a continuation byte, or `0xF8` to `0xFF`) is an
/// illegal character, and any other ASCII byte reports nothing; beyond the end nothing is
/// read.
pub proof fn lemma_read_error_bytes(src: Seq<u8>, n: int)
    ensures
        0 <= n < src.len() && src[n] == 0 ==> read_errors(src, n) == seq![
            (crate::frontend::lexer::rules::LexError::NullCharacter, n),
        ],
        0 <= n < src.len() && 0 < src[n] < 0x80 ==> read_errors(src, n) == Seq::<Report>::empty(),
        0 <= n < src.len() && ((0x80 <= src[n] <= 0xbf) || src[n] >= 0xf8) ==> read_errors(src, n)
            == seq![(crate::frontend::lexer::rules::LexError::IllegalCharacter, n)],
        !(0 <= n < src.len()) ==> read_errors(src, n) == Seq::<Report>::empty(),
{
    if 0 <= n < src.len() {
        lemma_width(src, n);
        let t = src.subrange(n, src.len() as int);
        assert(t[0] == src[n]);
        if (0x80 <= src[n] <= 0xbf) || src[n] >= 0xf8 {
            assert(!vstd::utf8::valid_first_scalar(t));
        }
    }
}

/// The bytes `EF BB BF` encode the byte order mark, one character of three bytes.
proof fn lemma_bom_bytes(src: Seq<u8>, n: int)
    requires
        0 <= n,
        n + 3 <= src.len(),
        src[n] == 0xef,
        src[n + 1] == 0xbb,
        src[n + 2] == 0xbf,
    ensures
        rune_at(src, n) == crate::frontend::lexer::unicode::BOM,
        width_at(src, n) == 3,
{
    let t = src.subrange(n, src.len() as int);
    assert(t[0] == 0xef && t[1] == 0xbb && t[2] == 0xbf);
    assert(vstd::utf8::codepoint_width_3(0xef, 0xbb, 0xbf) == 0xfeff) by (bit_vector);
    assert(vstd::utf8::valid_first_scalar(t));
    assert(vstd::utf8::decode_first_scalar(t) == 0xfeff);
    vstd::utf8::char_u32_cast(crate::frontend::lexer::unicode::BOM, 0xfeff);
}

/// A byte order mark anywhere but at the very start is reported when read; at the start it
/// is passed over, and the lexer begins right after it.
pub proof fn lemma_bom_read(src: Seq<u8>, n: int)
    requires
        0 <= n,
        n + 3 <= src.len(),
        src[n] == 0xef,
        src[n + 1] == 0xbb,
        src[n + 2] == 0xbf,
    ensures
        n > 0 ==> read_errors(src, n) == seq![
            (crate::frontend::lexer::rules::LexError::UnexpectedBom, n),
        ],
        n == 0 ==> read_errors(src, n) == Seq::<Report>::empty(),
        n == 0 ==> crate::frontend::lexer::lex::start_offset(src) == 3,
{
    lemma_bom_bytes(src, n);
}

/// The value of an ASCII digit byte of base 8 or 16.
pub open spec fn byte_digit(b: u8) -> int {
    if 48 <= b <= 57 {
        b - 48
    } else if 97 <= b <= 102 {
        b - 87
    } else {
        b - 55
    }
}

/// True for the bytes of digits of `base` (8 or 16).
pub open spec fn is_digit_of(b: u8, base: int) -> bool {
    if base == 8 {
        48 <= b <= 55
    } else {
        is_hex_byte(b)
    }
}

/// The number that `n` digit bytes from `q` write in `base`, after the digits worth `x`.
pub open spec fn digits_number(src: Seq<u8>, q: int, n: nat, base: int, x: int) -> int
    decreases n,
{
    if n == 0 {
        x
    } else {
        digits_number(src, q + 1, (n - 1) as nat, base, x * base + byte_digit(src[q]))
    }
}

/// Reading `n` digits of a numeric escape: the escape ends after them; it is valid when the
/// number they write is at most `max` and no surrogate, and reported as illegal at `start`
/// otherwise.
proof fn lemma_escape_digit_bytes(
    src: Seq<u8>,
    start: int,
    q: int,
    n: nat,
    base: int,
    max: int,
    x: int,
)
    requires
        0 <= q,
        q + n <= src.len(),
        base == 8 || base == 16,
        forall|i: int| q <= i < q + n ==> is_digit_of(#[trigger] src[i], base),
    ensures
        ({
            let v = digits_number(src, q, n, base, x);
            let ok = !(v > max || (0xD800 <= v < 0xE000));
            crate::frontend::lexer::rules::escape_digits(src, start, q, n, base, max, x) == (
                ok,
                q + n,
                run_errors(src, q, q + n) + if ok {
                    Seq::<Report>::empty()
                } else {
                    seq![(crate::frontend::lexer::rules::LexError::IllegalEscape, start)]
                },
            )
        }),
    decreases n,
{
    if n > 0 {
        assert(is_digit_of(src[q], base));
        lemma_ascii_byte(src, q);
        let c = src[q] as char;
        assert(crate::frontend::lexer::unicode::hex_value(c) as int == byte_digit(src[q]));
        lemma_escape_digit_bytes(src, start, q + 1, (n - 1) as nat, base, max, x * base
            + byte_digit(src[q]));
        crate::frontend::lexer::lex::lemma_run_step(src, q, q + n);
        let v = digits_number(src, q, n, base, x);
        let ok = !(v > max || (0xD800 <= v < 0xE000));
        let tail = if ok {
            Seq::<Report>::empty()
        } else {
            seq![(crate::frontend::lexer::rules::LexError::IllegalEscape, start)]
        };
        assert(read_errors(src, q + 1) + (run_errors(src, q + 1, q + n) + tail) =~= run_errors(
            src,
            q,
            q + n,
        ) + tail);
    } else {
        assert(run_errors(src, q, q) =~= Seq::<Report>::empty());
    }
}

/// In a string or char literal, an octal escape is three octal digits, starting right after the backslash; it is valid
/// when they write at most 255, and reported as illegal at its first digit otherwise.
pub proof fn lemma_octal_escape(src: Seq<u8>, p: int, quote: char)
    requires
        quote == '"' || quote == '\'',
        0 <= p,
        p + 3 <= src.len(),
        48 <= src[p] <= 55,
        48 <= src[p + 1] <= 55,
        48 <= src[p + 2] <= 55,
    ensures
        ({
            let v = (src[p] - 48) * 64 + (src[p + 1] - 48) * 8 + (src[p + 2] - 48);
            escape_scan(src, p, quote) == (
                v <= 255,
                p + 3,
                run_errors(src, p, p + 3) + if v <= 255 {
                    Seq::<Report>::empty()
                } else {
                    seq![(crate::frontend::lexer::rules::LexError::IllegalEscape, p)]
                },
            )
        }),
{
    lemma_ascii_byte(src, p);
    lemma_escape_digit_bytes(src, p, p, 3, 8, 255, 0);
    let a = byte_digit(src[p]);
    let b = byte_digit(src[p + 1]);
    let c = byte_digit(src[p + 2]);
    assert(digits_number(src, p, 3, 8, 0) == digits_number(src, p + 1, 2, 8, a));
    assert(digits_number(src, p + 1, 2, 8, a) == digits_number(src, p + 2, 1, 8, a * 8 + b));
    assert(digits_number(src, p + 2, 1, 8, a * 8 + b) == digits_number(
        src,
        p + 3,
        0,
        8,
        (a * 8 + b) * 8 + c,
    ));
    assert(digits_number(src, p + 3, 0, 8, (a * 8 + b) * 8 + c) == (a * 8 + b) * 8 + c);
}

/// In a string or char literal, an escape `x` and two hexadecimal digits is valid and ends after them.
pub proof fn lemma_hex_escape(src: Seq<u8>, p: int, quote: char)
    requires
        quote == '"' || quote == '\'',
        0 <= p,
        p + 3 <= src.len(),
        src[p] == 120,
        is_hex_byte(src[p + 1]),
        is_hex_byte(src[p + 2]),
    ensures
        escape_scan(src, p, quote) == (true, p + 3, run_errors(src, p, p + 3)),
{
    lemma_ascii_byte(src, p);
    lemma_escape_digit_bytes(src, p, p + 1, 2, 16, 255, 0);
    crate::frontend::lexer::lex::lemma_run_step(src, p, p + 3);
    let a = byte_digit(src[p + 1]);
    let b = byte_digit(src[p + 2]);
    assert(digits_number(src, p + 1, 2, 16, 0) == digits_number(src, p + 2, 1, 16, a));
    assert(digits_number(src, p + 2, 1, 16, a) == digits_number(src, p + 3, 0, 16, a * 16 + b));
    assert(digits_number(src, p + 3, 0, 16, a * 16 + b) == a * 16 + b);
    assert(read_errors(src, p + 1) + (run_errors(src, p + 1, p + 3) + Seq::<Report>::empty())
        =~= run_errors(src, p, p + 3));
}

/// In a string or char literal, an escape `u` and four hexadecimal digits ends after them; it is valid unless the digits
/// write a surrogate (`D800` to `DFFF`), which is reported as illegal at the `u`.
pub proof fn lemma_unicode_escape(src: Seq<u8>, p: int, quote: char)
    requires
        quote == '"' || quote == '\'',
        0 <= p,
        p + 5 <= src.len(),
        src[p] == 117,
        forall|i: int| p + 1 <= i < p + 5 ==> is_hex_byte(#[trigger] src[i]),
    ensures
        ({
            let v = byte_digit(src[p + 1]) * 4096 + byte_digit(src[p + 2]) * 256 + byte_digit(
                src[p + 3],
            ) * 16 + byte_digit(src[p + 4]);
            let ok = !(0xD800 <= v < 0xE000);
            escape_scan(src, p, quote) == (
                ok,
                p + 5,
                run_errors(src, p, p + 5) + if ok {
                    Seq::<Report>::empty()
                } else {
                    seq![(crate::frontend::lexer::rules::LexError::IllegalEscape, p)]
                },
            )
        }),
{
    lemma_ascii_byte(src, p);
    assert(is_hex_byte(src[p + 1]) && is_hex_byte(src[p + 2]) && is_hex_byte(src[p + 3])
        && is_hex_byte(src[p + 4]));
    lemma_escape_digit_bytes(src, p, p + 1, 4, 16, 0x10FFFF, 0);
    crate::frontend::lexer::lex::lemma_run_step(src, p, p + 5);
    let a = byte_digit(src[p + 1]);
    let b = byte_digit(src[p + 2]);
    let c = byte_digit(src[p + 3]);
    let d = byte_digit(src[p + 4]);
    assert(digits_number(src, p + 1, 4, 16, 0) == digits_number(src, p + 2, 3, 16, a));
    assert(digits_number(src, p + 2, 3, 16, a) == digits_number(src, p + 3, 2, 16, a * 16 + b));
    assert(digits_number(src, p + 3, 2, 16, a * 16 + b) == digits_number(
        src,
        p + 4,
        1,
        16,
        (a * 16 + b) * 16 + c,
    ));
    assert(digits_number(src, p + 4, 1, 16, (a * 16 + b) * 16 + c) == digits_number(
        src,
        p + 5,
        0,
        16,
        ((a * 16 + b) * 16 + c) * 16 + d,
    ));
    assert(digits_number(src, p + 5, 0, 16, ((a * 16 + b) * 16 + c) * 16 + d) == a * 4096 + b
        * 256 + c * 16 + d);
    let v = a * 4096 + b * 256 + c * 16 + d;
    let ok = !(0xD800 <= v < 0xE000);
    let tail = if ok {
        Seq::<Report>::empty()
    } else {
        seq![(crate::frontend::lexer::rules::LexError::IllegalEscape, p)]
    };
    assert(read_errors(src, p + 1) + (run_errors(src, p + 1, p + 5) + tail) =~= run_errors(
        src,
        p,
        p + 5,
    ) + tail);
}

/// The characters of ASCII bytes.
pub open spec fn ascii_chars(b: Seq<u8>) -> Seq<char> {
    Seq::new(b.len(), |i: int| b[i] as char)
}

/// ASCII bytes decode to their characters.
proof fn lemma_decode_ascii(b: Seq<u8>)
    requires
        forall|i: int| 0 <= i < b.len() ==> #[trigger] b[i] < 0x80,
    ensures
        vstd::utf8::valid_utf8(b),
        vstd::utf8::decode_utf8(b) == ascii_chars(b),
    decreases b.len(),
{
    if b.len() > 0 {
        lemma_ascii_byte(b, 0);
        let t = b.subrange(1, b.len() as int);
        assert forall|i: int| 0 <= i < t.len() implies #[trigger] t[i] < 0x80 by {
            assert(t[i] == b[i + 1]);
        }
        lemma_decode_ascii(t);
        assert(b.subrange(0, b.len() as int) =~= b);
        assert(vstd::utf8::valid_first_scalar(b));
        assert(vstd::utf8::pop_first_scalar(b) =~= t);
        assert(vstd::utf8::decode_utf8(b) =~= ascii_chars(b));
    }
}

/// True for the bytes of ASCII letters.
pub open spec fn is_ascii_letter(b: u8) -> bool {
    (65 <= b <= 90) || (97 <= b <= 122)
}

/// A word of ASCII letters and digits that starts with a letter runs up to the first
/// character that is neither: it is the keyword it spells, or else an identifier, read from
/// the source, with only the errors of reading its characters. An underscore ends it.
pub proof fn lemma_ascii_word(src: Seq<u8>, pc: bool, p: int, q: int)
    requires
        0 <= p < q <= src.len(),
        is_ascii_letter(src[p]),
        forall|k: int| p <= k < q ==> is_ascii_letter(#[trigger] src[k]) || (48 <= src[k] <= 57),
        q < src.len() ==> src[q] < 0x80 && !is_ascii_letter(src[q]) && !(48 <= src[q] <= 57),
    ensures
        scan_spec(src, pc, p) == (TokenScan {
            tok: crate::frontend::lexer::token::keyword_or_identifier(
                ascii_chars(src.subrange(p, q)),
            ),
            lit: Lit::Source(p, q),
            pos: p,
            end: q,
            errs: run_errors(src, p, q),
        }),
{
    lemma_ascii_byte(src, p);
    assert(skip_while(src, p, ws_pred()) == p);
    crate::frontend::lexer::rules::lemma_scan_ident(src, pc, p);
    if q < src.len() {
        lemma_ascii_byte(src, q);
    }
    let ip = crate::frontend::lexer::rules::ident_pred();
    assert forall|k: int| p <= k < q implies #[trigger] src[k] < 0x80 && ip(src[k] as char) by {
        assert(is_ascii_letter(src[k]) || (48 <= src[k] <= 57));
    }
    lemma_ascii_skip(src, p, q, ip);
    let b = src.subrange(p, q);
    assert forall|i: int| 0 <= i < b.len() implies #[trigger] b[i] < 0x80 by {
        assert(b[i] == src[p + i]);
        assert(is_ascii_letter(src[p + i]) || (48 <= src[p + i] <= 57));
    }
    lemma_decode_ascii(b);
    assert(run_errors(src, p, p) =~= Seq::<Report>::empty());
    assert(Seq::<Report>::empty() + run_errors(src, p, q) =~= run_errors(src, p, q));
}

/// An escape that is cut off by the end of the source is unterminated; a backslash before
/// an ASCII character that starts no escape (any but `a b f n r t v`, a backslash, the
/// quote, an octal digit, `x`, `u` and `U`) is an unknown escape; neither moves on.
pub proof fn lemma_bad_escape(src: Seq<u8>, p: int, quote: char)
    requires
        0 <= p,
        quote == '"' || quote == '\'',
        p < src.len() ==> ({
            let b = src[p];
            &&& b < 0x80
            &&& b as char != quote
            &&& !(48 <= b <= 55)
            &&& b != 92 && b != 97 && b != 98 && b != 102 && b != 110 && b != 114 && b != 116
                && b != 118
            &&& b != 120 && b != 117 && b != 85
        }),
    ensures
        p >= src.len() ==> escape_scan(src, p, quote) == (false, p, seq![
            (crate::frontend::lexer::rules::LexError::UnterminatedEscape, p),
        ]),
        p < src.len() ==> escape_scan(src, p, quote) == (false, p, seq![
            (crate::frontend::lexer::rules::LexError::UnknownEscape, p),
        ]),
{
    if p < src.len() {
        lemma_ascii_byte(src, p);
    }
}

} // verus!
