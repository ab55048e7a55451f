use vstd::prelude::*;
use vstd::utf8::{length_of_first_scalar, pop_first_scalar, valid_first_scalar, valid_utf8};

use crate::frontend::lexer::lex::start_offset;
use crate::frontend::lexer::rules::{
    char_scan, escape_digits, escape_scan, lemma_escape_scan, lemma_skip_while, next_pos,
    number_scan, punct_scan, scan_safe, scan_spec, skip_while, string_scan, ws_pred,
    comment_pred,
};
use crate::frontend::lexer::unicode::{lemma_width, width_at};

verus! {

/// The source from `p` to its end is valid UTF-8: `p` starts a character of a well-formed
/// rest of the source.
pub open spec fn valid_from(src: Seq<u8>, p: int) -> bool {
    0 <= p <= src.len() && valid_utf8(src.subrange(p, src.len() as int))
}

/// Reading one character of a valid rest of the source leaves a valid rest.
proof fn lemma_valid_step(src: Seq<u8>, p: int)
    requires
        valid_from(src, p),
    ensures
        valid_from(src, next_pos(src, p)),
{
    if p < src.len() {
        let t = src.subrange(p, src.len() as int);
        assert(valid_first_scalar(t));
        lemma_width(src, p);
        let w = width_at(src, p);
        assert(pop_first_scalar(t) =~= src.subrange(p + w, src.len() as int));
    } else {
        assert(src.subrange(src.len() as int, src.len() as int) =~= Seq::<u8>::empty());
    }
}

/// Between two starts of characters of a valid rest of the source lies valid UTF-8.
proof fn lemma_valid_between(src: Seq<u8>, a: int, b: int)
    requires
        valid_from(src, a),
        valid_from(src, b),
        a <= b,
    ensures
        valid_utf8(src.subrange(a, b)),
    decreases b - a,
{
    let s = src.subrange(a, b);
    if a < b {
        let t = src.subrange(a, src.len() as int);
        assert(valid_first_scalar(t));
        lemma_width(src, a);
        let w = width_at(src, a);
        assert(w == length_of_first_scalar(t));
        if b < src.len() {
            let u = src.subrange(b, src.len() as int);
            assert(valid_first_scalar(u));
            assert(u[0] == src[b]);
            if b < a + w {
                assert(vstd::utf8::is_continuation_byte(src[b]));
            }
        }
        assert(a + w <= b);
        lemma_valid_step(src, a);
        lemma_valid_between(src, a + w, b);
        assert forall|i: int| 0 <= i < w implies #[trigger] s[i] == t[i] by {}
        assert(valid_first_scalar(s));
        assert(pop_first_scalar(s) =~= src.subrange(a + w, b));
    } else {
        assert(s.len() == 0);
    }
}

/// Skipping characters from a start of a character of a valid rest ends at one.
proof fn lemma_valid_skip(src: Seq<u8>, p: int, pred: spec_fn(char) -> bool)
    requires
        valid_from(src, p),
    ensures
        valid_from(src, skip_while(src, p, pred)),
    decreases src.len() - p,
{
    if 0 <= p < src.len() && pred(crate::frontend::lexer::unicode::rune_at(src, p)) {
        lemma_width(src, p);
        lemma_valid_step(src, p);
        lemma_valid_skip(src, next_pos(src, p), pred);
    }
}

/// The digits of a numeric escape end at a start of a character.
proof fn lemma_valid_escape_digits(
    src: Seq<u8>,
    start: int,
    q: int,
    n: nat,
    base: int,
    max: int,
    x: int,
)
    requires
        valid_from(src, q),
    ensures
        valid_from(src, escape_digits(src, start, q, n, base, max, x).1),
    decreases n,
{
    if n > 0 {
        if let Some(ch) = crate::frontend::lexer::rules::char_at(src, q) {
            let d = crate::frontend::lexer::unicode::hex_value(ch) as int;
            if d < base {
                lemma_valid_step(src, q);
                lemma_valid_escape_digits(
                    src,
                    start,
                    next_pos(src, q),
                    (n - 1) as nat,
                    base,
                    max,
                    x * base + d,
                );
            }
        }
    }
}

/// An escape sequence ends at a start of a character.
proof fn lemma_valid_escape(src: Seq<u8>, p: int, quote: char)
    requires
        valid_from(src, p),
    ensures
        valid_from(src, escape_scan(src, p, quote).1),
{
    lemma_valid_step(src, p);
    lemma_valid_escape_digits(src, p, p, 3, 8, 255, 0);
    let n = next_pos(src, p);
    lemma_valid_escape_digits(src, p, n, 2, 16, 255, 0);
    lemma_valid_escape_digits(src, p, n, 4, 16, 0x10FFFF, 0);
    lemma_valid_escape_digits(src, p, n, 8, 16, 0x10FFFF, 0);
}

/// A string literal ends at a start of a character.
proof fn lemma_valid_string(src: Seq<u8>, q: int, start: int)
    requires
        valid_from(src, q),
    ensures
        valid_from(src, string_scan(src, q, start).0),
    decreases src.len() - q,
{
    if let Some(ch) = crate::frontend::lexer::rules::char_at(src, q) {
        if ch != '\n' {
            lemma_width(src, q);
            lemma_valid_step(src, q);
            let n = next_pos(src, q);
            if ch == '\\' {
                lemma_valid_escape(src, n, '"');
                lemma_escape_scan(src, n, '"');
                lemma_valid_string(src, escape_scan(src, n, '"').1, start);
            } else if ch != '"' {
                lemma_valid_string(src, n, start);
            }
        }
    }
}

/// A char literal ends at a start of a character.
proof fn lemma_valid_char(src: Seq<u8>, q: int, start: int, valid: bool, n: int)
    requires
        valid_from(src, q),
    ensures
        valid_from(src, char_scan(src, q, start, valid, n).0),
    decreases src.len() - q,
{
    if let Some(ch) = crate::frontend::lexer::rules::char_at(src, q) {
        if ch != '\n' {
            lemma_width(src, q);
            lemma_valid_step(src, q);
            let nx = next_pos(src, q);
            if ch == '\\' {
                lemma_valid_escape(src, nx, '\'');
                lemma_escape_scan(src, nx, '\'');
                let esc = escape_scan(src, nx, '\'');
                lemma_valid_char(src, esc.1, start, esc.0, n + 1);
            } else if ch != '\'' {
                lemma_valid_char(src, nx, start, valid, n + 1);
            }
        }
    }
}

/// A number literal ends at a start of a character.
proof fn lemma_valid_number(src: Seq<u8>, p: int)
    requires
        valid_from(src, p),
    ensures
        valid_from(src, number_scan(src, p).1),
{
    lemma_valid_step(src, p);
    let p1 = next_pos(src, p);
    lemma_valid_step(src, p1);
    let p2 = next_pos(src, p1);
    let base = crate::frontend::lexer::rules::number_base(src, p);
    let ds = crate::frontend::lexer::rules::number_digits_start(src, p);
    assert(valid_from(src, ds));
    lemma_valid_skip(src, ds, crate::frontend::lexer::rules::digit_pred(base));
    let ie = crate::frontend::lexer::rules::number_int_end(src, p);
    lemma_valid_step(src, ie);
    lemma_valid_skip(src, next_pos(src, ie), crate::frontend::lexer::rules::digit_pred(base));
    let me = crate::frontend::lexer::rules::number_mantissa_end(src, p);
    assert(valid_from(src, me));
    lemma_valid_step(src, me);
    let q = next_pos(src, me);
    lemma_valid_step(src, q);
    let q4 = crate::frontend::lexer::rules::number_exponent_digits_start(src, p);
    assert(valid_from(src, q4));
    lemma_valid_skip(src, q4, crate::frontend::lexer::rules::digit_pred(10));
}

/// An operator or punctuation ends at a start of a character.
proof fn lemma_valid_punct(src: Seq<u8>, c: char, w: int, n: int)
    requires
        valid_from(src, n),
    ensures
        valid_from(src, punct_scan(src, c, w, n).1),
{
    lemma_valid_step(src, n);
    lemma_valid_step(src, next_pos(src, n));
}

/// Scanning from a start of a character of a valid rest of the source is safe, and ends at
/// a start of a character again: every literal it slices out of the source is valid UTF-8.
pub proof fn lemma_valid_scan(src: Seq<u8>, pc: bool, p: int)
    requires
        valid_from(src, p),
    ensures
        scan_safe(src, pc, p),
        valid_from(src, scan_spec(src, pc, p).end),
    decreases src.len() - p,
{
    reveal(scan_safe);
    reveal(scan_spec);
    lemma_skip_while(src, p, ws_pred());
    lemma_valid_skip(src, p, ws_pred());
    let w = skip_while(src, p, ws_pred());
    if let Some(c) = crate::frontend::lexer::rules::char_at(src, w) {
        lemma_width(src, w);
        lemma_valid_step(src, w);
        let n = next_pos(src, w);
        if crate::frontend::lexer::rules::starts_ident(c) {
            lemma_valid_skip(src, w, crate::frontend::lexer::rules::ident_pred());
            lemma_skip_while(src, w, crate::frontend::lexer::rules::ident_pred());
            lemma_valid_between(src, w, skip_while(src, w, crate::frontend::lexer::rules::ident_pred()));
        } else if crate::frontend::lexer::rules::starts_number(src, c, w) {
            lemma_valid_number(src, w);
            crate::frontend::lexer::rules::lemma_number_scan(src, w);
            lemma_valid_between(src, w, number_scan(src, w).1);
        } else if c == '"' {
            lemma_valid_string(src, n, w);
            crate::frontend::lexer::rules::lemma_string_scan(src, n, w);
            lemma_valid_between(src, w, string_scan(src, n, w).0);
        } else if c == '\'' {
            lemma_valid_char(src, n, w, true, 0);
            crate::frontend::lexer::rules::lemma_char_scan(src, n, w, true, 0);
            lemma_valid_between(src, w, char_scan(src, n, w, true, 0).0);
        } else if c == '#' {
            lemma_skip_while(src, n, comment_pred());
            lemma_valid_skip(src, n, comment_pred());
            let ce = skip_while(src, n, comment_pred());
            lemma_valid_between(src, w, ce);
            if !pc {
                lemma_valid_scan(src, pc, ce);
            }
        } else {
            lemma_valid_punct(src, c, w, n);
        }
    }
}

/// A valid UTF-8 source is valid from the offset where a lexer starts.
pub proof fn lemma_valid_start(src: Seq<u8>)
    requires
        valid_utf8(src),
    ensures
        valid_from(src, start_offset(src)),
{
    assert(src.subrange(0, src.len() as int) =~= src);
    lemma_valid_step(src, 0);
}

} // verus!
