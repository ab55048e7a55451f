use vstd::prelude::*;
use vstd::utf8::*;

verus! {

/// The byte order mark, U+FEFF.
pub const BOM: char = '\u{FEFF}';

/// The replacement character, U+FFFD, that stands for bytes that do not decode.
pub const REPLACEMENT: char = '\u{FFFD}';

/// Whether a character beyond ASCII has the Unicode `Alphabetic` property, as
/// `char::is_alphabetic` answers for it.
pub uninterp spec fn alphabetic_beyond_ascii(c: char) -> bool;

/// Whether a character beyond ASCII is numeric in the sense of `char::is_numeric` (general
/// categories `Nd`, `Nl` and `No`).
pub uninterp spec fn numeric_beyond_ascii(c: char) -> bool;

/// Whether `c` has the Unicode `Alphabetic` property, as `char::is_alphabetic` answers: in
/// ASCII, exactly the letters.
pub open spec fn char_is_alphabetic(c: char) -> bool {
    if (c as u32) < 0x80 {
        ('a' <= c <= 'z') || ('A' <= c <= 'Z')
    } else {
        alphabetic_beyond_ascii(c)
    }
}

/// Whether `c` is numeric in the sense of `char::is_numeric` (general categories `Nd`, `Nl`
/// and `No`): in ASCII, exactly the digits.
pub open spec fn char_is_numeric(c: char) -> bool {
    if (c as u32) < 0x80 {
        '0' <= c <= '9'
    } else {
        numeric_beyond_ascii(c)
    }
}

/// Whether `c` has the Unicode `White_Space` property, as `char::is_whitespace` answers: the
/// property holds of tab, line feed, vertical tab, form feed, carriage return, space, U+0085,
/// U+00A0, U+1680, U+2000 to U+200A, U+2028, U+2029, U+202F, U+205F and U+3000.
pub open spec fn char_is_whitespace(c: char) -> bool {
    ||| '\u{9}' <= c <= '\u{d}'
    ||| c == ' '
    ||| c == '\u{85}'
    ||| c == '\u{a0}'
    ||| c == '\u{1680}'
    ||| '\u{2000}' <= c <= '\u{200a}'
    ||| c == '\u{2028}'
    ||| c == '\u{2029}'
    ||| c == '\u{202f}'
    ||| c == '\u{205f}'
    ||| c == '\u{3000}'
}

/// `char::is_alphabetic`: in ASCII true exactly for the letters; beyond ASCII its result is
/// named `alphabetic_beyond_ascii`, a function of `c` alone.
#[verifier::external_body]
pub(crate) fn is_alphabetic(c: char) -> (r: bool)
    ensures
        r == char_is_alphabetic(c),
        (c as u32) >= 0x80 ==> r == alphabetic_beyond_ascii(c),
{
    c.is_alphabetic()
}

/// `char::is_numeric`: in ASCII true exactly for the digits; beyond ASCII its result is named
/// `numeric_beyond_ascii`, a function of `c` alone.
#[verifier::external_body]
pub(crate) fn is_numeric(c: char) -> (r: bool)
    ensures
        r == char_is_numeric(c),
        (c as u32) >= 0x80 ==> r == numeric_beyond_ascii(c),
{
    c.is_numeric()
}

/// Whether `c` has the `White_Space` property.
pub(crate) fn is_whitespace(c: char) -> (r: bool)
    ensures
        r == char_is_whitespace(c),
{
    ('\u{9}' <= c && c <= '\u{d}') || c == ' ' || c == '\u{85}' || c == '\u{a0}'
        || c == '\u{1680}' || ('\u{2000}' <= c && c <= '\u{200a}') || c == '\u{2028}'
        || c == '\u{2029}' || c == '\u{202f}' || c == '\u{205f}' || c == '\u{3000}'
}

/// `char::from_u32`: the character with scalar value `x`, or `None` when `x` is a surrogate or
/// lies above U+10FFFF.
#[verifier::external_body]
fn char_from_u32(x: u32) -> (r: Option<char>)
    ensures
        r == (if is_scalar(x) {
            Some(x as char)
        } else {
            None
        }),
{
    char::from_u32(x)
}

/// `char::to_string`: the string that holds the single character `c`.
#[verifier::external_body]
pub(crate) fn char_to_string(c: char) -> (r: String)
    ensures
        r@ == seq![c],
{
    c.to_string()
}

/// `std::str::from_utf8`: the text that `bytes` encode when they are valid UTF-8, and `None`
/// otherwise.
#[verifier::external_body]
pub(crate) fn utf8_text(bytes: &[u8]) -> (r: Option<&str>)
    ensures
        r is Some <==> valid_utf8(bytes@),
        r matches Some(s) ==> s@ == decode_utf8(bytes@),
{
    std::str::from_utf8(bytes).ok()
}

/// The value of `c` as a hexadecimal digit, or 16 when `c` is no hexadecimal digit.
pub open spec fn hex_value(c: char) -> u32 {
    if '0' <= c <= '9' {
        (c as u32 - '0' as u32) as u32
    } else if 'a' <= c <= 'f' {
        (c as u32 - 'a' as u32 + 10) as u32
    } else if 'A' <= c <= 'F' {
        (c as u32 - 'A' as u32 + 10) as u32
    } else {
        16
    }
}

/// The value of `ch` as a hexadecimal digit, 16 when it is none (`to_digit(16)`, with 16 for
/// `None`).
#[inline(always)]
pub fn hex_digit_value(ch: char) -> (r: u32)
    ensures
        r == hex_value(ch),
{
    if '0' <= ch && ch <= '9' {
        (ch as u32) - ('0' as u32)
    } else if 'a' <= ch && ch <= 'f' {
        (ch as u32) - ('a' as u32) + 10
    } else if 'A' <= ch && ch <= 'F' {
        (ch as u32) - ('A' as u32) + 10
    } else {
        16
    }
}

/// True when `c` is one of the ASCII digits `0` to `9`.
pub open spec fn is_digit_char(c: char) -> bool {
    '0' <= c <= '9'
}

/// True when the byte `b` is one of the ASCII digits `0` to `9`.
pub open spec fn is_digit_byte(b: u8) -> bool {
    48 <= b <= 57
}

/// The character at byte `i` of `src`: the scalar that the bytes from `i` encode when they
/// begin with a well-formed UTF-8 encoding, U+FFFD otherwise.
pub open spec fn rune_at(src: Seq<u8>, i: int) -> char {
    if valid_first_scalar(src.subrange(i, src.len() as int)) {
        decode_first_scalar(src.subrange(i, src.len() as int)) as char
    } else {
        REPLACEMENT
    }
}

/// The number of bytes that the character at byte `i` of `src` takes: the length of the
/// encoding when it is well formed, 1 otherwise.
pub open spec fn width_at(src: Seq<u8>, i: int) -> int {
    if valid_first_scalar(src.subrange(i, src.len() as int)) {
        length_of_first_scalar(src.subrange(i, src.len() as int))
    } else {
        1
    }
}

/// A character takes between 1 and 4 bytes and ends inside `src`; a character that takes more
/// than one byte continues with continuation bytes only.
pub proof fn lemma_width(src: Seq<u8>, i: int)
    requires
        0 <= i < src.len(),
    ensures
        1 <= width_at(src, i) <= 4,
        i + width_at(src, i) <= src.len(),
        forall|k: int| i < k < i + width_at(src, i) ==> is_continuation_byte(#[trigger] src[k]),
        width_at(src, i) == 1 && src[i] < 0x80 ==> rune_at(src, i) == src[i] as char,
        width_at(src, i) > 1 ==> src[i] >= 0x80,
        (rune_at(src, i) as u32) < 0x80 ==> width_at(src, i) == 1 && src[i] < 0x80
            && rune_at(src, i) == src[i] as char,
{
    let t = src.subrange(i, src.len() as int);
    assert forall|k: int| 0 <= k < t.len() implies t[k] == #[trigger] src[i + k] by {}
    if valid_first_scalar(t) {
        assert(src[i] == t[0]);
        if is_leading_byte_width_1(t[0]) {
            let b = t[0];
            assert(b & 0x7f == b) by (bit_vector)
                requires
                    b <= 0x7f,
            ;
        }
        assert forall|k: int| i < k < i + width_at(src, i) implies is_continuation_byte(
            #[trigger] src[k],
        ) by {
            assert(src[k] == t[k - i]);
        }
        if !is_leading_byte_width_1(t[0]) {
            let x = decode_first_scalar(t);
            assert(x >= 0x80);
            if is_leading_byte_width_2(t[0]) {
                let (b0, b1) = (t[0], t[1]);
                assert((((b0 & 0x1F) as u32) << 6) | ((b1 & 0x3F) as u32) <= 0x7FF) by (bit_vector);
            } else if is_leading_byte_width_3(t[0]) {
                let (b0, b1, b2) = (t[0], t[1], t[2]);
                assert((((b0 & 0x0F) as u32) << 12) | (((b1 & 0x3F) as u32) << 6) | ((b2 & 0x3F)
                    as u32) <= 0xFFFF) by (bit_vector);
            }
            assert(x <= 0x10FFFF);
            assert((rune_at(src, i) as u32) >= 0x80);
        }
    }
}

/// The character at byte `i` of `src` and the number of bytes it takes.
pub fn decode_rune(src: &[u8], i: usize) -> (r: (char, usize))
    requires
        i < src@.len(),
    ensures
        r.0 == rune_at(src@, i as int),
        r.1 == width_at(src@, i as int),
{
    let ghost t = src@.subrange(i as int, src@.len() as int);
    let n = src.len() - i;
    let b0 = src[i];
    assert(t[0] == b0);
    if b0 < 0x80 {
        proof {
            assert(b0 & 0x7f == b0) by (bit_vector)
                requires
                    b0 < 0x80,
            ;
        }
        let c = char_from_u32(b0 as u32);
        return (c.unwrap(), 1);
    }
    if 0xc0 <= b0 && b0 <= 0xdf && n >= 2 {
        let b1 = src[i + 1];
        assert(t[1] == b1);
        if 0x80 <= b1 && b1 <= 0xbf {
            let cp: u32 = (((b0 & 0x1f) as u32) << 6u32) | ((b1 & 0x3f) as u32);
            assert(cp == codepoint_width_2(b0, b1));
            assert(cp <= 0x7ff) by (bit_vector)
                requires
                    cp == (((b0 & 0x1f) as u32) << 6u32) | ((b1 & 0x3f) as u32),
            ;
            if cp >= 0x80 {
                let c = char_from_u32(cp);
                return (c.unwrap(), 2);
            }
        }
    } else if 0xe0 <= b0 && b0 <= 0xef && n >= 3 {
        let b1 = src[i + 1];
        let b2 = src[i + 2];
        assert(t[1] == b1 && t[2] == b2);
        if 0x80 <= b1 && b1 <= 0xbf && 0x80 <= b2 && b2 <= 0xbf {
            let cp: u32 = (((b0 & 0x0f) as u32) << 12u32) | (((b1 & 0x3f) as u32) << 6u32) | ((b2
                & 0x3f) as u32);
            assert(cp == codepoint_width_3(b0, b1, b2));
            assert(cp <= 0xffff) by (bit_vector)
                requires
                    cp == (((b0 & 0x0f) as u32) << 12u32) | (((b1 & 0x3f) as u32) << 6u32) | ((b2
                        & 0x3f) as u32),
            ;
            if cp >= 0x800 && !(0xd800 <= cp && cp <= 0xdfff) {
                let c = char_from_u32(cp);
                return (c.unwrap(), 3);
            }
        }
    } else if 0xf0 <= b0 && b0 <= 0xf7 && n >= 4 {
        let b1 = src[i + 1];
        let b2 = src[i + 2];
        let b3 = src[i + 3];
        assert(t[1] == b1 && t[2] == b2 && t[3] == b3);
        if 0x80 <= b1 && b1 <= 0xbf && 0x80 <= b2 && b2 <= 0xbf && 0x80 <= b3 && b3 <= 0xbf {
            let cp: u32 = (((b0 & 0x07) as u32) << 18u32) | (((b1 & 0x3f) as u32) << 12u32) | (((b2
                & 0x3f) as u32) << 6u32) | ((b3 & 0x3f) as u32);
            assert(cp == codepoint_width_4(b0, b1, b2, b3));
            if cp >= 0x10000 && cp <= 0x10ffff {
                let c = char_from_u32(cp);
                return (c.unwrap(), 4);
            }
        }
    }
    (REPLACEMENT, 1)
}

} // verus!
