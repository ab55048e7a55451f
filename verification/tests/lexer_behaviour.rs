use ham::frontend::lexer::lex::Lexer;
use ham::frontend::lexer::pos::{FileSet, Position};
use ham::frontend::lexer::token::Tok;
use std::cell::RefCell;

/// One scanned token: kind, literal, offset in the file, line and column.
type Scanned = (Tok, String, usize, usize, usize);

/// One reported error: message, line and column.
type Reported = (String, usize, usize);

/// Scans `input` until the end (and `extra` more times past it), collecting the tokens and
/// the errors that the callback received.
fn lex_bytes(input: &[u8], parse_comment: bool, extra: usize) -> (Vec<Scanned>, Vec<Reported>, u64) {
    let mut set = FileSet::new();
    let file = set.add_file("t.ham".to_owned(), input.len());
    let base = file.base;
    let errors: RefCell<Vec<Reported>> = RefCell::new(Vec::new());
    let mut l = Lexer::new(file, input, parse_comment, |msg, pos| {
        errors.borrow_mut().push((msg, pos.line, pos.column));
    });
    let mut out = Vec::new();
    let mut left = extra;
    let mut guard = 0;
    loop {
        let (tok, lit, p) = l.scan();
        let sp = l.file.source_pos(p);
        out.push((tok, lit, p.0 - base, sp.line, sp.column));
        guard += 1;
        assert!(guard < 1000, "the lexer does not advance");
        if tok == Tok::Eof {
            if left == 0 {
                break;
            }
            left -= 1;
        }
    }
    let count = l.err_count();
    drop(l);
    (out, errors.into_inner(), count)
}

fn lex(input: &str, parse_comment: bool) -> (Vec<Scanned>, Vec<Reported>, u64) {
    lex_bytes(input.as_bytes(), parse_comment, 0)
}

fn kinds(tokens: &[Scanned]) -> Vec<Tok> {
    tokens.iter().map(|t| t.0).collect()
}

fn lits(tokens: &[Scanned]) -> Vec<String> {
    tokens.iter().map(|t| t.1.clone()).collect()
}

fn err(msg: &str, line: usize, column: usize) -> Reported {
    (msg.to_owned(), line, column)
}

#[test]
fn empty_input_is_eof() {
    let (t, e, n) = lex("", false);
    assert_eq!(t, vec![(Tok::Eof, "<eof>".to_owned(), 0, 1, 1)]);
    assert!(e.is_empty());
    assert_eq!(n, 0);
}

#[test]
fn eof_repeats_after_the_end() {
    let (t, e, _) = lex_bytes(b"x  ", false, 2);
    assert_eq!(kinds(&t), vec![Tok::Identifier, Tok::Eof, Tok::Eof, Tok::Eof]);
    assert_eq!(t[1].2, 3);
    assert_eq!(t[2].2, 3);
    assert_eq!(t[3].2, 3);
    assert!(e.is_empty());
}

#[test]
fn identifiers_and_keywords() {
    let (t, e, _) = lex("if foo else end x1 ŝ9", false);
    assert_eq!(
        kinds(&t),
        vec![
            Tok::If,
            Tok::Identifier,
            Tok::Else,
            Tok::End,
            Tok::Identifier,
            Tok::Identifier,
            Tok::Eof
        ]
    );
    assert_eq!(lits(&t)[..6], ["if", "foo", "else", "end", "x1", "ŝ9"]);
    assert!(e.is_empty());
}

#[test]
fn underscore_gives_an_empty_identifier_and_stays() {
    let mut set = FileSet::new();
    let src = b"_a";
    let file = set.add_file("u".to_owned(), src.len());
    let mut l = Lexer::new(file, src, false, |_, _| {});
    let first = l.scan();
    let second = l.scan();
    assert_eq!(first, (Tok::Identifier, String::new(), Position(1)));
    assert_eq!(second, (Tok::Identifier, String::new(), Position(1)));
    assert_eq!(l.err_count(), 0);
}

#[test]
fn numbers() {
    let (t, e, _) = lex("0 42 0b101 0o17 0x1F 1_000 3.5 .5 6. 1e3 2E-4 7e+1", false);
    assert_eq!(
        lits(&t),
        vec!["0", "42", "0b101", "0o17", "0x1F", "1_000", "3.5", ".5", "6.", "1e3", "2E-4", "7e+1", "<eof>"]
    );
    assert_eq!(
        kinds(&t)[..12],
        [
            Tok::IntegerLiteral,
            Tok::IntegerLiteral,
            Tok::IntegerLiteral,
            Tok::IntegerLiteral,
            Tok::IntegerLiteral,
            Tok::IntegerLiteral,
            Tok::RealLiteral,
            Tok::RealLiteral,
            Tok::RealLiteral,
            Tok::RealLiteral,
            Tok::RealLiteral,
            Tok::RealLiteral
        ]
    );
    assert!(e.is_empty());
}

#[test]
fn base_prefix_needs_a_digit_after_the_first() {
    let (t, e, n) = lex("0x1", false);
    assert_eq!(
        t,
        vec![
            (Tok::IntegerLiteral, "0x".to_owned(), 0, 1, 1),
            (Tok::IntegerLiteral, "1".to_owned(), 2, 1, 3),
            (Tok::Eof, "<eof>".to_owned(), 3, 1, 4)
        ]
    );
    assert_eq!(e, vec![err("no digits after base specifier", 1, 1)]);
    assert_eq!(n, 1);

    let (t, e, _) = lex("0x12", false);
    assert_eq!(lits(&t), vec!["0x12", "<eof>"]);
    assert!(e.is_empty());
}

#[test]
fn exponent_without_digits() {
    let (t, e, n) = lex("1e+", false);
    assert_eq!(t[0], (Tok::RealLiteral, "1e+".to_owned(), 0, 1, 1));
    assert_eq!(e, vec![err("no digits after exponent", 1, 4)]);
    assert_eq!(n, 1);
}

#[test]
fn strings() {
    let (t, e, _) = lex("\"hi\\n\\\"x\\\"\" \"\\u00e9\"", false);
    assert_eq!(lits(&t), vec!["\"hi\\n\\\"x\\\"\"", "\"\\u00e9\"", "<eof>"]);
    assert_eq!(kinds(&t)[..2], [Tok::StringLiteral, Tok::StringLiteral]);
    assert!(e.is_empty());
}

#[test]
fn unterminated_string() {
    let (t, e, n) = lex("x \"abc\ny", false);
    assert_eq!(
        t,
        vec![
            (Tok::Identifier, "x".to_owned(), 0, 1, 1),
            (Tok::StringLiteral, "\"abc".to_owned(), 2, 1, 3),
            (Tok::Identifier, "y".to_owned(), 7, 2, 1),
            (Tok::Eof, "<eof>".to_owned(), 8, 2, 2)
        ]
    );
    assert_eq!(e, vec![err("unterminated string literal", 1, 3)]);
    assert_eq!(n, 1);
}

#[test]
fn char_literal_errors() {
    let (t, e, _) = lex("'a", false);
    assert_eq!(t[0], (Tok::CharLiteral, "'a".to_owned(), 0, 1, 1));
    assert_eq!(e, vec![err("unterminated char literal", 1, 1)]);

    let (t, e, _) = lex("''", false);
    assert_eq!(t[0], (Tok::CharLiteral, "''".to_owned(), 0, 1, 1));
    assert_eq!(e, vec![err("empty char literal", 1, 1)]);

    let (t, e, _) = lex(" 'ab'", false);
    assert_eq!(t[0], (Tok::CharLiteral, "'ab'".to_owned(), 1, 1, 2));
    assert_eq!(e, vec![err("char literal too wide", 1, 2)]);

    let (t, e, _) = lex("'\\''", false);
    assert_eq!(t[0].1, "'\\''");
    assert!(e.is_empty());
}

#[test]
fn escape_errors() {
    let (t, e, _) = lex("'\\q'", false);
    assert_eq!(lits(&t), vec!["'\\q'", "<eof>"]);
    assert_eq!(e, vec![err("unknown escape sequence", 1, 3)]);

    let (t, e, _) = lex("'\\xZZ'", false);
    assert_eq!(lits(&t), vec!["'\\xZZ'", "<eof>"]);
    assert_eq!(e, vec![err("illegal unicode escape sequence", 1, 4)]);

    let (_, e, _) = lex("'\\uD800'", false);
    assert_eq!(e, vec![err("illegal unicode escape sequence", 1, 3)]);

    let (_, e, _) = lex("'\\400'", false);
    assert_eq!(e, vec![err("illegal unicode escape sequence", 1, 3)]);

    let (t, e, _) = lex("'\\", false);
    assert_eq!(lits(&t), vec!["'\\", "<eof>"]);
    assert_eq!(e, vec![err("unterminated escape sequence", 1, 3)]);

    let (_, e, _) = lex("\"\\x4", false);
    assert_eq!(
        e,
        vec![err("unterminated escape sequence", 1, 5), err("unterminated string literal", 1, 1)]
    );
}

#[test]
fn operators_and_punctuation() {
    let (t, e, _) = lex("a<<=b>>c&&d||e!=f?g...h.i", false);
    assert_eq!(
        kinds(&t),
        vec![
            Tok::Identifier,
            Tok::LshiftEq,
            Tok::Identifier,
            Tok::RightShift,
            Tok::Identifier,
            Tok::And,
            Tok::Identifier,
            Tok::Or,
            Tok::Identifier,
            Tok::BangEq,
            Tok::Identifier,
            Tok::Question,
            Tok::Identifier,
            Tok::DotDotDot,
            Tok::Identifier,
            Tok::Dot,
            Tok::Identifier,
            Tok::Eof
        ]
    );
    assert_eq!(t[1].1, "<<=");
    assert_eq!(t[11].1, "?");
    assert!(e.is_empty());
}

#[test]
fn two_dots_are_an_invalid_ellipsis() {
    let (t, e, n) = lex("  ..x", false);
    assert_eq!(
        t,
        vec![
            (Tok::Dot, ".".to_owned(), 2, 1, 3),
            (Tok::Identifier, "x".to_owned(), 4, 1, 5),
            (Tok::Eof, "<eof>".to_owned(), 5, 1, 6)
        ]
    );
    assert_eq!(e, vec![err("invalid ellipsis mark", 1, 3)]);
    assert_eq!(n, 1);
}

#[test]
fn unexpected_character() {
    let (t, e, n) = lex("a\n  @", false);
    assert_eq!(t[1], (Tok::Invalid, "@".to_owned(), 4, 2, 3));
    assert_eq!(e, vec![err("unexpected unicode character", 2, 3)]);
    assert_eq!(n, 1);
}

#[test]
fn null_character() {
    let (t, e, n) = lex("\0", false);
    assert_eq!(t[0], (Tok::Invalid, "\0".to_owned(), 0, 1, 1));
    assert_eq!(
        e,
        vec![err("unexpected null character", 1, 1), err("unexpected unicode character", 1, 1)]
    );
    assert_eq!(n, 2);
}

#[test]
fn invalid_utf8_byte() {
    let (t, e, n) = lex_bytes(&[b'a', b' ', 0xff], false, 0);
    assert_eq!(t[1], (Tok::Invalid, "\u{FFFD}".to_owned(), 2, 1, 3));
    assert_eq!(
        e,
        vec![
            err("illegal unicode character in lexer stream", 1, 3),
            err("unexpected unicode character", 1, 3)
        ]
    );
    assert_eq!(n, 2);
}

#[test]
fn leading_bom_is_skipped() {
    let (t, e, n) = lex("\u{FEFF}ab", false);
    assert_eq!(
        t,
        vec![(Tok::Identifier, "ab".to_owned(), 3, 1, 4), (Tok::Eof, "<eof>".to_owned(), 5, 1, 6)]
    );
    assert!(e.is_empty());
    assert_eq!(n, 0);
}

#[test]
fn later_bom_is_reported() {
    let (t, e, n) = lex("a\u{FEFF}", false);
    assert_eq!(t[1], (Tok::Invalid, "\u{FEFF}".to_owned(), 1, 1, 2));
    assert_eq!(e, vec![err("unexpected UTF_8 BOM", 1, 2)]);
    assert_eq!(n, 1);
}

#[test]
fn comments_are_tokens_or_skipped() {
    let input = "a # note\nb #end";
    let (with, e1, _) = lex(input, true);
    let (without, e2, _) = lex(input, false);
    assert_eq!(
        kinds(&with),
        vec![Tok::Identifier, Tok::Comment, Tok::Identifier, Tok::Comment, Tok::Eof]
    );
    assert_eq!(lits(&with), vec!["a", "# note", "b", "#end", "<eof>"]);
    let kept: Vec<Scanned> = with.into_iter().filter(|t| t.0 != Tok::Comment).collect();
    assert_eq!(kept, without);
    assert!(e1.is_empty() && e2.is_empty());
}

#[test]
fn lines_and_columns() {
    let (t, _, _) = lex("ab\n\n  cd\r\n\tef", false);
    let places: Vec<(usize, usize, usize)> = t.iter().map(|x| (x.2, x.3, x.4)).collect();
    assert_eq!(places, vec![(0, 1, 1), (6, 3, 3), (11, 4, 2), (13, 4, 4)]);
}

#[test]
fn end_after_final_newline_stays_on_last_line() {
    let (t, _, _) = lex("a\n", false);
    assert_eq!(t[1], (Tok::Eof, "<eof>".to_owned(), 2, 1, 3));
}

#[test]
fn unicode_letters_and_digits() {
    let (t, e, _) = lex("ñ٣ 四五 ٣", false);
    assert_eq!(lits(&t)[..2], ["ñ٣", "四五"]);
    assert_eq!(t[2].0, Tok::Invalid);
    assert_eq!(e, vec![err("unexpected unicode character", 1, 13)]);
}

#[test]
fn try_scan_reports_text_that_is_not_utf8() {
    let mut set = FileSet::new();
    let src: &[u8] = &[b'a', b' ', b'"', 0xff, b'"', b' ', b'b'];
    let file = set.add_file("bad".to_owned(), src.len());
    let count = RefCell::new(0);
    let mut l = Lexer::new(file, src, false, |_, _| {
        *count.borrow_mut() += 1;
    });
    assert_eq!(l.try_scan(), Some((Tok::Identifier, "a".to_owned(), Position(1))));
    assert_eq!(l.try_scan(), None);
    assert_eq!(l.try_scan(), Some((Tok::Identifier, "b".to_owned(), Position(7))));
    assert_eq!(l.try_scan(), Some((Tok::Eof, "<eof>".to_owned(), Position(8))));
    assert_eq!(l.err_count(), 1);
    drop(l);
    assert_eq!(*count.borrow(), 1);
}

#[test]
fn try_scan_skipped_comment_that_is_not_utf8() {
    let mut set = FileSet::new();
    let src: &[u8] = &[b'#', 0xc3, b'\n', b'x'];
    let file = set.add_file("c".to_owned(), src.len());
    let mut l = Lexer::new(file, src, false, |_, _| {});
    assert_eq!(l.try_scan(), None);
    assert_eq!(l.try_scan(), Some((Tok::Identifier, "x".to_owned(), Position(4))));
}

#[test]
fn try_scan_agrees_with_scan_on_valid_text() {
    let src = "var x = 'a' # c\n\"s\"";
    let (t, _, _) = lex(src, true);
    let mut set = FileSet::new();
    let file = set.add_file("v".to_owned(), src.len());
    let mut l = Lexer::new(file, src.as_bytes(), true, |_, _| {});
    for want in t {
        let got = l.try_scan().unwrap();
        assert_eq!((got.0, got.1), (want.0, want.1));
    }
}

#[test]
fn a_source_longer_than_its_file_can_be_opened() {
    let mut set = FileSet::new();
    let file = set.add_file("short".to_owned(), 1);
    let l = Lexer::new(file, b"abc", false, |_, _| {});
    assert_eq!(l.err_count(), 0);
}

#[test]
fn unicode_whitespace_separates_tokens() {
    let (t, e, _) = lex("a\u{3000}b\u{a0}\u{2009}c\u{85}", false);
    assert_eq!(lits(&t), vec!["a", "b", "c", "<eof>"]);
    assert_eq!(t[1].2, 4);
    assert!(e.is_empty());
}
