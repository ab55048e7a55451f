use vstd::prelude::*;
use vstd::utf8::{
    decode_utf8, decode_utf8_encode_utf8, encode_utf8, pop_first_scalar, valid_first_scalar,
    valid_utf8,
};

use crate::frontend::lexer::rules::{
    ident_pred, lemma_blank_rest, lemma_skip_while, lit_text, read_errors, run_errors,
    scan_spec, skip_while, ws_pred, Lit, Report, TokenScan,
};
use crate::frontend::lexer::token::{keyword_or_identifier, lemma_keyword_spelling, Tok};
use crate::frontend::lexer::unicode::{lemma_width, rune_at, width_at};

verus! {

/// The bytes of a text made of ASCII characters.
pub open spec fn ascii_bytes(s: Seq<char>) -> Seq<u8> {
    Seq::new(s.len(), |i: int| (s[i] as u32) as u8)
}

/// Every character of `s` is ASCII, and none is NUL.
pub open spec fn plain_ascii(s: Seq<char>) -> bool {
    forall|i: int| 0 <= i < s.len() ==> 0 < #[trigger] (s[i] as u32) < 0x80
}

/// In the bytes of an ASCII text each byte is one character.
proof fn lemma_ascii_at(s: Seq<char>, i: int)
    requires
        plain_ascii(s),
        0 <= i < s.len(),
    ensures
        ascii_bytes(s)[i] == (s[i] as u32) as u8,
        rune_at(ascii_bytes(s), i) == s[i],
        width_at(ascii_bytes(s), i) == 1,
{
    let src = ascii_bytes(s);
    assert(0 < (s[i] as u32) < 0x80);
    lemma_width(src, i);
    let u = s[i] as u32;
    vstd::utf8::char_u32_cast(s[i], u);
    assert(src[i] as u32 == u);
    assert((src[i] as char) == (u as char));
}

/// The bytes of an ASCII text decode to the text.
proof fn lemma_ascii_decode(s: Seq<char>)
    requires
        plain_ascii(s),
    ensures
        valid_utf8(ascii_bytes(s)),
        decode_utf8(ascii_bytes(s)) == s,
    decreases s.len(),
{
    let b = ascii_bytes(s);
    if s.len() > 0 {
        lemma_ascii_at(s, 0);
        let t = s.drop_first();
        assert(plain_ascii(t)) by {
            assert forall|i: int| 0 <= i < t.len() implies 0 < #[trigger] (t[i] as u32) < 0x80 by {
                assert(t[i] == s[i + 1]);
            }
        }
        lemma_ascii_decode(t);
        assert(b.subrange(0, b.len() as int) =~= b);
        assert(valid_first_scalar(b));
        assert(pop_first_scalar(b) =~= ascii_bytes(t));
        assert(decode_utf8(b) =~= seq![s[0]] + decode_utf8(ascii_bytes(t)));
    } else {
        assert(b =~= Seq::<u8>::empty());
    }
}

/// An ASCII text encodes as its bytes.
proof fn lemma_ascii_encode(s: Seq<char>)
    requires
        plain_ascii(s),
    ensures
        encode_utf8(s) == ascii_bytes(s),
{
    lemma_ascii_decode(s);
    decode_utf8_encode_utf8(ascii_bytes(s));
}

/// Reading plain ASCII characters reports nothing.
proof fn lemma_ascii_quiet(s: Seq<char>, p: int, q: int)
    requires
        plain_ascii(s),
        0 <= p <= q <= s.len(),
    ensures
        run_errors(ascii_bytes(s), p, q) == Seq::<Report>::empty(),
    decreases s.len() - p,
{
    let src = ascii_bytes(s);
    if p < q {
        lemma_ascii_at(s, p);
        lemma_ascii_quiet(s, p + 1, q);
        if p + 1 < s.len() {
            lemma_ascii_at(s, p + 1);
        }
        assert(read_errors(src, p + 1) =~= Seq::<Report>::empty());
        assert(run_errors(src, p, q) =~= read_errors(src, p + 1) + run_errors(src, p + 1, q));
    }
}

/// Letters from `i` on make up the rest of an identifier.
proof fn lemma_letters_run(s: Seq<char>, i: int)
    requires
        plain_ascii(s),
        forall|j: int| 0 <= j < s.len() ==> 'a' <= #[trigger] s[j] <= 'z',
        0 <= i <= s.len(),
    ensures
        skip_while(ascii_bytes(s), i, ident_pred()) == s.len(),
    decreases s.len() - i,
{
    if i < s.len() {
        lemma_ascii_at(s, i);
        assert('a' <= s[i] <= 'z');
        lemma_letters_run(s, i + 1);
    }
}

/// A word of lowercase ASCII letters scans as the keyword or identifier it spells, from its
/// first byte to its last, with no errors.
proof fn lemma_word_scan(s: Seq<char>, pc: bool)
    requires
        s.len() > 0,
        plain_ascii(s),
        forall|j: int| 0 <= j < s.len() ==> 'a' <= #[trigger] s[j] <= 'z',
    ensures
        scan_spec(ascii_bytes(s), pc, 0) == (TokenScan {
            tok: keyword_or_identifier(s),
            lit: Lit::Source(0, s.len() as int),
            pos: 0,
            end: s.len() as int,
            errs: Seq::empty(),
        }),
{
    reveal(scan_spec);
    let src = ascii_bytes(s);
    lemma_ascii_at(s, 0);
    assert('a' <= s[0] <= 'z');
    assert(skip_while(src, 0, ws_pred()) == 0);
    lemma_letters_run(s, 0);
    lemma_ascii_quiet(s, 0, s.len() as int);
    lemma_ascii_decode(s);
    assert(src.subrange(0, s.len() as int) =~= src);
    assert(run_errors(src, 0, 0) =~= Seq::<Report>::empty());
}

/// The spelling of a keyword is a word of lowercase ASCII letters.
proof fn lemma_keyword_letters(t: Tok)
    requires
        t.is_keyword(),
    ensures
        t.spelling().len() > 0,
        plain_ascii(t.spelling()),
        forall|j: int| 0 <= j < t.spelling().len() ==> 'a' <= #[trigger] t.spelling()[j] <= 'z',
{
    match t {
        Tok::Break => {
            reveal_strlit("break");
        },
        Tok::Continue => {
            reveal_strlit("continue");
        },
        Tok::If => {
            reveal_strlit("if");
        },
        Tok::Else => {
            reveal_strlit("else");
        },
        Tok::Switch => {
            reveal_strlit("switch");
        },
        Tok::Case => {
            reveal_strlit("case");
        },
        Tok::Default => {
            reveal_strlit("default");
        },
        Tok::Enum => {
            reveal_strlit("enum");
        },
        Tok::Proc => {
            reveal_strlit("proc");
        },
        Tok::For => {
            reveal_strlit("for");
        },
        Tok::Until => {
            reveal_strlit("until");
        },
        Tok::In => {
            reveal_strlit("in");
        },
        Tok::Import => {
            reveal_strlit("import");
        },
        Tok::Export => {
            reveal_strlit("export");
        },
        Tok::Return => {
            reveal_strlit("return");
        },
        Tok::Concept => {
            reveal_strlit("concept");
        },
        Tok::Var => {
            reveal_strlit("var");
        },
        Tok::Const => {
            reveal_strlit("const");
        },
        Tok::True => {
            reveal_strlit("true");
        },
        Tok::False => {
            reveal_strlit("false");
        },
        Tok::Empty => {
            reveal_strlit("empty");
        },
        Tok::Do => {
            reveal_strlit("do");
        },
        Tok::End => {
            reveal_strlit("end");
        },
        _ => {},
    }
}

/// The spelling of an operator or punctuation scans as that token, over the whole spelling,
/// with no errors.
#[verifier::rlimit(50)]
proof fn lemma_punct_spelled(t: Tok, pc: bool)
    requires
        t.ordinal_between(Tok::LeftParen, Tok::Question),
    ensures
        plain_ascii(t.spelling()),
        scan_spec(ascii_bytes(t.spelling()), pc, 0) == (TokenScan {
            tok: t,
            lit: Lit::Text(t.spelling()),
            pos: 0,
            end: t.spelling().len() as int,
            errs: Seq::empty(),
        }),
{
    reveal(scan_spec);
    assert(run_errors(ascii_bytes(t.spelling()), 0, 0) =~= Seq::<Report>::empty());
    match t {
        Tok::LeftParen => {
            reveal_strlit("(");
            let s = "("@;
            assert(plain_ascii(s));
            lemma_ascii_at(s, 0);
            lemma_ascii_quiet(s, 1, s.len() as int);
        },
        Tok::RightParen => {
            reveal_strlit(")");
            let s = ")"@;
            assert(plain_ascii(s));
            lemma_ascii_at(s, 0);
            lemma_ascii_quiet(s, 1, s.len() as int);
        },
        Tok::LeftBracket => {
            reveal_strlit("[");
            let s = "["@;
            assert(plain_ascii(s));
            lemma_ascii_at(s, 0);
            lemma_ascii_quiet(s, 1, s.len() as int);
        },
        Tok::RightBracket => {
            reveal_strlit("]");
            let s = "]"@;
            assert(plain_ascii(s));
            lemma_ascii_at(s, 0);
            lemma_ascii_quiet(s, 1, s.len() as int);
        },
        Tok::LeftBrace => {
            reveal_strlit("{");
            let s = "{"@;
            assert(plain_ascii(s));
            lemma_ascii_at(s, 0);
            lemma_ascii_quiet(s, 1, s.len() as int);
        },
        Tok::RightBrace => {
            reveal_strlit("}");
            let s = "}"@;
            assert(plain_ascii(s));
            lemma_ascii_at(s, 0);
            lemma_ascii_quiet(s, 1, s.len() as int);
        },
        Tok::Comma => {
            reveal_strlit(",");
            let s = ","@;
            assert(plain_ascii(s));
            lemma_ascii_at(s, 0);
            lemma_ascii_quiet(s, 1, s.len() as int);
        },
        Tok::Colon => {
            reveal_strlit(":");
            let s = ":"@;
            assert(plain_ascii(s));
            lemma_ascii_at(s, 0);
            lemma_ascii_quiet(s, 1, s.len() as int);
        },
        Tok::Semicolon => {
            reveal_strlit(";");
            let s = ";"@;
            assert(plain_ascii(s));
            lemma_ascii_at(s, 0);
            lemma_ascii_quiet(s, 1, s.len() as int);
        },
        Tok::Dot => {
            reveal_strlit(".");
            let s = "."@;
            assert(plain_ascii(s));
            lemma_ascii_at(s, 0);
            lemma_ascii_quiet(s, 1, s.len() as int);
        },
        Tok::DotDotDot => {
            reveal_strlit("...");
            let s = "..."@;
            assert(plain_ascii(s));
            lemma_ascii_at(s, 0);
            lemma_ascii_at(s, 1);
            lemma_ascii_at(s, 2);
            lemma_ascii_quiet(s, 1, s.len() as int);
        },
        Tok::Plus => {
            reveal_strlit("+");
            let s = "+"@;
            assert(plain_ascii(s));
            lemma_ascii_at(s, 0);
            lemma_ascii_quiet(s, 1, s.len() as int);
        },
        Tok::Minus => {
            reveal_strlit("-");
            let s = "-"@;
            assert(plain_ascii(s));
            lemma_ascii_at(s, 0);
            lemma_ascii_quiet(s, 1, s.len() as int);
        },
        Tok::Star => {
            reveal_strlit("*");
            let s = "*"@;
            assert(plain_ascii(s));
            lemma_ascii_at(s, 0);
            lemma_ascii_quiet(s, 1, s.len() as int);
        },
        Tok::Slash => {
            reveal_strlit("/");
            let s = "/"@;
            assert(plain_ascii(s));
            lemma_ascii_at(s, 0);
            lemma_ascii_quiet(s, 1, s.len() as int);
        },
        Tok::Percent => {
            reveal_strlit("%");
            let s = "%"@;
            assert(plain_ascii(s));
            lemma_ascii_at(s, 0);
            lemma_ascii_quiet(s, 1, s.len() as int);
        },
        Tok::Ampersand => {
            reveal_strlit("&");
            let s = "&"@;
            assert(plain_ascii(s));
            lemma_ascii_at(s, 0);
            lemma_ascii_quiet(s, 1, s.len() as int);
        },
        Tok::Pipe => {
            reveal_strlit("|");
            let s = "|"@;
            assert(plain_ascii(s));
            lemma_ascii_at(s, 0);
            lemma_ascii_quiet(s, 1, s.len() as int);
        },
        Tok::Xor => {
            reveal_strlit("^");
            let s = "^"@;
            assert(plain_ascii(s));
            lemma_ascii_at(s, 0);
            lemma_ascii_quiet(s, 1, s.len() as int);
        },
        Tok::LeftShift => {
            reveal_strlit("<<");
            let s = "<<"@;
            assert(plain_ascii(s));
            lemma_ascii_at(s, 0);
            lemma_ascii_at(s, 1);
            lemma_ascii_quiet(s, 1, s.len() as int);
        },
        Tok::RightShift => {
            reveal_strlit(">>");
            let s = ">>"@;
            assert(plain_ascii(s));
            lemma_ascii_at(s, 0);
            lemma_ascii_at(s, 1);
            lemma_ascii_quiet(s, 1, s.len() as int);
        },
        Tok::PlusEq => {
            reveal_strlit("+=");
            let s = "+="@;
            assert(plain_ascii(s));
            lemma_ascii_at(s, 0);
            lemma_ascii_at(s, 1);
            lemma_ascii_quiet(s, 1, s.len() as int);
        },
        Tok::MinusEq => {
            reveal_strlit("-=");
            let s = "-="@;
            assert(plain_ascii(s));
            lemma_ascii_at(s, 0);
            lemma_ascii_at(s, 1);
            lemma_ascii_quiet(s, 1, s.len() as int);
        },
        Tok::StarEq => {
            reveal_strlit("*=");
            let s = "*="@;
            assert(plain_ascii(s));
            lemma_ascii_at(s, 0);
            lemma_ascii_at(s, 1);
            lemma_ascii_quiet(s, 1, s.len() as int);
        },
        Tok::SlashEq => {
            reveal_strlit("/=");
            let s = "/="@;
            assert(plain_ascii(s));
            lemma_ascii_at(s, 0);
            lemma_ascii_at(s, 1);
            lemma_ascii_quiet(s, 1, s.len() as int);
        },
        Tok::PercentEq => {
            reveal_strlit("%=");
            let s = "%="@;
            assert(plain_ascii(s));
            lemma_ascii_at(s, 0);
            lemma_ascii_at(s, 1);
            lemma_ascii_quiet(s, 1, s.len() as int);
        },
        Tok::XorEq => {
            reveal_strlit("^=");
            let s = "^="@;
            assert(plain_ascii(s));
            lemma_ascii_at(s, 0);
            lemma_ascii_at(s, 1);
            lemma_ascii_quiet(s, 1, s.len() as int);
        },
        Tok::AndEq => {
            reveal_strlit("&=");
            let s = "&="@;
            assert(plain_ascii(s));
            lemma_ascii_at(s, 0);
            lemma_ascii_at(s, 1);
            lemma_ascii_quiet(s, 1, s.len() as int);
        },
        Tok::OrEq => {
            reveal_strlit("|=");
            let s = "|="@;
            assert(plain_ascii(s));
            lemma_ascii_at(s, 0);
            lemma_ascii_at(s, 1);
            lemma_ascii_quiet(s, 1, s.len() as int);
        },
        Tok::LshiftEq => {
            reveal_strlit("<<=");
            let s = "<<="@;
            assert(plain_ascii(s));
            lemma_ascii_at(s, 0);
            lemma_ascii_at(s, 1);
            lemma_ascii_at(s, 2);
            lemma_ascii_quiet(s, 1, s.len() as int);
        },
        Tok::RshiftEq => {
            reveal_strlit(">>=");
            let s = ">>="@;
            assert(plain_ascii(s));
            lemma_ascii_at(s, 0);
            lemma_ascii_at(s, 1);
            lemma_ascii_at(s, 2);
            lemma_ascii_quiet(s, 1, s.len() as int);
        },
        Tok::Assign => {
            reveal_strlit("=");
            let s = "="@;
            assert(plain_ascii(s));
            lemma_ascii_at(s, 0);
            lemma_ascii_quiet(s, 1, s.len() as int);
        },
        Tok::Equals => {
            reveal_strlit("==");
            let s = "=="@;
            assert(plain_ascii(s));
            lemma_ascii_at(s, 0);
            lemma_ascii_at(s, 1);
            lemma_ascii_quiet(s, 1, s.len() as int);
        },
        Tok::And => {
            reveal_strlit("&&");
            let s = "&&"@;
            assert(plain_ascii(s));
            lemma_ascii_at(s, 0);
            lemma_ascii_at(s, 1);
            lemma_ascii_quiet(s, 1, s.len() as int);
        },
        Tok::Or => {
            reveal_strlit("||");
            let s = "||"@;
            assert(plain_ascii(s));
            lemma_ascii_at(s, 0);
            lemma_ascii_at(s, 1);
            lemma_ascii_quiet(s, 1, s.len() as int);
        },
        Tok::Bang => {
            reveal_strlit("!");
            let s = "!"@;
            assert(plain_ascii(s));
            lemma_ascii_at(s, 0);
            lemma_ascii_quiet(s, 1, s.len() as int);
        },
        Tok::BangEq => {
            reveal_strlit("!=");
            let s = "!="@;
            assert(plain_ascii(s));
            lemma_ascii_at(s, 0);
            lemma_ascii_at(s, 1);
            lemma_ascii_quiet(s, 1, s.len() as int);
        },
        Tok::Less => {
            reveal_strlit("<");
            let s = "<"@;
            assert(plain_ascii(s));
            lemma_ascii_at(s, 0);
            lemma_ascii_quiet(s, 1, s.len() as int);
        },
        Tok::Greater => {
            reveal_strlit(">");
            let s = ">"@;
            assert(plain_ascii(s));
            lemma_ascii_at(s, 0);
            lemma_ascii_quiet(s, 1, s.len() as int);
        },
        Tok::LessEq => {
            reveal_strlit("<=");
            let s = "<="@;
            assert(plain_ascii(s));
            lemma_ascii_at(s, 0);
            lemma_ascii_at(s, 1);
            lemma_ascii_quiet(s, 1, s.len() as int);
        },
        Tok::GreaterEq => {
            reveal_strlit(">=");
            let s = ">="@;
            assert(plain_ascii(s));
            lemma_ascii_at(s, 0);
            lemma_ascii_at(s, 1);
            lemma_ascii_quiet(s, 1, s.len() as int);
        },
        Tok::Question => {
            reveal_strlit("?");
            let s = "?"@;
            assert(plain_ascii(s));
            lemma_ascii_at(s, 0);
            lemma_ascii_quiet(s, 1, s.len() as int);
        },
        _ => {},
    }
}

/// Scanning the UTF-8 bytes of the spelling of a keyword, an operator or a punctuation mark
/// (the bytes of `t.to_str()`) gives back that token, with the spelling as its literal, at the start, over the whole text and with no
/// errors; the scan after it yields `Eof`, again with no errors.
pub proof fn lemma_spelling_scans(t: Tok, pc: bool)
    requires
        t.is_keyword() || t.ordinal_between(Tok::LeftParen, Tok::Question),
    ensures
        ({
            let src = encode_utf8(t.spelling());
            let s = scan_spec(src, pc, 0);
            &&& s.tok == t
            &&& lit_text(src, s.lit) == t.spelling()
            &&& s.pos == 0
            &&& s.end == src.len()
            &&& s.errs == Seq::<Report>::empty()
            &&& scan_spec(src, pc, s.end) == (TokenScan {
                tok: Tok::Eof,
                lit: Lit::Text(Tok::Eof.spelling()),
                pos: src.len() as int,
                end: src.len() as int,
                errs: Seq::empty(),
            })
        }),
{
    let src = ascii_bytes(t.spelling());
    if t.is_keyword() {
        lemma_keyword_letters(t);
        lemma_word_scan(t.spelling(), pc);
        lemma_keyword_spelling(t);
        lemma_ascii_decode(t.spelling());
        assert(src.subrange(0, src.len() as int) =~= src);
    } else {
        lemma_punct_spelled(t, pc);
    }
    lemma_ascii_encode(t.spelling());
    lemma_skip_while(src, src.len() as int, ws_pred());
    lemma_blank_rest(src, pc, src.len() as int);
}

} // verus!
