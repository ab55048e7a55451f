use vstd::prelude::*;
use vstd::string::StringSliceAdditionalSpecFns;
use vstd::utf8::{decode_utf8, encode_utf8};

verus! {

/// The kinds of token the lexer produces.
///
/// The variants are declared in a fixed order; `ordinal` gives each variant its place in
/// that order, which is also the order that the derived `PartialOrd` follows.
#[derive(Debug, PartialEq, Eq, Structural, Copy, Clone, PartialOrd)]
pub enum Tok {
    Eof,
    Invalid,
    Comment,
    // keywords
    Break,
    Continue,
    If,
    Else,
    Switch,
    Case,
    Default,
    Enum,
    Proc,
    For,
    Until,
    In,
    Import,
    Export,
    Return,
    Concept,
    Var,
    Const,
    True,
    False,
    Empty,
    Do,
    End,
    // punctuation
    LeftParen,
    RightParen,
    LeftBracket,
    RightBracket,
    LeftBrace,
    RightBrace,
    Comma,
    Colon,
    Semicolon,
    Dot,
    DotDotDot,
    // operators
    Plus,
    Minus,
    Star,
    Slash,
    Percent,
    Ampersand,
    Pipe,
    Xor,
    LeftShift,
    RightShift,
    PlusEq,
    MinusEq,
    StarEq,
    SlashEq,
    PercentEq,
    XorEq,
    AndEq,
    OrEq,
    LshiftEq,
    RshiftEq,
    Assign,
    Equals,
    And,
    Or,
    Bang,
    BangEq,
    Less,
    Greater,
    LessEq,
    GreaterEq,
    Question,
    // literals
    Identifier,
    StringLiteral,
    CharLiteral,
    IntegerLiteral,
    RealLiteral,
}

impl Tok {
    /// The place of the variant in the declaration order of `Tok`.
    pub open spec fn ordinal(self) -> int {
        match self {
            Tok::Eof => 0,
            Tok::Invalid => 1,
            Tok::Comment => 2,
            Tok::Break => 3,
            Tok::Continue => 4,
            Tok::If => 5,
            Tok::Else => 6,
            Tok::Switch => 7,
            Tok::Case => 8,
            Tok::Default => 9,
            Tok::Enum => 10,
            Tok::Proc => 11,
            Tok::For => 12,
            Tok::Until => 13,
            Tok::In => 14,
            Tok::Import => 15,
            Tok::Export => 16,
            Tok::Return => 17,
            Tok::Concept => 18,
            Tok::Var => 19,
            Tok::Const => 20,
            Tok::True => 21,
            Tok::False => 22,
            Tok::Empty => 23,
            Tok::Do => 24,
            Tok::End => 25,
            Tok::LeftParen => 26,
            Tok::RightParen => 27,
            Tok::LeftBracket => 28,
            Tok::RightBracket => 29,
            Tok::LeftBrace => 30,
            Tok::RightBrace => 31,
            Tok::Comma => 32,
            Tok::Colon => 33,
            Tok::Semicolon => 34,
            Tok::Dot => 35,
            Tok::DotDotDot => 36,
            Tok::Plus => 37,
            Tok::Minus => 38,
            Tok::Star => 39,
            Tok::Slash => 40,
            Tok::Percent => 41,
            Tok::Ampersand => 42,
            Tok::Pipe => 43,
            Tok::Xor => 44,
            Tok::LeftShift => 45,
            Tok::RightShift => 46,
            Tok::PlusEq => 47,
            Tok::MinusEq => 48,
            Tok::StarEq => 49,
            Tok::SlashEq => 50,
            Tok::PercentEq => 51,
            Tok::XorEq => 52,
            Tok::AndEq => 53,
            Tok::OrEq => 54,
            Tok::LshiftEq => 55,
            Tok::RshiftEq => 56,
            Tok::Assign => 57,
            Tok::Equals => 58,
            Tok::And => 59,
            Tok::Or => 60,
            Tok::Bang => 61,
            Tok::BangEq => 62,
            Tok::Less => 63,
            Tok::Greater => 64,
            Tok::LessEq => 65,
            Tok::GreaterEq => 66,
            Tok::Question => 67,
            Tok::Identifier => 68,
            Tok::StringLiteral => 69,
            Tok::CharLiteral => 70,
            Tok::IntegerLiteral => 71,
            Tok::RealLiteral => 72,
        }
    }

    /// The spelling of the token kind: the source text for keywords, punctuation and
    /// operators, and a bracketed description for the other kinds.
    pub open spec fn spelling(self) -> Seq<char> {
        match self {
            Tok::Eof => "<eof>"@,
            Tok::Invalid => "<invalid-token>"@,
            Tok::Comment => "<comment>"@,
            Tok::Break => "break"@,
            Tok::Continue => "continue"@,
            Tok::If => "if"@,
            Tok::Else => "else"@,
            Tok::Switch => "switch"@,
            Tok::Case => "case"@,
            Tok::Default => "default"@,
            Tok::Enum => "enum"@,
            Tok::Proc => "proc"@,
            Tok::For => "for"@,
            Tok::Until => "until"@,
            Tok::In => "in"@,
            Tok::Import => "import"@,
            Tok::Export => "export"@,
            Tok::Return => "return"@,
            Tok::Concept => "concept"@,
            Tok::Var => "var"@,
            Tok::Const => "const"@,
            Tok::True => "true"@,
            Tok::False => "false"@,
            Tok::Empty => "empty"@,
            Tok::Do => "do"@,
            Tok::End => "end"@,
            Tok::LeftParen => "("@,
            Tok::RightParen => ")"@,
            Tok::LeftBracket => "["@,
            Tok::RightBracket => "]"@,
            Tok::LeftBrace => "{"@,
            Tok::RightBrace => "}"@,
            Tok::Comma => ","@,
            Tok::Colon => ":"@,
            Tok::Semicolon => ";"@,
            Tok::Dot => "."@,
            Tok::DotDotDot => "..."@,
            Tok::Plus => "+"@,
            Tok::Minus => "-"@,
            Tok::Star => "*"@,
            Tok::Slash => "/"@,
            Tok::Percent => "%"@,
            Tok::Ampersand => "&"@,
            Tok::Pipe => "|"@,
            Tok::Xor => "^"@,
            Tok::LeftShift => "<<"@,
            Tok::RightShift => ">>"@,
            Tok::PlusEq => "+="@,
            Tok::MinusEq => "-="@,
            Tok::StarEq => "*="@,
            Tok::SlashEq => "/="@,
            Tok::PercentEq => "%="@,
            Tok::XorEq => "^="@,
            Tok::AndEq => "&="@,
            Tok::OrEq => "|="@,
            Tok::LshiftEq => "<<="@,
            Tok::RshiftEq => ">>="@,
            Tok::Assign => "="@,
            Tok::Equals => "=="@,
            Tok::And => "&&"@,
            Tok::Or => "||"@,
            Tok::Bang => "!"@,
            Tok::BangEq => "!="@,
            Tok::Less => "<"@,
            Tok::Greater => ">"@,
            Tok::LessEq => "<="@,
            Tok::GreaterEq => ">="@,
            Tok::Question => "?"@,
            Tok::Identifier => "<ident>"@,
            Tok::StringLiteral => "<string>"@,
            Tok::CharLiteral => "<char>"@,
            Tok::IntegerLiteral => "<integer>"@,
            Tok::RealLiteral => "<real>"@,
        }
    }

    /// True for the keyword kinds, `Break` through `End`.
    pub open spec fn is_keyword(self) -> bool {
        Tok::Break.ordinal() <= self.ordinal() <= Tok::End.ordinal()
    }

    /// True when `ordinal` places the token between `lo` and `hi`, both included.
    pub open spec fn ordinal_between(self, lo: Tok, hi: Tok) -> bool {
        lo.ordinal() <= self.ordinal() <= hi.ordinal()
    }

    /// The binding strength of a binary operator; 0 for every other kind.
    pub open spec fn precedence(self) -> i32 {
        match self {
            Tok::Equals | Tok::BangEq => 1,
            Tok::Less | Tok::LessEq | Tok::Greater | Tok::GreaterEq => 2,
            Tok::And | Tok::Or | Tok::RightShift | Tok::LeftShift | Tok::Xor | Tok::Ampersand
            | Tok::Pipe => 3,
            Tok::Plus | Tok::Minus => 4,
            Tok::Star | Tok::Slash | Tok::Percent => 5,
            _ => 0,
        }
    }

    /// `ordinal` in executable code.
    pub fn exec_ordinal(&self) -> (r: u8)
        ensures
            r == self.ordinal(),
    {
        match self {
            Tok::Eof => 0,
            Tok::Invalid => 1,
            Tok::Comment => 2,
            Tok::Break => 3,
            Tok::Continue => 4,
            Tok::If => 5,
            Tok::Else => 6,
            Tok::Switch => 7,
            Tok::Case => 8,
            Tok::Default => 9,
            Tok::Enum => 10,
            Tok::Proc => 11,
            Tok::For => 12,
            Tok::Until => 13,
            Tok::In => 14,
            Tok::Import => 15,
            Tok::Export => 16,
            Tok::Return => 17,
            Tok::Concept => 18,
            Tok::Var => 19,
            Tok::Const => 20,
            Tok::True => 21,
            Tok::False => 22,
            Tok::Empty => 23,
            Tok::Do => 24,
            Tok::End => 25,
            Tok::LeftParen => 26,
            Tok::RightParen => 27,
            Tok::LeftBracket => 28,
            Tok::RightBracket => 29,
            Tok::LeftBrace => 30,
            Tok::RightBrace => 31,
            Tok::Comma => 32,
            Tok::Colon => 33,
            Tok::Semicolon => 34,
            Tok::Dot => 35,
            Tok::DotDotDot => 36,
            Tok::Plus => 37,
            Tok::Minus => 38,
            Tok::Star => 39,
            Tok::Slash => 40,
            Tok::Percent => 41,
            Tok::Ampersand => 42,
            Tok::Pipe => 43,
            Tok::Xor => 44,
            Tok::LeftShift => 45,
            Tok::RightShift => 46,
            Tok::PlusEq => 47,
            Tok::MinusEq => 48,
            Tok::StarEq => 49,
            Tok::SlashEq => 50,
            Tok::PercentEq => 51,
            Tok::XorEq => 52,
            Tok::AndEq => 53,
            Tok::OrEq => 54,
            Tok::LshiftEq => 55,
            Tok::RshiftEq => 56,
            Tok::Assign => 57,
            Tok::Equals => 58,
            Tok::And => 59,
            Tok::Or => 60,
            Tok::Bang => 61,
            Tok::BangEq => 62,
            Tok::Less => 63,
            Tok::Greater => 64,
            Tok::LessEq => 65,
            Tok::GreaterEq => 66,
            Tok::Question => 67,
            Tok::Identifier => 68,
            Tok::StringLiteral => 69,
            Tok::CharLiteral => 70,
            Tok::IntegerLiteral => 71,
            Tok::RealLiteral => 72,
        }
    }

    /// True for the operators, `Plus` through `Question` in declaration order.
    pub fn is_punctuator(&self) -> (r: bool)
        ensures
            r == self.ordinal_between(Tok::Plus, Tok::Question),
    {
        let k = self.exec_ordinal();
        k >= Tok::Plus.exec_ordinal() && k <= Tok::Question.exec_ordinal()
    }

    /// True for the punctuation, `LeftParen` through `DotDotDot` in declaration order.
    pub fn is_operator(&self) -> (r: bool)
        ensures
            r == self.ordinal_between(Tok::LeftParen, Tok::DotDotDot),
    {
        let k = self.exec_ordinal();
        k >= Tok::LeftParen.exec_ordinal() && k <= Tok::DotDotDot.exec_ordinal()
    }

    /// The binding strength of a binary operator, 0 for any other token.
    pub fn prec(&self) -> (r: i32)
        ensures
            r == self.precedence(),
    {
        match self {
            Tok::Equals | Tok::BangEq => 1,
            Tok::Less | Tok::LessEq | Tok::Greater | Tok::GreaterEq => 2,
            Tok::And | Tok::Or | Tok::RightShift | Tok::LeftShift | Tok::Xor | Tok::Ampersand
            | Tok::Pipe => 3,
            Tok::Plus | Tok::Minus => 4,
            Tok::Star | Tok::Slash | Tok::Percent => 5,
            _ => 0,
        }
    }

    /// The spelling of the token kind.
    pub fn to_str(&self) -> (r: &'static str)
        ensures
            r@ == self.spelling(),
    {
        match self {
            Tok::Eof => "<eof>",
            Tok::Invalid => "<invalid-token>",
            Tok::Comment => "<comment>",
            Tok::Break => "break",
            Tok::Continue => "continue",
            Tok::If => "if",
            Tok::Else => "else",
            Tok::Switch => "switch",
            Tok::Case => "case",
            Tok::Default => "default",
            Tok::Enum => "enum",
            Tok::Proc => "proc",
            Tok::For => "for",
            Tok::Until => "until",
            Tok::In => "in",
            Tok::Import => "import",
            Tok::Export => "export",
            Tok::Return => "return",
            Tok::Concept => "concept",
            Tok::Var => "var",
            Tok::Const => "const",
            Tok::True => "true",
            Tok::False => "false",
            Tok::Empty => "empty",
            Tok::Do => "do",
            Tok::End => "end",
            Tok::LeftParen => "(",
            Tok::RightParen => ")",
            Tok::LeftBracket => "[",
            Tok::RightBracket => "]",
            Tok::LeftBrace => "{",
            Tok::RightBrace => "}",
            Tok::Comma => ",",
            Tok::Colon => ":",
            Tok::Semicolon => ";",
            Tok::Dot => ".",
            Tok::DotDotDot => "...",
            Tok::Plus => "+",
            Tok::Minus => "-",
            Tok::Star => "*",
            Tok::Slash => "/",
            Tok::Percent => "%",
            Tok::Ampersand => "&",
            Tok::Pipe => "|",
            Tok::Xor => "^",
            Tok::LeftShift => "<<",
            Tok::RightShift => ">>",
            Tok::PlusEq => "+=",
            Tok::MinusEq => "-=",
            Tok::StarEq => "*=",
            Tok::SlashEq => "/=",
            Tok::PercentEq => "%=",
            Tok::XorEq => "^=",
            Tok::AndEq => "&=",
            Tok::OrEq => "|=",
            Tok::LshiftEq => "<<=",
            Tok::RshiftEq => ">>=",
            Tok::Assign => "=",
            Tok::Equals => "==",
            Tok::And => "&&",
            Tok::Or => "||",
            Tok::Bang => "!",
            Tok::BangEq => "!=",
            Tok::Less => "<",
            Tok::Greater => ">",
            Tok::LessEq => "<=",
            Tok::GreaterEq => ">=",
            Tok::Question => "?",
            Tok::Identifier => "<ident>",
            Tok::StringLiteral => "<string>",
            Tok::CharLiteral => "<char>",
            Tok::IntegerLiteral => "<integer>",
            Tok::RealLiteral => "<real>",
        }
    }

    /// The spelling of the token kind, as an owned string.
    pub fn to_string(&self) -> (r: String)
        ensures
            r@ == self.spelling(),
    {
        self.to_str().to_owned()
    }
}

/// The token kind of a word: the keyword spelled by `word`, or `Identifier` when no keyword is.
pub open spec fn keyword_or_identifier(word: Seq<char>) -> Tok {
    if word == Tok::Break.spelling() {
        Tok::Break
    } else if word == Tok::Continue.spelling() {
        Tok::Continue
    } else if word == Tok::If.spelling() {
        Tok::If
    } else if word == Tok::Else.spelling() {
        Tok::Else
    } else if word == Tok::Switch.spelling() {
        Tok::Switch
    } else if word == Tok::Case.spelling() {
        Tok::Case
    } else if word == Tok::Default.spelling() {
        Tok::Default
    } else if word == Tok::Enum.spelling() {
        Tok::Enum
    } else if word == Tok::Proc.spelling() {
        Tok::Proc
    } else if word == Tok::For.spelling() {
        Tok::For
    } else if word == Tok::Until.spelling() {
        Tok::Until
    } else if word == Tok::In.spelling() {
        Tok::In
    } else if word == Tok::Import.spelling() {
        Tok::Import
    } else if word == Tok::Export.spelling() {
        Tok::Export
    } else if word == Tok::Return.spelling() {
        Tok::Return
    } else if word == Tok::Concept.spelling() {
        Tok::Concept
    } else if word == Tok::Var.spelling() {
        Tok::Var
    } else if word == Tok::Const.spelling() {
        Tok::Const
    } else if word == Tok::True.spelling() {
        Tok::True
    } else if word == Tok::False.spelling() {
        Tok::False
    } else if word == Tok::Empty.spelling() {
        Tok::Empty
    } else if word == Tok::Do.spelling() {
        Tok::Do
    } else if word == Tok::End.spelling() {
        Tok::End
    } else {
        Tok::Identifier
    }
}

/// True when the two strings hold the same characters.
fn same_text(a: &str, b: &str) -> (r: bool)
    ensures
        r == (a@ == b@),
{
    let x = a.as_bytes();
    let y = b.as_bytes();
    proof {
        broadcast use vstd::utf8::encode_utf8_decode_utf8;
        assert(decode_utf8(encode_utf8(a@)) == a@);
        assert(decode_utf8(encode_utf8(b@)) == b@);
    }
    if x.len() != y.len() {
        return false;
    }
    let mut i: usize = 0;
    while i < x.len()
        invariant
            x@ == a.spec_bytes(),
            y@ == b.spec_bytes(),
            x@.len() == y@.len(),
            i <= x@.len(),
            forall|j: int| 0 <= j < i ==> x@[j] == y@[j],
        decreases x@.len() - i,
    {
        if x[i] != y[i] {
            return false;
        }
        i = i + 1;
    }
    assert(x@ =~= y@);
    true
}

/// The keyword token spelled by `s`, or `Tok::Identifier` when `s` spells no keyword.
pub fn get_ident_or_keyword(s: &str) -> (r: Tok)
    ensures
        r == keyword_or_identifier(s@),
{
    if same_text(s, Tok::Break.to_str()) {
        return Tok::Break;
    }
    if same_text(s, Tok::Continue.to_str()) {
        return Tok::Continue;
    }
    if same_text(s, Tok::If.to_str()) {
        return Tok::If;
    }
    if same_text(s, Tok::Else.to_str()) {
        return Tok::Else;
    }
    if same_text(s, Tok::Switch.to_str()) {
        return Tok::Switch;
    }
    if same_text(s, Tok::Case.to_str()) {
        return Tok::Case;
    }
    if same_text(s, Tok::Default.to_str()) {
        return Tok::Default;
    }
    if same_text(s, Tok::Enum.to_str()) {
        return Tok::Enum;
    }
    if same_text(s, Tok::Proc.to_str()) {
        return Tok::Proc;
    }
    if same_text(s, Tok::For.to_str()) {
        return Tok::For;
    }
    if same_text(s, Tok::Until.to_str()) {
        return Tok::Until;
    }
    if same_text(s, Tok::In.to_str()) {
        return Tok::In;
    }
    if same_text(s, Tok::Import.to_str()) {
        return Tok::Import;
    }
    if same_text(s, Tok::Export.to_str()) {
        return Tok::Export;
    }
    if same_text(s, Tok::Return.to_str()) {
        return Tok::Return;
    }
    if same_text(s, Tok::Concept.to_str()) {
        return Tok::Concept;
    }
    if same_text(s, Tok::Var.to_str()) {
        return Tok::Var;
    }
    if same_text(s, Tok::Const.to_str()) {
        return Tok::Const;
    }
    if same_text(s, Tok::True.to_str()) {
        return Tok::True;
    }
    if same_text(s, Tok::False.to_str()) {
        return Tok::False;
    }
    if same_text(s, Tok::Empty.to_str()) {
        return Tok::Empty;
    }
    if same_text(s, Tok::Do.to_str()) {
        return Tok::Do;
    }
    if same_text(s, Tok::End.to_str()) {
        return Tok::End;
    }
    Tok::Identifier
}

/// Every keyword is recognised from its own spelling.
pub proof fn lemma_keyword_spelling(t: Tok)
    requires
        t.is_keyword(),
    ensures
        keyword_or_identifier(t.spelling()) == t,
{
    match t {
        Tok::Break => {
            reveal_strlit("break");
        },
        Tok::Continue => {
            reveal_strlit("continue");
            reveal_strlit("break");
            assert("continue"@.len() != "break"@.len());
        },
        Tok::If => {
            reveal_strlit("if");
            reveal_strlit("break");
            assert("if"@.len() != "break"@.len());
            reveal_strlit("continue");
            assert("if"@.len() != "continue"@.len());
        },
        Tok::Else => {
            reveal_strlit("else");
            reveal_strlit("break");
            assert("else"@.len() != "break"@.len());
            reveal_strlit("continue");
            assert("else"@.len() != "continue"@.len());
            reveal_strlit("if");
            assert("else"@.len() != "if"@.len());
        },
        Tok::Switch => {
            reveal_strlit("switch");
            reveal_strlit("break");
            assert("switch"@.len() != "break"@.len());
            reveal_strlit("continue");
            assert("switch"@.len() != "continue"@.len());
            reveal_strlit("if");
            assert("switch"@.len() != "if"@.len());
            reveal_strlit("else");
            assert("switch"@.len() != "else"@.len());
        },
        Tok::Case => {
            reveal_strlit("case");
            reveal_strlit("break");
            assert("case"@.len() != "break"@.len());
            reveal_strlit("continue");
            assert("case"@.len() != "continue"@.len());
            reveal_strlit("if");
            assert("case"@.len() != "if"@.len());
            reveal_strlit("else");
            assert("case"@[0] != "else"@[0]);
            reveal_strlit("switch");
            assert("case"@.len() != "switch"@.len());
        },
        Tok::Default => {
            reveal_strlit("default");
            reveal_strlit("break");
            assert("default"@.len() != "break"@.len());
            reveal_strlit("continue");
            assert("default"@.len() != "continue"@.len());
            reveal_strlit("if");
            assert("default"@.len() != "if"@.len());
            reveal_strlit("else");
            assert("default"@.len() != "else"@.len());
            reveal_strlit("switch");
            assert("default"@.len() != "switch"@.len());
            reveal_strlit("case");
            assert("default"@.len() != "case"@.len());
        },
        Tok::Enum => {
            reveal_strlit("enum");
            reveal_strlit("break");
            assert("enum"@.len() != "break"@.len());
            reveal_strlit("continue");
            assert("enum"@.len() != "continue"@.len());
            reveal_strlit("if");
            assert("enum"@.len() != "if"@.len());
            reveal_strlit("else");
            assert("enum"@[1] != "else"@[1]);
            reveal_strlit("switch");
            assert("enum"@.len() != "switch"@.len());
            reveal_strlit("case");
            assert("enum"@[0] != "case"@[0]);
            reveal_strlit("default");
            assert("enum"@.len() != "default"@.len());
        },
        Tok::Proc => {
            reveal_strlit("proc");
            reveal_strlit("break");
            assert("proc"@.len() != "break"@.len());
            reveal_strlit("continue");
            assert("proc"@.len() != "continue"@.len());
            reveal_strlit("if");
            assert("proc"@.len() != "if"@.len());
            reveal_strlit("else");
            assert("proc"@[0] != "else"@[0]);
            reveal_strlit("switch");
            assert("proc"@.len() != "switch"@.len());
            reveal_strlit("case");
            assert("proc"@[0] != "case"@[0]);
            reveal_strlit("default");
            assert("proc"@.len() != "default"@.len());
            reveal_strlit("enum");
            assert("proc"@[0] != "enum"@[0]);
        },
        Tok::For => {
            reveal_strlit("for");
            reveal_strlit("break");
            assert("for"@.len() != "break"@.len());
            reveal_strlit("continue");
            assert("for"@.len() != "continue"@.len());
            reveal_strlit("if");
            assert("for"@.len() != "if"@.len());
            reveal_strlit("else");
            assert("for"@.len() != "else"@.len());
            reveal_strlit("switch");
            assert("for"@.len() != "switch"@.len());
            reveal_strlit("case");
            assert("for"@.len() != "case"@.len());
            reveal_strlit("default");
            assert("for"@.len() != "default"@.len());
            reveal_strlit("enum");
            assert("for"@.len() != "enum"@.len());
            reveal_strlit("proc");
            assert("for"@.len() != "proc"@.len());
        },
        Tok::Until => {
            reveal_strlit("until");
            reveal_strlit("break");
            assert("until"@[0] != "break"@[0]);
            reveal_strlit("continue");
            assert("until"@.len() != "continue"@.len());
            reveal_strlit("if");
            assert("until"@.len() != "if"@.len());
            reveal_strlit("else");
            assert("until"@.len() != "else"@.len());
            reveal_strlit("switch");
            assert("until"@.len() != "switch"@.len());
            reveal_strlit("case");
            assert("until"@.len() != "case"@.len());
            reveal_strlit("default");
            assert("until"@.len() != "default"@.len());
            reveal_strlit("enum");
            assert("until"@.len() != "enum"@.len());
            reveal_strlit("proc");
            assert("until"@.len() != "proc"@.len());
            reveal_strlit("for");
            assert("until"@.len() != "for"@.len());
        },
        Tok::In => {
            reveal_strlit("in");
            reveal_strlit("break");
            assert("in"@.len() != "break"@.len());
            reveal_strlit("continue");
            assert("in"@.len() != "continue"@.len());
            reveal_strlit("if");
            assert("in"@[1] != "if"@[1]);
            reveal_strlit("else");
            assert("in"@.len() != "else"@.len());
            reveal_strlit("switch");
            assert("in"@.len() != "switch"@.len());
            reveal_strlit("case");
            assert("in"@.len() != "case"@.len());
            reveal_strlit("default");
            assert("in"@.len() != "default"@.len());
            reveal_strlit("enum");
            assert("in"@.len() != "enum"@.len());
            reveal_strlit("proc");
            assert("in"@.len() != "proc"@.len());
            reveal_strlit("for");
            assert("in"@.len() != "for"@.len());
            reveal_strlit("until");
            assert("in"@.len() != "until"@.len());
        },
        Tok::Import => {
            reveal_strlit("import");
            reveal_strlit("break");
            assert("import"@.len() != "break"@.len());
            reveal_strlit("continue");
            assert("import"@.len() != "continue"@.len());
            reveal_strlit("if");
            assert("import"@.len() != "if"@.len());
            reveal_strlit("else");
            assert("import"@.len() != "else"@.len());
            reveal_strlit("switch");
            assert("import"@[0] != "switch"@[0]);
            reveal_strlit("case");
            assert("import"@.len() != "case"@.len());
            reveal_strlit("default");
            assert("import"@.len() != "default"@.len());
            reveal_strlit("enum");
            assert("import"@.len() != "enum"@.len());
            reveal_strlit("proc");
            assert("import"@.len() != "proc"@.len());
            reveal_strlit("for");
            assert("import"@.len() != "for"@.len());
            reveal_strlit("until");
            assert("import"@.len() != "until"@.len());
            reveal_strlit("in");
            assert("import"@.len() != "in"@.len());
        },
        Tok::Export => {
            reveal_strlit("export");
            reveal_strlit("break");
            assert("export"@.len() != "break"@.len());
            reveal_strlit("continue");
            assert("export"@.len() != "continue"@.len());
            reveal_strlit("if");
            assert("export"@.len() != "if"@.len());
            reveal_strlit("else");
            assert("export"@.len() != "else"@.len());
            reveal_strlit("switch");
            assert("export"@[0] != "switch"@[0]);
            reveal_strlit("case");
            assert("export"@.len() != "case"@.len());
            reveal_strlit("default");
            assert("export"@.len() != "default"@.len());
            reveal_strlit("enum");
            assert("export"@.len() != "enum"@.len());
            reveal_strlit("proc");
            assert("export"@.len() != "proc"@.len());
            reveal_strlit("for");
            assert("export"@.len() != "for"@.len());
            reveal_strlit("until");
            assert("export"@.len() != "until"@.len());
            reveal_strlit("in");
            assert("export"@.len() != "in"@.len());
            reveal_strlit("import");
            assert("export"@[0] != "import"@[0]);
        },
        Tok::Return => {
            reveal_strlit("return");
            reveal_strlit("break");
            assert("return"@.len() != "break"@.len());
            reveal_strlit("continue");
            assert("return"@.len() != "continue"@.len());
            reveal_strlit("if");
            assert("return"@.len() != "if"@.len());
            reveal_strlit("else");
            assert("return"@.len() != "else"@.len());
            reveal_strlit("switch");
            assert("return"@[0] != "switch"@[0]);
            reveal_strlit("case");
            assert("return"@.len() != "case"@.len());
            reveal_strlit("default");
            assert("return"@.len() != "default"@.len());
            reveal_strlit("enum");
            assert("return"@.len() != "enum"@.len());
            reveal_strlit("proc");
            assert("return"@.len() != "proc"@.len());
            reveal_strlit("for");
            assert("return"@.len() != "for"@.len());
            reveal_strlit("until");
            assert("return"@.len() != "until"@.len());
            reveal_strlit("in");
            assert("return"@.len() != "in"@.len());
            reveal_strlit("import");
            assert("return"@[0] != "import"@[0]);
            reveal_strlit("export");
            assert("return"@[0] != "export"@[0]);
        },
        Tok::Concept => {
            reveal_strlit("concept");
            reveal_strlit("break");
            assert("concept"@.len() != "break"@.len());
            reveal_strlit("continue");
            assert("concept"@.len() != "continue"@.len());
            reveal_strlit("if");
            assert("concept"@.len() != "if"@.len());
            reveal_strlit("else");
            assert("concept"@.len() != "else"@.len());
            reveal_strlit("switch");
            assert("concept"@.len() != "switch"@.len());
            reveal_strlit("case");
            assert("concept"@.len() != "case"@.len());
            reveal_strlit("default");
            assert("concept"@[0] != "default"@[0]);
            reveal_strlit("enum");
            assert("concept"@.len() != "enum"@.len());
            reveal_strlit("proc");
            assert("concept"@.len() != "proc"@.len());
            reveal_strlit("for");
            assert("concept"@.len() != "for"@.len());
            reveal_strlit("until");
            assert("concept"@.len() != "until"@.len());
            reveal_strlit("in");
            assert("concept"@.len() != "in"@.len());
            reveal_strlit("import");
            assert("concept"@.len() != "import"@.len());
            reveal_strlit("export");
            assert("concept"@.len() != "export"@.len());
            reveal_strlit("return");
            assert("concept"@.len() != "return"@.len());
        },
        Tok::Var => {
            reveal_strlit("var");
            reveal_strlit("break");
            assert("var"@.len() != "break"@.len());
            reveal_strlit("continue");
            assert("var"@.len() != "continue"@.len());
            reveal_strlit("if");
            assert("var"@.len() != "if"@.len());
            reveal_strlit("else");
            assert("var"@.len() != "else"@.len());
            reveal_strlit("switch");
            assert("var"@.len() != "switch"@.len());
            reveal_strlit("case");
            assert("var"@.len() != "case"@.len());
            reveal_strlit("default");
            assert("var"@.len() != "default"@.len());
            reveal_strlit("enum");
            assert("var"@.len() != "enum"@.len());
            reveal_strlit("proc");
            assert("var"@.len() != "proc"@.len());
            reveal_strlit("for");
            assert("var"@[0] != "for"@[0]);
            reveal_strlit("until");
            assert("var"@.len() != "until"@.len());
            reveal_strlit("in");
            assert("var"@.len() != "in"@.len());
            reveal_strlit("import");
            assert("var"@.len() != "import"@.len());
            reveal_strlit("export");
            assert("var"@.len() != "export"@.len());
            reveal_strlit("return");
            assert("var"@.len() != "return"@.len());
            reveal_strlit("concept");
            assert("var"@.len() != "concept"@.len());
        },
        Tok::Const => {
            reveal_strlit("const");
            reveal_strlit("break");
            assert("const"@[0] != "break"@[0]);
            reveal_strlit("continue");
            assert("const"@.len() != "continue"@.len());
            reveal_strlit("if");
            assert("const"@.len() != "if"@.len());
            reveal_strlit("else");
            assert("const"@.len() != "else"@.len());
            reveal_strlit("switch");
            assert("const"@.len() != "switch"@.len());
            reveal_strlit("case");
            assert("const"@.len() != "case"@.len());
            reveal_strlit("default");
            assert("const"@.len() != "default"@.len());
            reveal_strlit("enum");
            assert("const"@.len() != "enum"@.len());
            reveal_strlit("proc");
            assert("const"@.len() != "proc"@.len());
            reveal_strlit("for");
            assert("const"@.len() != "for"@.len());
            reveal_strlit("until");
            assert("const"@[0] != "until"@[0]);
            reveal_strlit("in");
            assert("const"@.len() != "in"@.len());
            reveal_strlit("import");
            assert("const"@.len() != "import"@.len());
            reveal_strlit("export");
            assert("const"@.len() != "export"@.len());
            reveal_strlit("return");
            assert("const"@.len() != "return"@.len());
            reveal_strlit("concept");
            assert("const"@.len() != "concept"@.len());
            reveal_strlit("var");
            assert("const"@.len() != "var"@.len());
        },
        Tok::True => {
            reveal_strlit("true");
            reveal_strlit("break");
            assert("true"@.len() != "break"@.len());
            reveal_strlit("continue");
            assert("true"@.len() != "continue"@.len());
            reveal_strlit("if");
            assert("true"@.len() != "if"@.len());
            reveal_strlit("else");
            assert("true"@[0] != "else"@[0]);
            reveal_strlit("switch");
            assert("true"@.len() != "switch"@.len());
            reveal_strlit("case");
            assert("true"@[0] != "case"@[0]);
            reveal_strlit("default");
            assert("true"@.len() != "default"@.len());
            reveal_strlit("enum");
            assert("true"@[0] != "enum"@[0]);
            reveal_strlit("proc");
            assert("true"@[0] != "proc"@[0]);
            reveal_strlit("for");
            assert("true"@.len() != "for"@.len());
            reveal_strlit("until");
            assert("true"@.len() != "until"@.len());
            reveal_strlit("in");
            assert("true"@.len() != "in"@.len());
            reveal_strlit("import");
            assert("true"@.len() != "import"@.len());
            reveal_strlit("export");
            assert("true"@.len() != "export"@.len());
            reveal_strlit("return");
            assert("true"@.len() != "return"@.len());
            reveal_strlit("concept");
            assert("true"@.len() != "concept"@.len());
            reveal_strlit("var");
            assert("true"@.len() != "var"@.len());
            reveal_strlit("const");
            assert("true"@.len() != "const"@.len());
        },
        Tok::False => {
            reveal_strlit("false");
            reveal_strlit("break");
            assert("false"@[0] != "break"@[0]);
            reveal_strlit("continue");
            assert("false"@.len() != "continue"@.len());
            reveal_strlit("if");
            assert("false"@.len() != "if"@.len());
            reveal_strlit("else");
            assert("false"@.len() != "else"@.len());
            reveal_strlit("switch");
            assert("false"@.len() != "switch"@.len());
            reveal_strlit("case");
            assert("false"@.len() != "case"@.len());
            reveal_strlit("default");
            assert("false"@.len() != "default"@.len());
            reveal_strlit("enum");
            assert("false"@.len() != "enum"@.len());
            reveal_strlit("proc");
            assert("false"@.len() != "proc"@.len());
            reveal_strlit("for");
            assert("false"@.len() != "for"@.len());
            reveal_strlit("until");
            assert("false"@[0] != "until"@[0]);
            reveal_strlit("in");
            assert("false"@.len() != "in"@.len());
            reveal_strlit("import");
            assert("false"@.len() != "import"@.len());
            reveal_strlit("export");
            assert("false"@.len() != "export"@.len());
            reveal_strlit("return");
            assert("false"@.len() != "return"@.len());
            reveal_strlit("concept");
            assert("false"@.len() != "concept"@.len());
            reveal_strlit("var");
            assert("false"@.len() != "var"@.len());
            reveal_strlit("const");
            assert("false"@[0] != "const"@[0]);
            reveal_strlit("true");
            assert("false"@.len() != "true"@.len());
        },
        Tok::Empty => {
            reveal_strlit("empty");
            reveal_strlit("break");
            assert("empty"@[0] != "break"@[0]);
            reveal_strlit("continue");
            assert("empty"@.len() != "continue"@.len());
            reveal_strlit("if");
            assert("empty"@.len() != "if"@.len());
            reveal_strlit("else");
            assert("empty"@.len() != "else"@.len());
            reveal_strlit("switch");
            assert("empty"@.len() != "switch"@.len());
            reveal_strlit("case");
            assert("empty"@.len() != "case"@.len());
            reveal_strlit("default");
            assert("empty"@.len() != "default"@.len());
            reveal_strlit("enum");
            assert("empty"@.len() != "enum"@.len());
            reveal_strlit("proc");
            assert("empty"@.len() != "proc"@.len());
            reveal_strlit("for");
            assert("empty"@.len() != "for"@.len());
            reveal_strlit("until");
            assert("empty"@[0] != "until"@[0]);
            reveal_strlit("in");
            assert("empty"@.len() != "in"@.len());
            reveal_strlit("import");
            assert("empty"@.len() != "import"@.len());
            reveal_strlit("export");
            assert("empty"@.len() != "export"@.len());
            reveal_strlit("return");
            assert("empty"@.len() != "return"@.len());
            reveal_strlit("concept");
            assert("empty"@.len() != "concept"@.len());
            reveal_strlit("var");
            assert("empty"@.len() != "var"@.len());
            reveal_strlit("const");
            assert("empty"@[0] != "const"@[0]);
            reveal_strlit("true");
            assert("empty"@.len() != "true"@.len());
            reveal_strlit("false");
            assert("empty"@[0] != "false"@[0]);
        },
        Tok::Do => {
            reveal_strlit("do");
            reveal_strlit("break");
            assert("do"@.len() != "break"@.len());
            reveal_strlit("continue");
            assert("do"@.len() != "continue"@.len());
            reveal_strlit("if");
            assert("do"@[0] != "if"@[0]);
            reveal_strlit("else");
            assert("do"@.len() != "else"@.len());
            reveal_strlit("switch");
            assert("do"@.len() != "switch"@.len());
            reveal_strlit("case");
            assert("do"@.len() != "case"@.len());
            reveal_strlit("default");
            assert("do"@.len() != "default"@.len());
            reveal_strlit("enum");
            assert("do"@.len() != "enum"@.len());
            reveal_strlit("proc");
            assert("do"@.len() != "proc"@.len());
            reveal_strlit("for");
            assert("do"@.len() != "for"@.len());
            reveal_strlit("until");
            assert("do"@.len() != "until"@.len());
            reveal_strlit("in");
            assert("do"@[0] != "in"@[0]);
            reveal_strlit("import");
            assert("do"@.len() != "import"@.len());
            reveal_strlit("export");
            assert("do"@.len() != "export"@.len());
            reveal_strlit("return");
            assert("do"@.len() != "return"@.len());
            reveal_strlit("concept");
            assert("do"@.len() != "concept"@.len());
            reveal_strlit("var");
            assert("do"@.len() != "var"@.len());
            reveal_strlit("const");
            assert("do"@.len() != "const"@.len());
            reveal_strlit("true");
            assert("do"@.len() != "true"@.len());
            reveal_strlit("false");
            assert("do"@.len() != "false"@.len());
            reveal_strlit("empty");
            assert("do"@.len() != "empty"@.len());
        },
        Tok::End => {
            reveal_strlit("end");
            reveal_strlit("break");
            assert("end"@.len() != "break"@.len());
            reveal_strlit("continue");
            assert("end"@.len() != "continue"@.len());
            reveal_strlit("if");
            assert("end"@.len() != "if"@.len());
            reveal_strlit("else");
            assert("end"@.len() != "else"@.len());
            reveal_strlit("switch");
            assert("end"@.len() != "switch"@.len());
            reveal_strlit("case");
            assert("end"@.len() != "case"@.len());
            reveal_strlit("default");
            assert("end"@.len() != "default"@.len());
            reveal_strlit("enum");
            assert("end"@.len() != "enum"@.len());
            reveal_strlit("proc");
            assert("end"@.len() != "proc"@.len());
            reveal_strlit("for");
            assert("end"@[0] != "for"@[0]);
            reveal_strlit("until");
            assert("end"@.len() != "until"@.len());
            reveal_strlit("in");
            assert("end"@.len() != "in"@.len());
            reveal_strlit("import");
            assert("end"@.len() != "import"@.len());
            reveal_strlit("export");
            assert("end"@.len() != "export"@.len());
            reveal_strlit("return");
            assert("end"@.len() != "return"@.len());
            reveal_strlit("concept");
            assert("end"@.len() != "concept"@.len());
            reveal_strlit("var");
            assert("end"@[0] != "var"@[0]);
            reveal_strlit("const");
            assert("end"@.len() != "const"@.len());
            reveal_strlit("true");
            assert("end"@.len() != "true"@.len());
            reveal_strlit("false");
            assert("end"@.len() != "false"@.len());
            reveal_strlit("empty");
            assert("end"@.len() != "empty"@.len());
            reveal_strlit("do");
            assert("end"@.len() != "do"@.len());
        },
        _ => {},
    }
}

/// Punctuation and operators are disjoint kinds, and only operators have a precedence.
pub proof fn lemma_token_classes(t: Tok)
    ensures
        !(t.ordinal_between(Tok::LeftParen, Tok::DotDotDot) && t.ordinal_between(
            Tok::Plus,
            Tok::Question,
        )),
        t.precedence() >= 0,
        t.precedence() > 0 ==> t.ordinal_between(Tok::Plus, Tok::Question),
{
}

/// The token kind spelled `s`, or `Tok::Invalid` when no kind is spelled so.
pub open spec fn spelled(s: Seq<char>) -> Tok {
    if s.len() == 1 {
        if s == "("@ {
            Tok::LeftParen
        } else if s == ")"@ {
            Tok::RightParen
        } else if s == "["@ {
            Tok::LeftBracket
        } else if s == "]"@ {
            Tok::RightBracket
        } else if s == "{"@ {
            Tok::LeftBrace
        } else if s == "}"@ {
            Tok::RightBrace
        } else if s == ","@ {
            Tok::Comma
        } else if s == ":"@ {
            Tok::Colon
        } else if s == ";"@ {
            Tok::Semicolon
        } else if s == "."@ {
            Tok::Dot
        } else if s == "+"@ {
            Tok::Plus
        } else if s == "-"@ {
            Tok::Minus
        } else if s == "*"@ {
            Tok::Star
        } else if s == "/"@ {
            Tok::Slash
        } else if s == "%"@ {
            Tok::Percent
        } else if s == "&"@ {
            Tok::Ampersand
        } else if s == "|"@ {
            Tok::Pipe
        } else if s == "^"@ {
            Tok::Xor
        } else if s == "="@ {
            Tok::Assign
        } else if s == "!"@ {
            Tok::Bang
        } else if s == "<"@ {
            Tok::Less
        } else if s == ">"@ {
            Tok::Greater
        } else if s == "?"@ {
            Tok::Question
        } else {
            Tok::Invalid
        }
    } else if s.len() == 2 {
        if s == "if"@ {
            Tok::If
        } else if s == "in"@ {
            Tok::In
        } else if s == "do"@ {
            Tok::Do
        } else if s == "<<"@ {
            Tok::LeftShift
        } else if s == ">>"@ {
            Tok::RightShift
        } else if s == "+="@ {
            Tok::PlusEq
        } else if s == "-="@ {
            Tok::MinusEq
        } else if s == "*="@ {
            Tok::StarEq
        } else if s == "/="@ {
            Tok::SlashEq
        } else if s == "%="@ {
            Tok::PercentEq
        } else if s == "^="@ {
            Tok::XorEq
        } else if s == "&="@ {
            Tok::AndEq
        } else if s == "|="@ {
            Tok::OrEq
        } else if s == "=="@ {
            Tok::Equals
        } else if s == "&&"@ {
            Tok::And
        } else if s == "||"@ {
            Tok::Or
        } else if s == "!="@ {
            Tok::BangEq
        } else if s == "<="@ {
            Tok::LessEq
        } else if s == ">="@ {
            Tok::GreaterEq
        } else {
            Tok::Invalid
        }
    } else if s.len() == 3 {
        if s == "for"@ {
            Tok::For
        } else if s == "var"@ {
            Tok::Var
        } else if s == "end"@ {
            Tok::End
        } else if s == "..."@ {
            Tok::DotDotDot
        } else if s == "<<="@ {
            Tok::LshiftEq
        } else if s == ">>="@ {
            Tok::RshiftEq
        } else {
            Tok::Invalid
        }
    } else if s.len() == 4 {
        if s == "else"@ {
            Tok::Else
        } else if s == "case"@ {
            Tok::Case
        } else if s == "enum"@ {
            Tok::Enum
        } else if s == "proc"@ {
            Tok::Proc
        } else if s == "true"@ {
            Tok::True
        } else {
            Tok::Invalid
        }
    } else if s.len() == 5 {
        if s == "<eof>"@ {
            Tok::Eof
        } else if s == "break"@ {
            Tok::Break
        } else if s == "until"@ {
            Tok::Until
        } else if s == "const"@ {
            Tok::Const
        } else if s == "false"@ {
            Tok::False
        } else if s == "empty"@ {
            Tok::Empty
        } else {
            Tok::Invalid
        }
    } else if s.len() == 6 {
        if s == "switch"@ {
            Tok::Switch
        } else if s == "import"@ {
            Tok::Import
        } else if s == "export"@ {
            Tok::Export
        } else if s == "return"@ {
            Tok::Return
        } else if s == "<char>"@ {
            Tok::CharLiteral
        } else if s == "<real>"@ {
            Tok::RealLiteral
        } else {
            Tok::Invalid
        }
    } else if s.len() == 7 {
        if s == "default"@ {
            Tok::Default
        } else if s == "concept"@ {
            Tok::Concept
        } else if s == "<ident>"@ {
            Tok::Identifier
        } else {
            Tok::Invalid
        }
    } else if s.len() == 8 {
        if s == "continue"@ {
            Tok::Continue
        } else if s == "<string>"@ {
            Tok::StringLiteral
        } else {
            Tok::Invalid
        }
    } else if s.len() == 9 {
        if s == "<comment>"@ {
            Tok::Comment
        } else if s == "<integer>"@ {
            Tok::IntegerLiteral
        } else {
            Tok::Invalid
        }
    } else if s.len() == 15 {
        if s == "<invalid-token>"@ {
            Tok::Invalid
        } else {
            Tok::Invalid
        }
    } else {
        Tok::Invalid
    }
}

/// Each token kind reads back from its spelling.
proof fn lemma_spelled(t: Tok)
    ensures
        spelled(t.spelling()) == t,
{
    reveal_strlit("<eof>");
    reveal_strlit("<invalid-token>");
    reveal_strlit("<comment>");
    reveal_strlit("break");
    reveal_strlit("continue");
    reveal_strlit("if");
    reveal_strlit("else");
    reveal_strlit("switch");
    reveal_strlit("case");
    reveal_strlit("default");
    reveal_strlit("enum");
    reveal_strlit("proc");
    reveal_strlit("for");
    reveal_strlit("until");
    reveal_strlit("in");
    reveal_strlit("import");
    reveal_strlit("export");
    reveal_strlit("return");
    reveal_strlit("concept");
    reveal_strlit("var");
    reveal_strlit("const");
    reveal_strlit("true");
    reveal_strlit("false");
    reveal_strlit("empty");
    reveal_strlit("do");
    reveal_strlit("end");
    reveal_strlit("(");
    reveal_strlit(")");
    reveal_strlit("[");
    reveal_strlit("]");
    reveal_strlit("{");
    reveal_strlit("}");
    reveal_strlit(",");
    reveal_strlit(":");
    reveal_strlit(";");
    reveal_strlit(".");
    reveal_strlit("...");
    reveal_strlit("+");
    reveal_strlit("-");
    reveal_strlit("*");
    reveal_strlit("/");
    reveal_strlit("%");
    reveal_strlit("&");
    reveal_strlit("|");
    reveal_strlit("^");
    reveal_strlit("<<");
    reveal_strlit(">>");
    reveal_strlit("+=");
    reveal_strlit("-=");
    reveal_strlit("*=");
    reveal_strlit("/=");
    reveal_strlit("%=");
    reveal_strlit("^=");
    reveal_strlit("&=");
    reveal_strlit("|=");
    reveal_strlit("<<=");
    reveal_strlit(">>=");
    reveal_strlit("=");
    reveal_strlit("==");
    reveal_strlit("&&");
    reveal_strlit("||");
    reveal_strlit("!");
    reveal_strlit("!=");
    reveal_strlit("<");
    reveal_strlit(">");
    reveal_strlit("<=");
    reveal_strlit(">=");
    reveal_strlit("?");
    reveal_strlit("<ident>");
    reveal_strlit("<string>");
    reveal_strlit("<char>");
    reveal_strlit("<integer>");
    reveal_strlit("<real>");
    match t {
        Tok::Eof => {},
        Tok::Invalid => {},
        Tok::Comment => {},
        Tok::Break => {
            assert("break"@[0] != "<eof>"@[0]);
        },
        Tok::Continue => {},
        Tok::If => {},
        Tok::Else => {},
        Tok::Switch => {},
        Tok::Case => {
            assert("case"@[0] != "else"@[0]);
        },
        Tok::Default => {},
        Tok::Enum => {
            assert("enum"@[1] != "else"@[1]);
            assert("enum"@[0] != "case"@[0]);
        },
        Tok::Proc => {
            assert("proc"@[0] != "else"@[0]);
            assert("proc"@[0] != "case"@[0]);
            assert("proc"@[0] != "enum"@[0]);
        },
        Tok::For => {},
        Tok::Until => {
            assert("until"@[0] != "<eof>"@[0]);
            assert("until"@[0] != "break"@[0]);
        },
        Tok::In => {
            assert("in"@[1] != "if"@[1]);
        },
        Tok::Import => {
            assert("import"@[0] != "switch"@[0]);
        },
        Tok::Export => {
            assert("export"@[0] != "switch"@[0]);
            assert("export"@[0] != "import"@[0]);
        },
        Tok::Return => {
            assert("return"@[0] != "switch"@[0]);
            assert("return"@[0] != "import"@[0]);
            assert("return"@[0] != "export"@[0]);
        },
        Tok::Concept => {
            assert("concept"@[0] != "default"@[0]);
        },
        Tok::Var => {
            assert("var"@[0] != "for"@[0]);
        },
        Tok::Const => {
            assert("const"@[0] != "<eof>"@[0]);
            assert("const"@[0] != "break"@[0]);
            assert("const"@[0] != "until"@[0]);
        },
        Tok::True => {
            assert("true"@[0] != "else"@[0]);
            assert("true"@[0] != "case"@[0]);
            assert("true"@[0] != "enum"@[0]);
            assert("true"@[0] != "proc"@[0]);
        },
        Tok::False => {
            assert("false"@[0] != "<eof>"@[0]);
            assert("false"@[0] != "break"@[0]);
            assert("false"@[0] != "until"@[0]);
            assert("false"@[0] != "const"@[0]);
        },
        Tok::Empty => {
            assert("empty"@[0] != "<eof>"@[0]);
            assert("empty"@[0] != "break"@[0]);
            assert("empty"@[0] != "until"@[0]);
            assert("empty"@[0] != "const"@[0]);
            assert("empty"@[0] != "false"@[0]);
        },
        Tok::Do => {
            assert("do"@[0] != "if"@[0]);
            assert("do"@[0] != "in"@[0]);
        },
        Tok::End => {
            assert("end"@[0] != "for"@[0]);
            assert("end"@[0] != "var"@[0]);
        },
        Tok::LeftParen => {},
        Tok::RightParen => {
            assert(")"@[0] != "("@[0]);
        },
        Tok::LeftBracket => {
            assert("["@[0] != "("@[0]);
            assert("["@[0] != ")"@[0]);
        },
        Tok::RightBracket => {
            assert("]"@[0] != "("@[0]);
            assert("]"@[0] != ")"@[0]);
            assert("]"@[0] != "["@[0]);
        },
        Tok::LeftBrace => {
            assert("{"@[0] != "("@[0]);
            assert("{"@[0] != ")"@[0]);
            assert("{"@[0] != "["@[0]);
            assert("{"@[0] != "]"@[0]);
        },
        Tok::RightBrace => {
            assert("}"@[0] != "("@[0]);
            assert("}"@[0] != ")"@[0]);
            assert("}"@[0] != "["@[0]);
            assert("}"@[0] != "]"@[0]);
            assert("}"@[0] != "{"@[0]);
        },
        Tok::Comma => {
            assert(","@[0] != "("@[0]);
            assert(","@[0] != ")"@[0]);
            assert(","@[0] != "["@[0]);
            assert(","@[0] != "]"@[0]);
            assert(","@[0] != "{"@[0]);
            assert(","@[0] != "}"@[0]);
        },
        Tok::Colon => {
            assert(":"@[0] != "("@[0]);
            assert(":"@[0] != ")"@[0]);
            assert(":"@[0] != "["@[0]);
            assert(":"@[0] != "]"@[0]);
            assert(":"@[0] != "{"@[0]);
            assert(":"@[0] != "}"@[0]);
            assert(":"@[0] != ","@[0]);
        },
        Tok::Semicolon => {
            assert(";"@[0] != "("@[0]);
            assert(";"@[0] != ")"@[0]);
            assert(";"@[0] != "["@[0]);
            assert(";"@[0] != "]"@[0]);
            assert(";"@[0] != "{"@[0]);
            assert(";"@[0] != "}"@[0]);
            assert(";"@[0] != ","@[0]);
            assert(";"@[0] != ":"@[0]);
        },
        Tok::Dot => {
            assert("."@[0] != "("@[0]);
            assert("."@[0] != ")"@[0]);
            assert("."@[0] != "["@[0]);
            assert("."@[0] != "]"@[0]);
            assert("."@[0] != "{"@[0]);
            assert("."@[0] != "}"@[0]);
            assert("."@[0] != ","@[0]);
            assert("."@[0] != ":"@[0]);
            assert("."@[0] != ";"@[0]);
        },
        Tok::DotDotDot => {
            assert("..."@[0] != "for"@[0]);
            assert("..."@[0] != "var"@[0]);
            assert("..."@[0] != "end"@[0]);
        },
        Tok::Plus => {
            assert("+"@[0] != "("@[0]);
            assert("+"@[0] != ")"@[0]);
            assert("+"@[0] != "["@[0]);
            assert("+"@[0] != "]"@[0]);
            assert("+"@[0] != "{"@[0]);
            assert("+"@[0] != "}"@[0]);
            assert("+"@[0] != ","@[0]);
            assert("+"@[0] != ":"@[0]);
            assert("+"@[0] != ";"@[0]);
            assert("+"@[0] != "."@[0]);
        },
        Tok::Minus => {
            assert("-"@[0] != "("@[0]);
            assert("-"@[0] != ")"@[0]);
            assert("-"@[0] != "["@[0]);
            assert("-"@[0] != "]"@[0]);
            assert("-"@[0] != "{"@[0]);
            assert("-"@[0] != "}"@[0]);
            assert("-"@[0] != ","@[0]);
            assert("-"@[0] != ":"@[0]);
            assert("-"@[0] != ";"@[0]);
            assert("-"@[0] != "."@[0]);
            assert("-"@[0] != "+"@[0]);
        },
        Tok::Star => {
            assert("*"@[0] != "("@[0]);
            assert("*"@[0] != ")"@[0]);
            assert("*"@[0] != "["@[0]);
            assert("*"@[0] != "]"@[0]);
            assert("*"@[0] != "{"@[0]);
            assert("*"@[0] != "}"@[0]);
            assert("*"@[0] != ","@[0]);
            assert("*"@[0] != ":"@[0]);
            assert("*"@[0] != ";"@[0]);
            assert("*"@[0] != "."@[0]);
            assert("*"@[0] != "+"@[0]);
            assert("*"@[0] != "-"@[0]);
        },
        Tok::Slash => {
            assert("/"@[0] != "("@[0]);
            assert("/"@[0] != ")"@[0]);
            assert("/"@[0] != "["@[0]);
            assert("/"@[0] != "]"@[0]);
            assert("/"@[0] != "{"@[0]);
            assert("/"@[0] != "}"@[0]);
            assert("/"@[0] != ","@[0]);
            assert("/"@[0] != ":"@[0]);
            assert("/"@[0] != ";"@[0]);
            assert("/"@[0] != "."@[0]);
            assert("/"@[0] != "+"@[0]);
            assert("/"@[0] != "-"@[0]);
            assert("/"@[0] != "*"@[0]);
        },
        Tok::Percent => {
            assert("%"@[0] != "("@[0]);
            assert("%"@[0] != ")"@[0]);
            assert("%"@[0] != "["@[0]);
            assert("%"@[0] != "]"@[0]);
            assert("%"@[0] != "{"@[0]);
            assert("%"@[0] != "}"@[0]);
            assert("%"@[0] != ","@[0]);
            assert("%"@[0] != ":"@[0]);
            assert("%"@[0] != ";"@[0]);
            assert("%"@[0] != "."@[0]);
            assert("%"@[0] != "+"@[0]);
            assert("%"@[0] != "-"@[0]);
            assert("%"@[0] != "*"@[0]);
            assert("%"@[0] != "/"@[0]);
        },
        Tok::Ampersand => {
            assert("&"@[0] != "("@[0]);
            assert("&"@[0] != ")"@[0]);
            assert("&"@[0] != "["@[0]);
            assert("&"@[0] != "]"@[0]);
            assert("&"@[0] != "{"@[0]);
            assert("&"@[0] != "}"@[0]);
            assert("&"@[0] != ","@[0]);
            assert("&"@[0] != ":"@[0]);
            assert("&"@[0] != ";"@[0]);
            assert("&"@[0] != "."@[0]);
            assert("&"@[0] != "+"@[0]);
            assert("&"@[0] != "-"@[0]);
            assert("&"@[0] != "*"@[0]);
            assert("&"@[0] != "/"@[0]);
            assert("&"@[0] != "%"@[0]);
        },
        Tok::Pipe => {
            assert("|"@[0] != "("@[0]);
            assert("|"@[0] != ")"@[0]);
            assert("|"@[0] != "["@[0]);
            assert("|"@[0] != "]"@[0]);
            assert("|"@[0] != "{"@[0]);
            assert("|"@[0] != "}"@[0]);
            assert("|"@[0] != ","@[0]);
            assert("|"@[0] != ":"@[0]);
            assert("|"@[0] != ";"@[0]);
            assert("|"@[0] != "."@[0]);
            assert("|"@[0] != "+"@[0]);
            assert("|"@[0] != "-"@[0]);
            assert("|"@[0] != "*"@[0]);
            assert("|"@[0] != "/"@[0]);
            assert("|"@[0] != "%"@[0]);
            assert("|"@[0] != "&"@[0]);
        },
        Tok::Xor => {
            assert("^"@[0] != "("@[0]);
            assert("^"@[0] != ")"@[0]);
            assert("^"@[0] != "["@[0]);
            assert("^"@[0] != "]"@[0]);
            assert("^"@[0] != "{"@[0]);
            assert("^"@[0] != "}"@[0]);
            assert("^"@[0] != ","@[0]);
            assert("^"@[0] != ":"@[0]);
            assert("^"@[0] != ";"@[0]);
            assert("^"@[0] != "."@[0]);
            assert("^"@[0] != "+"@[0]);
            assert("^"@[0] != "-"@[0]);
            assert("^"@[0] != "*"@[0]);
            assert("^"@[0] != "/"@[0]);
            assert("^"@[0] != "%"@[0]);
            assert("^"@[0] != "&"@[0]);
            assert("^"@[0] != "|"@[0]);
        },
        Tok::LeftShift => {
            assert("<<"@[0] != "if"@[0]);
            assert("<<"@[0] != "in"@[0]);
            assert("<<"@[0] != "do"@[0]);
        },
        Tok::RightShift => {
            assert(">>"@[0] != "if"@[0]);
            assert(">>"@[0] != "in"@[0]);
            assert(">>"@[0] != "do"@[0]);
            assert(">>"@[0] != "<<"@[0]);
        },
        Tok::PlusEq => {
            assert("+="@[0] != "if"@[0]);
            assert("+="@[0] != "in"@[0]);
            assert("+="@[0] != "do"@[0]);
            assert("+="@[0] != "<<"@[0]);
            assert("+="@[0] != ">>"@[0]);
        },
        Tok::MinusEq => {
            assert("-="@[0] != "if"@[0]);
            assert("-="@[0] != "in"@[0]);
            assert("-="@[0] != "do"@[0]);
            assert("-="@[0] != "<<"@[0]);
            assert("-="@[0] != ">>"@[0]);
            assert("-="@[0] != "+="@[0]);
        },
        Tok::StarEq => {
            assert("*="@[0] != "if"@[0]);
            assert("*="@[0] != "in"@[0]);
            assert("*="@[0] != "do"@[0]);
            assert("*="@[0] != "<<"@[0]);
            assert("*="@[0] != ">>"@[0]);
            assert("*="@[0] != "+="@[0]);
            assert("*="@[0] != "-="@[0]);
        },
        Tok::SlashEq => {
            assert("/="@[0] != "if"@[0]);
            assert("/="@[0] != "in"@[0]);
            assert("/="@[0] != "do"@[0]);
            assert("/="@[0] != "<<"@[0]);
            assert("/="@[0] != ">>"@[0]);
            assert("/="@[0] != "+="@[0]);
            assert("/="@[0] != "-="@[0]);
            assert("/="@[0] != "*="@[0]);
        },
        Tok::PercentEq => {
            assert("%="@[0] != "if"@[0]);
            assert("%="@[0] != "in"@[0]);
            assert("%="@[0] != "do"@[0]);
            assert("%="@[0] != "<<"@[0]);
            assert("%="@[0] != ">>"@[0]);
            assert("%="@[0] != "+="@[0]);
            assert("%="@[0] != "-="@[0]);
            assert("%="@[0] != "*="@[0]);
            assert("%="@[0] != "/="@[0]);
        },
        Tok::XorEq => {
            assert("^="@[0] != "if"@[0]);
            assert("^="@[0] != "in"@[0]);
            assert("^="@[0] != "do"@[0]);
            assert("^="@[0] != "<<"@[0]);
            assert("^="@[0] != ">>"@[0]);
            assert("^="@[0] != "+="@[0]);
            assert("^="@[0] != "-="@[0]);
            assert("^="@[0] != "*="@[0]);
            assert("^="@[0] != "/="@[0]);
            assert("^="@[0] != "%="@[0]);
        },
        Tok::AndEq => {
            assert("&="@[0] != "if"@[0]);
            assert("&="@[0] != "in"@[0]);
            assert("&="@[0] != "do"@[0]);
            assert("&="@[0] != "<<"@[0]);
            assert("&="@[0] != ">>"@[0]);
            assert("&="@[0] != "+="@[0]);
            assert("&="@[0] != "-="@[0]);
            assert("&="@[0] != "*="@[0]);
            assert("&="@[0] != "/="@[0]);
            assert("&="@[0] != "%="@[0]);
            assert("&="@[0] != "^="@[0]);
        },
        Tok::OrEq => {
            assert("|="@[0] != "if"@[0]);
            assert("|="@[0] != "in"@[0]);
            assert("|="@[0] != "do"@[0]);
            assert("|="@[0] != "<<"@[0]);
            assert("|="@[0] != ">>"@[0]);
            assert("|="@[0] != "+="@[0]);
            assert("|="@[0] != "-="@[0]);
            assert("|="@[0] != "*="@[0]);
            assert("|="@[0] != "/="@[0]);
            assert("|="@[0] != "%="@[0]);
            assert("|="@[0] != "^="@[0]);
            assert("|="@[0] != "&="@[0]);
        },
        Tok::LshiftEq => {
            assert("<<="@[0] != "for"@[0]);
            assert("<<="@[0] != "var"@[0]);
            assert("<<="@[0] != "end"@[0]);
            assert("<<="@[0] != "..."@[0]);
        },
        Tok::RshiftEq => {
            assert(">>="@[0] != "for"@[0]);
            assert(">>="@[0] != "var"@[0]);
            assert(">>="@[0] != "end"@[0]);
            assert(">>="@[0] != "..."@[0]);
            assert(">>="@[0] != "<<="@[0]);
        },
        Tok::Assign => {
            assert("="@[0] != "("@[0]);
            assert("="@[0] != ")"@[0]);
            assert("="@[0] != "["@[0]);
            assert("="@[0] != "]"@[0]);
            assert("="@[0] != "{"@[0]);
            assert("="@[0] != "}"@[0]);
            assert("="@[0] != ","@[0]);
            assert("="@[0] != ":"@[0]);
            assert("="@[0] != ";"@[0]);
            assert("="@[0] != "."@[0]);
            assert("="@[0] != "+"@[0]);
            assert("="@[0] != "-"@[0]);
            assert("="@[0] != "*"@[0]);
            assert("="@[0] != "/"@[0]);
            assert("="@[0] != "%"@[0]);
            assert("="@[0] != "&"@[0]);
            assert("="@[0] != "|"@[0]);
            assert("="@[0] != "^"@[0]);
        },
        Tok::Equals => {
            assert("=="@[0] != "if"@[0]);
            assert("=="@[0] != "in"@[0]);
            assert("=="@[0] != "do"@[0]);
            assert("=="@[0] != "<<"@[0]);
            assert("=="@[0] != ">>"@[0]);
            assert("=="@[0] != "+="@[0]);
            assert("=="@[0] != "-="@[0]);
            assert("=="@[0] != "*="@[0]);
            assert("=="@[0] != "/="@[0]);
            assert("=="@[0] != "%="@[0]);
            assert("=="@[0] != "^="@[0]);
            assert("=="@[0] != "&="@[0]);
            assert("=="@[0] != "|="@[0]);
        },
        Tok::And => {
            assert("&&"@[0] != "if"@[0]);
            assert("&&"@[0] != "in"@[0]);
            assert("&&"@[0] != "do"@[0]);
            assert("&&"@[0] != "<<"@[0]);
            assert("&&"@[0] != ">>"@[0]);
            assert("&&"@[0] != "+="@[0]);
            assert("&&"@[0] != "-="@[0]);
            assert("&&"@[0] != "*="@[0]);
            assert("&&"@[0] != "/="@[0]);
            assert("&&"@[0] != "%="@[0]);
            assert("&&"@[0] != "^="@[0]);
            assert("&&"@[1] != "&="@[1]);
            assert("&&"@[0] != "|="@[0]);
            assert("&&"@[0] != "=="@[0]);
        },
        Tok::Or => {
            assert("||"@[0] != "if"@[0]);
            assert("||"@[0] != "in"@[0]);
            assert("||"@[0] != "do"@[0]);
            assert("||"@[0] != "<<"@[0]);
            assert("||"@[0] != ">>"@[0]);
            assert("||"@[0] != "+="@[0]);
            assert("||"@[0] != "-="@[0]);
            assert("||"@[0] != "*="@[0]);
            assert("||"@[0] != "/="@[0]);
            assert("||"@[0] != "%="@[0]);
            assert("||"@[0] != "^="@[0]);
            assert("||"@[0] != "&="@[0]);
            assert("||"@[1] != "|="@[1]);
            assert("||"@[0] != "=="@[0]);
            assert("||"@[0] != "&&"@[0]);
        },
        Tok::Bang => {
            assert("!"@[0] != "("@[0]);
            assert("!"@[0] != ")"@[0]);
            assert("!"@[0] != "["@[0]);
            assert("!"@[0] != "]"@[0]);
            assert("!"@[0] != "{"@[0]);
            assert("!"@[0] != "}"@[0]);
            assert("!"@[0] != ","@[0]);
            assert("!"@[0] != ":"@[0]);
            assert("!"@[0] != ";"@[0]);
            assert("!"@[0] != "."@[0]);
            assert("!"@[0] != "+"@[0]);
            assert("!"@[0] != "-"@[0]);
            assert("!"@[0] != "*"@[0]);
            assert("!"@[0] != "/"@[0]);
            assert("!"@[0] != "%"@[0]);
            assert("!"@[0] != "&"@[0]);
            assert("!"@[0] != "|"@[0]);
            assert("!"@[0] != "^"@[0]);
            assert("!"@[0] != "="@[0]);
        },
        Tok::BangEq => {
            assert("!="@[0] != "if"@[0]);
            assert("!="@[0] != "in"@[0]);
            assert("!="@[0] != "do"@[0]);
            assert("!="@[0] != "<<"@[0]);
            assert("!="@[0] != ">>"@[0]);
            assert("!="@[0] != "+="@[0]);
            assert("!="@[0] != "-="@[0]);
            assert("!="@[0] != "*="@[0]);
            assert("!="@[0] != "/="@[0]);
            assert("!="@[0] != "%="@[0]);
            assert("!="@[0] != "^="@[0]);
            assert("!="@[0] != "&="@[0]);
            assert("!="@[0] != "|="@[0]);
            assert("!="@[0] != "=="@[0]);
            assert("!="@[0] != "&&"@[0]);
            assert("!="@[0] != "||"@[0]);
        },
        Tok::Less => {
            assert("<"@[0] != "("@[0]);
            assert("<"@[0] != ")"@[0]);
            assert("<"@[0] != "["@[0]);
            assert("<"@[0] != "]"@[0]);
            assert("<"@[0] != "{"@[0]);
            assert("<"@[0] != "}"@[0]);
            assert("<"@[0] != ","@[0]);
            assert("<"@[0] != ":"@[0]);
            assert("<"@[0] != ";"@[0]);
            assert("<"@[0] != "."@[0]);
            assert("<"@[0] != "+"@[0]);
            assert("<"@[0] != "-"@[0]);
            assert("<"@[0] != "*"@[0]);
            assert("<"@[0] != "/"@[0]);
            assert("<"@[0] != "%"@[0]);
            assert("<"@[0] != "&"@[0]);
            assert("<"@[0] != "|"@[0]);
            assert("<"@[0] != "^"@[0]);
            assert("<"@[0] != "="@[0]);
            assert("<"@[0] != "!"@[0]);
        },
        Tok::Greater => {
            assert(">"@[0] != "("@[0]);
            assert(">"@[0] != ")"@[0]);
            assert(">"@[0] != "["@[0]);
            assert(">"@[0] != "]"@[0]);
            assert(">"@[0] != "{"@[0]);
            assert(">"@[0] != "}"@[0]);
            assert(">"@[0] != ","@[0]);
            assert(">"@[0] != ":"@[0]);
            assert(">"@[0] != ";"@[0]);
            assert(">"@[0] != "."@[0]);
            assert(">"@[0] != "+"@[0]);
            assert(">"@[0] != "-"@[0]);
            assert(">"@[0] != "*"@[0]);
            assert(">"@[0] != "/"@[0]);
            assert(">"@[0] != "%"@[0]);
            assert(">"@[0] != "&"@[0]);
            assert(">"@[0] != "|"@[0]);
            assert(">"@[0] != "^"@[0]);
            assert(">"@[0] != "="@[0]);
            assert(">"@[0] != "!"@[0]);
            assert(">"@[0] != "<"@[0]);
        },
        Tok::LessEq => {
            assert("<="@[0] != "if"@[0]);
            assert("<="@[0] != "in"@[0]);
            assert("<="@[0] != "do"@[0]);
            assert("<="@[1] != "<<"@[1]);
            assert("<="@[0] != ">>"@[0]);
            assert("<="@[0] != "+="@[0]);
            assert("<="@[0] != "-="@[0]);
            assert("<="@[0] != "*="@[0]);
            assert("<="@[0] != "/="@[0]);
            assert("<="@[0] != "%="@[0]);
            assert("<="@[0] != "^="@[0]);
            assert("<="@[0] != "&="@[0]);
            assert("<="@[0] != "|="@[0]);
            assert("<="@[0] != "=="@[0]);
            assert("<="@[0] != "&&"@[0]);
            assert("<="@[0] != "||"@[0]);
            assert("<="@[0] != "!="@[0]);
        },
        Tok::GreaterEq => {
            assert(">="@[0] != "if"@[0]);
            assert(">="@[0] != "in"@[0]);
            assert(">="@[0] != "do"@[0]);
            assert(">="@[0] != "<<"@[0]);
            assert(">="@[1] != ">>"@[1]);
            assert(">="@[0] != "+="@[0]);
            assert(">="@[0] != "-="@[0]);
            assert(">="@[0] != "*="@[0]);
            assert(">="@[0] != "/="@[0]);
            assert(">="@[0] != "%="@[0]);
            assert(">="@[0] != "^="@[0]);
            assert(">="@[0] != "&="@[0]);
            assert(">="@[0] != "|="@[0]);
            assert(">="@[0] != "=="@[0]);
            assert(">="@[0] != "&&"@[0]);
            assert(">="@[0] != "||"@[0]);
            assert(">="@[0] != "!="@[0]);
            assert(">="@[0] != "<="@[0]);
        },
        Tok::Question => {
            assert("?"@[0] != "("@[0]);
            assert("?"@[0] != ")"@[0]);
            assert("?"@[0] != "["@[0]);
            assert("?"@[0] != "]"@[0]);
            assert("?"@[0] != "{"@[0]);
            assert("?"@[0] != "}"@[0]);
            assert("?"@[0] != ","@[0]);
            assert("?"@[0] != ":"@[0]);
            assert("?"@[0] != ";"@[0]);
            assert("?"@[0] != "."@[0]);
            assert("?"@[0] != "+"@[0]);
            assert("?"@[0] != "-"@[0]);
            assert("?"@[0] != "*"@[0]);
            assert("?"@[0] != "/"@[0]);
            assert("?"@[0] != "%"@[0]);
            assert("?"@[0] != "&"@[0]);
            assert("?"@[0] != "|"@[0]);
            assert("?"@[0] != "^"@[0]);
            assert("?"@[0] != "="@[0]);
            assert("?"@[0] != "!"@[0]);
            assert("?"@[0] != "<"@[0]);
            assert("?"@[0] != ">"@[0]);
        },
        Tok::Identifier => {
            assert("<ident>"@[0] != "default"@[0]);
            assert("<ident>"@[0] != "concept"@[0]);
        },
        Tok::StringLiteral => {
            assert("<string>"@[0] != "continue"@[0]);
        },
        Tok::CharLiteral => {
            assert("<char>"@[0] != "switch"@[0]);
            assert("<char>"@[0] != "import"@[0]);
            assert("<char>"@[0] != "export"@[0]);
            assert("<char>"@[0] != "return"@[0]);
        },
        Tok::IntegerLiteral => {
            assert("<integer>"@[1] != "<comment>"@[1]);
        },
        Tok::RealLiteral => {
            assert("<real>"@[0] != "switch"@[0]);
            assert("<real>"@[0] != "import"@[0]);
            assert("<real>"@[0] != "export"@[0]);
            assert("<real>"@[0] != "return"@[0]);
            assert("<real>"@[1] != "<char>"@[1]);
        },
    }
}

/// No two token kinds share a spelling.
pub proof fn lemma_spellings_distinct(t1: Tok, t2: Tok)
    ensures
        t1 != t2 ==> t1.spelling() != t2.spelling(),
{
    lemma_spelled(t1);
    lemma_spelled(t2);
}

/// A word is a keyword only when it is exactly that keyword's spelling; every other word is
/// an identifier.
pub proof fn lemma_keyword_exact(word: Seq<char>)
    ensures
        keyword_or_identifier(word) == Tok::Identifier || (keyword_or_identifier(word).is_keyword()
            && word == keyword_or_identifier(word).spelling()),
{
}

/// Binary operators bind in five levels, tightest first: `*`, `/` and `%`; then `+` and `-`;
/// then `&&`, `||`, `<<`, `>>`, `^`, `&` and `|`; then `<`, `<=`, `>` and `>=`; then `==` and
/// `!=`. Operators of one level bind alike, and every other token binds at 0.
pub proof fn lemma_precedence_levels(a: Tok, b: Tok)
    ensures
        ({
            let multiplicative = |t: Tok| t == Tok::Star || t == Tok::Slash || t == Tok::Percent;
            let additive = |t: Tok| t == Tok::Plus || t == Tok::Minus;
            let bits = |t: Tok|
                t == Tok::And || t == Tok::Or || t == Tok::LeftShift || t == Tok::RightShift
                    || t == Tok::Xor || t == Tok::Ampersand || t == Tok::Pipe;
            let cmp = |t: Tok|
                t == Tok::Less || t == Tok::LessEq || t == Tok::Greater || t == Tok::GreaterEq;
            let eq = |t: Tok| t == Tok::Equals || t == Tok::BangEq;
            &&& (multiplicative(a) && multiplicative(b)) ==> a.precedence() == b.precedence()
            &&& (additive(a) && additive(b)) ==> a.precedence() == b.precedence()
            &&& (bits(a) && bits(b)) ==> a.precedence() == b.precedence()
            &&& (cmp(a) && cmp(b)) ==> a.precedence() == b.precedence()
            &&& (eq(a) && eq(b)) ==> a.precedence() == b.precedence()
            &&& (multiplicative(a) && additive(b)) ==> a.precedence() > b.precedence()
            &&& (additive(a) && bits(b)) ==> a.precedence() > b.precedence()
            &&& (bits(a) && cmp(b)) ==> a.precedence() > b.precedence()
            &&& (cmp(a) && eq(b)) ==> a.precedence() > b.precedence()
            &&& eq(a) ==> a.precedence() > 0
            &&& !(multiplicative(a) || additive(a) || bits(a) || cmp(a) || eq(a)) ==> a.precedence() == 0
        }),
{
}

/// The classes of token kinds, member by member: `is_punctuator` holds of exactly the
/// operators, `is_operator` of exactly the brackets, separators and points, and
/// `is_keyword` of exactly the keywords.
pub proof fn lemma_class_members(t: Tok)
    ensures
        t.ordinal_between(Tok::Plus, Tok::Question) <==> (t == Tok::Plus
            || t == Tok::Minus
            || t == Tok::Star
            || t == Tok::Slash
            || t == Tok::Percent
            || t == Tok::Ampersand
            || t == Tok::Pipe
            || t == Tok::Xor
            || t == Tok::LeftShift
            || t == Tok::RightShift
            || t == Tok::PlusEq
            || t == Tok::MinusEq
            || t == Tok::StarEq
            || t == Tok::SlashEq
            || t == Tok::PercentEq
            || t == Tok::XorEq
            || t == Tok::AndEq
            || t == Tok::OrEq
            || t == Tok::LshiftEq
            || t == Tok::RshiftEq
            || t == Tok::Assign
            || t == Tok::Equals
            || t == Tok::And
            || t == Tok::Or
            || t == Tok::Bang
            || t == Tok::BangEq
            || t == Tok::Less
            || t == Tok::Greater
            || t == Tok::LessEq
            || t == Tok::GreaterEq
            || t == Tok::Question),
        t.ordinal_between(Tok::LeftParen, Tok::DotDotDot) <==> (t == Tok::LeftParen
            || t == Tok::RightParen
            || t == Tok::LeftBracket
            || t == Tok::RightBracket
            || t == Tok::LeftBrace
            || t == Tok::RightBrace
            || t == Tok::Comma
            || t == Tok::Colon
            || t == Tok::Semicolon
            || t == Tok::Dot
            || t == Tok::DotDotDot),
        t.is_keyword() <==> (t == Tok::Break
            || t == Tok::Continue
            || t == Tok::If
            || t == Tok::Else
            || t == Tok::Switch
            || t == Tok::Case
            || t == Tok::Default
            || t == Tok::Enum
            || t == Tok::Proc
            || t == Tok::For
            || t == Tok::Until
            || t == Tok::In
            || t == Tok::Import
            || t == Tok::Export
            || t == Tok::Return
            || t == Tok::Concept
            || t == Tok::Var
            || t == Tok::Const
            || t == Tok::True
            || t == Tok::False
            || t == Tok::Empty
            || t == Tok::Do
            || t == Tok::End),
{
}

} // verus!
