use ham::cli::builder::{BuildMode, Builder};
use ham::frontend::lexer::pos::{FileSet, Position, SourcePosition};
use ham::frontend::lexer::token::{get_ident_or_keyword, Tok};
use ham::frontend::parser::parse::Parser;

const KEYWORDS: [Tok; 23] = [
    Tok::Break,
    Tok::Continue,
    Tok::If,
    Tok::Else,
    Tok::Switch,
    Tok::Case,
    Tok::Default,
    Tok::Enum,
    Tok::Proc,
    Tok::For,
    Tok::Until,
    Tok::In,
    Tok::Import,
    Tok::Export,
    Tok::Return,
    Tok::Concept,
    Tok::Var,
    Tok::Const,
    Tok::True,
    Tok::False,
    Tok::Empty,
    Tok::Do,
    Tok::End,
];

#[test]
fn keywords_read_back_from_their_spelling() {
    for t in KEYWORDS {
        assert_eq!(get_ident_or_keyword(t.to_str()), t);
    }
    assert_eq!(get_ident_or_keyword("switch"), Tok::Switch);
    assert_eq!(get_ident_or_keyword("Break"), Tok::Identifier);
    assert_eq!(get_ident_or_keyword("ends"), Tok::Identifier);
    assert_eq!(get_ident_or_keyword(""), Tok::Identifier);
    assert_eq!(get_ident_or_keyword("<eof>"), Tok::Identifier);
}

#[test]
fn spellings() {
    assert_eq!(Tok::Eof.to_str(), "<eof>");
    assert_eq!(Tok::Invalid.to_str(), "<invalid-token>");
    assert_eq!(Tok::Comment.to_str(), "<comment>");
    assert_eq!(Tok::DotDotDot.to_str(), "...");
    assert_eq!(Tok::RshiftEq.to_str(), ">>=");
    assert_eq!(Tok::Question.to_str(), "?");
    assert_eq!(Tok::Identifier.to_str(), "<ident>");
    assert_eq!(Tok::RealLiteral.to_str(), "<real>");
    assert_eq!(Tok::Concept.to_string(), "concept");
    assert_eq!(Tok::BangEq.to_string(), "!=");
}

#[test]
fn precedences() {
    assert_eq!(Tok::Equals.prec(), 1);
    assert_eq!(Tok::BangEq.prec(), 1);
    assert_eq!(Tok::LessEq.prec(), 2);
    assert_eq!(Tok::Greater.prec(), 2);
    assert_eq!(Tok::Or.prec(), 3);
    assert_eq!(Tok::Pipe.prec(), 3);
    assert_eq!(Tok::LeftShift.prec(), 3);
    assert_eq!(Tok::Minus.prec(), 4);
    assert_eq!(Tok::Percent.prec(), 5);
    assert_eq!(Tok::Assign.prec(), 0);
    assert_eq!(Tok::PlusEq.prec(), 0);
    assert_eq!(Tok::Identifier.prec(), 0);
}

#[test]
fn token_classes() {
    assert!(Tok::Plus.is_punctuator());
    assert!(Tok::Question.is_punctuator());
    assert!(Tok::RshiftEq.is_punctuator());
    assert!(!Tok::DotDotDot.is_punctuator());
    assert!(!Tok::Identifier.is_punctuator());
    assert!(Tok::LeftParen.is_operator());
    assert!(Tok::DotDotDot.is_operator());
    assert!(Tok::Colon.is_operator());
    assert!(!Tok::Plus.is_operator());
    assert!(!Tok::End.is_operator());
    let all = [
        Tok::Eof,
        Tok::Comment,
        Tok::End,
        Tok::LeftParen,
        Tok::Dot,
        Tok::Plus,
        Tok::Star,
        Tok::Equals,
        Tok::Question,
        Tok::Identifier,
        Tok::RealLiteral,
    ];
    for t in all {
        assert!(!(t.is_operator() && t.is_punctuator()));
        assert!(t.prec() >= 0);
        if t.prec() > 0 {
            assert!(t.is_punctuator());
        }
    }
}

#[test]
fn position_validity() {
    assert!(!Position(0).is_valid());
    assert!(Position(1).is_valid());
    assert!(!SourcePosition::default().is_valid());
    assert_eq!(SourcePosition::default().to_string(), "");
    assert!(SourcePosition::default() == SourcePosition::default());
}

#[test]
fn file_set_bases_and_length() {
    let mut set = FileSet::new();
    assert_eq!(set.len(), 0);
    let a = set.add_file("a".to_owned(), 10);
    assert_eq!(a.base, 1);
    let b = set.add_file("b".to_owned(), 5);
    assert_eq!(b.base, 12);
    let c = set.add_file("c".to_owned(), 0);
    assert_eq!(c.base, 18);
    assert_eq!(set.len(), 15);
}

#[test]
fn offsets_round_trip() {
    let mut set = FileSet::new();
    set.add_file("a".to_owned(), 3);
    let f = set.add_file("b".to_owned(), 7);
    for o in 0..=7 {
        let p = f.to_set_pos(o);
        assert_eq!(p, Position(5 + o));
        assert_eq!(f.to_file_offset(p), o);
    }
}

#[test]
fn lines_and_source_positions() {
    let mut set = FileSet::new();
    let f = set.add_file("main.ham".to_owned(), 20);
    f.add_line(5);
    f.add_line(3);
    f.add_line(5);
    f.add_line(20);
    f.add_line(12);
    let sp = f.source_pos(f.to_set_pos(0));
    assert_eq!((sp.line, sp.column), (1, 1));
    assert_eq!(sp.to_string(), "main.ham:1:1");
    let sp = f.source_pos(f.to_set_pos(4));
    assert_eq!((sp.line, sp.column), (1, 5));
    let sp = f.source_pos(f.to_set_pos(5));
    assert_eq!((sp.line, sp.column), (2, 1));
    let sp = f.source_pos(f.to_set_pos(11));
    assert_eq!((sp.line, sp.column), (2, 7));
    let sp = f.source_pos(f.to_set_pos(20));
    assert_eq!(sp.to_string(), "main.ham:3:9");
    let sp = f.source_pos(Position(0));
    assert!(!sp.is_valid());
    assert_eq!(sp.to_string(), "");
}

#[test]
fn set_lookup_finds_the_file() {
    let mut set = FileSet::new();
    let a = set.add_file("a".to_owned(), 4);
    a.add_line(2);
    let b = set.add_file("b".to_owned(), 6);
    b.add_line(1);
    assert_eq!(set.source_pos(Position(4)).unwrap().to_string(), "a:2:2");
    assert_eq!(set.source_pos(Position(6)).unwrap().to_string(), "b:1:1");
    assert_eq!(set.source_pos(Position(8)).unwrap().to_string(), "b:2:2");
    assert_eq!(set.source_pos(Position(1)).unwrap().to_string(), "a:1:1");
    assert_eq!(set.source_pos(Position(12)).unwrap().to_string(), "b:2:6");
    assert!(set.source_pos(Position(13)).is_none());
    assert!(set.source_pos(Position(0)).is_none());
    let direct = set.source_pos(Position(5)).unwrap();
    assert_eq!(direct.to_string(), "a:2:3");
}

#[test]
fn builder_defaults() {
    let _b = Builder::new();
    assert_eq!(BuildMode::TranspileOnly, BuildMode::TranspileOnly);
    assert_ne!(BuildMode::RunOnly, BuildMode::ErrorCheck);
}

#[test]
fn parser_starts_before_the_first_token() {
    let mut set = FileSet::new();
    let src = b"var x = 1";
    let f = set.add_file("p".to_owned(), src.len());
    let _p = Parser::new(f, src, 10, false, |_, _| {});
}

#[test]
fn position_text_with_several_digits() {
    let mut set = FileSet::new();
    let f = set.add_file("long.ham".to_owned(), 300);
    for k in 1..=11 {
        f.add_line(10 * k);
    }
    let sp = f.source_pos(f.to_set_pos(214));
    assert_eq!((sp.line, sp.column), (12, 105));
    assert_eq!(sp.to_string(), "long.ham:12:105");
    let sp = f.source_pos(f.to_set_pos(109));
    assert_eq!(sp.to_string(), "long.ham:11:10");
}
