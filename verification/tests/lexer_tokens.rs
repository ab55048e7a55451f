use ham::frontend::lexer::lex::Lexer;
use ham::frontend::lexer::pos::FileSet;
use ham::frontend::lexer::token::Tok;
use rand::Rng;

struct TestCase {
    token: Tok,
    lit: &'static str,
}

#[derive(Clone)]
struct LexerResult {
    lit: String,
    kind: Tok,
    line: usize,
    column: usize,
}

fn count_lines(s: &str) -> usize {
    if s.is_empty() {
        0
    } else {
        s.bytes().filter(|&b| b == b'\n').count() + 1
    }
}

fn test_lexer_result(
    set: &mut FileSet,
    input: &str,
    parse_comment: bool,
    expected: &[LexerResult],
) {
    let file = set.add_file("test_file".to_owned(), input.len());
    let src = input.as_bytes();

    let mut l = Lexer::new(file, src, parse_comment, |msg, pos| {
        println!("Lexer error: {} at {:?}", msg, pos);
    });

    for (i, e) in expected.iter().enumerate() {
        let (tok, literal, offset) = l.scan();
        let src_pos = l.file.source_pos(offset);

        assert_eq!(
            tok, e.kind,
            "iteration ({}): expected token: {:?}, got: {:?}",
            i, e.kind, tok
        );
        assert_eq!(literal, e.lit, "iteration ({}): literal value not equal", i);
        assert_eq!(
            src_pos.line as usize, e.line,
            "iteration ({}): line number not synchronized",
            i
        );
        assert_eq!(
            src_pos.column as usize, e.column,
            "iteration ({}): column number not synchronized",
            i
        );
    }

    let (tok, _, _) = l.scan();
    assert_eq!(tok, Tok::Eof, "more tokens left in stream");
    assert_eq!(
        l.err_count(), 0,
        "lexer reported errors during test execution"
    );
}

#[test]
fn test_tokens() {
    let test_cases = vec![
        TestCase {
            token: Tok::Comment,
            lit: "# a comment\n",
        },
        TestCase {
            token: Tok::Comment,
            lit: "#\r\n",
        },
        TestCase {
            token: Tok::Identifier,
            lit: "foobar",
        },
        TestCase {
            token: Tok::Identifier,
            lit: "a۰۱۸",
        },
        TestCase {
            token: Tok::Identifier,
            lit: "foo६४",
        },
        TestCase {
            token: Tok::Identifier,
            lit: "bar９８７６",
        },
        TestCase {
            token: Tok::Identifier,
            lit: "ŝ",
        },
        TestCase {
            token: Tok::Identifier,
            lit: "ŝfoo",
        },
        TestCase {
            token: Tok::IntegerLiteral,
            lit: "0",
        },
        TestCase {
            token: Tok::IntegerLiteral,
            lit: "1",
        },
        TestCase {
            token: Tok::IntegerLiteral,
            lit: "123456789012345678890",
        },
        TestCase {
            token: Tok::IntegerLiteral,
            lit: "01234567",
        },
        TestCase {
            token: Tok::IntegerLiteral,
            lit: "0xcafebabe",
        },
        TestCase {
            token: Tok::RealLiteral,
            lit: "0.",
        },
        TestCase {
            token: Tok::RealLiteral,
            lit: ".0",
        },
        TestCase {
            token: Tok::RealLiteral,
            lit: "3.14159265",
        },
        TestCase {
            token: Tok::RealLiteral,
            lit: "1e0",
        },
        TestCase {
            token: Tok::RealLiteral,
            lit: "1e+100",
        },
        TestCase {
            token: Tok::RealLiteral,
            lit: "1e-100",
        },
        TestCase {
            token: Tok::RealLiteral,
            lit: "2.71828e-1000",
        },
        TestCase {
            token: Tok::CharLiteral,
            lit: "'a'",
        },
        TestCase {
            token: Tok::CharLiteral,
            lit: "'\\000'",
        },
        TestCase {
            token: Tok::CharLiteral,
            lit: "'\\xFF'",
        },
        TestCase {
            token: Tok::CharLiteral,
            lit: "'\\uff16'",
        },
        TestCase {
            token: Tok::CharLiteral,
            lit: "'\\U0000ff16'",
        },
        TestCase {
            token: Tok::Plus,
            lit: "+",
        },
        TestCase {
            token: Tok::Minus,
            lit: "-",
        },
        TestCase {
            token: Tok::Star,
            lit: "*",
        },
        TestCase {
            token: Tok::Slash,
            lit: "/",
        },
        TestCase {
            token: Tok::Percent,
            lit: "%",
        },
        TestCase {
            token: Tok::Ampersand,
            lit: "&",
        },
        TestCase {
            token: Tok::Pipe,
            lit: "|",
        },
        TestCase {
            token: Tok::Xor,
            lit: "^",
        },
        TestCase {
            token: Tok::LeftShift,
            lit: "<<",
        },
        TestCase {
            token: Tok::RightShift,
            lit: ">>",
        },
        TestCase {
            token: Tok::PlusEq,
            lit: "+=",
        },
        TestCase {
            token: Tok::MinusEq,
            lit: "-=",
        },
        TestCase {
            token: Tok::StarEq,
            lit: "*=",
        },
        TestCase {
            token: Tok::SlashEq,
            lit: "/=",
        },
        TestCase {
            token: Tok::PercentEq,
            lit: "%=",
        },
        TestCase {
            token: Tok::AndEq,
            lit: "&=",
        },
        TestCase {
            token: Tok::OrEq,
            lit: "|=",
        },
        TestCase {
            token: Tok::XorEq,
            lit: "^=",
        },
        TestCase {
            token: Tok::LshiftEq,
            lit: "<<=",
        },
        TestCase {
            token: Tok::RshiftEq,
            lit: ">>=",
        },
        TestCase {
            token: Tok::And,
            lit: "&&",
        },
        TestCase {
            token: Tok::Or,
            lit: "||",
        },
        TestCase {
            token: Tok::Equals,
            lit: "==",
        },
        TestCase {
            token: Tok::Less,
            lit: "<",
        },
        TestCase {
            token: Tok::Greater,
            lit: ">",
        },
        TestCase {
            token: Tok::Assign,
            lit: "=",
        },
        TestCase {
            token: Tok::Bang,
            lit: "!",
        },
        TestCase {
            token: Tok::BangEq,
            lit: "!=",
        },
        TestCase {
            token: Tok::LessEq,
            lit: "<=",
        },
        TestCase {
            token: Tok::GreaterEq,
            lit: ">=",
        },
        TestCase {
            token: Tok::Dot,
            lit: ".",
        },
        TestCase {
            token: Tok::DotDotDot,
            lit: "...",
        },
        TestCase {
            token: Tok::LeftParen,
            lit: "(",
        },
        TestCase {
            token: Tok::LeftBracket,
            lit: "[",
        },
        TestCase {
            token: Tok::LeftBrace,
            lit: "{",
        },
        TestCase {
            token: Tok::Comma,
            lit: ",",
        },
        TestCase {
            token: Tok::RightParen,
            lit: ")",
        },
        TestCase {
            token: Tok::RightBracket,
            lit: "]",
        },
        TestCase {
            token: Tok::RightBrace,
            lit: "}",
        },
        TestCase {
            token: Tok::Semicolon,
            lit: ";",
        },
        TestCase {
            token: Tok::Colon,
            lit: ":",
        },
        TestCase {
            token: Tok::Break,
            lit: "break",
        },
        TestCase {
            token: Tok::Continue,
            lit: "continue",
        },
    ];

    let mut rng = rand::rng();
    let mut line_sum = 0;
    let mut lines = Vec::new();
    let mut set = FileSet::new();

    let mut line_numbers = vec![0; test_cases.len()];
    let mut column_numbers = vec![0; test_cases.len()];

    for (i, tc) in test_cases.iter().enumerate() {
        let empty_lines = rng.random_range(0..4);
        for _ in 0..empty_lines {
            lines.push(" ".repeat(rng.random_range(0..10)));
        }

        let empty_columns = rng.random_range(0..10);
        lines.push(format!(
            "{}{}{}",
            " ".repeat(empty_columns),
            tc.lit,
            " ".repeat(empty_columns)
        ));

        line_numbers[i] = line_sum + empty_lines + 1;
        line_sum += empty_lines + count_lines(tc.lit);
        column_numbers[i] = empty_columns + 1;
    }

    let mut expected = Vec::new();
    let mut expected_skip_comments = Vec::new();

    for (i, tc) in test_cases.iter().enumerate() {
        let expected_literal = match tc.token {
            Tok::Comment => &tc.lit[..tc.lit.len() - 1],
            _ => tc.lit,
        };

        let res = LexerResult {
            lit: expected_literal.to_owned(),
            kind: tc.token.clone(),
            line: line_numbers[i],
            column: column_numbers[i],
        };

        expected.push(res.clone());
        if tc.token != Tok::Comment {
            expected_skip_comments.push(res);
        }
    }

    let full_input = lines.join("\n");

    test_lexer_result(&mut set, &full_input, true, &expected);
    test_lexer_result(&mut set, &full_input, false, &expected_skip_comments);
}
