use vstd::prelude::*;

use crate::frontend::lexer::lex::{start_errors, start_offset, Lexer};
use crate::frontend::lexer::pos::{File, Position, SourcePosition};
use crate::frontend::lexer::token::Tok;
use crate::frontend::lexer::valid::valid_from;

verus! {

/// An error found by the parser, with where it was found.
pub struct ParseError {
    pos: SourcePosition,
    message: String,
}

/// A parser over the tokens of a lexer: the current token's position, kind and literal, the
/// errors found so far, and how many of them to report.
pub struct Parser<'a, E> where E: Fn(String, SourcePosition) {
    lexer: Lexer<'a, E>,
    pos: Position,
    kind: Tok,
    literal: String,
    errors: Vec<ParseError>,
    max_report_errors: usize,
}

impl<'a, E> Parser<'a, E> where E: Fn(String, SourcePosition) {
    /// The lexer.
    pub closed spec fn lexer(&self) -> Lexer<'a, E> {
        self.lexer
    }

    /// The position of the current token.
    pub closed spec fn pos(&self) -> Position {
        self.pos
    }

    /// The kind of the current token.
    pub closed spec fn kind(&self) -> Tok {
        self.kind
    }

    /// The literal of the current token.
    pub closed spec fn literal(&self) -> Seq<char> {
        self.literal@
    }

    /// The number of errors found so far.
    pub closed spec fn error_count(&self) -> nat {
        self.errors@.len()
    }

    /// How many errors the parser reports.
    pub closed spec fn max_report_errors(&self) -> usize {
        self.max_report_errors
    }

    /// A parser over `src`, the text of `file`, whose lexer reports errors to `err_cb`; no
    /// token has been read yet, so the current token is `Tok::Invalid` at the invalid
    /// position with an empty literal.
    pub fn new(
        file: &'a mut File,
        src: &'a [u8],
        max_report_errors: usize,
        parse_comment: bool,
        err_cb: E,
    ) -> (r: Self)
        requires
            old(file)@.wf(),
            src@.len() <= isize::MAX,
            forall|m: String, p: SourcePosition| call_requires(err_cb, (m, p)),
            forall|i: int|
                0 <= i < start_errors(src@).len() ==> #[trigger] start_errors(src@)[i].1
                    <= old(file)@.size,
        ensures
            src@.len() <= old(file)@.size ==> r.lexer().wf(),
            r.lexer().source() == src@,
            r.lexer().parses_comments() == parse_comment,
            r.lexer().offset() == start_offset(src@),
            r.lexer().errors() == start_errors(src@),
            r.lexer().file_model() == old(file)@,
            r.lexer().calls_match(),
            vstd::utf8::valid_utf8(src@) ==> valid_from(src@, r.lexer().offset()),
            *final(file) == *final(r.lexer().file_ref()),
            r.pos() == Position(0),
            r.kind() == Tok::Invalid,
            r.literal() == Seq::<char>::empty(),
            r.error_count() == 0,
            r.max_report_errors() == max_report_errors,
    {
        let lexer = Lexer::new(file, src, parse_comment, err_cb);
        Parser {
            lexer,
            pos: Position(0),
            kind: Tok::Invalid,
            literal: String::new(),
            errors: Vec::new(),
            max_report_errors,
        }
    }
}

} // verus!
