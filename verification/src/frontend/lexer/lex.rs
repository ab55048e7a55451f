use vstd::prelude::*;
use vstd::utf8::{decode_utf8, is_continuation_byte, valid_utf8};

use crate::frontend::lexer::pos::{
    lemma_with_line_keeps, File, FileView, Position, SourcePosition,
};
use crate::frontend::lexer::rules::{
    char_at, char_scan, comment_pred, digit_pred, escape_digits, escape_scan, ident_pred,
    lemma_char_scan, lemma_escape_digits, lemma_escape_scan, lemma_number_scan,
    lemma_punct_kind, lemma_punct_scan, lemma_read_errors, lemma_run_errors_len, lemma_scan_eof,
    lemma_scan_ident, lemma_scan_number, lemma_scan_rest, lemma_scan_spec, lemma_skip_while,
    lemma_string_scan, lit_text, next_pos, nl_lines, number_base, number_scan, peek_byte,
    punct_scan, read_errors, run_errors, scan_rest, scan_safe, scan_spec, skip_while, lit_valid,
    starts_ident, starts_number, string_scan, ws_pred, LexError, Report,
};
use crate::frontend::lexer::token::{get_ident_or_keyword, Tok};
use crate::frontend::lexer::valid::{lemma_valid_scan, lemma_valid_start, valid_from};
use crate::frontend::lexer::unicode::{
    char_is_alphabetic, char_is_numeric, char_is_whitespace, char_to_string, decode_rune,
    hex_digit_value, hex_value, is_alphabetic, is_numeric, is_whitespace, lemma_width, rune_at,
    utf8_text, width_at, BOM,
};

verus! {

/// The character classes that the lexer skips over.
enum CharClass {
    Whitespace,
    Ident,
    Comment,
    Digits(u32),
}

impl CharClass {
    /// The characters of the class.
    spec fn pred(self) -> spec_fn(char) -> bool {
        match self {
            CharClass::Whitespace => ws_pred(),
            CharClass::Ident => ident_pred(),
            CharClass::Comment => comment_pred(),
            CharClass::Digits(base) => digit_pred(base),
        }
    }

    /// True when `c` belongs to the class.
    fn accepts(&self, c: char) -> (r: bool)
        ensures
            r == (self.pred())(c),
    {
        match self {
            CharClass::Whitespace => is_whitespace(c),
            CharClass::Ident => is_alphabetic(c) || is_numeric(c),
            CharClass::Comment => c != '\n',
            CharClass::Digits(base) => c == '_' || hex_digit_value(c) < *base,
        }
    }
}

/// Reading the character at `o` records a line after it exactly when it is a newline, and
/// a newline takes one byte.
pub proof fn lemma_step_lines(f: FileView, src: Seq<u8>, o: int)
    requires
        0 <= o < src.len(),
    ensures
        (rune_at(src, o) == '\n') == (src[o] == 10),
        rune_at(src, o) == '\n' ==> width_at(src, o) == 1,
        nl_lines(f, src, o, next_pos(src, o)) == (if src[o] == 10 {
            f.with_line((o + 1) as usize)
        } else {
            f
        }),
{
    lemma_width(src, o);
    let w = width_at(src, o);
    if w == 1 && src[o] < 0x80 {
        assert(rune_at(src, o) == src[o] as char);
    }
    let g = if src[o] == 10 {
        f.with_line((o + 1) as usize)
    } else {
        f
    };
    lemma_nl_skip(g, src, o + 1, o + w, o + w);
    assert(nl_lines(g, src, o + w, o + w) == g);
    assert(nl_lines(f, src, o, o + w) == nl_lines(g, src, o + 1, o + w));
}

/// Bytes that are no newline record no line.
pub proof fn lemma_nl_skip(f: FileView, src: Seq<u8>, a: int, b: int, end: int)
    requires
        0 <= a <= b <= end <= src.len(),
        forall|k: int| a <= k < b ==> is_continuation_byte(#[trigger] src[k]),
    ensures
        nl_lines(f, src, a, end) == nl_lines(f, src, b, end),
    decreases b - a,
{
    if a < b {
        assert(is_continuation_byte(src[a]));
        lemma_nl_skip(f, src, a + 1, b, end);
    }
}

/// Reading the bytes from `p` to `q` and then from `q` to `r` records the same lines as
/// reading from `p` to `r`.
pub proof fn lemma_nl_compose(f: FileView, src: Seq<u8>, p: int, q: int, r: int)
    requires
        0 <= p <= q <= r <= src.len(),
    ensures
        nl_lines(nl_lines(f, src, p, q), src, q, r) == nl_lines(f, src, p, r),
    decreases q - p,
{
    if p < q {
        let g = if src[p] == 10 {
            f.with_line((p + 1) as usize)
        } else {
            f
        };
        lemma_nl_compose(g, src, p + 1, q, r);
    }
}

/// `base` to the power `k`.
pub open spec fn power(base: int, k: nat) -> int
    decreases k,
{
    if k == 0 {
        1
    } else {
        base * power(base, (k - 1) as nat)
    }
}

/// Powers of a positive base grow with the exponent.
proof fn lemma_power_mono(base: int, j: nat, k: nat)
    requires
        base >= 1,
        j <= k,
    ensures
        1 <= power(base, j) <= power(base, k),
    decreases k,
{
    if k > 0 {
        let j1: nat = if j < k {
            j
        } else {
            (k - 1) as nat
        };
        lemma_power_mono(base, j1, (k - 1) as nat);
        assert(power(base, (k - 1) as nat) <= base * power(base, (k - 1) as nat)) by (nonlinear_arith)
            requires
                base >= 1,
                power(base, (k - 1) as nat) >= 1,
        ;
    }
}

/// The errors of reading from `p` to `r` are those of the first step followed by those of the
/// rest.
pub proof fn lemma_run_step(src: Seq<u8>, p: int, r: int)
    requires
        0 <= p < r <= src.len(),
    ensures
        run_errors(src, p, r) == read_errors(src, next_pos(src, p)) + run_errors(
            src,
            next_pos(src, p),
            r,
        ),
        run_errors(src, p, next_pos(src, p)) == read_errors(src, next_pos(src, p)),
{
    lemma_width(src, p);
    let n = next_pos(src, p);
    assert(run_errors(src, n, n) =~= Seq::<Report>::empty());
    assert(run_errors(src, p, n) =~= read_errors(src, n) + run_errors(src, n, n));
}

/// The errors of reading from `p` to `r` are those of skipping from `p` followed by those of
/// the rest.
pub proof fn lemma_run_skip(src: Seq<u8>, p: int, pred: spec_fn(char) -> bool, r: int)
    requires
        0 <= p <= skip_while(src, p, pred) <= r <= src.len(),
    ensures
        run_errors(src, p, r) == run_errors(src, p, skip_while(src, p, pred)) + run_errors(
            src,
            skip_while(src, p, pred),
            r,
        ),
    decreases src.len() - p,
{
    let s = skip_while(src, p, pred);
    if 0 <= p < src.len() && pred(rune_at(src, p)) {
        lemma_width(src, p);
        let n = next_pos(src, p);
        lemma_skip_while(src, n, pred);
        lemma_run_skip(src, n, pred, r);
        lemma_run_step(src, p, r);
        lemma_run_step(src, p, s);
        assert(run_errors(src, p, r) =~= run_errors(src, p, s) + run_errors(src, s, r));
    } else {
        assert(run_errors(src, p, p) =~= Seq::<Report>::empty());
        assert(run_errors(src, p, r) =~= run_errors(src, p, s) + run_errors(src, s, r));
    }
}

/// The lexer: it reads `src`, the text of `file`, and hands out one token per `scan`.
///
/// Errors go to the callback `err_cb` with their message and source position; their number
/// is kept in `err_count`, and the model keeps each error with its offset and what the
/// callback was handed for it.
pub struct Lexer<'a, E> where E: Fn(String, SourcePosition) {
    pub file: &'a mut File,
    src: &'a [u8],
    parse_comment: bool,
    err_cb: E,
    err_count: u64,
    cc: Option<char>,
    offset: usize,
    read_offset: usize,
    reports: Ghost<Seq<Report>>,
    calls: Ghost<Seq<(String, SourcePosition)>>,
}

/// The offset at which a lexer starts: after a leading byte order mark, 0 otherwise.
pub open spec fn start_offset(src: Seq<u8>) -> int {
    if char_at(src, 0) == Some(BOM) {
        next_pos(src, 0)
    } else {
        0
    }
}

/// The errors that a new lexer reports: those of reading its first character, and of the
/// one after a leading byte order mark.
pub open spec fn start_errors(src: Seq<u8>) -> Seq<Report> {
    read_errors(src, 0) + if char_at(src, 0) == Some(BOM) {
        read_errors(src, next_pos(src, 0))
    } else {
        seq![]
    }
}

impl<'a, E> Lexer<'a, E> where E: Fn(String, SourcePosition) {
    /// The source text.
    pub closed spec fn source(&self) -> Seq<u8> {
        self.src@
    }

    /// The offset of the current character, or the length of the source at its end.
    pub closed spec fn offset(&self) -> int {
        self.offset as int
    }

    /// The errors reported so far, in order.
    pub closed spec fn errors(&self) -> Seq<Report> {
        self.reports@
    }

    /// The error callback.
    pub closed spec fn callback(&self) -> E {
        self.err_cb
    }

    /// What the error callback has been called with so far, in order: message and source
    /// position.
    pub closed spec fn callback_args(&self) -> Seq<(String, SourcePosition)> {
        self.calls@
    }

    /// The callback has been called once for each error, in order, with its message and the
    /// source position of its offset in the file as it stands, and each call returned.
    pub open spec fn calls_match(&self) -> bool {
        &&& self.callback_args().len() == self.errors().len()
        &&& forall|i: int|
            0 <= i < self.errors().len() ==> {
                &&& (#[trigger] self.callback_args()[i]).0@ == self.errors()[i].0.text()
                &&& self.callback_args()[i].1@ == self.file_model().source_pos(
                    (self.file_model().base + self.errors()[i].1) as usize,
                )
                &&& call_ensures(
                    self.callback(),
                    (self.callback_args()[i].0, self.callback_args()[i].1),
                    (),
                )
            }
    }

    /// The log of callback calls matches the errors, whose offsets lie at or before the
    /// current one and inside the file.
    closed spec fn log_ok(&self) -> bool {
        &&& self.calls_match()
        &&& forall|i: int|
            0 <= i < self.reports@.len() ==> 0 <= #[trigger] self.reports@[i].1 <= self.offset
                && self.reports@[i].1 <= self.file@.size
    }

    /// Whether comments are tokens.
    pub closed spec fn parses_comments(&self) -> bool {
        self.parse_comment
    }

    /// The reference to the file.
    pub closed spec fn file_ref(&self) -> &'a mut File {
        self.file
    }

    /// The model of the file.
    pub closed spec fn file_model(&self) -> FileView {
        self.file@
    }

    /// The error callback accepts every message and position.
    pub closed spec fn callback_ready(&self) -> bool {
        forall|m: String, p: SourcePosition| call_requires(self.err_cb, (m, p))
    }

    /// The lexer is consistent with its source and file.
    closed spec fn inv(&self) -> bool {
        &&& self.offset <= self.src@.len()
        &&& self.cc == char_at(self.src@, self.offset as int)
        &&& self.read_offset == next_pos(self.src@, self.offset as int)
        &&& self.file@.wf()
        &&& self.src@.len() <= self.file@.size
        &&& self.src@.len() <= isize::MAX
        &&& self.err_count == self.reports@.len()
        &&& self.callback_ready()
        &&& self.log_ok()
    }

    /// The lexer is consistent, and it has reported at most two errors per byte read, plus
    /// one.
    pub closed spec fn wf(&self) -> bool {
        &&& self.inv()
        &&& self.reports@.len() <= 2 * self.offset + 1
    }

    /// The parts that reading leaves alone: source, comment mode, callback, and the name,
    /// base and size of the file.
    pub closed spec fn same_setup(&self, other: &Self) -> bool {
        &&& self.src@ == other.src@
        &&& self.parse_comment == other.parse_comment
        &&& self.err_cb == other.err_cb
        &&& self.file@.name == other.file@.name
        &&& self.file@.base == other.file@.base
        &&& self.file@.size == other.file@.size
    }

    /// The offset that `next` moves to.
    closed spec fn next_target(&self) -> int {
        if self.read_offset < self.src@.len() {
            self.read_offset as int
        } else {
            self.src@.len() as int
        }
    }

    /// The number of errors reported so far.
    pub fn err_count(&self) -> (r: u64)
        requires
            self.wf(),
        ensures
            r == self.errors().len(),
    {
        self.err_count
    }

    /// A lexer over `src`, the text of `file`, positioned on its first character, past a
    /// leading byte order mark.
    ///
    /// The errors of reading that first character are reported at their positions in the
    /// file, which must lie inside it. The lexer can scan once the file is at least as long
    /// as the source (`wf`).
    pub fn new(file: &'a mut File, src: &'a [u8], parse_comment: bool, err_cb: E) -> (r: Self)
        requires
            old(file)@.wf(),
            src@.len() <= isize::MAX,
            forall|m: String, p: SourcePosition| call_requires(err_cb, (m, p)),
            forall|i: int|
                0 <= i < start_errors(src@).len() ==> #[trigger] start_errors(src@)[i].1
                    <= old(file)@.size,
        ensures
            src@.len() <= old(file)@.size ==> r.wf(),
            r.callback() == err_cb,
            r.source() == src@,
            r.parses_comments() == parse_comment,
            r.offset() == start_offset(src@),
            r.errors() == start_errors(src@),
            r.errors().len() <= 1,
            r.file_model() == old(file)@,
            r.calls_match(),
            vstd::utf8::valid_utf8(src@) ==> valid_from(src@, r.offset()),
            *final(file) == *final(r.file_ref()),
    {
        proof {
            if vstd::utf8::valid_utf8(src@) {
                lemma_valid_start(src@);
            }
        }
        let mut lexer = Lexer {
            file,
            src,
            parse_comment,
            err_cb,
            err_count: 0,
            cc: Some(' '),
            offset: 0,
            read_offset: 0,
            reports: Ghost(Seq::empty()),
            calls: Ghost(Seq::empty()),
        };
        proof {
            if src@.len() > 0 {
                lemma_width(src@, 0);
            }
        }
        lexer.next();
        if lexer.cc == Some(BOM) {
            proof {
                lemma_width(src@, 0);
                lemma_step_lines(lexer.file@, src@, 0);
                let n = next_pos(src@, 0);
                assert(read_errors(src@, 0) =~= Seq::<Report>::empty());
                assert(start_errors(src@) =~= read_errors(src@, n));
                if read_errors(src@, n).len() > 0 {
                    assert(start_errors(src@)[0].1 == n);
                }
            }
            lexer.next();
        }
        proof {
            if src@.len() > 0 && char_at(src@, 0) == Some(BOM) {
                assert(lexer.reports@ =~= start_errors(src@));
            } else {
                assert(lexer.reports@ =~= start_errors(src@));
            }
        }
        lexer
    }

    /// Reports `e` at `offset` to the callback, with the source position of that offset.
    #[inline]
    fn err(&mut self, e: LexError, offset: usize)
        requires
            old(self).file@.wf(),
            offset <= old(self).file@.size,
            old(self).callback_ready(),
            old(self).err_count == old(self).reports@.len(),
            old(self).err_count < u64::MAX,
            old(self).log_ok(),
            offset <= old(self).offset,
        ensures
            final(self).reports@ == old(self).reports@.push((e, offset as int)),
            final(self).log_ok(),
            final(self).err_count == final(self).reports@.len(),
            final(self).file@ == old(self).file@,
            final(self).same_setup(old(self)),
            final(self).offset == old(self).offset,
            final(self).cc == old(self).cc,
            final(self).read_offset == old(self).read_offset,
            final(self).callback_ready(),
            *final(final(self).file) == *final(old(self).file),
    {
        let pos = self.file.source_pos(self.file.to_set_pos(offset));
        let msg = e.message().to_owned();
        let ghost handed = (msg, pos);
        (self.err_cb)(msg, pos);
        self.err_count += 1;
        self.reports = Ghost(self.reports@.push((e, offset as int)));
        self.calls = Ghost(self.calls@.push(handed));
        proof {
            let r = self.reports@;
            let c = self.calls@;
            assert forall|i: int| 0 <= i < r.len() implies {
                &&& (#[trigger] c[i]).0@ == r[i].0.text()
                &&& c[i].1@ == self.file_model().source_pos(
                    (self.file_model().base + r[i].1) as usize,
                )
                &&& call_ensures(self.err_cb, (c[i].0, c[i].1), ())
            } by {
                if i < r.len() - 1 {
                    assert(r[i] == old(self).reports@[i]);
                    assert(c[i] == old(self).calls@[i]);
                }
            }
            assert forall|i: int| 0 <= i < r.len() implies 0 <= #[trigger] r[i].1
                <= self.offset && r[i].1 <= self.file@.size by {
                if i < r.len() - 1 {
                    assert(r[i] == old(self).reports@[i]);
                }
            }
        }
    }

    /// Moves to the next character, recording a line after a newline that it leaves and
    /// reporting a bad character that it reads.
    fn next(&mut self)
        requires
            old(self).read_offset <= old(self).src@.len(),
            old(self).file@.wf(),
            read_errors(old(self).src@, old(self).next_target()).len() > 0 ==> old(
                self,
            ).next_target() <= old(self).file@.size,
            old(self).callback_ready(),
            old(self).err_count == old(self).reports@.len(),
            old(self).err_count + read_errors(old(self).src@, old(self).next_target()).len()
                <= u64::MAX,
            old(self).log_ok(),
            old(self).offset <= old(self).next_target(),
            old(self).cc == Some('\n') ==> old(self).offset < old(self).next_target(),
        ensures
            final(self).log_ok(),
            final(self).offset == old(self).next_target(),
            final(self).cc == char_at(old(self).src@, old(self).next_target()),
            final(self).read_offset == next_pos(old(self).src@, old(self).next_target()),
            final(self).file@ == (if old(self).cc == Some('\n') {
                old(self).file@.with_line(old(self).next_target() as usize)
            } else {
                old(self).file@
            }),
            final(self).file@.wf(),
            final(self).reports@ == old(self).reports@ + read_errors(
                old(self).src@,
                old(self).next_target(),
            ),
            final(self).err_count == final(self).reports@.len(),
            final(self).same_setup(old(self)),
            final(self).callback_ready(),
            *final(final(self).file) == *final(old(self).file),
    {
        if self.read_offset < self.src.len() {
            self.offset = self.read_offset;
            if self.cc == Some('\n') {
                self.file.add_line(self.offset);
            }
            proof {
                self.lemma_log_moves(old(self));
            }
            let (rune, width) = decode_rune(self.src, self.read_offset);
            proof {
                lemma_width(self.src@, self.offset as int);
            }
            let ghost before = self.reports@;
            let ghost n = self.offset as int;
            if rune == '\0' {
                self.err(LexError::NullCharacter, self.offset);
            } else if rune == '\u{FFFD}' && width == 1 {
                self.err(LexError::IllegalCharacter, self.offset);
            } else if rune == BOM && self.offset > 0 {
                self.err(LexError::UnexpectedBom, self.offset);
            }
            assert(self.reports@ =~= before + read_errors(self.src@, n));
            self.read_offset += width;
            self.cc = Some(rune);
        } else {
            self.offset = self.src.len();
            if self.cc == Some('\n') {
                self.file.add_line(self.offset);
            }
            proof {
                self.lemma_log_moves(old(self));
            }
            self.cc = None;
        }
    }

    /// Moving on to a later offset, and recording a line start after the old one, keeps the
    /// log of callback arguments in line with the errors.
    proof fn lemma_log_moves(&self, before: &Self)
        requires
            before.log_ok(),
            before.file@.wf(),
            before.offset <= self.offset,
            self.err_cb == before.err_cb,
            self.reports@ == before.reports@,
            self.calls@ == before.calls@,
            self.file@ == before.file@ || (self.file@ == before.file@.with_line(self.offset)
                && before.offset < self.offset),
        ensures
            self.log_ok(),
    {
        let r = self.reports@;
        let f = before.file@;
        let c = self.calls@;
        assert forall|i: int| 0 <= i < r.len() implies {
            &&& (#[trigger] c[i]).0@ == r[i].0.text()
            &&& c[i].1@ == self.file_model().source_pos(
                (self.file_model().base + r[i].1) as usize,
            )
            &&& call_ensures(self.err_cb, (c[i].0, c[i].1), ())
        } by {
            assert(before.callback_args()[i] == c[i]);
            assert(c[i].1@ == f.source_pos((f.base + r[i].1) as usize));
            assert(0 <= r[i].1 <= before.offset && r[i].1 <= f.size);
            if self.file@ != f {
                lemma_with_line_keeps(f, self.offset, r[i].1);
            }
        }
        assert forall|i: int| 0 <= i < r.len() implies 0 <= #[trigger] r[i].1 <= self.offset
            && r[i].1 <= self.file@.size by {
            assert(0 <= before.reports@[i].1 <= before.offset);
        }
    }

    /// The byte after the current character, or 0 at the end.
    #[inline]
    fn peek(&self) -> (r: u8)
        requires
            self.inv(),
        ensures
            r == peek_byte(self.src@, self.offset as int),
    {
        if self.read_offset < self.src.len() {
            self.src[self.read_offset]
        } else {
            0
        }
    }

    /// Moves past the characters of `class`.
    fn skip(&mut self, class: CharClass)
        requires
            old(self).inv(),
            old(self).err_count + run_errors(
                old(self).src@,
                old(self).offset as int,
                skip_while(old(self).src@, old(self).offset as int, class.pred()),
            ).len() <= u64::MAX,
        ensures
            final(self).inv(),
            final(self).same_setup(old(self)),
            final(self).offset == skip_while(old(self).src@, old(self).offset as int, class.pred()),
            final(self).reports@ == old(self).reports@ + run_errors(
                old(self).src@,
                old(self).offset as int,
                final(self).offset as int,
            ),
            final(self).file@ == nl_lines(
                old(self).file@,
                old(self).src@,
                old(self).offset as int,
                final(self).offset as int,
            ),
            *final(final(self).file) == *final(old(self).file),
    {
        let ghost src = self.src@;
        let ghost p0 = self.offset as int;
        let ghost end = skip_while(src, p0, class.pred());
        let ghost target = old(self).reports@ + run_errors(src, p0, end);
        let ghost lines = nl_lines(old(self).file@, src, p0, end);
        proof {
            lemma_skip_while(src, p0, class.pred());
        }
        loop
            invariant
                self.inv(),
                self.same_setup(old(self)),
                src == self.src@,
                self.offset <= end <= src.len(),
                skip_while(src, self.offset as int, class.pred()) == end,
                target == self.reports@ + run_errors(src, self.offset as int, end),
                target.len() <= u64::MAX,
                lines == nl_lines(self.file@, src, self.offset as int, end),
                *final(self.file) == *final(old(self).file),
            ensures
                self.offset == end,
            decreases src.len() - self.offset,
        {
            let c = match self.cc {
                Some(c) => c,
                None => break,
            };
            if !class.accepts(c) {
                break;
            }
            proof {
                let o = self.offset as int;
                lemma_width(src, o);
                lemma_step_lines(self.file@, src, o);
                lemma_skip_while(src, next_pos(src, o), class.pred());
                lemma_nl_compose(self.file@, src, o, next_pos(src, o), end);
                assert(self.next_target() == next_pos(src, o));
            }
            self.next();
        }
        proof {
            assert(run_errors(src, end, end) =~= Seq::<Report>::empty());
            assert(target =~= self.reports@);
        }
    }
    /// The source text from `a` to `b`, when it is valid UTF-8.
    fn text(&self, a: usize, b: usize) -> (r: Option<&'a str>)
        requires
            a <= b <= self.src@.len(),
        ensures
            r is Some <==> valid_utf8(self.src@.subrange(a as int, b as int)),
            r matches Some(t) ==> t@ == decode_utf8(self.src@.subrange(a as int, b as int)),
    {
        let src: &'a [u8] = self.src;
        utf8_text(&src[a..b])
    }

    /// Reads an escape sequence whose backslash has been read, inside a literal closed by
    /// `quote`; false when the sequence is not valid.
    fn scan_escape(&mut self, quote: char) -> (r: bool)
        requires
            old(self).inv(),
            old(self).err_count + escape_scan(old(self).src@, old(self).offset as int, quote).2.len()
                <= u64::MAX,
        ensures
            final(self).inv(),
            final(self).same_setup(old(self)),
            r == escape_scan(old(self).src@, old(self).offset as int, quote).0,
            final(self).offset == escape_scan(old(self).src@, old(self).offset as int, quote).1,
            final(self).reports@ == old(self).reports@ + escape_scan(
                old(self).src@,
                old(self).offset as int,
                quote,
            ).2,
            final(self).file@ == nl_lines(
                old(self).file@,
                old(self).src@,
                old(self).offset as int,
                final(self).offset as int,
            ),
            *final(final(self).file) == *final(old(self).file),
    {
        let ghost src = self.src@;
        let ghost p = self.offset as int;
        let ghost spec_r = escape_scan(src, p, quote);
        let ghost target = old(self).reports@ + spec_r.2;
        let ghost lines = nl_lines(old(self).file@, src, p, spec_r.1);
        proof {
            lemma_escape_scan(src, p, quote);
        }
        let prev_offset = self.offset;
        let mut n: u32;
        let base: u32;
        let max: u32;
        let c = match self.cc {
            Some(c) => c,
            None => {
                self.err(LexError::UnterminatedEscape, prev_offset);
                proof {
                    assert(self.reports@ =~= target);
                }
                return false;
            },
        };
        proof {
            lemma_width(src, p);
            lemma_step_lines(self.file@, src, p);
        }
        if c == 'a' || c == 'b' || c == 'f' || c == 'n' || c == 'r' || c == 't' || c == 'v' || c
            == '\\' {
            self.next();
            return true;
        }
        if c == quote {
            self.next();
            return true;
        }
        if '0' <= c && c <= '7' {
            n = 3;
            base = 8;
            max = 255;
        } else if c == 'x' {
            self.next();
            n = 2;
            base = 16;
            max = 255;
        } else if c == 'u' {
            self.next();
            n = 4;
            base = 16;
            max = 0x10FFFF;
        } else if c == 'U' {
            self.next();
            n = 8;
            base = 16;
            max = 0x10FFFF;
        } else {
            self.err(LexError::UnknownEscape, prev_offset);
            proof {
                assert(self.reports@ =~= target);
            }
            return false;
        }
        let ghost n0 = n;
        let mut x: u32 = 0;
        proof {
            reveal_with_fuel(power, 9);
            assert(power(base as int, n0 as nat) <= 0x1_0000_0000);
            lemma_escape_digits(src, p, self.offset as int, n as nat, base as int, max as int, 0);
            lemma_nl_compose(old(self).file@, src, p, self.offset as int, spec_r.1);
            assert(target =~= self.reports@ + escape_digits(
                src,
                p,
                self.offset as int,
                n as nat,
                base as int,
                max as int,
                x as int,
            ).2);
        }
        while n > 0
            invariant
                self.inv(),
                self.same_setup(old(self)),
                src == self.src@,
                src == old(self).src@,
                p == old(self).offset,
                spec_r == escape_scan(src, p, quote),
                target == old(self).reports@ + spec_r.2,
                lines == nl_lines(old(self).file@, src, p, spec_r.1),
                p <= self.offset <= spec_r.1 <= src.len(),
                escape_digits(src, p, self.offset as int, n as nat, base as int, max as int, x as int).0
                    == spec_r.0,
                escape_digits(src, p, self.offset as int, n as nat, base as int, max as int, x as int).1
                    == spec_r.1,
                target == self.reports@ + escape_digits(
                    src,
                    p,
                    self.offset as int,
                    n as nat,
                    base as int,
                    max as int,
                    x as int,
                ).2,
                target.len() <= u64::MAX,
                lines == nl_lines(self.file@, src, self.offset as int, spec_r.1),
                base == 8 || base == 16,
                n <= n0 <= 8,
                power(base as int, n0 as nat) <= 0x1_0000_0000,
                x < power(base as int, (n0 - n) as nat),
                *final(self.file) == *final(old(self).file),
            decreases n,
        {
            let d = match self.cc {
                Some(ch) => hex_digit_value(ch),
                None => {
                    proof {
                        let o = self.offset as int;
                        assert(escape_digits(src, p, o, n as nat, base as int, max as int, x as int)
                            == (false, o, seq![(LexError::UnterminatedEscape, o)]));
                    }
                    self.err(LexError::UnterminatedEscape, self.offset);
                    proof {
                        assert(self.reports@ =~= target);
                    }
                    return false;
                },
            };
            if d >= base {
                let e = if self.cc.is_none() {
                    LexError::UnterminatedEscape
                } else {
                    LexError::IllegalEscape
                };
                self.err(e, self.offset);
                proof {
                    assert(self.reports@ =~= target);
                }
                return false;
            }
            proof {
                let k = (n0 - n) as nat;
                let pk = power(base as int, k);
                assert(power(base as int, k + 1) == base * pk);
                lemma_power_mono(base as int, k + 1, n0 as nat);
                assert(x * base + d < base * pk) by (nonlinear_arith)
                    requires
                        x < pk,
                        d < base,
                ;
                let o = self.offset as int;
                lemma_width(src, o);
                lemma_escape_digits(
                    src,
                    p,
                    next_pos(src, o),
                    (n - 1) as nat,
                    base as int,
                    max as int,
                    x * base + d,
                );
                lemma_step_lines(self.file@, src, o);
                lemma_nl_compose(self.file@, src, o, next_pos(src, o), spec_r.1);
                assert(self.next_target() == next_pos(src, o));
            }
            x = x * base + d;
            self.next();
            n -= 1;
        }
        if x > max || (0xD800 <= x && x < 0xE000) {
            self.err(LexError::IllegalEscape, prev_offset);
            proof {
                assert(self.reports@ =~= target);
            }
            return false;
        }
        proof {
            assert(self.reports@ =~= target);
        }
        true
    }
    /// Reads the rest of a string literal whose opening quote has been read, and returns its
    /// source text, quotes included.
    fn scan_string(&mut self) -> (r: Option<&'a str>)
        requires
            old(self).inv(),
            1 <= old(self).offset,
            old(self).err_count + string_scan(
                old(self).src@,
                old(self).offset as int,
                old(self).offset - 1,
            ).1.len() <= u64::MAX,
        ensures
            final(self).inv(),
            final(self).same_setup(old(self)),
            final(self).offset == string_scan(
                old(self).src@,
                old(self).offset as int,
                old(self).offset - 1,
            ).0,
            final(self).reports@ == old(self).reports@ + string_scan(
                old(self).src@,
                old(self).offset as int,
                old(self).offset - 1,
            ).1,
            final(self).file@ == nl_lines(
                old(self).file@,
                old(self).src@,
                old(self).offset as int,
                final(self).offset as int,
            ),
            r is Some <==> valid_utf8(old(self).src@.subrange(old(self).offset - 1, final(self).offset as int)),
            r matches Some(t) ==> t@ == decode_utf8(old(self).src@.subrange(old(self).offset - 1, final(self).offset as int)),
            *final(final(self).file) == *final(old(self).file),
    {
        let prev_offset = self.offset - 1;
        let ghost src = self.src@;
        let ghost p = self.offset as int;
        let ghost start = prev_offset as int;
        let ghost spec_r = string_scan(src, p, start);
        let ghost target = old(self).reports@ + spec_r.1;
        let ghost lines = nl_lines(old(self).file@, src, p, spec_r.0);
        proof {
            lemma_string_scan(src, p, start);
        }
        loop
            invariant_except_break
                string_scan(src, self.offset as int, start).0 == spec_r.0,
                target == self.reports@ + string_scan(src, self.offset as int, start).1,
                lines == nl_lines(self.file@, src, self.offset as int, spec_r.0),
            invariant
                self.inv(),
                self.same_setup(old(self)),
                src == self.src@,
                src == old(self).src@,
                p == old(self).offset,
                start == prev_offset,
                spec_r == string_scan(src, p, start),
                target == old(self).reports@ + spec_r.1,
                lines == nl_lines(old(self).file@, src, p, spec_r.0),
                start == p - 1,
                p <= self.offset <= spec_r.0 <= src.len(),
                target.len() <= u64::MAX,
                *final(self.file) == *final(old(self).file),
            ensures
                self.inv(),
                self.same_setup(old(self)),
                self.offset == spec_r.0,
                self.reports@ == target,
                self.file@ == lines,
                *final(self.file) == *final(old(self).file),
            decreases src.len() - self.offset,
        {
            let ch = self.cc;
            let ghost o = self.offset as int;
            if ch == Some('\n') || ch.is_none() {
                self.err(LexError::UnterminatedString, prev_offset);
                proof {
                    assert(self.reports@ =~= target);
                }
                break;
            }
            proof {
                lemma_width(src, o);
                lemma_step_lines(self.file@, src, o);
                let nx = next_pos(src, o);
                if ch == Some('\\') {
                    lemma_escape_scan(src, nx, '"');
                    lemma_string_scan(src, escape_scan(src, nx, '"').1, start);
                } else if ch != Some('"') {
                    lemma_string_scan(src, nx, start);
                }
                lemma_nl_compose(self.file@, src, o, nx, spec_r.0);
                assert(self.next_target() == nx);
            }
            self.next();
            if ch == Some('"') {
                proof {
                    assert(self.reports@ =~= target);
                }
                break;
            }
            if ch == Some('\\') {
                proof {
                    let nx = self.offset as int;
                    let esc = escape_scan(src, nx, '"');
                    assert(target =~= self.reports@ + esc.2 + string_scan(src, esc.1, start).1);
                    lemma_nl_compose(self.file@, src, nx, esc.1, spec_r.0);
                }
                self.scan_escape('"');
                proof {
                    assert(target =~= self.reports@ + string_scan(src, self.offset as int, start).1);
                }
            }
        }
        self.text(prev_offset, self.offset)
    }

    /// Reads the rest of a char literal whose opening quote has been read, and returns its
    /// source text, quotes included.
    #[verifier::spinoff_prover]
    #[verifier::rlimit(100)]
    fn scan_char(&mut self) -> (r: Option<&'a str>)
        requires
            old(self).inv(),
            1 <= old(self).offset,
            old(self).err_count + char_scan(
                old(self).src@,
                old(self).offset as int,
                old(self).offset - 1,
                true,
                0,
            ).1.len() <= u64::MAX,
        ensures
            final(self).inv(),
            final(self).same_setup(old(self)),
            final(self).offset == char_scan(
                old(self).src@,
                old(self).offset as int,
                old(self).offset - 1,
                true,
                0,
            ).0,
            final(self).reports@ == old(self).reports@ + char_scan(
                old(self).src@,
                old(self).offset as int,
                old(self).offset - 1,
                true,
                0,
            ).1,
            final(self).file@ == nl_lines(
                old(self).file@,
                old(self).src@,
                old(self).offset as int,
                final(self).offset as int,
            ),
            r is Some <==> valid_utf8(old(self).src@.subrange(old(self).offset - 1, final(self).offset as int)),
            r matches Some(t) ==> t@ == decode_utf8(old(self).src@.subrange(old(self).offset - 1, final(self).offset as int)),
            *final(final(self).file) == *final(old(self).file),
    {
        let prev_offset = self.offset - 1;
        let ghost src = self.src@;
        let ghost p = self.offset as int;
        let ghost start = prev_offset as int;
        let ghost spec_r = char_scan(src, p, start, true, 0);
        let ghost target = old(self).reports@ + spec_r.1;
        let ghost lines = nl_lines(old(self).file@, src, p, spec_r.0);
        proof {
            lemma_char_scan(src, p, start, true, 0);
        }
        let mut valid = true;
        let mut n: usize = 0;
        loop
            invariant_except_break
                char_scan(src, self.offset as int, start, valid, n as int).0 == spec_r.0,
                target == self.reports@ + char_scan(
                    src,
                    self.offset as int,
                    start,
                    valid,
                    n as int,
                ).1,
                lines == nl_lines(self.file@, src, self.offset as int, spec_r.0),
            invariant
                self.inv(),
                self.same_setup(old(self)),
                src == self.src@,
                src == old(self).src@,
                p == old(self).offset,
                start == prev_offset,
                spec_r == char_scan(src, p, start, true, 0),
                target == old(self).reports@ + spec_r.1,
                lines == nl_lines(old(self).file@, src, p, spec_r.0),
                start == p - 1,
                p <= self.offset <= spec_r.0 <= src.len(),
                n <= self.offset - p,
                target.len() <= u64::MAX,
                *final(self.file) == *final(old(self).file),
            ensures
                self.inv(),
                self.same_setup(old(self)),
                self.offset == spec_r.0,
                target == self.reports@ + (if valid && n != 1 {
                    seq![(LexError::CharTooWide, start)]
                } else {
                    Seq::<Report>::empty()
                }),
                self.file@ == lines,
                *final(self.file) == *final(old(self).file),
            decreases src.len() - self.offset,
        {
            let ch = self.cc;
            let ghost o = self.offset as int;
            if ch == Some('\n') || ch.is_none() {
                if valid {
                    self.err(LexError::UnterminatedChar, prev_offset);
                    valid = false;
                }
                proof {
                    assert(target =~= self.reports@ + Seq::<Report>::empty());
                }
                break;
            }
            proof {
                lemma_width(src, o);
                lemma_step_lines(self.file@, src, o);
                let nx = next_pos(src, o);
                if ch == Some('\\') {
                    lemma_escape_scan(src, nx, '\'');
                    let esc = escape_scan(src, nx, '\'');
                    lemma_char_scan(src, esc.1, start, esc.0, n + 1);
                } else if ch != Some('\'') {
                    lemma_char_scan(src, nx, start, valid, n + 1);
                }
                lemma_nl_compose(self.file@, src, o, nx, spec_r.0);
                assert(self.next_target() == nx);
            }
            self.next();
            if ch == Some('\'') {
                if n == 0 {
                    self.err(LexError::EmptyChar, prev_offset);
                    valid = false;
                }
                proof {
                    assert(target =~= self.reports@ + (if valid && n != 1 {
                        seq![(LexError::CharTooWide, start)]
                    } else {
                        Seq::<Report>::empty()
                    }));
                }
                break;
            }
            n += 1;
            if ch == Some('\\') {
                proof {
                    let nx = self.offset as int;
                    let esc = escape_scan(src, nx, '\'');
                    assert(target =~= self.reports@ + esc.2 + char_scan(
                        src,
                        esc.1,
                        start,
                        esc.0,
                        n as int,
                    ).1);
                    lemma_nl_compose(self.file@, src, nx, esc.1, spec_r.0);
                }
                valid = self.scan_escape('\'');
                proof {
                    assert(target =~= self.reports@ + char_scan(
                        src,
                        self.offset as int,
                        start,
                        valid,
                        n as int,
                    ).1);
                }
            }
        }
        if valid && n != 1 {
            self.err(LexError::CharTooWide, prev_offset);
        }
        proof {
            assert(self.reports@ =~= target);
        }
        self.text(prev_offset, self.offset)
    }
    /// Moves one character on, inside a read that is to end at `end`: the errors still to
    /// come and the lines still to record lose their first step.
    fn step_toward(&mut self, Ghost(end): Ghost<int>, Ghost(rest): Ghost<Seq<Report>>)
        requires
            old(self).inv(),
            old(self).offset < end <= old(self).src@.len(),
            next_pos(old(self).src@, old(self).offset as int) <= end,
            old(self).err_count + run_errors(old(self).src@, old(self).offset as int, end).len()
                + rest.len() <= u64::MAX,
        ensures
            final(self).inv(),
            final(self).same_setup(old(self)),
            final(self).offset == next_pos(old(self).src@, old(self).offset as int),
            final(self).offset <= end,
            final(self).reports@ + run_errors(final(self).src@, final(self).offset as int, end)
                + rest == old(self).reports@ + run_errors(
                old(self).src@,
                old(self).offset as int,
                end,
            ) + rest,
            nl_lines(final(self).file@, final(self).src@, final(self).offset as int, end)
                == nl_lines(old(self).file@, old(self).src@, old(self).offset as int, end),
            final(self).err_count + run_errors(final(self).src@, final(self).offset as int, end).len()
                + rest.len() <= u64::MAX,
            *final(final(self).file) == *final(old(self).file),
    {
        let ghost src = self.src@;
        let ghost o = self.offset as int;
        proof {
            lemma_width(src, o);
            lemma_run_step(src, o, end);
            lemma_step_lines(self.file@, src, o);
            lemma_nl_compose(self.file@, src, o, next_pos(src, o), end);
            assert(self.next_target() == next_pos(src, o));
        }
        self.next();
        proof {
            assert(self.reports@ + run_errors(src, self.offset as int, end) + rest =~= old(
                self,
            ).reports@ + run_errors(src, o, end) + rest);
        }
    }

    /// Moves past the characters of `class`, inside a read that is to end at `end`.
    fn skip_toward(
        &mut self,
        class: CharClass,
        Ghost(end): Ghost<int>,
        Ghost(rest): Ghost<Seq<Report>>,
    )
        requires
            old(self).inv(),
            old(self).offset <= skip_while(old(self).src@, old(self).offset as int, class.pred())
                <= end <= old(self).src@.len(),
            old(self).err_count + run_errors(old(self).src@, old(self).offset as int, end).len()
                + rest.len() <= u64::MAX,
        ensures
            final(self).inv(),
            final(self).same_setup(old(self)),
            final(self).offset == skip_while(old(self).src@, old(self).offset as int, class.pred()),
            final(self).reports@ + run_errors(final(self).src@, final(self).offset as int, end)
                + rest == old(self).reports@ + run_errors(
                old(self).src@,
                old(self).offset as int,
                end,
            ) + rest,
            nl_lines(final(self).file@, final(self).src@, final(self).offset as int, end)
                == nl_lines(old(self).file@, old(self).src@, old(self).offset as int, end),
            final(self).err_count + run_errors(final(self).src@, final(self).offset as int, end).len()
                + rest.len() <= u64::MAX,
            *final(final(self).file) == *final(old(self).file),
    {
        let ghost src = self.src@;
        let ghost o = self.offset as int;
        let ghost sw = skip_while(src, o, class.pred());
        proof {
            lemma_run_skip(src, o, class.pred(), end);
        }
        self.skip(class);
        proof {
            lemma_nl_compose(old(self).file@, src, o, sw, end);
            assert(self.reports@ + run_errors(src, sw, end) + rest =~= old(self).reports@
                + run_errors(src, o, end) + rest);
        }
    }

    /// Reads a number literal and returns its kind and source text.
    fn scan_number(&mut self) -> (r: (Tok, Option<&'a str>))
        requires
            old(self).inv(),
            starts_number(old(self).src@, rune_at(old(self).src@, old(self).offset as int), old(self).offset as int),
            old(self).offset < old(self).src@.len(),
            old(self).err_count + run_errors(
                old(self).src@,
                old(self).offset as int,
                number_scan(old(self).src@, old(self).offset as int).1,
            ).len() + number_scan(old(self).src@, old(self).offset as int).2.len() <= u64::MAX,
        ensures
            final(self).inv(),
            final(self).same_setup(old(self)),
            r.0 == number_scan(old(self).src@, old(self).offset as int).0,
            final(self).offset == number_scan(old(self).src@, old(self).offset as int).1,
            final(self).reports@ == old(self).reports@ + run_errors(
                old(self).src@,
                old(self).offset as int,
                final(self).offset as int,
            ) + number_scan(old(self).src@, old(self).offset as int).2,
            final(self).file@ == nl_lines(
                old(self).file@,
                old(self).src@,
                old(self).offset as int,
                final(self).offset as int,
            ),
            r.1 is Some <==> valid_utf8(
                old(self).src@.subrange(old(self).offset as int, final(self).offset as int),
            ),
            r.1 matches Some(t) ==> t@ == decode_utf8(
                old(self).src@.subrange(old(self).offset as int, final(self).offset as int),
            ),
            *final(final(self).file) == *final(old(self).file),
    {
        let ghost src = self.src@;
        let ghost p = self.offset as int;
        let ghost ns = number_scan(src, p);
        let ghost end = ns.1;
        let ghost extra = ns.2;
        proof {
            lemma_number_scan(src, p);
        }
        let mut tok = Tok::IntegerLiteral;
        let prev_offset = self.offset;
        let mut base: u32 = 10;
        let pk = self.peek();
        let peek_char = if 65 <= pk && pk <= 90 {
            pk + 32
        } else {
            pk
        };
        if self.cc == Some('0') && peek_char == 98 {
            base = 2;
        } else if self.cc == Some('0') && peek_char == 111 {
            base = 8;
        } else if self.cc == Some('0') && peek_char == 120 {
            base = 16;
        }
        assert(base == number_base(src, p));
        if base != 10 {
            proof {
                lemma_width(src, p);
            }
            self.step_toward(Ghost(end), Ghost(extra));
            proof {
                lemma_width(src, self.offset as int);
            }
            self.step_toward(Ghost(end), Ghost(extra));
        }
        if base != 10 && hex_digit_value(self.peek() as char) == 16 {
            self.err(LexError::NoDigitsAfterBase, prev_offset);
            proof {
                assert(run_errors(src, end, end) =~= Seq::<Report>::empty());
                assert(self.reports@ =~= old(self).reports@ + run_errors(src, p, end) + extra);
                lemma_nl_compose(old(self).file@, src, p, end, end);
            }
            return (tok, self.text(prev_offset, self.offset));
        }
        self.skip_toward(CharClass::Digits(base), Ghost(end), Ghost(extra));
        if self.cc == Some('.') && base == 10 {
            tok = Tok::RealLiteral;
            self.step_toward(Ghost(end), Ghost(extra));
            self.skip_toward(CharClass::Digits(base), Ghost(end), Ghost(extra));
        }
        if self.cc == Some('e') || self.cc == Some('E') {
            tok = Tok::RealLiteral;
            self.step_toward(Ghost(end), Ghost(extra));
            if self.cc == Some('-') || self.cc == Some('+') {
                self.step_toward(Ghost(end), Ghost(extra));
            }
            let exponent_offset = self.offset;
            self.skip_toward(CharClass::Digits(10), Ghost(end), Ghost(extra));
            if exponent_offset == self.offset {
                self.err(LexError::NoDigitsAfterExponent, exponent_offset);
            }
        }
        proof {
            assert(run_errors(src, end, end) =~= Seq::<Report>::empty());
            assert(self.reports@ =~= old(self).reports@ + run_errors(src, p, end) + extra);
        }
        (tok, self.text(prev_offset, self.offset))
    }
    /// Moves past whitespace.
    #[inline]
    fn scan_whitespace(&mut self)
        requires
            old(self).inv(),
            old(self).err_count + run_errors(
                old(self).src@,
                old(self).offset as int,
                skip_while(old(self).src@, old(self).offset as int, ws_pred()),
            ).len() <= u64::MAX,
        ensures
            final(self).inv(),
            final(self).same_setup(old(self)),
            final(self).offset == skip_while(old(self).src@, old(self).offset as int, ws_pred()),
            final(self).reports@ == old(self).reports@ + run_errors(
                old(self).src@,
                old(self).offset as int,
                final(self).offset as int,
            ),
            final(self).file@ == nl_lines(
                old(self).file@,
                old(self).src@,
                old(self).offset as int,
                final(self).offset as int,
            ),
            *final(final(self).file) == *final(old(self).file),
    {
        self.skip(CharClass::Whitespace);
    }

    /// Reads an identifier or keyword and returns its source text.
    #[inline]
    fn scan_ident(&mut self) -> (r: Option<&'a str>)
        requires
            old(self).inv(),
            old(self).err_count + run_errors(
                old(self).src@,
                old(self).offset as int,
                skip_while(old(self).src@, old(self).offset as int, ident_pred()),
            ).len() <= u64::MAX,
        ensures
            final(self).inv(),
            final(self).same_setup(old(self)),
            final(self).offset == skip_while(old(self).src@, old(self).offset as int, ident_pred()),
            final(self).reports@ == old(self).reports@ + run_errors(
                old(self).src@,
                old(self).offset as int,
                final(self).offset as int,
            ),
            final(self).file@ == nl_lines(
                old(self).file@,
                old(self).src@,
                old(self).offset as int,
                final(self).offset as int,
            ),
            r is Some <==> valid_utf8(
                old(self).src@.subrange(old(self).offset as int, final(self).offset as int),
            ),
            r matches Some(t) ==> t@ == decode_utf8(
                old(self).src@.subrange(old(self).offset as int, final(self).offset as int),
            ),
            *final(final(self).file) == *final(old(self).file),
    {
        let prev_offset = self.offset;
        proof {
            lemma_skip_while(self.src@, self.offset as int, ident_pred());
        }
        self.skip(CharClass::Ident);
        self.text(prev_offset, self.offset)
    }

    /// Reads the rest of a comment whose `#` has been read, up to the end of the line, and
    /// returns its source text from the `#` on.
    #[inline]
    fn scan_comment(&mut self) -> (r: Option<&'a str>)
        requires
            old(self).inv(),
            1 <= old(self).offset,
            old(self).err_count + run_errors(
                old(self).src@,
                old(self).offset as int,
                skip_while(old(self).src@, old(self).offset as int, comment_pred()),
            ).len() <= u64::MAX,
        ensures
            final(self).inv(),
            final(self).same_setup(old(self)),
            final(self).offset == skip_while(old(self).src@, old(self).offset as int, comment_pred()),
            final(self).reports@ == old(self).reports@ + run_errors(
                old(self).src@,
                old(self).offset as int,
                final(self).offset as int,
            ),
            final(self).file@ == nl_lines(
                old(self).file@,
                old(self).src@,
                old(self).offset as int,
                final(self).offset as int,
            ),
            r is Some <==> valid_utf8(old(self).src@.subrange(old(self).offset - 1, final(self).offset as int)),
            r matches Some(t) ==> t@ == decode_utf8(old(self).src@.subrange(old(self).offset - 1, final(self).offset as int)),
            *final(final(self).file) == *final(old(self).file),
    {
        let prev_offset = self.offset - 1;
        proof {
            lemma_skip_while(self.src@, self.offset as int, comment_pred());
        }
        self.skip(CharClass::Comment);
        self.text(prev_offset, self.offset)
    }

    /// Reads the operator or punctuation `c` at `pos`, whose first character has been read;
    /// `Tok::Invalid`, with an error unless `c` is a byte order mark, for any other character.
    fn scan_operator(&mut self, c: char, pos: Position) -> (r: Tok)
        requires
            old(self).inv(),
            old(self).file@.contains(pos.0),
            ({
                let w = pos.0 - old(self).file@.base;
                &&& 0 <= w < old(self).src@.len()
                &&& rune_at(old(self).src@, w) == c
                &&& old(self).offset == next_pos(old(self).src@, w)
                &&& old(self).err_count + run_errors(
                    old(self).src@,
                    old(self).offset as int,
                    punct_scan(old(self).src@, c, w, old(self).offset as int).1,
                ).len() + punct_scan(old(self).src@, c, w, old(self).offset as int).2.len()
                    <= u64::MAX
            }),
        ensures
            ({
                let w = pos.0 - old(self).file@.base;
                let ps = punct_scan(old(self).src@, c, w, old(self).offset as int);
                &&& r == ps.0
                &&& final(self).offset == ps.1
                &&& final(self).reports@ == old(self).reports@ + run_errors(
                    old(self).src@,
                    old(self).offset as int,
                    ps.1,
                ) + ps.2
                &&& final(self).file@ == nl_lines(
                    old(self).file@,
                    old(self).src@,
                    old(self).offset as int,
                    ps.1,
                )
            }),
            final(self).inv(),
            final(self).same_setup(old(self)),
            *final(final(self).file) == *final(old(self).file),
    {
        let ghost src = self.src@;
        let ghost w = pos.0 - self.file@.base;
        let ghost n = self.offset as int;
        let ghost ps = punct_scan(src, c, w, n);
        let ghost end = ps.1;
        let ghost extra = ps.2;
        proof {
            lemma_punct_scan(src, c, w, n);
            if n < src.len() {
                lemma_width(src, n);
            }
            let n2 = next_pos(src, n);
            if n2 < src.len() {
                lemma_width(src, n2);
            }
        }
        let mut tok = Tok::Invalid;
        match c {
            '?' => tok = Tok::Question,
            '(' => tok = Tok::LeftParen,
            ')' => tok = Tok::RightParen,
            '[' => tok = Tok::LeftBracket,
            ']' => tok = Tok::RightBracket,
            '{' => tok = Tok::LeftBrace,
            '}' => tok = Tok::RightBrace,
            ',' => tok = Tok::Comma,
            ';' => tok = Tok::Semicolon,
            ':' => tok = Tok::Colon,
            '=' => {
                tok = Tok::Assign;
                if self.cc == Some('=') {
                    tok = Tok::Equals;
                    self.step_toward(Ghost(end), Ghost(extra));
                }
            },
            '+' => {
                tok = Tok::Plus;
                if self.cc == Some('=') {
                    tok = Tok::PlusEq;
                    self.step_toward(Ghost(end), Ghost(extra));
                }
            },
            '*' => {
                tok = Tok::Star;
                if self.cc == Some('=') {
                    tok = Tok::StarEq;
                    self.step_toward(Ghost(end), Ghost(extra));
                }
            },
            '/' => {
                tok = Tok::Slash;
                if self.cc == Some('=') {
                    tok = Tok::SlashEq;
                    self.step_toward(Ghost(end), Ghost(extra));
                }
            },
            '%' => {
                tok = Tok::Percent;
                if self.cc == Some('=') {
                    tok = Tok::PercentEq;
                    self.step_toward(Ghost(end), Ghost(extra));
                }
            },
            '!' => {
                tok = Tok::Bang;
                if self.cc == Some('=') {
                    tok = Tok::BangEq;
                    self.step_toward(Ghost(end), Ghost(extra));
                }
            },
            '^' => {
                tok = Tok::Xor;
                if self.cc == Some('=') {
                    tok = Tok::XorEq;
                    self.step_toward(Ghost(end), Ghost(extra));
                }
            },
            '-' => {
                tok = Tok::Minus;
                if self.cc == Some('=') {
                    tok = Tok::MinusEq;
                    self.step_toward(Ghost(end), Ghost(extra));
                }
            },
            '>' => {
                tok = Tok::Greater;
                match self.cc {
                    Some('>') => {
                        tok = Tok::RightShift;
                        self.step_toward(Ghost(end), Ghost(extra));
                        if self.cc == Some('=') {
                            tok = Tok::RshiftEq;
                            self.step_toward(Ghost(end), Ghost(extra));
                        }
                    },
                    Some('=') => {
                        tok = Tok::GreaterEq;
                        self.step_toward(Ghost(end), Ghost(extra));
                    },
                    _ => {},
                }
            },
            '<' => {
                tok = Tok::Less;
                match self.cc {
                    Some('<') => {
                        tok = Tok::LeftShift;
                        self.step_toward(Ghost(end), Ghost(extra));
                        if self.cc == Some('=') {
                            tok = Tok::LshiftEq;
                            self.step_toward(Ghost(end), Ghost(extra));
                        }
                    },
                    Some('=') => {
                        tok = Tok::LessEq;
                        self.step_toward(Ghost(end), Ghost(extra));
                    },
                    _ => {},
                }
            },
            '&' => {
                tok = Tok::Ampersand;
                match self.cc {
                    Some('=') => {
                        tok = Tok::AndEq;
                        self.step_toward(Ghost(end), Ghost(extra));
                    },
                    Some('&') => {
                        tok = Tok::And;
                        self.step_toward(Ghost(end), Ghost(extra));
                    },
                    _ => {},
                }
            },
            '|' => {
                tok = Tok::Pipe;
                match self.cc {
                    Some('=') => {
                        tok = Tok::OrEq;
                        self.step_toward(Ghost(end), Ghost(extra));
                    },
                    Some('|') => {
                        tok = Tok::Or;
                        self.step_toward(Ghost(end), Ghost(extra));
                    },
                    _ => {},
                }
            },
            '.' => {
                tok = Tok::Dot;
                if self.cc == Some('.') {
                    self.step_toward(Ghost(end), Ghost(extra));
                    if self.cc == Some('.') {
                        tok = Tok::DotDotDot;
                        self.step_toward(Ghost(end), Ghost(extra));
                    } else {
                        let offset = self.file.to_file_offset(pos);
                        self.err(LexError::InvalidEllipsis, offset);
                    }
                }
            },
            _ => {
                if c != BOM {
                    let offset = self.file.to_file_offset(pos);
                    self.err(LexError::UnexpectedCharacter, offset);
                }
            },
        }
        proof {
            assert(run_errors(src, end, end) =~= Seq::<Report>::empty());
            assert(self.reports@ =~= old(self).reports@ + run_errors(src, n, end) + extra);
            lemma_nl_compose(old(self).file@, src, n, end, end);
        }
        tok
    }
    /// The lexer stands on the first character of a token, having skipped the whitespace
    /// after `p`, where the errors were `r0` and the file was `f0`, and the scan from `p` can
    /// report all its errors.
    closed spec fn at_token(&self, p: int, r0: Seq<Report>, f0: FileView) -> bool {
        let src = self.src@;
        &&& 0 <= p <= self.offset
        &&& self.offset == skip_while(src, p, ws_pred())
        &&& self.reports@ == r0 + run_errors(src, p, self.offset as int)
        &&& self.file@ == nl_lines(f0, src, p, self.offset as int)
        &&& r0.len() + scan_spec(src, self.parse_comment, p).errs.len() <= u64::MAX
        &&& f0.base == self.file@.base
    }

    /// The lexer has finished the scan from `p` described by `at_token`, returning `r`, or
    /// nothing when the literal is not valid UTF-8.
    closed spec fn token_done(
        &self,
        p: int,
        r0: Seq<Report>,
        f0: FileView,
        r: Option<(Tok, String, Position)>,
    ) -> bool {
        let src = self.src@;
        let s = scan_spec(src, self.parse_comment, p);
        &&& (r is Some <==> lit_valid(src, s.lit))
        &&& (r matches Some(x) ==> {
            &&& x.0 == s.tok
            &&& x.1@ == lit_text(src, s.lit)
            &&& x.2.0 == f0.base + s.pos
        })
        &&& self.offset == s.end
        &&& self.reports@ == r0 + s.errs
        &&& self.file@ == nl_lines(f0, src, p, s.end)
    }

    /// Reads an identifier or keyword token.
    fn ident_token(
        &mut self,
        pos: Position,
        Ghost(p): Ghost<int>,
        Ghost(r0): Ghost<Seq<Report>>,
        Ghost(f0): Ghost<FileView>,
    ) -> (r: Option<(Tok, String, Position)>)
        requires
            old(self).inv(),
            old(self).at_token(p, r0, f0),
            pos.0 == old(self).file@.base + old(self).offset,
            old(self).cc matches Some(c) && starts_ident(c),
        ensures
            final(self).inv(),
            final(self).same_setup(old(self)),
            final(self).token_done(p, r0, f0, r),
            *final(final(self).file) == *final(old(self).file),
    {
        let ghost src = self.src@;
        let ghost w = self.offset as int;
        proof {
            lemma_scan_ident(src, self.parse_comment, p);
            lemma_skip_while(src, w, ident_pred());
        }
        let lit = self.scan_ident();
        proof {
            lemma_nl_compose(f0, src, p, w, self.offset as int);
            assert(self.reports@ =~= r0 + scan_spec(src, self.parse_comment, p).errs);
        }
        match lit {
            Some(text) => Some((get_ident_or_keyword(text), text.to_owned(), pos)),
            None => None,
        }
    }

    /// Reads a number token.
    fn number_token(
        &mut self,
        pos: Position,
        Ghost(p): Ghost<int>,
        Ghost(r0): Ghost<Seq<Report>>,
        Ghost(f0): Ghost<FileView>,
    ) -> (r: Option<(Tok, String, Position)>)
        requires
            old(self).inv(),
            old(self).at_token(p, r0, f0),
            pos.0 == old(self).file@.base + old(self).offset,
            old(self).cc matches Some(c) && !starts_ident(c) && starts_number(
                old(self).src@,
                c,
                old(self).offset as int,
            ),
        ensures
            final(self).inv(),
            final(self).same_setup(old(self)),
            final(self).token_done(p, r0, f0, r),
            *final(final(self).file) == *final(old(self).file),
    {
        let ghost src = self.src@;
        let ghost w = self.offset as int;
        proof {
            lemma_scan_number(src, self.parse_comment, p);
            lemma_number_scan(src, w);
        }
        let (tok, lit) = self.scan_number();
        proof {
            lemma_nl_compose(f0, src, p, w, self.offset as int);
            assert(self.reports@ =~= r0 + scan_spec(src, self.parse_comment, p).errs);
        }
        match lit {
            Some(text) => Some((tok, text.to_owned(), pos)),
            None => None,
        }
    }

    /// Reads a string literal, char literal, operator or punctuation token whose first
    /// character `c` has been read.
    fn rest_token(
        &mut self,
        c: char,
        pos: Position,
        Ghost(p): Ghost<int>,
        Ghost(r0): Ghost<Seq<Report>>,
        Ghost(f0): Ghost<FileView>,
    ) -> (r: Option<(Tok, String, Position)>)
        requires
            old(self).inv(),
            c != '#',
            ({
                let src = old(self).src@;
                let w = skip_while(src, p, ws_pred());
                let n = next_pos(src, w);
                &&& 0 <= p <= w < n
                &&& w < src.len()
                &&& rune_at(src, w) == c
                &&& old(self).offset == n
                &&& scan_rest(src, old(self).parse_comment, p, c)
                &&& old(self).reports@ == r0 + run_errors(src, p, w) + read_errors(src, n)
                &&& old(self).file@ == nl_lines(f0, src, p, n)
                &&& r0.len() + scan_spec(src, old(self).parse_comment, p).errs.len() <= u64::MAX
                &&& f0.base == old(self).file@.base
                &&& pos.0 == old(self).file@.base + w
            }),
        ensures
            final(self).inv(),
            final(self).same_setup(old(self)),
            final(self).token_done(p, r0, f0, r),
            *final(final(self).file) == *final(old(self).file),
    {
        let ghost src = self.src@;
        let ghost pc = self.parse_comment;
        let ghost w = skip_while(src, p, ws_pred());
        let ghost n = self.offset as int;
        let ghost sp = scan_spec(src, pc, p);
        proof {
            lemma_width(src, w);
        }
        if c == '"' {
            proof {
                lemma_string_scan(src, n, w);
            }
            let lit = self.scan_string();
            proof {
                lemma_nl_compose(f0, src, p, n, sp.end);
                assert(self.reports@ =~= r0 + sp.errs);
            }
            return match lit {
                Some(text) => Some((Tok::StringLiteral, text.to_owned(), pos)),
                None => None,
            };
        }
        if c == '\'' {
            proof {
                lemma_char_scan(src, n, w, true, 0);
            }
            let lit = self.scan_char();
            proof {
                lemma_nl_compose(f0, src, p, n, sp.end);
                assert(self.reports@ =~= r0 + sp.errs);
            }
            return match lit {
                Some(text) => Some((Tok::CharLiteral, text.to_owned(), pos)),
                None => None,
            };
        }
        proof {
            lemma_punct_scan(src, c, w, n);
            lemma_punct_kind(src, c, w, n);
        }
        let tok = self.scan_operator(c, pos);
        proof {
            lemma_nl_compose(f0, src, p, n, sp.end);
            assert(self.reports@ =~= r0 + sp.errs);
        }
        if tok.is_operator() || tok.is_punctuator() {
            Some((tok, tok.to_str().to_owned(), pos))
        } else {
            Some((tok, char_to_string(c), pos))
        }
    }

    /// The lexer has finished the scan from `p`, where the errors were `r0` and the file was
    /// `f0`, returning `r`: the token when its literal is valid UTF-8, nothing otherwise.
    closed spec fn scanned(
        &self,
        p: int,
        r0: Seq<Report>,
        f0: FileView,
        r: Option<(Tok, String, Position)>,
    ) -> bool {
        let src = self.src@;
        let pc = self.parse_comment;
        let s = scan_spec(src, pc, p);
        &&& (r is Some <==> scan_safe(src, pc, p))
        &&& (r matches Some(x) ==> {
            &&& x.0 == s.tok
            &&& x.1@ == lit_text(src, s.lit)
            &&& x.2.0 == f0.base + s.pos
            &&& self.offset == s.end
            &&& self.reports@ == r0 + s.errs
            &&& self.file@ == nl_lines(f0, src, p, s.end)
        })
        &&& (r is None ==> {
            &&& p <= self.offset <= src.len()
            &&& r0.len() <= self.reports@.len()
            &&& self.reports@.subrange(0, r0.len() as int) == r0
            &&& self.file@ == nl_lines(f0, src, p, self.offset as int)
        })
    }

    /// Reads a comment whose `#` has been read: a comment token, or, when comments are
    /// skipped, the token after it.
    fn comment_token(
        &mut self,
        pos: Position,
        Ghost(p): Ghost<int>,
        Ghost(r0): Ghost<Seq<Report>>,
        Ghost(f0): Ghost<FileView>,
    ) -> (r: Option<(Tok, String, Position)>)
        requires
            old(self).inv(),
            ({
                let src = old(self).src@;
                let w = skip_while(src, p, ws_pred());
                let n = next_pos(src, w);
                &&& 0 <= p <= w < n
                &&& w < src.len()
                &&& rune_at(src, w) == '#'
                &&& old(self).offset == n
                &&& scan_rest(src, old(self).parse_comment, p, '#')
                &&& old(self).reports@ == r0 + run_errors(src, p, w) + read_errors(src, n)
                &&& old(self).file@ == nl_lines(f0, src, p, n)
                &&& r0.len() + scan_spec(src, old(self).parse_comment, p).errs.len() <= u64::MAX
                &&& r0.len() <= 2 * p + 1
                &&& f0.base == old(self).file@.base
                &&& pos.0 == old(self).file@.base + w
            }),
        ensures
            final(self).wf(),
            final(self).same_setup(old(self)),
            final(self).scanned(p, r0, f0, r),
            *final(final(self).file) == *final(old(self).file),
        decreases old(self).src@.len() - old(self).offset, 1int,
    {
        let ghost src = self.src@;
        let ghost pc = self.parse_comment;
        let ghost w = skip_while(src, p, ws_pred());
        let ghost n = self.offset as int;
        let ghost ce = skip_while(src, n, comment_pred());
        proof {
            lemma_width(src, w);
            lemma_skip_while(src, n, comment_pred());
            lemma_run_errors_len(src, n, ce);
            lemma_run_errors_len(src, p, w);
            lemma_read_errors(src, n);
        }
        let comment = self.scan_comment();
        proof {
            lemma_nl_compose(f0, src, p, n, ce);
            lemma_scan_rest(src, pc, p);
        }
        let text = match comment {
            Some(text) => text,
            None => {
                proof {
                    assert(self.reports@ =~= r0 + (run_errors(src, p, w) + read_errors(src, n)
                        + run_errors(src, n, ce)));
                    assert(self.reports@.subrange(0, r0.len() as int) =~= r0);
                }
                return None;
            },
        };
        if !self.parse_comment {
            proof {
                lemma_scan_spec(src, pc, ce);
                lemma_nl_compose(f0, src, p, ce, scan_spec(src, pc, ce).end);
                assert(r0 + scan_spec(src, pc, p).errs =~= self.reports@ + scan_spec(
                    src,
                    pc,
                    ce,
                ).errs);
            }
            let ghost mid = self.reports@;
            proof {
                assert(mid =~= r0 + (run_errors(src, p, w) + read_errors(src, n)
                    + run_errors(src, n, ce)));
            }
            let r = self.try_scan();
            proof {
                if r is None {
                    lemma_nl_compose(f0, src, p, ce, self.offset as int);
                    let fr = self.reports@;
                    assert(fr.subrange(0, mid.len() as int) == mid);
                    assert forall|i: int| 0 <= i < r0.len() implies fr[i] == r0[i] by {
                        assert(fr.subrange(0, mid.len() as int)[i] == mid[i]);
                        assert(mid[i] == r0[i]);
                    }
                    assert(fr.subrange(0, r0.len() as int) =~= r0);
                }
            }
            return r;
        }
        proof {
            assert(self.reports@ =~= r0 + scan_spec(src, pc, p).errs);
        }
        return Some((Tok::Comment, text.to_owned(), pos));
    }

    /// Reads the next token and returns its kind, its literal and its position; `None` when
    /// the text of the literal is not valid UTF-8, after reading the token.
    ///
    /// Whitespace is skipped first. A comment is a token when the lexer parses comments and
    /// is skipped otherwise. The literal of an operator or punctuation is its spelling, that
    /// of the end of the input is `<eof>`, that of an unexpected character is the character,
    /// and that of any other token is its source text.
    pub fn try_scan(&mut self) -> (r: Option<(Tok, String, Position)>)
        requires
            old(self).wf(),
            old(self).source().len() <= old(self).file_model().size,
        ensures
            final(self).wf(),
            final(self).same_setup(old(self)),
            final(self).source() == old(self).source(),
            final(self).parses_comments() == old(self).parses_comments(),
            final(self).calls_match(),
            r is Some <==> scan_safe(old(self).source(), old(self).parses_comments(), old(self).offset()),
            valid_from(old(self).source(), old(self).offset()) ==> r is Some && valid_from(
                final(self).source(),
                final(self).offset(),
            ),
            r matches Some(x) ==> ({
                let s = scan_spec(old(self).source(), old(self).parses_comments(), old(self).offset());
                &&& x.0 == s.tok
                &&& x.1@ == lit_text(old(self).source(), s.lit)
                &&& x.2.0 == old(self).file_model().base + s.pos
                &&& final(self).offset() == s.end
                &&& final(self).errors() == old(self).errors() + s.errs
                &&& final(self).file_model() == nl_lines(
                    old(self).file_model(),
                    old(self).source(),
                    old(self).offset(),
                    s.end,
                )
            }),
            r is None ==> {
                &&& old(self).offset() <= final(self).offset() <= old(self).source().len()
                &&& old(self).errors().len() <= final(self).errors().len()
                &&& final(self).errors().subrange(0, old(self).errors().len() as int)
                    == old(self).errors()
                &&& final(self).file_model() == nl_lines(
                    old(self).file_model(),
                    old(self).source(),
                    old(self).offset(),
                    final(self).offset(),
                )
            },
            *final(final(self).file_ref()) == *final(old(self).file_ref()),
        decreases old(self).source().len() - old(self).offset(), 0int,
    {
        let ghost src = self.src@;
        let ghost p = self.offset as int;
        let ghost pc = self.parse_comment;
        let ghost r0 = self.reports@;
        let ghost f0 = self.file@;
        proof {
            if valid_from(src, p) {
                lemma_valid_scan(src, pc, p);
            }
            lemma_scan_spec(src, pc, p);
            lemma_skip_while(src, p, ws_pred());
            assert(2 * (isize::MAX as int) + 1 <= u64::MAX);
        }
        self.scan_whitespace();
        let pos = self.file.to_set_pos(self.offset);
        let ghost w = self.offset as int;
        let c = match self.cc {
            Some(ch) => ch,
            None => {
                proof {
                    lemma_scan_eof(src, pc, p);
                }
                return Some((Tok::Eof, Tok::Eof.to_str().to_owned(), pos));
            },
        };
        if c == '_' || is_alphabetic(c) {
            proof {
                lemma_scan_ident(src, pc, p);
            }
            return self.ident_token(pos, Ghost(p), Ghost(r0), Ghost(f0));
        }
        if ('0' <= c && c <= '9') || (c == '.' && 48 <= self.peek() && self.peek() <= 57) {
            proof {
                lemma_scan_number(src, pc, p);
            }
            return self.number_token(pos, Ghost(p), Ghost(r0), Ghost(f0));
        }
        let ghost n = next_pos(src, w);
        proof {
            lemma_width(src, w);
            lemma_scan_rest(src, pc, p);
            lemma_step_lines(self.file@, src, w);
            lemma_nl_compose(f0, src, p, w, n);
            assert(self.next_target() == n);
        }
        self.next();
        if c == '#' {
            return self.comment_token(pos, Ghost(p), Ghost(r0), Ghost(f0));
        }
        self.rest_token(c, pos, Ghost(p), Ghost(r0), Ghost(f0))
    }

    /// Reads the next token and returns its kind, its literal and its position.
    ///
    /// The text of a literal is read as UTF-8, so the scan needs it to be valid: it is when
    /// the source is valid UTF-8 from the current offset on, and then it stays so.
    pub fn scan(&mut self) -> (r: (Tok, String, Position))
        requires
            old(self).wf(),
            old(self).source().len() <= old(self).file_model().size,
            scan_safe(old(self).source(), old(self).parses_comments(), old(self).offset())
                || valid_from(old(self).source(), old(self).offset()),
        ensures
            final(self).wf(),
            final(self).source() == old(self).source(),
            final(self).parses_comments() == old(self).parses_comments(),
            final(self).calls_match(),
            valid_from(old(self).source(), old(self).offset()) ==> valid_from(
                final(self).source(),
                final(self).offset(),
            ),
            ({
                let s = scan_spec(old(self).source(), old(self).parses_comments(), old(self).offset());
                &&& r.0 == s.tok
                &&& r.1@ == lit_text(old(self).source(), s.lit)
                &&& r.2.0 == old(self).file_model().base + s.pos
                &&& final(self).offset() == s.end
                &&& final(self).errors() == old(self).errors() + s.errs
                &&& final(self).file_model() == nl_lines(
                    old(self).file_model(),
                    old(self).source(),
                    old(self).offset(),
                    s.end,
                )
            }),
            *final(final(self).file_ref()) == *final(old(self).file_ref()),
    {
        proof {
            if valid_from(self.src@, self.offset as int) {
                lemma_valid_scan(self.src@, self.parse_comment, self.offset as int);
            }
        }
        match self.try_scan() {
            Some(r) => r,
            None => {
                proof {
                    assert(false);
                }
                (Tok::Invalid, String::new(), Position(0))
            },
        }
    }
}

} // verus!
