use vstd::prelude::*;

use crate::frontend::lexer::rules::{
    lemma_comment_skipping, lemma_scan_progress, lemma_scan_spec, scan_spec, Lit,
};
use crate::frontend::lexer::token::Tok;
use crate::frontend::lexer::unicode::rune_at;

verus! {

/// The tokens that repeated scans from offset `p` hand out, as kind, literal and position,
/// up to and including the first `Eof`, and at most `fuel` of them.
pub open spec fn token_stream(src: Seq<u8>, pc: bool, p: int, fuel: nat) -> Seq<(Tok, Lit, int)>
    decreases fuel,
{
    if fuel == 0 {
        seq![]
    } else {
        let s = scan_spec(src, pc, p);
        if s.tok == Tok::Eof {
            seq![(s.tok, s.lit, s.pos)]
        } else {
            seq![(s.tok, s.lit, s.pos)] + token_stream(src, pc, s.end, (fuel - 1) as nat)
        }
    }
}

/// The tokens of `t` that are no comments, in order.
pub open spec fn drop_comments(t: Seq<(Tok, Lit, int)>) -> Seq<(Tok, Lit, int)>
    decreases t.len(),
{
    if t.len() == 0 {
        t
    } else if t[0].0 == Tok::Comment {
        drop_comments(t.drop_first())
    } else {
        seq![t[0]] + drop_comments(t.drop_first())
    }
}

/// Two scans that agree on kind, literal, position and end start equal streams.
proof fn lemma_same_stream(src: Seq<u8>, pc: bool, p: int, q: int, fuel: nat)
    requires
        scan_spec(src, pc, p).tok == scan_spec(src, pc, q).tok,
        scan_spec(src, pc, p).lit == scan_spec(src, pc, q).lit,
        scan_spec(src, pc, p).pos == scan_spec(src, pc, q).pos,
        scan_spec(src, pc, p).end == scan_spec(src, pc, q).end,
    ensures
        token_stream(src, pc, p, fuel) == token_stream(src, pc, q, fuel),
{
}

/// Skipping comments hands out the tokens of the stream with comments, comments left out:
/// the tokens that are no comments among the first `n` scans that return comments are the
/// first scans that skip them.
pub proof fn lemma_comment_stream(src: Seq<u8>, p: int, n: nat)
    requires
        0 <= p <= src.len(),
    ensures
        ({
            let kept = drop_comments(token_stream(src, true, p, n));
            kept == token_stream(src, false, p, kept.len())
        }),
    decreases n,
{
    if n > 0 {
        let s = scan_spec(src, true, p);
        lemma_comment_skipping(src, p);
        lemma_scan_spec(src, true, p);
        let x = (s.tok, s.lit, s.pos);
        if s.tok == Tok::Eof {
            assert(token_stream(src, true, p, n) == seq![x]);
            assert(drop_comments(seq![x]) =~= seq![x] + drop_comments(seq![x].drop_first()));
            assert(drop_comments(seq![x].drop_first()) =~= Seq::<(Tok, Lit, int)>::empty());
        } else {
            let rest = token_stream(src, true, s.end, (n - 1) as nat);
            let t = token_stream(src, true, p, n);
            assert(t == seq![x] + rest);
            assert(t.drop_first() =~= rest);
            lemma_comment_stream(src, s.end, (n - 1) as nat);
            let kept_rest = drop_comments(rest);
            if s.tok == Tok::Comment {
                let m = kept_rest.len();
                if m > 0 {
                    lemma_same_stream(src, false, p, s.end, m);
                }
            } else {
                assert(drop_comments(t) == seq![x] + kept_rest);
                let m = kept_rest.len();
                assert(token_stream(src, false, p, m + 1) =~= seq![x] + token_stream(
                    src,
                    false,
                    s.end,
                    m,
                ));
            }
        }
    }
}

/// Enough scans reach the end: the first `src.len() - p + 1` scans from `p` end with `Eof`,
/// unless one of them hands out a token at an underscore, which does not move the scan on.
/// Along the way each token lies after the one before, but for such an underscore token.
pub proof fn lemma_stream_ends(src: Seq<u8>, pc: bool, p: int, n: nat)
    requires
        0 <= p <= src.len(),
        n >= src.len() - p + 1,
    ensures
        ({
            let t = token_stream(src, pc, p, n);
            &&& t.len() > 0
            &&& t.last().0 == Tok::Eof || exists|i: int|
                0 <= i < t.len() && #[trigger] t[i].0 != Tok::Eof && rune_at(src, t[i].2) == '_'
            &&& forall|i: int|
                0 <= i < t.len() - 1 ==> #[trigger] t[i].2 < t[i + 1].2 || rune_at(src, t[i].2)
                    == '_'
        }),
    decreases n,
{
    let s = scan_spec(src, pc, p);
    lemma_scan_spec(src, pc, p);
    lemma_scan_progress(src, pc, p);
    lemma_stream_steps(src, pc, p, n);
    let x = (s.tok, s.lit, s.pos);
    let t = token_stream(src, pc, p, n);
    if s.tok != Tok::Eof {
        let rest = token_stream(src, pc, s.end, (n - 1) as nat);
        assert(t == seq![x] + rest);
        assert(t[0] == x);
        if s.pos < s.end {
            lemma_stream_ends(src, pc, s.end, (n - 1) as nat);
            if rest.last().0 != Tok::Eof {
                let j = choose|j: int|
                    0 <= j < rest.len() && #[trigger] rest[j].0 != Tok::Eof && rune_at(
                        src,
                        rest[j].2,
                    ) == '_';
                assert(t[j + 1] == rest[j]);
            } else {
                assert(t.last() == rest.last());
            }
        } else {
            assert(t[0].0 != Tok::Eof && rune_at(src, t[0].2) == '_');
        }
    } else {
        assert(t.last() == x);
    }
}

/// Along any stream each token lies after the one before, but for a token at an underscore.
proof fn lemma_stream_steps(src: Seq<u8>, pc: bool, p: int, n: nat)
    requires
        0 <= p <= src.len(),
    ensures
        ({
            let t = token_stream(src, pc, p, n);
            forall|i: int|
                0 <= i < t.len() - 1 ==> #[trigger] t[i].2 < t[i + 1].2 || rune_at(src, t[i].2)
                    == '_'
        }),
    decreases n,
{
    if n > 0 {
        let s = scan_spec(src, pc, p);
        lemma_scan_spec(src, pc, p);
        lemma_scan_progress(src, pc, p);
        let x = (s.tok, s.lit, s.pos);
        let t = token_stream(src, pc, p, n);
        if s.tok != Tok::Eof {
            let rest = token_stream(src, pc, s.end, (n - 1) as nat);
            assert(t == seq![x] + rest);
            lemma_stream_steps(src, pc, s.end, (n - 1) as nat);
            if n > 1 {
                lemma_scan_spec(src, pc, s.end);
                assert(rest[0].2 == scan_spec(src, pc, s.end).pos);
            }
            assert forall|i: int| 0 <= i < t.len() - 1 implies #[trigger] t[i].2 < t[i + 1].2
                || rune_at(src, t[i].2) == '_' by {
                if i > 0 {
                    assert(t[i] == rest[i - 1]);
                    assert(t[i + 1] == rest[i]);
                }
            }
        }
    }
}

} // verus!
