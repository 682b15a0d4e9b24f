//! Runs: stretches of text that one font of the chain renders.
//!
//! A run is found by scanning, cut to the width that is left, and marked
//! with an ellipsis where it was cut.

use crate::drw::chain_view;
use crate::font::{text_width, Fnt, FontModel};
use crate::fontset::{covering_font, first_cover};
use crate::utf8::{head, lemma_head_bounds, lemma_head_prefix, utf8next};
use vstd::prelude::*;

verus! {

/// The number of bytes of one run that a canvas measures and draws unless
/// it is told otherwise.
pub const RUN_LIMIT: u32 = 1023;

/// The byte that stands three times at the end of a run that was cut.
pub const ELLIPSIS: u8 = 0x2E;

/// Why a run ends where it does.
#[derive(Clone, Copy, Debug, PartialEq, Eq, Structural)]
pub enum Stop {
    /// The text is at its end.
    End,
    /// The next codepoint belongs to another font of the chain, the one at
    /// this index.
    Switch(usize),
    /// No font of the chain has a glyph for the next codepoint, which is
    /// this one.
    Miss(u32),
}

/// Why a run ends, as contracts see it.
pub enum Halt {
    /// The text is at its end.
    End,
    /// The next codepoint belongs to the font at this index.
    Switch(int),
    /// No font of the chain has a glyph for the next codepoint.
    Miss(u32),
}

impl View for Stop {
    type V = Halt;

    open spec fn view(&self) -> Halt {
        match *self {
            Stop::End => Halt::End,
            Stop::Switch(j) => Halt::Switch(j as int),
            Stop::Miss(c) => Halt::Miss(c),
        }
    }
}

/// Whether the font in use takes a codepoint into its run: it does where it
/// is the first font of the chain that has the glyph, and in any case where
/// the codepoint is forced on it.
pub open spec fn takes(chain: Seq<FontModel>, used: int, forced: bool, c: u32) -> bool {
    forced || first_cover(chain, c) == Some(used)
}

/// The length in bytes of the run at the head of `s`: the codepoints that
/// the font in use takes, up to the first one that it does not take. Only
/// the first codepoint can be forced.
pub open spec fn run_len(chain: Seq<FontModel>, s: Seq<u8>, used: int, forced: bool) -> int
    decreases s.len(),
{
    if s.len() == 0 {
        0
    } else {
        proof {
            lemma_head_bounds(s);
        }
        if takes(chain, used, forced, head(s).0) {
            head(s).1 + run_len(chain, s.skip(head(s).1), used, false)
        } else {
            0
        }
    }
}

/// Why scanning stops in front of `rest`, the text behind a run.
pub open spec fn stop_before(chain: Seq<FontModel>, rest: Seq<u8>) -> Halt {
    if rest.len() == 0 {
        Halt::End
    } else {
        match first_cover(chain, head(rest).0) {
            Some(j) => Halt::Switch(j),
            None => Halt::Miss(head(rest).0),
        }
    }
}

/// The length of a run is within the text.
pub proof fn lemma_run_len_bounds(chain: Seq<FontModel>, s: Seq<u8>, used: int, forced: bool)
    ensures
        0 <= run_len(chain, s, used, forced) <= s.len(),
        s.len() > 0 && takes(chain, used, forced, head(s).0) ==> run_len(chain, s, used, forced)
            >= 1,
    decreases s.len(),
{
    if s.len() > 0 {
        lemma_head_bounds(s);
        lemma_run_len_bounds(chain, s.skip(head(s).1), used, false);
    }
}

/// Scans the run that begins at `pos` and returns where it ends and why.
pub fn scan_run(fonts: &Vec<Fnt>, text: &[u8], pos: usize, used: usize, forced: bool) -> (r: (
    usize,
    Stop,
))
    requires
        pos <= text.len(),
    ensures
        r.0 == pos + run_len(chain_view(fonts@), text@.skip(pos as int), used as int, forced),
        pos <= r.0 <= text.len(),
        r.1@ == stop_before(chain_view(fonts@), text@.skip(r.0 as int)),
        r.1 matches Stop::Switch(j) ==> j < fonts.len() && j != used,
{
    let ghost chain = chain_view(fonts@);
    let mut at: usize = pos;
    let mut force: bool = forced;
    let mut stop: Stop = Stop::End;
    proof {
        lemma_run_len_bounds(chain, text@.skip(pos as int), used as int, forced);
    }
    while at < text.len()
        invariant_except_break
            stop == Stop::End,
            force ==> at == pos,
            pos + run_len(chain, text@.skip(pos as int), used as int, forced) == at + run_len(
                chain,
                text@.skip(at as int),
                used as int,
                force,
            ),
        invariant
            pos <= at <= text.len(),
            chain == chain_view(fonts@),
        ensures
            pos <= at <= text.len(),
            pos + run_len(chain, text@.skip(pos as int), used as int, forced) == at,
            stop@ == stop_before(chain, text@.skip(at as int)),
            stop matches Stop::Switch(j) ==> j < fonts.len() && j != used,
        decreases text.len() - at,
    {
        let (c, n) = utf8next(text, at);
        let found = covering_font(fonts, c);
        proof {
            crate::fontset::lemma_first_cover(chain, c);
            assert(text@.skip(at as int).skip(n as int) =~= text@.skip(at + n));
        }
        let mine = match found {
            Some(j) => j == used,
            None => false,
        };
        if force || mine {
            at = at + n;
            force = false;
        } else {
            stop = match found {
                Some(j) => Stop::Switch(j),
                None => Stop::Miss(c),
            };
            break ;
        }
    }
    (at, stop)
}

/// Whether a codepoint ends at offset `k` of `s`, or `k` is the start.
pub open spec fn is_boundary(s: Seq<u8>, k: int) -> bool
    decreases s.len(),
{
    k == 0 || (s.len() > 0 && head(s).1 <= k <= s.len() && {
        proof {
            lemma_head_bounds(s);
        }
        is_boundary(s.skip(head(s).1), k - head(s).1)
    })
}

/// The length in bytes of the longest prefix of `s`, in whole codepoints,
/// whose width in `font` is within `budget`.
pub open spec fn fit_len(font: FontModel, s: Seq<u8>, budget: int) -> int
    decreases s.len(),
{
    if s.len() == 0 {
        0
    } else {
        proof {
            lemma_head_bounds(s);
        }
        let a = font.advance(head(s).0);
        if a <= budget {
            head(s).1 + fit_len(font, s.skip(head(s).1), budget - a)
        } else {
            0
        }
    }
}

/// What is drawn of a run of which `kept` is left: where the run was cut
/// and at least three bytes are left, the last three of them give way to
/// the ellipsis.
pub open spec fn elided(kept: Seq<u8>, cut: bool) -> Seq<u8> {
    if cut && kept.len() >= 3 {
        kept.take(kept.len() - 3) + seq![ELLIPSIS, ELLIPSIS, ELLIPSIS]
    } else {
        kept
    }
}

/// Taking one more codepoint into a prefix that ends at a boundary gives a
/// prefix that ends at a boundary, wider by the advance of that codepoint.
pub proof fn lemma_width_step(font: FontModel, s: Seq<u8>, k: int)
    requires
        is_boundary(s, k),
        0 <= k < s.len(),
    ensures
        is_boundary(s, k + head(s.skip(k)).1),
        k + head(s.skip(k)).1 <= s.len(),
        text_width(font, s.take(k + head(s.skip(k)).1)) == text_width(font, s.take(k))
            + font.advance(head(s.skip(k)).0),
    decreases s.len(),
{
    let n = head(s.skip(k)).1;
    lemma_head_bounds(s.skip(k));
    if k == 0 {
        assert(s.skip(0) =~= s);
        lemma_head_prefix(s, n);
        assert(s.take(n).skip(n) =~= Seq::<u8>::empty());
        assert(s.take(0) =~= Seq::<u8>::empty());
        assert(is_boundary(s.skip(n), 0));
    } else {
        let h = head(s).1;
        let t = s.skip(h);
        assert(t.skip(k - h) =~= s.skip(k));
        lemma_width_step(font, t, k - h);
        lemma_head_prefix(s, k + n);
        lemma_head_prefix(s, k);
        assert(s.take(k + n).skip(h) =~= t.take(k - h + n));
        assert(s.take(k).skip(h) =~= t.take(k - h));
    }
}

/// The longest fitting prefix ends at a boundary and is within the budget;
/// it is the whole text exactly where the whole text is within the budget.
pub proof fn lemma_fit_len(font: FontModel, s: Seq<u8>, budget: int)
    requires
        0 <= budget,
    ensures
        0 <= fit_len(font, s, budget) <= s.len(),
        is_boundary(s, fit_len(font, s, budget)),
        text_width(font, s.take(fit_len(font, s, budget))) <= budget,
        text_width(font, s) <= budget <==> fit_len(font, s, budget) == s.len(),
    decreases s.len(),
{
    if s.len() == 0 {
        assert(s.take(0) =~= s);
    } else {
        lemma_head_bounds(s);
        let n = head(s).1;
        let a = font.advance(head(s).0);
        if a <= budget {
            let t = s.skip(n);
            let k = fit_len(font, t, budget - a);
            lemma_fit_len(font, t, budget - a);
            lemma_head_prefix(s, n + k);
            assert(s.take(n + k).skip(n) =~= t.take(k));
        } else {
            assert(s.take(0) =~= Seq::<u8>::empty());
        }
    }
}

/// No boundary behind the longest fitting prefix fits: a prefix that ends
/// at a later boundary is wider than the budget.
pub proof fn lemma_fit_len_longest(font: FontModel, s: Seq<u8>, budget: int, k: int)
    requires
        0 <= budget,
        is_boundary(s, k),
        fit_len(font, s, budget) < k <= s.len(),
    ensures
        text_width(font, s.take(k)) > budget,
    decreases s.len(),
{
    let n = head(s).1;
    let a = font.advance(head(s).0);
    lemma_fit_len(font, s, budget);
    assert(s.len() > 0 && n <= k && is_boundary(s.skip(n), k - n));
    lemma_head_prefix(s, k);
    assert(s.take(k).skip(n) =~= s.skip(n).take(k - n));
    if a <= budget {
        lemma_fit_len_longest(font, s.skip(n), budget - a, k - n);
    }
}

/// Finds the longest prefix of `text`, in whole codepoints, whose width in
/// `font` is no more than `w`, and returns its length and its width.
pub fn fit_run(font: &Fnt, text: &[u8], w: u32) -> (r: (usize, u32))
    ensures
        r.0 == fit_len(font@, text@, w as int),
        r.1 == text_width(font@, text@.take(r.0 as int)),
        r.0 <= text.len(),
        r.1 <= w,
{
    let mut pos: usize = 0;
    let mut acc: u32 = 0;
    proof {
        assert(text@.skip(0) =~= text@);
        assert(text@.take(0) =~= Seq::<u8>::empty());
    }
    while pos < text.len()
        invariant
            pos <= text.len(),
            acc <= w,
            is_boundary(text@, pos as int),
            acc == text_width(font@, text@.take(pos as int)),
            fit_len(font@, text@, w as int) == pos + fit_len(
                font@,
                text@.skip(pos as int),
                w - acc,
            ),
        ensures
            pos <= text.len(),
            acc <= w,
            acc == text_width(font@, text@.take(pos as int)),
            fit_len(font@, text@, w as int) == pos,
        decreases text.len() - pos,
    {
        let (c, n) = utf8next(text, pos);
        let a = font.advance(c);
        if a > w - acc {
            break ;
        }
        proof {
            lemma_width_step(font@, text@, pos as int);
            assert(text@.skip(pos as int).skip(n as int) =~= text@.skip(pos + n));
        }
        acc = acc + a;
        pos = pos + n;
    }
    (pos, acc)
}

/// Copies the first `keep` bytes of `text`; where `cut` is set and at
/// least three bytes are kept, the last three are replaced by the ellipsis.
pub fn elide(text: &[u8], keep: usize, cut: bool) -> (out: Vec<u8>)
    requires
        keep <= text.len(),
    ensures
        out@ == elided(text@.take(keep as int), cut),
{
    let dots = cut && keep >= 3;
    let mut out: Vec<u8> = Vec::new();
    let mut i: usize = 0;
    while i < keep
        invariant
            i <= keep <= text.len(),
            dots == (cut && keep >= 3),
            out@.len() == i,
            forall|k: int|
                0 <= k < i ==> out@[k] == (if dots && k >= keep - 3 {
                    ELLIPSIS
                } else {
                    text@[k]
                }),
        decreases keep - i,
    {
        if dots && i >= keep - 3 {
            out.push(ELLIPSIS);
        } else {
            out.push(text[i]);
        }
        i = i + 1;
    }
    assert(out@ =~= elided(text@.take(keep as int), cut));
    out
}

/// Whether the chain has a glyph for every codepoint of `s`.
pub open spec fn all_covered(chain: Seq<FontModel>, s: Seq<u8>) -> bool
    decreases s.len(),
{
    if s.len() == 0 {
        true
    } else {
        proof {
            lemma_head_bounds(s);
        }
        first_cover(chain, head(s).0) is Some && all_covered(chain, s.skip(head(s).1))
    }
}

/// The chain has a glyph for every codepoint of a run that was not forced
/// on its font: a text is covered exactly if the text behind its first run
/// is.
pub proof fn lemma_run_is_covered(chain: Seq<FontModel>, s: Seq<u8>, used: int)
    ensures
        all_covered(chain, s) == all_covered(chain, s.skip(run_len(chain, s, used, false))),
    decreases s.len(),
{
    if s.len() == 0 {
        assert(s.skip(0) =~= s);
    } else {
        lemma_head_bounds(s);
        let n = head(s).1;
        if takes(chain, used, false, head(s).0) {
            lemma_run_is_covered(chain, s.skip(n), used);
            lemma_run_len_bounds(chain, s.skip(n), used, false);
            assert(s.skip(n).skip(run_len(chain, s.skip(n), used, false)) =~= s.skip(
                n + run_len(chain, s.skip(n), used, false),
            ));
        } else {
            assert(s.skip(0) =~= s);
        }
    }
}

/// Widths add up: a text cut where a codepoint ends is as wide as its two
/// parts together.
pub proof fn lemma_width_additive(font: FontModel, s: Seq<u8>, k: int)
    requires
        is_boundary(s, k),
        0 <= k <= s.len(),
    ensures
        text_width(font, s) == text_width(font, s.take(k)) + text_width(font, s.skip(k)),
    decreases s.len(),
{
    if k == 0 {
        assert(s.take(0) =~= Seq::<u8>::empty());
        assert(s.skip(0) =~= s);
    } else {
        let n = head(s).1;
        lemma_head_bounds(s);
        lemma_head_prefix(s, k);
        lemma_width_additive(font, s.skip(n), k - n);
        assert(s.take(k).skip(n) =~= s.skip(n).take(k - n));
        assert(s.skip(n).skip(k - n) =~= s.skip(k));
    }
}

/// A run ends where a codepoint ends.
pub proof fn lemma_run_ends_at_boundary(chain: Seq<FontModel>, s: Seq<u8>, used: int, forced: bool)
    ensures
        is_boundary(s, run_len(chain, s, used, forced)),
    decreases s.len(),
{
    if s.len() > 0 {
        lemma_head_bounds(s);
        lemma_run_len_bounds(chain, s.skip(head(s).1), used, false);
        lemma_run_ends_at_boundary(chain, s.skip(head(s).1), used, false);
    }
}

} // verus!
