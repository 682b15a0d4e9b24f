//! What holds of every layout.

use crate::drw::DrwModel;
use crate::font::{Fnt, FontModel};
use crate::fontset::{first_cover, lemma_first_cover, lemma_first_cover_push};
use crate::layout::{answered, lay, lemma_lay_keeps, stepped, Laid};
use crate::run::Halt;
use crate::segment::{
    debt, fallback_taken, font_view, lemma_seg_progress, pen_fits, runs_view, seg_stop,
};
use crate::text::{laid_out, start, text_ready, TextError, TextLayout};
use vstd::prelude::*;

verus! {

/// Two layouts of one text from one state that both leave the chain as it
/// is come to the same: the same pen, the same runs, the same requests,
/// whatever font matching answered in the one and in the other.
pub proof fn lemma_lay_repeatable(
    limit: u32,
    y: i32,
    h: u32,
    text: Seq<u8>,
    a: Laid,
    b: Laid,
    first: Seq<Option<Fnt>>,
    second: Seq<Option<Fnt>>,
)
    requires
        pen_fits(a.chain, text, a.pen),
        !a.stuck,
        !b.stuck,
        a.chain == b.chain,
        a.pen == b.pen,
        a.runs == b.runs,
        a.asked == b.asked,
        lay(limit, y, h, text, a, first).chain == a.chain,
        lay(limit, y, h, text, b, second).chain == b.chain,
        lay(limit, y, h, text, a, first).asked.len() == a.asked.len() + first.len(),
        lay(limit, y, h, text, b, second).asked.len() == b.asked.len() + second.len(),
    ensures
        lay(limit, y, h, text, a, first).pen == lay(limit, y, h, text, b, second).pen,
        lay(limit, y, h, text, a, first).runs == lay(limit, y, h, text, b, second).runs,
        lay(limit, y, h, text, a, first).asked == lay(limit, y, h, text, b, second).asked,
        lay(limit, y, h, text, a, first).stuck == lay(limit, y, h, text, b, second).stuck,
    decreases debt(a.chain, text, a.pen),
{
    lemma_seg_progress(a.chain, limit, text, a.pen, None);
    match seg_stop(a.chain, text, a.pen) {
        Halt::End => {},
        Halt::Switch(_) => {
            lemma_lay_repeatable(
                limit,
                y,
                h,
                text,
                stepped(limit, y, h, text, a),
                stepped(limit, y, h, text, b),
                first,
                second,
            );
        },
        Halt::Miss(c) => {
            if a.chain[0].pattern {
                assert(first.len() > 0);
                assert(second.len() > 0);
                let x = font_view(first[0]);
                let z = font_view(second[0]);
                lemma_seg_progress(a.chain, limit, text, a.pen, x);
                lemma_seg_progress(b.chain, limit, text, b.pen, z);
                let next_a = answered(limit, y, h, text, a, c, x);
                let next_b = answered(limit, y, h, text, b, c, z);
                lemma_lay_keeps(limit, y, h, text, next_a, first.skip(1));
                lemma_lay_keeps(limit, y, h, text, next_b, second.skip(1));
                assert(!fallback_taken(x, c));
                assert(!fallback_taken(z, c));
                lemma_lay_repeatable(
                    limit,
                    y,
                    h,
                    text,
                    next_a,
                    next_b,
                    first.skip(1),
                    second.skip(1),
                );
            }
        },
    }
}

/// Laying out is repeatable: two layouts of the same text with the same
/// box on the same canvas, both of which leave the font chain as it is,
/// fail or succeed alike and give the same end and the same runs.
pub proof fn lemma_drw_text_repeatable<F: Fn(u32) -> Option<Fnt>, G: Fn(u32) -> Option<Fnt>>(
    drw: DrwModel,
    x: i32,
    y: i32,
    w: u32,
    h: u32,
    lpad: u32,
    text: Seq<u8>,
    invert: bool,
    render: bool,
    matcher: F,
    again: G,
    first: Seq<Option<Fnt>>,
    second: Seq<Option<Fnt>>,
    r: Result<TextLayout, TextError>,
    s: Result<TextLayout, TextError>,
)
    requires
        text_ready(drw, text, render),
        laid_out(drw, x, y, w, h, lpad, text, invert, render, matcher, first, drw.fonts, r),
        laid_out(drw, x, y, w, h, lpad, text, invert, render, again, second, drw.fonts, s),
    ensures
        r is Ok <==> s is Ok,
        r is Ok ==> r->Ok_0.end == s->Ok_0.end && runs_view(r->Ok_0.runs@) == runs_view(
            s->Ok_0.runs@,
        ),
{
    let at = start(drw.fonts, x, w, lpad, render);
    lemma_lay_repeatable(drw.limit, y, h, text, at, at, first, second);
}

/// A font chain that has a glyph for a codepoint still has one when fonts
/// were added at its end.
pub proof fn lemma_cover_persists(chain: Seq<FontModel>, longer: Seq<FontModel>, c: u32)
    requires
        chain.len() <= longer.len(),
        longer.take(chain.len() as int) == chain,
        first_cover(chain, c) is Some,
    ensures
        first_cover(longer, c) == first_cover(chain, c),
{
    lemma_first_cover(chain, c);
    lemma_first_cover(longer, c);
    let i = first_cover(chain, c)->0;
    assert(forall|j: int| 0 <= j < chain.len() ==> longer[j] == longer.take(chain.len() as int)[j]);
    assert(longer[i].covers(c));
    match first_cover(longer, c) {
        Some(k) => {
            if k < i {
                assert(!chain[k].covers(c));
            }
        },
        None => {},
    }
}

/// Where a fallback font was taken for a codepoint, the chain at the end
/// of the layout has a glyph for that codepoint.
pub proof fn lemma_taken_is_covered(
    limit: u32,
    y: i32,
    h: u32,
    text: Seq<u8>,
    at: Laid,
    answers: Seq<Option<Fnt>>,
    k: int,
)
    requires
        pen_fits(at.chain, text, at.pen),
        !at.stuck,
        at.asked.len() <= k < lay(limit, y, h, text, at, answers).asked.len(),
        k - at.asked.len() < answers.len(),
        fallback_taken(
            font_view(answers[k - at.asked.len()]),
            lay(limit, y, h, text, at, answers).asked[k],
        ),
    ensures
        first_cover(
            lay(limit, y, h, text, at, answers).chain,
            lay(limit, y, h, text, at, answers).asked[k],
        ) is Some,
    decreases debt(at.chain, text, at.pen),
{
    let out = lay(limit, y, h, text, at, answers);
    lemma_seg_progress(at.chain, limit, text, at.pen, None);
    match seg_stop(at.chain, text, at.pen) {
        Halt::End => {},
        Halt::Switch(_) => {
            lemma_taken_is_covered(
                limit,
                y,
                h,
                text,
                stepped(limit, y, h, text, at),
                answers,
                k,
            );
        },
        Halt::Miss(c) => {
            if at.chain[0].pattern && answers.len() > 0 {
                let found = font_view(answers[0]);
                lemma_seg_progress(at.chain, limit, text, at.pen, found);
                let next = answered(limit, y, h, text, at, c, found);
                let rest = answers.skip(1);
                lemma_lay_keeps(limit, y, h, text, next, rest);
                assert(out == lay(limit, y, h, text, next, rest));
                if k == at.asked.len() {
                    assert(out.asked[k] == out.asked.take(next.asked.len() as int)[k]);
                    assert(out.asked[k] == c);
                    lemma_first_cover_push(at.chain, found->0, c);
                    lemma_cover_persists(next.chain, out.chain, c);
                } else {
                    assert(rest[k - next.asked.len()] == answers[k - at.asked.len()]);
                    lemma_taken_is_covered(limit, y, h, text, next, rest, k);
                }
            }
        },
    }
}

/// A fallback font is asked for once: where one layout has taken a font
/// into the chain for a codepoint, no later layout with that chain, of
/// whatever text, asks for that codepoint again.
pub proof fn lemma_fallback_asked_once(
    limit: u32,
    y: i32,
    h: u32,
    text: Seq<u8>,
    at: Laid,
    answers: Seq<Option<Fnt>>,
    k: int,
    later_limit: u32,
    later_y: i32,
    later_h: u32,
    later_text: Seq<u8>,
    later: Laid,
    later_answers: Seq<Option<Fnt>>,
)
    requires
        pen_fits(at.chain, text, at.pen),
        !at.stuck,
        at.asked.len() <= k < lay(limit, y, h, text, at, answers).asked.len(),
        k - at.asked.len() < answers.len(),
        fallback_taken(
            font_view(answers[k - at.asked.len()]),
            lay(limit, y, h, text, at, answers).asked[k],
        ),
        later.chain == lay(limit, y, h, text, at, answers).chain,
        pen_fits(later.chain, later_text, later.pen),
        !later.stuck,
    ensures
        forall|j: int|
            later.asked.len() <= j < lay(
                later_limit,
                later_y,
                later_h,
                later_text,
                later,
                later_answers,
            ).asked.len() ==> #[trigger] lay(
                later_limit,
                later_y,
                later_h,
                later_text,
                later,
                later_answers,
            ).asked[j] != lay(limit, y, h, text, at, answers).asked[k],
{
    lemma_taken_is_covered(limit, y, h, text, at, answers, k);
    lemma_lay_keeps(later_limit, later_y, later_h, later_text, later, later_answers);
}

/// A fallback font is asked for once, canvas by canvas: where laying out
/// one text has taken a font into the chain for a codepoint, laying out
/// any text on a canvas with the chain as it then is asks for that
/// codepoint no more.
pub proof fn lemma_drw_text_asks_once<F: Fn(u32) -> Option<Fnt>, G: Fn(u32) -> Option<Fnt>>(
    drw: DrwModel,
    x: i32,
    y: i32,
    w: u32,
    h: u32,
    lpad: u32,
    text: Seq<u8>,
    invert: bool,
    render: bool,
    matcher: F,
    answers: Seq<Option<Fnt>>,
    fonts: Seq<FontModel>,
    r: Result<TextLayout, TextError>,
    k: int,
    later: DrwModel,
    later_x: i32,
    later_y: i32,
    later_w: u32,
    later_h: u32,
    later_lpad: u32,
    later_text: Seq<u8>,
    later_invert: bool,
    later_render: bool,
    later_matcher: G,
    later_answers: Seq<Option<Fnt>>,
    later_fonts: Seq<FontModel>,
    later_r: Result<TextLayout, TextError>,
)
    requires
        text_ready(drw, text, render),
        laid_out(drw, x, y, w, h, lpad, text, invert, render, matcher, answers, fonts, r),
        0 <= k < answers.len(),
        fallback_taken(
            font_view(answers[k]),
            lay(drw.limit, y, h, text, start(drw.fonts, x, w, lpad, render), answers).asked[k],
        ),
        later.fonts == fonts,
        text_ready(later, later_text, later_render),
        laid_out(
            later,
            later_x,
            later_y,
            later_w,
            later_h,
            later_lpad,
            later_text,
            later_invert,
            later_render,
            later_matcher,
            later_answers,
            later_fonts,
            later_r,
        ),
    ensures
        forall|j: int|
            0 <= j < later_answers.len() ==> #[trigger] lay(
                later.limit,
                later_y,
                later_h,
                later_text,
                start(later.fonts, later_x, later_w, later_lpad, later_render),
                later_answers,
            ).asked[j] != lay(
                drw.limit,
                y,
                h,
                text,
                start(drw.fonts, x, w, lpad, render),
                answers,
            ).asked[k],
{
    lemma_fallback_asked_once(
        drw.limit,
        y,
        h,
        text,
        start(drw.fonts, x, w, lpad, render),
        answers,
        k,
        later.limit,
        later_y,
        later_h,
        later_text,
        start(later.fonts, later_x, later_w, later_lpad, later_render),
        later_answers,
    );
}

} // verus!
