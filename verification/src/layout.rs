//! Layout as a whole: step after step from the start of a text to its end,
//! with the answers of font matching as they come.

use crate::font::{Fnt, FontModel};
use crate::fontset::{first_cover, lemma_first_cover_push};
use crate::run::{all_covered, lemma_run_is_covered, Halt};
use crate::segment::{
    chain_after, debt, fallback_taken, font_view, lemma_seg_progress, lemma_seg_truncation,
    pen_after, pen_fits, seg_end, seg_pen, seg_run, seg_stop, PenModel, RunModel,
};
use crate::utf8::lemma_head_bounds;
use vstd::prelude::*;

verus! {

/// The state of a layout under way.
pub struct Laid {
    /// The font chain.
    pub chain: Seq<FontModel>,
    /// The pen.
    pub pen: PenModel,
    /// The runs made so far.
    pub runs: Seq<RunModel>,
    /// The codepoints that a fallback font was asked for, in order.
    pub asked: Seq<u32>,
    /// The fonts that were found and not taken.
    pub rejected: Seq<FontModel>,
    /// Whether layout came to a codepoint without a glyph in the chain
    /// while the primary font owns no template pattern.
    pub stuck: bool,
}

/// The runs made so far, with the run of one more step.
pub open spec fn runs_with(runs: Seq<RunModel>, run: Option<RunModel>) -> Seq<RunModel> {
    match run {
        Some(r) => runs.push(r),
        None => runs,
    }
}

/// The fonts not taken so far, with what one more request has found.
pub open spec fn rejected_with(
    rejected: Seq<FontModel>,
    codepoint: u32,
    found: Option<FontModel>,
) -> Seq<FontModel> {
    if found is Some && !fallback_taken(found, codepoint) {
        rejected.push(found->0)
    } else {
        rejected
    }
}

/// The state behind one step of layout: the pen has moved, and the run of
/// the step is with the runs.
pub open spec fn stepped(limit: u32, y: i32, h: u32, text: Seq<u8>, at: Laid) -> Laid {
    Laid {
        pen: seg_pen(at.chain, limit, text, at.pen),
        runs: runs_with(at.runs, seg_run(at.chain, limit, y, h, text, at.pen)),
        ..at
    }
}

/// The state behind a step of layout that ended in front of the codepoint
/// `c`, for which a fallback font was asked for and `found` was found.
pub open spec fn answered(
    limit: u32,
    y: i32,
    h: u32,
    text: Seq<u8>,
    at: Laid,
    c: u32,
    found: Option<FontModel>,
) -> Laid {
    Laid {
        chain: chain_after(at.chain, c, found),
        pen: pen_after(at.chain, seg_pen(at.chain, limit, text, at.pen), c, found),
        asked: at.asked.push(c),
        rejected: rejected_with(at.rejected, c, found),
        ..stepped(limit, y, h, text, at)
    }
}

/// Layout from a state to the end of the text, where `answers` holds what
/// font matching finds, request by request.
///
/// Each step makes the run at the pen. At the end of the text layout is
/// done. Where the next codepoint belongs to another font of the chain,
/// that font goes on. Where no font has a glyph for it, layout is stuck if
/// the primary font owns no template pattern; else the codepoint is asked
/// for, and layout goes on with what the next answer makes of chain and
/// pen. Where the answers have run out, layout rests with the request made.
pub open spec fn lay(
    limit: u32,
    y: i32,
    h: u32,
    text: Seq<u8>,
    at: Laid,
    answers: Seq<Option<Fnt>>,
) -> Laid
    decreases debt(at.chain, text, at.pen),
    when pen_fits(at.chain, text, at.pen)
    via lay_decreases
{
    match seg_stop(at.chain, text, at.pen) {
        Halt::End => stepped(limit, y, h, text, at),
        Halt::Switch(_) => lay(limit, y, h, text, stepped(limit, y, h, text, at), answers),
        Halt::Miss(c) => if !at.chain[0].pattern {
            Laid { stuck: true, ..stepped(limit, y, h, text, at) }
        } else if answers.len() == 0 {
            Laid { asked: at.asked.push(c), ..stepped(limit, y, h, text, at) }
        } else {
            lay(
                limit,
                y,
                h,
                text,
                answered(limit, y, h, text, at, c, font_view(answers[0])),
                answers.skip(1),
            )
        },
    }
}

#[via_fn]
proof fn lay_decreases(
    limit: u32,
    y: i32,
    h: u32,
    text: Seq<u8>,
    at: Laid,
    answers: Seq<Option<Fnt>>,
) {
    if answers.len() > 0 {
        lemma_seg_progress(at.chain, limit, text, at.pen, font_view(answers[0]));
    } else {
        lemma_seg_progress(at.chain, limit, text, at.pen, None);
    }
}

/// Layout that has taken a step and one answer goes on as layout from the
/// state behind them with the answers that are left.
pub proof fn lemma_lay_answered(
    limit: u32,
    y: i32,
    h: u32,
    text: Seq<u8>,
    at: Laid,
    c: u32,
    answer: Option<Fnt>,
    rest: Seq<Option<Fnt>>,
)
    requires
        pen_fits(at.chain, text, at.pen),
        seg_stop(at.chain, text, at.pen) == Halt::Miss(c),
        at.chain[0].pattern,
    ensures
        lay(limit, y, h, text, at, seq![answer] + rest) == lay(
            limit,
            y,
            h,
            text,
            answered(limit, y, h, text, at, c, font_view(answer)),
            rest,
        ),
{
    let more = seq![answer] + rest;
    lemma_seg_progress(at.chain, limit, text, at.pen, font_view(answer));
    assert(more.len() > 0);
    assert(more.skip(1) =~= rest);
    assert(more[0] == answer);
    assert(lay(limit, y, h, text, at, more) == lay(
        limit,
        y,
        h,
        text,
        answered(limit, y, h, text, at, c, font_view(more[0])),
        more.skip(1),
    ));
}

/// Layout keeps what is there and spends no more than it has.
///
/// The chain only grows at its end, and so do the runs and the requests.
/// Position and width that is left add up to what they were, and the width
/// does not grow: the text never takes more than the width that it was
/// given. A fallback font is asked for only for a codepoint that no font of
/// the chain had a glyph for. Layout is stuck only where the primary font
/// owns no template pattern, and then it has asked for nothing. Where it is
/// not stuck and every request was answered, it has reached the end of the
/// text.
pub proof fn lemma_lay_keeps(
    limit: u32,
    y: i32,
    h: u32,
    text: Seq<u8>,
    at: Laid,
    answers: Seq<Option<Fnt>>,
)
    requires
        pen_fits(at.chain, text, at.pen),
        !at.stuck,
    ensures
        ({
            let out = lay(limit, y, h, text, at, answers);
            &&& pen_fits(out.chain, text, out.pen)
            &&& at.chain.len() <= out.chain.len()
            &&& out.chain.take(at.chain.len() as int) == at.chain
            &&& at.runs.len() <= out.runs.len()
            &&& out.runs.take(at.runs.len() as int) == at.runs
            &&& at.asked.len() <= out.asked.len() <= at.asked.len() + answers.len() + 1
            &&& out.asked.take(at.asked.len() as int) == at.asked
            &&& out.pen.x + out.pen.w == at.pen.x + at.pen.w
            &&& out.pen.w <= at.pen.w
            &&& forall|k: int|
                at.asked.len() <= k < out.asked.len() ==> first_cover(
                    at.chain,
                    #[trigger] out.asked[k],
                ) is None
            &&& out.stuck ==> !at.chain[0].pattern && out.chain == at.chain && out.asked == at.asked
            &&& !out.stuck && out.asked.len() <= at.asked.len() + answers.len() ==> out.pen.pos
                == text.len()
        }),
    decreases debt(at.chain, text, at.pen),
{
    let out = lay(limit, y, h, text, at, answers);
    let found = if answers.len() > 0 {
        font_view(answers[0])
    } else {
        None
    };
    lemma_seg_progress(at.chain, limit, text, at.pen, found);
    assert(at.chain.take(at.chain.len() as int) =~= at.chain);
    assert(at.asked.take(at.asked.len() as int) =~= at.asked);
    let runs = runs_with(at.runs, seg_run(at.chain, limit, y, h, text, at.pen));
    assert(runs.take(at.runs.len() as int) =~= at.runs);
    match seg_stop(at.chain, text, at.pen) {
        Halt::End => {},
        Halt::Switch(_) => {
            let next = stepped(limit, y, h, text, at);
            lemma_lay_keeps(limit, y, h, text, next, answers);
            assert(out.runs.take(at.runs.len() as int) =~= out.runs.take(
                next.runs.len() as int,
            ).take(at.runs.len() as int));
        },
        Halt::Miss(c) => {
            if !at.chain[0].pattern {
            } else if answers.len() == 0 {
                assert(at.asked.push(c).take(at.asked.len() as int) =~= at.asked);
            } else {
                let next = answered(limit, y, h, text, at, c, found);
                let rest = answers.skip(1);
                lemma_lay_keeps(limit, y, h, text, next, rest);
                assert(out == lay(limit, y, h, text, next, rest));
                assert(out.runs.take(at.runs.len() as int) =~= out.runs.take(
                    next.runs.len() as int,
                ).take(at.runs.len() as int));
                assert(out.chain.take(at.chain.len() as int) =~= out.chain.take(
                    next.chain.len() as int,
                ).take(at.chain.len() as int));
                assert(next.chain.take(at.chain.len() as int) =~= at.chain);
                assert(out.asked.take(at.asked.len() as int) =~= out.asked.take(
                    next.asked.len() as int,
                ).take(at.asked.len() as int));
                assert(next.asked.take(at.asked.len() as int) =~= at.asked);
                assert(out.asked[at.asked.len() as int] == out.asked.take(
                    next.asked.len() as int,
                )[at.asked.len() as int]);
                assert forall|k: int| at.asked.len() <= k < out.asked.len() implies first_cover(
                    at.chain,
                    #[trigger] out.asked[k],
                ) is None by {
                    if k >= next.asked.len() {
                        if fallback_taken(found, c) {
                            lemma_first_cover_push(at.chain, found->0, out.asked[k]);
                        }
                    }
                }
            }
        },
    }
}

/// Layout is stuck exactly where the primary font owns no template pattern
/// and the chain lacks a glyph for some codepoint in front of the pen,
/// whatever font matching would answer.
pub proof fn lemma_stuck_iff(
    limit: u32,
    y: i32,
    h: u32,
    text: Seq<u8>,
    at: Laid,
    answers: Seq<Option<Fnt>>,
)
    requires
        pen_fits(at.chain, text, at.pen),
        !at.stuck,
        !at.pen.forced,
    ensures
        lay(limit, y, h, text, at, answers).stuck <==> !at.chain[0].pattern && !all_covered(
            at.chain,
            text.skip(at.pen.pos),
        ),
    decreases debt(at.chain, text, at.pen),
{
    lemma_lay_keeps(limit, y, h, text, at, answers);
    if !at.chain[0].pattern {
        lemma_seg_progress(at.chain, limit, text, at.pen, None);
        lemma_run_is_covered(at.chain, text.skip(at.pen.pos), at.pen.used);
        let e = seg_end(at.chain, text, at.pen);
        assert(text.skip(at.pen.pos).skip(e - at.pen.pos) =~= text.skip(e));
        match seg_stop(at.chain, text, at.pen) {
            Halt::End => {},
            Halt::Switch(_) => {
                lemma_stuck_iff(limit, y, h, text, stepped(limit, y, h, text, at), answers);
            },
            Halt::Miss(c) => {
                lemma_head_bounds(text.skip(e));
            },
        }
    }
}

/// Whether runs lie side by side from `from` to `to`: the first begins at
/// `from`, each begins where the one before it ends, and the last ends at
/// `to`.
pub open spec fn side_by_side(runs: Seq<RunModel>, from: int, to: int) -> bool
    decreases runs.len(),
{
    if runs.len() == 0 {
        from == to
    } else {
        runs.last().x + runs.last().width == to && side_by_side(
            runs.drop_last(),
            from,
            runs.last().x,
        )
    }
}

/// Whether every run has text and names a font of the chain.
pub open spec fn runs_drawable(runs: Seq<RunModel>, chain: Seq<FontModel>) -> bool {
    forall|i: int|
        0 <= i < runs.len() ==> (#[trigger] runs[i]).text.len() > 0 && 0 <= runs[i].font
            < chain.len()
}

/// The runs of a layout lie side by side from where the pen began to where
/// it ends; each has text, and each names a font of the chain as it is at
/// the end of the layout.
pub proof fn lemma_runs_side_by_side(
    limit: u32,
    y: i32,
    h: u32,
    text: Seq<u8>,
    at: Laid,
    answers: Seq<Option<Fnt>>,
    from: int,
)
    requires
        pen_fits(at.chain, text, at.pen),
        !at.stuck,
        side_by_side(at.runs, from, at.pen.x),
        runs_drawable(at.runs, at.chain),
    ensures
        side_by_side(
            lay(limit, y, h, text, at, answers).runs,
            from,
            lay(limit, y, h, text, at, answers).pen.x,
        ),
        runs_drawable(
            lay(limit, y, h, text, at, answers).runs,
            lay(limit, y, h, text, at, answers).chain,
        ),
    decreases debt(at.chain, text, at.pen),
{
    let found = if answers.len() > 0 {
        font_view(answers[0])
    } else {
        None
    };
    lemma_seg_progress(at.chain, limit, text, at.pen, found);
    lemma_seg_truncation(at.chain, limit, y, h, text, at.pen);
    let next = stepped(limit, y, h, text, at);
    match seg_run(at.chain, limit, y, h, text, at.pen) {
        Some(run) => {
            assert(next.runs.drop_last() =~= at.runs);
            assert(next.runs.last() == run);
        },
        None => {},
    }
    assert(side_by_side(next.runs, from, next.pen.x));
    assert(runs_drawable(next.runs, next.chain));
    match seg_stop(at.chain, text, at.pen) {
        Halt::End => {},
        Halt::Switch(_) => {
            lemma_runs_side_by_side(limit, y, h, text, next, answers, from);
        },
        Halt::Miss(c) => {
            if at.chain[0].pattern && answers.len() > 0 {
                let then = answered(limit, y, h, text, at, c, found);
                assert(runs_drawable(then.runs, then.chain));
                lemma_runs_side_by_side(limit, y, h, text, then, answers.skip(1), from);
            }
        },
    }
}

} // verus!
