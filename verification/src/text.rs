//! Text layout on a canvas: from a text, a box and the font chain to what
//! is to be painted.
//!
//! Layout walks the text run by run. Each step scans one run, cuts it to
//! the width that is left and moves the pen. Where no font of the chain has
//! a glyph for the next codepoint, a fallback font is asked for; what comes
//! back is taken into the chain if it has the glyph.

use crate::drw::{chain_view, Clr, Drw, DrwModel, Rect, Scheme};
use crate::font::{Fnt, FontModel};
use crate::layout::{
    answered, lay, lemma_lay_answered, lemma_lay_keeps, lemma_runs_side_by_side, lemma_stuck_iff,
    rejected_with, runs_with, stepped, Laid,
};
use crate::run::{all_covered, Stop};
use crate::segment::{
    debt, drw_text_fallback, drw_text_segment, font_view, lemma_seg_progress, pen_fits, run_view,
    runs_view, Pen, PenModel, RunModel, TextRun,
};
use vstd::prelude::*;

verus! {

/// Why no layout could be made.
#[derive(Clone, Copy, Debug, PartialEq, Eq, Structural)]
pub enum TextError {
    /// A fallback font is needed, and the primary font owns no template
    /// pattern to ask for one with: the chain was not set up from a font
    /// name.
    NoTemplate,
}

/// A layout: what is to be painted, and where the pen ends.
#[derive(Debug)]
pub struct TextLayout {
    /// When rendering, the end of the box: the position of the pen behind
    /// the text plus the width that is left. When measuring, the position
    /// of the pen behind the text.
    pub end: i64,
    /// The box to fill before the runs are drawn; only when rendering.
    pub fill: Option<Rect>,
    /// The colour of the glyphs; only when rendering.
    pub ink: Option<Clr>,
    /// The runs, from left to right.
    pub runs: Vec<TextRun>,
    /// The fonts that were found for a codepoint and not taken into the
    /// chain, for the host to close.
    pub rejected: Vec<Fnt>,
}

/// The pen at the start of a layout. When rendering, the text begins
/// behind the left padding, and the padding comes off the width, of which
/// no less than nothing is left.
pub open spec fn start_pen(x: i32, w: u32, lpad: u32, render: bool) -> PenModel {
    PenModel {
        pos: 0,
        used: 0,
        forced: false,
        x: if render {
            x + lpad
        } else {
            x as int
        },
        w: if render {
            if w >= lpad {
                w - lpad
            } else {
                0
            }
        } else {
            w as int
        },
    }
}

/// The state at the start of a layout.
pub open spec fn start(chain: Seq<FontModel>, x: i32, w: u32, lpad: u32, render: bool) -> Laid {
    Laid {
        chain,
        pen: start_pen(x, w, lpad, render),
        runs: Seq::empty(),
        asked: Seq::empty(),
        rejected: Seq::empty(),
        stuck: false,
    }
}

/// Whether there is anything to lay out: a font chain, a text, and a colour
/// scheme for rendering.
pub open spec fn text_ready(drw: DrwModel, text: Seq<u8>, render: bool) -> bool {
    drw.fonts.len() > 0 && text.len() > 0 && (render ==> drw.scheme is Some)
}

/// The box behind a text: all of the box, in the background colour, or in
/// the foreground colour where colours are inverted.
pub open spec fn backdrop(scheme: Scheme, x: i32, y: i32, w: u32, h: u32, invert: bool) -> Rect {
    Rect {
        x,
        y,
        w,
        h,
        filled: true,
        color: if invert {
            scheme.fg
        } else {
            scheme.bg
        },
    }
}

/// The colour of the glyphs: the foreground colour, or the background
/// colour where colours are inverted.
pub open spec fn ink_of(scheme: Scheme, invert: bool) -> Clr {
    if invert {
        scheme.bg
    } else {
        scheme.fg
    }
}

/// Whether `r` and `fonts` are what laying out `text` on the canvas `drw`
/// comes to when font matching gives `answers`: the answers are what
/// `matcher` returned for the codepoints that were asked for, one each; the
/// chain, the runs and the fonts not taken are those of the layout; the
/// layout fails exactly where it is stuck.
pub open spec fn laid_out<F: Fn(u32) -> Option<Fnt>>(
    drw: DrwModel,
    x: i32,
    y: i32,
    w: u32,
    h: u32,
    lpad: u32,
    text: Seq<u8>,
    invert: bool,
    render: bool,
    matcher: F,
    answers: Seq<Option<Fnt>>,
    fonts: Seq<FontModel>,
    r: Result<TextLayout, TextError>,
) -> bool {
    let out = lay(drw.limit, y, h, text, start(drw.fonts, x, w, lpad, render), answers);
    &&& out.asked.len() == answers.len()
    &&& forall|k: int|
        0 <= k < answers.len() ==> call_ensures(matcher, (out.asked[k],), #[trigger] answers[k])
    &&& out.chain == fonts
    &&& match r {
        Ok(t) => {
            &&& !out.stuck
            &&& t.end == (if render {
                out.pen.x + out.pen.w
            } else {
                out.pen.x
            })
            &&& runs_view(t.runs@) == out.runs
            &&& chain_view(t.rejected@) == out.rejected
            &&& t.fill == (if render {
                Some(backdrop(drw.scheme->0, x, y, w, h, invert))
            } else {
                None
            })
            &&& t.ink == (if render {
                Some(ink_of(drw.scheme->0, invert))
            } else {
                None
            })
        },
        Err(e) => out.stuck,
    }
}

/// Whether laying out `text` on the canvas fails: there is something to
/// lay out, the chain lacks a glyph for a codepoint of the text, and the
/// primary font owns no template pattern to ask for a fallback font with.
pub open spec fn text_fails(drw: DrwModel, text: Seq<u8>, render: bool) -> bool {
    text_ready(drw, text, render) && !drw.fonts[0].pattern && !all_covered(drw.fonts, text)
}

/// Lays out `text` in a box. When rendering, the box is `w` by `h` at `x`
/// and `y`, the text begins `lpad` behind its left edge, and the layout
/// says what to paint. When measuring, the pen starts at `x` with `w` to
/// spend, and the layout says where it ends. `matcher` is asked for a font
/// for each codepoint that no font of the chain has a glyph for; a font
/// that it returns and that has the glyph is added to the chain.
///
/// Without a font chain, without a text, or without a colour scheme when
/// rendering, nothing is laid out and the canvas stays as it is.
pub fn drw_text<F: Fn(u32) -> Option<Fnt>>(
    drw: &mut Drw,
    x: i32,
    y: i32,
    w: u32,
    h: u32,
    lpad: u32,
    text: &[u8],
    invert: bool,
    render: bool,
    matcher: F,
) -> (r: Result<TextLayout, TextError>)
    requires
        forall|c: u32| call_requires(matcher, (c,)),
    ensures
        final(drw)@ == (DrwModel { fonts: final(drw)@.fonts, ..old(drw)@ }),
        old(drw).fonts@.len() <= final(drw).fonts@.len(),
        final(drw).fonts@.take(old(drw).fonts@.len() as int) == old(drw).fonts@,
        r is Err <==> text_fails(old(drw)@, text@, render),
        r is Err ==> r == Err::<TextLayout, TextError>(TextError::NoTemplate) && final(drw).fonts@
            == old(drw).fonts@,
        r matches Ok(t) ==> forall|i: int|
            0 <= i < t.runs@.len() ==> (#[trigger] t.runs@[i]).font < final(drw).fonts@.len(),
        r is Ok && text_ready(old(drw)@, text@, render) ==> (if render {
            r->Ok_0.end == start_pen(x, w, lpad, render).x + start_pen(x, w, lpad, render).w
        } else {
            x <= r->Ok_0.end <= x + w
        }),
        !text_ready(old(drw)@, text@, render) ==> final(drw).fonts@ == old(drw).fonts@ && (r matches Ok(
            t,
        ) && t.end == 0 && t.fill is None && t.ink is None && t.runs@.len() == 0
            && t.rejected@.len() == 0),
        text_ready(old(drw)@, text@, render) ==> exists|answers: Seq<Option<Fnt>>| #[trigger]
            laid_out(
                old(drw)@,
                x,
                y,
                w,
                h,
                lpad,
                text@,
                invert,
                render,
                matcher,
                answers,
                final(drw)@.fonts,
                r,
            ),
{
    if drw.fonts.len() == 0 || text.len() == 0 || (render && drw.scheme.is_none()) {
        return Ok(
            TextLayout { end: 0, fill: None, ink: None, runs: Vec::new(), rejected: Vec::new() },
        );
    }
    let mut fill: Option<Rect> = None;
    let mut ink: Option<Clr> = None;
    let mut pen = Pen { pos: 0, used: 0, forced: false, x: x as i64, w };
    if render {
        let scheme = drw.scheme.unwrap();
        fill = Some(
            Rect {
                x,
                y,
                w,
                h,
                filled: true,
                color: if invert {
                    scheme.fg
                } else {
                    scheme.bg
                },
            },
        );
        ink = Some(
            if invert {
                scheme.bg
            } else {
                scheme.fg
            },
        );
        pen.x = x as i64 + lpad as i64;
        pen.w = if w >= lpad {
            w - lpad
        } else {
            0
        };
    }
    let limit = drw.limit;
    let mut runs: Vec<TextRun> = Vec::new();
    let mut rejected: Vec<Fnt> = Vec::new();
    let mut done = false;
    // `now` is the state of the layout; `given` holds what the matcher has
    // answered so far.
    let ghost first = start(chain_view(drw.fonts@), x, w, lpad, render);
    let ghost mut given: Seq<Option<Fnt>> = Seq::empty();
    let ghost mut now: Laid = first;
    proof {
        assert(runs_view(runs@) =~= Seq::<RunModel>::empty());
        assert(chain_view(rejected@) =~= Seq::<FontModel>::empty());
        assert(drw.fonts@.take(drw.fonts@.len() as int) =~= drw.fonts@);
        assert(text@.skip(0) =~= text@);
        assert forall|rest: Seq<Option<Fnt>>|
            #[trigger] lay(limit, y, h, text@, first, given + rest) == lay(
                limit,
                y,
                h,
                text@,
                now,
                rest,
            ) by {
            assert(given + rest =~= rest);
        }
    }
    while !done
        invariant
            forall|c: u32| call_requires(matcher, (c,)),
            text_ready(old(drw)@, text@, render),
            limit == old(drw).limit,
            first == start(chain_view(old(drw).fonts@), x, w, lpad, render),
            pen_fits(first.chain, text@, first.pen),
            drw@ == (DrwModel { fonts: drw@.fonts, ..old(drw)@ }),
            old(drw).fonts@.len() <= drw.fonts@.len(),
            drw.fonts@.take(old(drw).fonts@.len() as int) == old(drw).fonts@,
            given.len() == 0 ==> drw.fonts@ == old(drw).fonts@,
            now == (Laid {
                chain: chain_view(drw.fonts@),
                pen: pen@,
                runs: runs_view(runs@),
                asked: now.asked,
                rejected: chain_view(rejected@),
                stuck: false,
            }),
            pen_fits(now.chain, text@, now.pen),
            now.asked.len() == given.len(),
            forall|k: int|
                0 <= k < given.len() ==> call_ensures(matcher, (now.asked[k],), #[trigger] given[k]),
            !done ==> forall|rest: Seq<Option<Fnt>>|
                #[trigger] lay(limit, y, h, text@, first, given + rest) == lay(
                    limit,
                    y,
                    h,
                    text@,
                    now,
                    rest,
                ),
            done ==> lay(limit, y, h, text@, first, given) == now,
        decreases
                (if done {
                    0
                } else {
                    debt(now.chain, text@, now.pen) + 1
                }),
    {
        let ghost prev = now;
        let seg = drw_text_segment(&drw.fonts, limit, y, h, text, &mut pen);
        let stop = seg.stop;
        let ghost run = run_view(seg.run);
        match seg.run {
            Some(run) => {
                runs.push(run);
            },
            None => {},
        }
        proof {
            assert(runs_view(runs@) =~= runs_with(prev.runs, run));
            lemma_seg_progress(prev.chain, limit, text@, prev.pen, None);
            now = stepped(limit, y, h, text@, prev);
        }
        match stop {
            Stop::End => {
                proof {
                    assert(given + Seq::<Option<Fnt>>::empty() =~= given);
                }
                done = true;
            },
            Stop::Switch(_) => {},
            Stop::Miss(c) => {
                if !drw.fonts[0].pattern {
                    proof {
                        let nothing = Seq::<Option<Fnt>>::empty();
                        assert(given + nothing =~= given);
                        assert(text@.skip(0) =~= text@);
                        assert(lay(limit, y, h, text@, prev, nothing).stuck);
                        assert(lay(limit, y, h, text@, first, given + nothing) == lay(
                            limit,
                            y,
                            h,
                            text@,
                            prev,
                            nothing,
                        ));
                        lemma_lay_keeps(limit, y, h, text@, first, given);
                        lemma_stuck_iff(limit, y, h, text@, first, given);
                        assert(laid_out(
                            old(drw)@,
                            x,
                            y,
                            w,
                            h,
                            lpad,
                            text@,
                            invert,
                            render,
                            matcher,
                            given,
                            drw@.fonts,
                            Err::<TextLayout, TextError>(TextError::NoTemplate),
                        ));
                    }
                    return Err(TextError::NoTemplate);
                }
                let found = matcher(c);
                let ghost answer = found;
                let back = drw_text_fallback(&mut drw.fonts, &mut pen, c, found);
                match back {
                    Some(font) => {
                        rejected.push(font);
                    },
                    None => {},
                }
                proof {
                    lemma_seg_progress(prev.chain, limit, text@, prev.pen, font_view(answer));
                    assert(chain_view(rejected@) =~= rejected_with(
                        prev.rejected,
                        c,
                        font_view(answer),
                    ));
                    now = answered(limit, y, h, text@, prev, c, font_view(answer));
                    assert forall|rest: Seq<Option<Fnt>>|
                        #[trigger] lay(limit, y, h, text@, first, given.push(answer) + rest)
                            == lay(limit, y, h, text@, now, rest) by {
                        assert(given + (seq![answer] + rest) =~= given.push(answer) + rest);
                        lemma_lay_answered(limit, y, h, text@, prev, c, answer, rest);
                    }
                    given = given.push(answer);
                    assert(drw.fonts@.take(old(drw).fonts@.len() as int) =~= old(drw).fonts@);
                }
            },
        }
    }
    let end = if render {
        pen.x + pen.w as i64
    } else {
        pen.x
    };
    let t = TextLayout { end, fill, ink, runs, rejected };
    proof {
        assert(text@.skip(0) =~= text@);
        lemma_stuck_iff(limit, y, h, text@, first, given);
        lemma_lay_keeps(limit, y, h, text@, first, given);
        lemma_runs_side_by_side(limit, y, h, text@, first, given, first.pen.x);
        assert forall|i: int| 0 <= i < t.runs@.len() implies (#[trigger] t.runs@[i]).font
            < drw.fonts@.len() by {
            assert(runs_view(t.runs@)[i] == t.runs@[i]@);
        }
        assert(laid_out(
            old(drw)@,
            x,
            y,
            w,
            h,
            lpad,
            text@,
            invert,
            render,
            matcher,
            given,
            drw@.fonts,
            Ok::<TextLayout, TextError>(t),
        ));
    }
    Ok(t)
}

/// Whether `r` is the width of `text` that `full`, a layout that measures
/// without a limit on the width, comes to.
pub open spec fn width_of(r: Result<u32, TextError>, full: Result<TextLayout, TextError>) -> bool {
    match full {
        Ok(t) => r == Ok::<u32, TextError>(t.end as u32) && 0 <= t.end <= u32::MAX,
        Err(e) => r == Err::<u32, TextError>(e),
    }
}

/// Measures `text` in the font chain of the canvas: lays it out from
/// position zero with all the width there is, and returns where the pen
/// ends. Without a font chain or a text the width is zero.
pub fn drw_fontset_getwidth<F: Fn(u32) -> Option<Fnt>>(drw: &mut Drw, text: &[u8], matcher: F) -> (r:
    Result<u32, TextError>)
    requires
        forall|c: u32| call_requires(matcher, (c,)),
    ensures
        final(drw)@ == (DrwModel { fonts: final(drw)@.fonts, ..old(drw)@ }),
        old(drw).fonts@.len() <= final(drw).fonts@.len(),
        final(drw).fonts@.take(old(drw).fonts@.len() as int) == old(drw).fonts@,
        r is Err <==> text_fails(old(drw)@, text@, false),
        r is Err ==> r == Err::<u32, TextError>(TextError::NoTemplate) && final(drw).fonts@ == old(
            drw,
        ).fonts@,
        !text_ready(old(drw)@, text@, false) ==> final(drw).fonts@ == old(drw).fonts@ && r == Ok::<
            u32,
            TextError,
        >(0),
        text_ready(old(drw)@, text@, false) ==> exists|
            answers: Seq<Option<Fnt>>,
            full: Result<TextLayout, TextError>,
        |
            #[trigger] laid_out(
                old(drw)@,
                0,
                0,
                u32::MAX,
                0,
                0,
                text@,
                false,
                false,
                matcher,
                answers,
                final(drw)@.fonts,
                full,
            ) && width_of(r, full),
{
    let full = drw_text(drw, 0, 0, u32::MAX, 0, 0, text, false, false, matcher);
    match full {
        Ok(t) => Ok(t.end as u32),
        Err(e) => Err(e),
    }
}

} // verus!
