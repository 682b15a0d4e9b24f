//! One step of text layout: the pen, the run at the pen, and what finding
//! a fallback font does to pen and chain.

use crate::drw::chain_view;
use crate::font::{text_width, Fnt, FontModel};
use crate::fontset::{first_cover, lemma_first_cover, lemma_first_cover_push};
use crate::run::{
    elide, elided, fit_len, fit_run, lemma_fit_len, lemma_run_len_bounds, run_len, scan_run,
    stop_before, takes, Halt, Stop, ELLIPSIS,
};
use crate::utf8::head;
use vstd::prelude::*;
use vstd::slice::slice_subrange;

verus! {

/// Where layout stands in a text.
#[derive(Clone, Copy, Debug, PartialEq, Eq, Structural)]
pub struct Pen {
    /// The number of bytes of the text that lie behind the pen.
    pub pos: usize,
    /// The index of the font in use.
    pub used: usize,
    /// Whether the next codepoint goes to the font in use though the font
    /// has no glyph for it.
    pub forced: bool,
    /// The horizontal position of the pen.
    pub x: i64,
    /// The width that is left.
    pub w: u32,
}

/// A pen as contracts see it.
pub struct PenModel {
    pub pos: int,
    pub used: int,
    pub forced: bool,
    pub x: int,
    pub w: int,
}

impl View for Pen {
    type V = PenModel;

    open spec fn view(&self) -> PenModel {
        PenModel {
            pos: self.pos as int,
            used: self.used as int,
            forced: self.forced,
            x: self.x as int,
            w: self.w as int,
        }
    }
}

/// A run to draw: text for one font at one place.
#[derive(Clone, Debug)]
pub struct TextRun {
    /// The index in the chain of the font to draw with.
    pub font: usize,
    /// Where the run begins.
    pub x: i64,
    /// The baseline of the run.
    pub y: i64,
    /// How far the run moves the pen.
    pub width: u32,
    /// The bytes to draw.
    pub text: Vec<u8>,
}

/// A run as contracts see it.
pub struct RunModel {
    pub font: int,
    pub x: int,
    pub y: int,
    pub width: int,
    pub text: Seq<u8>,
}

impl View for TextRun {
    type V = RunModel;

    open spec fn view(&self) -> RunModel {
        RunModel {
            font: self.font as int,
            x: self.x as int,
            y: self.y as int,
            width: self.width as int,
            text: self.text@,
        }
    }
}

/// What one step of layout yields.
#[derive(Debug)]
pub struct Segment {
    /// The run to draw, if anything of it is left to draw.
    pub run: Option<TextRun>,
    /// Why the run ended.
    pub stop: Stop,
}

/// The model of a run that may be missing.
pub open spec fn run_view(run: Option<TextRun>) -> Option<RunModel> {
    match run {
        Some(r) => Some(r@),
        None => None,
    }
}

/// Half of what a box is higher than a line of text, rounded towards zero;
/// negative where the line is higher than the box.
pub open spec fn half_gap(h: u32, line: u32) -> int {
    if h >= line {
        (h - line) / 2
    } else {
        -((line - h) / 2)
    }
}

/// The baseline of a line of text centred in a box that begins at `y` and
/// is `h` high.
pub open spec fn baseline(y: i32, h: u32, font: FontModel) -> int {
    y + half_gap(h, font.h) + font.ascent
}

/// Where the run that begins at the pen ends.
pub open spec fn seg_end(chain: Seq<FontModel>, text: Seq<u8>, pen: PenModel) -> int {
    pen.pos + run_len(chain, text.skip(pen.pos), pen.used, pen.forced)
}

/// The bytes of the run at the pen that are measured: the whole run, or as
/// much of it as the limit allows.
pub open spec fn seg_text(chain: Seq<FontModel>, limit: u32, text: Seq<u8>, pen: PenModel) -> Seq<
    u8,
> {
    let full = seg_end(chain, text, pen) - pen.pos;
    text.subrange(
        pen.pos,
        pen.pos + (if full > limit {
            limit as int
        } else {
            full
        }),
    )
}

/// How many bytes of the run at the pen fit into the width that is left.
pub open spec fn seg_keep(chain: Seq<FontModel>, limit: u32, text: Seq<u8>, pen: PenModel) -> int {
    fit_len(chain[pen.used], seg_text(chain, limit, text, pen), pen.w)
}

/// The width of what is kept of the run at the pen.
pub open spec fn seg_width(chain: Seq<FontModel>, limit: u32, text: Seq<u8>, pen: PenModel) -> int {
    text_width(
        chain[pen.used],
        seg_text(chain, limit, text, pen).take(seg_keep(chain, limit, text, pen)),
    ) as int
}

/// The run that a step of layout draws: what fits of the run at the pen,
/// with the ellipsis where less than the whole run is kept. Nothing is
/// drawn where nothing fits.
pub open spec fn seg_run(
    chain: Seq<FontModel>,
    limit: u32,
    y: i32,
    h: u32,
    text: Seq<u8>,
    pen: PenModel,
) -> Option<RunModel> {
    let keep = seg_keep(chain, limit, text, pen);
    if keep > 0 {
        Some(
            RunModel {
                font: pen.used,
                x: pen.x,
                y: baseline(y, h, chain[pen.used]),
                width: seg_width(chain, limit, text, pen),
                text: elided(
                    seg_text(chain, limit, text, pen).take(keep),
                    keep < seg_end(chain, text, pen) - pen.pos,
                ),
            },
        )
    } else {
        None
    }
}

/// Why the run at the pen ends.
pub open spec fn seg_stop(chain: Seq<FontModel>, text: Seq<u8>, pen: PenModel) -> Halt {
    stop_before(chain, text.skip(seg_end(chain, text, pen)))
}

/// The pen after a step of layout: behind the run, moved by the width of
/// what was kept of it, and on the font that the next codepoint belongs to
/// where the chain has one.
pub open spec fn seg_pen(chain: Seq<FontModel>, limit: u32, text: Seq<u8>, pen: PenModel) -> PenModel {
    PenModel {
        pos: seg_end(chain, text, pen),
        used: match seg_stop(chain, text, pen) {
            Halt::Switch(j) => j,
            _ => pen.used,
        },
        forced: false,
        x: pen.x + seg_width(chain, limit, text, pen),
        w: pen.w - seg_width(chain, limit, text, pen),
    }
}

/// Whether a pen can go on in a text with a chain: it stands within the
/// text, its font is one of the chain, and moving it by the width that is
/// left stays within the range of positions.
pub open spec fn pen_fits(chain: Seq<FontModel>, text: Seq<u8>, pen: PenModel) -> bool {
    &&& 0 <= pen.pos <= text.len()
    &&& 0 <= pen.used < chain.len()
    &&& 0 <= pen.w <= u32::MAX
    &&& i64::MIN <= pen.x
    &&& pen.x + pen.w <= i64::MAX
}

/// One step of layout: scans the run at the pen, cuts it to the width that
/// is left, and moves the pen behind it.
pub fn drw_text_segment(
    fonts: &Vec<Fnt>,
    limit: u32,
    y: i32,
    h: u32,
    text: &[u8],
    pen: &mut Pen,
) -> (seg: Segment)
    requires
        pen_fits(chain_view(fonts@), text@, old(pen)@),
    ensures
        final(pen)@ == seg_pen(chain_view(fonts@), limit, text@, old(pen)@),
        seg.stop@ == seg_stop(chain_view(fonts@), text@, old(pen)@),
        run_view(seg.run) == seg_run(chain_view(fonts@), limit, y, h, text@, old(pen)@),
        pen_fits(chain_view(fonts@), text@, final(pen)@),
{
    let ghost chain = chain_view(fonts@);
    let ghost before = pen@;
    let (end, stop) = scan_run(fonts, text, pen.pos, pen.used, pen.forced);
    let full = end - pen.pos;
    let take = if full > limit as usize {
        limit as usize
    } else {
        full
    };
    let bytes = slice_subrange(text, pen.pos, pen.pos + take);
    let font = &fonts[pen.used];
    assert(font@ == chain[pen.used as int]);
    assert(bytes@ == seg_text(chain, limit, text@, before));
    let (keep, ew) = fit_run(font, bytes, pen.w);
    let mut run: Option<TextRun> = None;
    if keep > 0 {
        let out = elide(bytes, keep, keep < full);
        let half: i64 = if h >= font.h {
            ((h - font.h) / 2) as i64
        } else {
            -(((font.h - h) / 2) as i64)
        };
        let ty: i64 = y as i64 + half + font.ascent as i64;
        run = Some(TextRun { font: pen.used, x: pen.x, y: ty, width: ew, text: out });
    }
    pen.x = pen.x + ew as i64;
    pen.w = pen.w - ew;
    pen.pos = end;
    pen.forced = false;
    if let Stop::Switch(j) = stop {
        pen.used = j;
    }
    Segment { run, stop }
}

/// Whether a font that was found for a codepoint is taken into the chain:
/// there is one, and it has the glyph.
pub open spec fn fallback_taken(found: Option<FontModel>, codepoint: u32) -> bool {
    found matches Some(f) && f.covers(codepoint)
}

/// The chain after a fallback font was asked for: longer by the font that
/// was found where it is taken, else as before.
pub open spec fn chain_after(chain: Seq<FontModel>, codepoint: u32, found: Option<FontModel>) -> Seq<
    FontModel,
> {
    if fallback_taken(found, codepoint) {
        chain.push(found->0)
    } else {
        chain
    }
}

/// The pen after a fallback font was asked for: on the new font where it
/// is taken; else on the primary font, which then draws the codepoint as a
/// missing glyph.
pub open spec fn pen_after(
    chain: Seq<FontModel>,
    pen: PenModel,
    codepoint: u32,
    found: Option<FontModel>,
) -> PenModel {
    if fallback_taken(found, codepoint) {
        PenModel { used: chain.len() as int, forced: false, ..pen }
    } else {
        PenModel { used: 0, forced: true, ..pen }
    }
}

/// The model of a font that may be missing.
pub open spec fn font_view(font: Option<Fnt>) -> Option<FontModel> {
    match font {
        Some(f) => Some(f@),
        None => None,
    }
}

/// Takes what font matching found for `codepoint`. A font that has the
/// glyph goes to the end of the chain and becomes the font in use. Else
/// the chain stays as it is, the primary font becomes the font in use and
/// takes the codepoint as it is; a font that was found and is not taken is
/// handed back.
pub fn drw_text_fallback(
    fonts: &mut Vec<Fnt>,
    pen: &mut Pen,
    codepoint: u32,
    found: Option<Fnt>,
) -> (rejected: Option<Fnt>)
    ensures
        chain_view(final(fonts)@) == chain_after(
            chain_view(old(fonts)@),
            codepoint,
            font_view(found),
        ),
        final(pen)@ == pen_after(chain_view(old(fonts)@), old(pen)@, codepoint, font_view(found)),
        fallback_taken(font_view(found), codepoint) ==> rejected is None && final(fonts)@ == old(
            fonts,
        )@.push(found->0),
        !fallback_taken(font_view(found), codepoint) ==> rejected == found && final(fonts)@ == old(
            fonts,
        )@,
{
    match found {
        Some(font) => {
            if font.has_glyph(codepoint) {
                pen.used = fonts.len();
                pen.forced = false;
                fonts.push(font);
                assert(chain_view(fonts@) =~= chain_view(old(fonts)@).push(font@));
                None
            } else {
                pen.used = 0;
                pen.forced = true;
                Some(font)
            }
        },
        None => {
            pen.used = 0;
            pen.forced = true;
            None
        },
    }
}

/// What is still to do for a pen: twice the bytes in front of it, and one
/// more where the font in use does not take the next codepoint. Every step
/// of layout that does not reach the end of the text makes it less.
pub open spec fn debt(chain: Seq<FontModel>, text: Seq<u8>, pen: PenModel) -> int {
    2 * (text.len() - pen.pos) + (if pen.pos < text.len() && !takes(
        chain,
        pen.used,
        pen.forced,
        head(text.skip(pen.pos)).0,
    ) {
        1int
    } else {
        0int
    })
}

/// A step of layout leaves a pen that can go on, keeps the sum of position
/// and width that is left, and comes nearer to the end of the text: also
/// where a fallback font is asked for behind it, whatever is found.
pub proof fn lemma_seg_progress(
    chain: Seq<FontModel>,
    limit: u32,
    text: Seq<u8>,
    pen: PenModel,
    found: Option<FontModel>,
)
    requires
        pen_fits(chain, text, pen),
    ensures
        pen_fits(chain, text, seg_pen(chain, limit, text, pen)),
        0 <= seg_width(chain, limit, text, pen) <= pen.w,
        pen.pos <= seg_end(chain, text, pen) <= text.len(),
        seg_stop(chain, text, pen) is End <==> seg_end(chain, text, pen) == text.len(),
        seg_stop(chain, text, pen) is Switch ==> debt(
            chain,
            text,
            seg_pen(chain, limit, text, pen),
        ) < debt(chain, text, pen),
        seg_stop(chain, text, pen) matches Halt::Miss(c) ==> first_cover(chain, c) is None && debt(
            chain_after(chain, c, found),
            text,
            pen_after(chain, seg_pen(chain, limit, text, pen), c, found),
        ) < debt(chain, text, pen) && pen_fits(
            chain_after(chain, c, found),
            text,
            pen_after(chain, seg_pen(chain, limit, text, pen), c, found),
        ),
{
    let rest = text.skip(pen.pos);
    let e = seg_end(chain, text, pen);
    lemma_run_len_bounds(chain, rest, pen.used, pen.forced);
    lemma_fit_len(chain[pen.used], seg_text(chain, limit, text, pen), pen.w);
    let behind = text.skip(e);
    if behind.len() > 0 {
        let c = head(behind).0;
        lemma_first_cover(chain, c);
        match first_cover(chain, c) {
            Some(j) => {},
            None => {
                match found {
                    Some(f) => {
                        lemma_first_cover_push(chain, f, c);
                    },
                    None => {},
                }
            },
        }
    }
}

/// The models of runs.
pub open spec fn runs_view(runs: Seq<TextRun>) -> Seq<RunModel> {
    Seq::new(runs.len(), |i: int| runs[i]@)
}

/// The truncation law of a step of layout, where `full` is the whole run
/// at the pen and `font` the font in use.
///
/// No more is kept than is measured, and no more is measured than the
/// limit allows. What is kept is no wider than the width that is left.
/// Where what is measured is wider than that, less than all of it is kept.
/// Where less than the whole run is kept and at least three bytes are
/// kept, the run that is drawn ends in the ellipsis and agrees with the
/// text before it; where fewer are kept, it is a prefix of the run. Where
/// the whole run is within the limit and no wider than the width that is
/// left, it is drawn as it is.
pub proof fn lemma_seg_truncation(
    chain: Seq<FontModel>,
    limit: u32,
    y: i32,
    h: u32,
    text: Seq<u8>,
    pen: PenModel,
)
    requires
        pen_fits(chain, text, pen),
    ensures
        ({
            let font = chain[pen.used];
            let full = text.subrange(pen.pos, seg_end(chain, text, pen));
            let measured = seg_text(chain, limit, text, pen);
            let keep = seg_keep(chain, limit, text, pen);
            let drawn = seg_run(chain, limit, y, h, text, pen);
            &&& 0 <= keep <= measured.len() <= full.len()
            &&& measured.len() <= limit
            &&& measured == full.take(measured.len() as int)
            &&& seg_width(chain, limit, text, pen) <= pen.w
            &&& text_width(font, measured) > pen.w ==> keep < measured.len()
            &&& drawn is Some <==> keep > 0
            &&& drawn matches Some(run) ==> {
                &&& run.text.len() == keep
                &&& run.width == text_width(font, full.take(keep))
                &&& keep < full.len() && keep >= 3 ==> run.text.skip(keep - 3) == seq![
                    ELLIPSIS,
                    ELLIPSIS,
                    ELLIPSIS,
                ] && run.text.take(keep - 3) == full.take(keep - 3)
                &&& keep < full.len() && keep < 3 ==> run.text == full.take(keep)
                &&& keep == full.len() ==> run.text == full
            }
            &&& 0 < full.len() <= limit && text_width(font, full) <= pen.w ==> (drawn matches Some(
                run,
            ) && run.text == full && run.width == text_width(font, full))
        }),
{
    let font = chain[pen.used];
    let e = seg_end(chain, text, pen);
    let full = text.subrange(pen.pos, e);
    let measured = seg_text(chain, limit, text, pen);
    let keep = seg_keep(chain, limit, text, pen);
    lemma_run_len_bounds(chain, text.skip(pen.pos), pen.used, pen.forced);
    lemma_fit_len(font, measured, pen.w);
    assert(measured =~= full.take(measured.len() as int));
    assert(measured.take(keep) =~= full.take(keep));
    if keep > 0 {
        let kept = measured.take(keep);
        let run = seg_run(chain, limit, y, h, text, pen)->0;
        if keep < full.len() && keep >= 3 {
            assert(run.text.skip(keep - 3) =~= seq![ELLIPSIS, ELLIPSIS, ELLIPSIS]);
            assert(run.text.take(keep - 3) =~= full.take(keep - 3));
        }
        if keep == full.len() {
            assert(full.take(keep) =~= full);
        }
    }
    if full.len() <= limit {
        assert(measured =~= full);
    }
}

} // verus!
