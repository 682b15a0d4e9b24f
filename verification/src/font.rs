//! Font records: the metrics and the glyph table of one loaded face.
//!
//! A record holds as plain values what text layout asks of a font: the line
//! height, the ascent, which codepoints the face has a glyph for, and how
//! far each glyph advances the pen. Loading the face and reading these
//! values out of it is the host's work.

use crate::utf8::{head, lemma_head_bounds, utf8next};
use std::collections::HashMap;
use vstd::prelude::*;
use vstd::slice::slice_subrange;

verus! {

broadcast use vstd::std_specs::hash::group_hash_axioms;

/// One entry of a face's glyph table.
#[derive(Clone, Copy, Debug)]
pub struct Glyph {
    /// The codepoint that the glyph renders.
    pub codepoint: u32,
    /// How far the glyph moves the pen to the right.
    pub advance: u32,
}

/// What the host reads out of a face that it has opened.
#[derive(Clone, Debug)]
pub struct Face {
    /// The host's handle of the open face.
    pub xfont: u64,
    /// Height above the baseline.
    pub ascent: i32,
    /// Depth below the baseline.
    pub descent: i32,
    /// Whether the face holds colour glyphs.
    pub color: bool,
    /// Advance of the box drawn for a codepoint without a glyph.
    pub notdef: u32,
    /// The glyphs of the face. Of two entries for one codepoint the later
    /// one counts.
    pub glyphs: Vec<Glyph>,
}

/// How a face was asked for.
#[derive(Clone, Copy, Debug, PartialEq, Eq, Structural)]
pub enum FontSource {
    /// By a font name; the name is also parsed into a template pattern.
    Name,
    /// By a pattern that font matching has resolved.
    Pattern,
}

/// A font record as layout sees it.
pub struct FontModel {
    /// The host's handle of the open face.
    pub xfont: u64,
    /// Line height: ascent plus descent.
    pub h: u32,
    /// Height above the baseline.
    pub ascent: i32,
    /// Whether the record owns a template pattern for font matching.
    pub pattern: bool,
    /// Advance of the box drawn for a codepoint without a glyph.
    pub notdef: u32,
    /// Advance of each codepoint that the face has a glyph for.
    pub glyphs: Map<u32, u32>,
}

impl FontModel {
    /// Whether the face has a glyph for `c`.
    pub open spec fn covers(self, c: u32) -> bool {
        self.glyphs.contains_key(c)
    }

    /// How far drawing `c` with this font moves the pen.
    pub open spec fn advance(self, c: u32) -> nat {
        if self.covers(c) {
            self.glyphs[c] as nat
        } else {
            self.notdef as nat
        }
    }
}

/// One loaded font.
#[derive(Clone, Debug)]
pub struct Fnt {
    /// The host's handle of the open face.
    pub xfont: u64,
    /// Line height: ascent plus descent.
    pub h: u32,
    /// Height above the baseline.
    pub ascent: i32,
    /// Whether the record owns a template pattern for font matching.
    pub pattern: bool,
    /// Advance of the box drawn for a codepoint without a glyph.
    pub notdef: u32,
    /// Advance of each codepoint that the face has a glyph for.
    pub glyphs: HashMap<u32, u32>,
}

impl View for Fnt {
    type V = FontModel;

    open spec fn view(&self) -> FontModel {
        FontModel {
            xfont: self.xfont,
            h: self.h,
            ascent: self.ascent,
            pattern: self.pattern,
            notdef: self.notdef,
            glyphs: self.glyphs@,
        }
    }
}

/// The line height of a face: ascent plus descent as an unsigned 32-bit
/// number, a negative sum counted from the top of the range.
pub open spec fn line_height(ascent: i32, descent: i32) -> u32 {
    if ascent + descent >= 0 {
        (ascent + descent) as u32
    } else {
        (ascent + descent + 0x1_0000_0000) as u32
    }
}

/// The glyph table that a list of glyphs stands for.
pub open spec fn glyph_table(glyphs: Seq<Glyph>) -> Map<u32, u32>
    decreases glyphs.len(),
{
    if glyphs.len() == 0 {
        Map::empty()
    } else {
        glyph_table(glyphs.drop_last()).insert(glyphs.last().codepoint, glyphs.last().advance)
    }
}

/// The width of a text set in one font: the advances of its codepoints,
/// added up.
pub open spec fn text_width(font: FontModel, s: Seq<u8>) -> nat
    decreases s.len(),
{
    if s.len() == 0 {
        0
    } else {
        proof {
            lemma_head_bounds(s);
        }
        font.advance(head(s).0) + text_width(font, s.skip(head(s).1))
    }
}

impl Fnt {
    /// Whether the font has a glyph for `codepoint`.
    pub fn has_glyph(&self, codepoint: u32) -> (r: bool)
        ensures
            r == self@.covers(codepoint),
    {
        self.glyphs.contains_key(&codepoint)
    }

    /// How far drawing `codepoint` with this font moves the pen.
    pub fn advance(&self, codepoint: u32) -> (r: u32)
        ensures
            r == self@.advance(codepoint),
    {
        match self.glyphs.get(&codepoint) {
            Some(a) => *a,
            None => self.notdef,
        }
    }

    /// The line height of the font.
    pub fn height(&self) -> (r: u32)
        ensures
            r == self@.h,
    {
        self.h
    }

    /// The width of `text` in this font.
    pub fn width(&self, text: &[u8]) -> (w: u64)
        requires
            text.len() <= u32::MAX,
        ensures
            w == text_width(self@, text@),
    {
        let mut pos: usize = 0;
        let mut acc: u64 = 0;
        assert(text@.skip(0) =~= text@);
        while pos < text.len()
            invariant
                pos <= text.len() <= u32::MAX,
                acc <= pos * 0xFFFF_FFFF,
                acc + text_width(self@, text@.skip(pos as int)) == text_width(self@, text@),
            decreases text.len() - pos,
        {
            let (c, n) = utf8next(text, pos);
            assert(text@.skip(pos as int).skip(n as int) =~= text@.skip(pos + n));
            acc = acc + self.advance(c) as u64;
            pos = pos + n;
        }
        acc
    }

    /// Measures `text`: the advance width and the line height. There is no
    /// measurement of an empty text.
    pub fn get_extents(&self, text: &[u8]) -> (r: Option<(u64, u32)>)
        requires
            text.len() <= u32::MAX,
        ensures
            text@.len() == 0 ==> r is None,
            text@.len() > 0 ==> (r matches Some(m) && m.0 == text_width(self@, text@) && m.1
                == self@.h),
    {
        if text.len() == 0 {
            return None;
        }
        Some((self.width(text), self.h))
    }
}

/// Measures the first `len` bytes of `text` in `font` and stores the advance
/// width in `w` and the line height in `h`. Both are left as they are where
/// there is nothing to measure.
pub fn drw_font_getexts(font: &Fnt, text: &[u8], len: u32, w: &mut u64, h: &mut u32)
    requires
        len <= text.len(),
    ensures
        len == 0 ==> *final(w) == *old(w) && *final(h) == *old(h),
        len > 0 ==> *final(w) == text_width(font@, text@.take(len as int)) && *final(h) == font@.h,
{
    let part = slice_subrange(text, 0, len as usize);
    assert(part@ =~= text@.take(len as int));
    if let Some((ww, hh)) = font.get_extents(part) {
        *w = ww;
        *h = hh;
    }
}

/// Which way a face is to be opened: by name where there is a name, else by
/// pattern. That neither is there is a mistake of the caller.
pub fn xfont_source(name: bool, pattern: bool) -> (r: Option<FontSource>)
    ensures
        r == (if name {
            Some(FontSource::Name)
        } else if pattern {
            Some(FontSource::Pattern)
        } else {
            None
        }),
{
    if name {
        Some(FontSource::Name)
    } else if pattern {
        Some(FontSource::Pattern)
    } else {
        None
    }
}

/// Makes the font record of an open face. A face with colour glyphs is
/// refused. Only a font opened by name owns a template pattern.
pub fn xfont_create(source: FontSource, face: &Face) -> (r: Option<Fnt>)
    ensures
        face.color ==> r is None,
        !face.color ==> r is Some && r->0@ == (FontModel {
            xfont: face.xfont,
            h: line_height(face.ascent, face.descent),
            ascent: face.ascent,
            pattern: source == FontSource::Name,
            notdef: face.notdef,
            glyphs: glyph_table(face.glyphs@),
        }),
{
    if face.color {
        return None;
    }
    let sum: i64 = face.ascent as i64 + face.descent as i64;
    let h: u32 = if sum >= 0 {
        sum as u32
    } else {
        (sum + 0x1_0000_0000) as u32
    };
    let mut glyphs: HashMap<u32, u32> = HashMap::new();
    let mut i: usize = 0;
    while i < face.glyphs.len()
        invariant
            i <= face.glyphs.len(),
            glyphs@ == glyph_table(face.glyphs@.take(i as int)),
        decreases face.glyphs.len() - i,
    {
        let g = face.glyphs[i];
        glyphs.insert(g.codepoint, g.advance);
        assert(face.glyphs@.take(i + 1).drop_last() =~= face.glyphs@.take(i as int));
        i = i + 1;
    }
    assert(face.glyphs@.take(i as int) =~= face.glyphs@);
    Some(
        Fnt {
            xfont: face.xfont,
            h,
            ascent: face.ascent,
            pattern: source == FontSource::Name,
            notdef: face.notdef,
            glyphs,
        },
    )
}

} // verus!
