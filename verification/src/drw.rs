//! The canvas: its logical size, its colour scheme and its font chain.
//!
//! The surface itself belongs to the host. The functions here decide what
//! is to be painted and hand it back as plain values.

use crate::font::{Fnt, FontModel};
use crate::run::RUN_LIMIT;
use vstd::prelude::*;

verus! {

/// One allocated colour.
#[derive(Clone, Copy, Debug, PartialEq, Eq, Structural)]
pub struct Clr {
    /// The pixel value on the surface.
    pub pixel: u64,
    pub red: u16,
    pub green: u16,
    pub blue: u16,
    pub alpha: u16,
}

/// A colour scheme: three colours, each with its use.
#[derive(Clone, Copy, Debug, PartialEq, Eq, Structural)]
pub struct Scheme {
    pub fg: Clr,
    pub bg: Clr,
    pub border: Clr,
}

/// A rectangle to paint.
#[derive(Clone, Copy, Debug, PartialEq, Eq, Structural)]
pub struct Rect {
    pub x: i32,
    pub y: i32,
    pub w: u32,
    pub h: u32,
    /// Whether the box is filled; else its outline is stroked.
    pub filled: bool,
    pub color: Clr,
}

/// The models of the fonts of a chain, in the chain's order.
pub open spec fn chain_view(fonts: Seq<Fnt>) -> Seq<FontModel> {
    Seq::new(fonts.len(), |i: int| fonts[i]@)
}

/// A canvas as layout sees it.
pub struct DrwModel {
    pub w: u32,
    pub h: u32,
    pub limit: u32,
    pub scheme: Option<Scheme>,
    pub fonts: Seq<FontModel>,
}

/// The canvas.
pub struct Drw {
    /// Logical width of the surface.
    pub w: u32,
    /// Logical height of the surface.
    pub h: u32,
    /// The greatest number of bytes of one run that are measured and drawn.
    /// A longer run is cut to this length before it is measured.
    pub limit: u32,
    /// The colour scheme in use, if one was set.
    pub scheme: Option<Scheme>,
    /// The font chain, the primary font first. Fonts are only ever added
    /// at its end.
    pub fonts: Vec<Fnt>,
}

impl View for Drw {
    type V = DrwModel;

    open spec fn view(&self) -> DrwModel {
        DrwModel {
            w: self.w,
            h: self.h,
            limit: self.limit,
            scheme: self.scheme,
            fonts: chain_view(self.fonts@),
        }
    }
}

/// One less than `n`, and the greatest value where `n` is zero.
pub open spec fn one_less(n: u32) -> u32 {
    if n == 0 {
        u32::MAX
    } else {
        (n - 1) as u32
    }
}

/// The rectangle that a request to paint a box stands for. A filled box
/// covers the whole of `w` by `h`; an outline is drawn one pixel less wide
/// and one less high, so that its right and bottom strokes stay inside the
/// box. The colour is the foreground, or the background where `invert` is
/// set.
pub open spec fn rect_of(
    scheme: Scheme,
    x: i32,
    y: i32,
    w: u32,
    h: u32,
    filled: bool,
    invert: bool,
) -> Rect {
    Rect {
        x,
        y,
        w: if filled {
            w
        } else {
            one_less(w)
        },
        h: if filled {
            h
        } else {
            one_less(h)
        },
        filled,
        color: if invert {
            scheme.bg
        } else {
            scheme.fg
        },
    }
}

impl Drw {
    /// A canvas of the given size, without fonts and without a scheme.
    pub fn create(w: u32, h: u32) -> (drw: Drw)
        ensures
            drw@ == (DrwModel { w, h, limit: RUN_LIMIT, scheme: None, fonts: Seq::empty() }),
    {
        let drw = Drw { w, h, limit: RUN_LIMIT, scheme: None, fonts: Vec::new() };
        assert(chain_view(drw.fonts@) =~= Seq::empty());
        drw
    }

    /// What painting a box in the colours of the scheme comes to.
    pub fn rect(&self, x: i32, y: i32, w: u32, h: u32, filled: bool, invert: bool) -> (r: Rect)
        requires
            self.scheme is Some,
        ensures
            r == rect_of(self.scheme->0, x, y, w, h, filled, invert),
    {
        let scheme = self.scheme.unwrap();
        let color = if invert {
            scheme.bg
        } else {
            scheme.fg
        };
        if filled {
            Rect { x, y, w, h, filled, color }
        } else {
            Rect { x, y, w: w.wrapping_sub(1), h: h.wrapping_sub(1), filled, color }
        }
    }
}

/// Gives the canvas a new logical size. Fonts and scheme stay.
pub fn drw_resize(drw: &mut Drw, w: u32, h: u32)
    ensures
        final(drw)@ == (DrwModel { w, h, ..old(drw)@ }),
        final(drw).fonts == old(drw).fonts,
{
    drw.w = w;
    drw.h = h;
}

/// What painting a box on the canvas comes to: nothing where no scheme is
/// set.
pub fn drw_rect(drw: &Drw, x: i32, y: i32, w: u32, h: u32, filled: bool, invert: bool) -> (r:
    Option<Rect>)
    ensures
        r == (match drw.scheme {
            Some(scheme) => Some(rect_of(scheme, x, y, w, h, filled, invert)),
            None => None,
        }),
{
    if drw.scheme.is_none() {
        return None;
    }
    Some(drw.rect(x, y, w, h, filled, invert))
}

/// Sets or clears the colour scheme of the canvas.
pub fn drw_setscheme(drw: &mut Drw, scm: Option<Scheme>)
    ensures
        final(drw)@ == (DrwModel { scheme: scm, ..old(drw)@ }),
        final(drw).fonts == old(drw).fonts,
{
    drw.scheme = scm;
}

} // verus!
