//! The font chain: an ordered list of fonts, searched front to back.

use crate::drw::{chain_view, Drw, DrwModel};
use crate::font::{Fnt, FontModel};
use vstd::prelude::*;

verus! {

/// The first font at or behind index `from` that has a glyph for `c`.
pub open spec fn first_cover_from(chain: Seq<FontModel>, c: u32, from: int) -> Option<int>
    decreases chain.len() - from,
{
    if from < 0 || from >= chain.len() {
        None
    } else if chain[from].covers(c) {
        Some(from)
    } else {
        first_cover_from(chain, c, from + 1)
    }
}

/// The first font of the chain that has a glyph for `c`.
pub open spec fn first_cover(chain: Seq<FontModel>, c: u32) -> Option<int> {
    first_cover_from(chain, c, 0)
}

/// The fonts that loading has brought, in the order in which they were
/// asked for. A font that could not be loaded leaves no gap.
pub open spec fn loaded(results: Seq<Option<Fnt>>) -> Seq<Fnt>
    decreases results.len(),
{
    if results.len() == 0 {
        Seq::empty()
    } else {
        match results.last() {
            Some(f) => loaded(results.drop_last()).push(f),
            None => loaded(results.drop_last()),
        }
    }
}

proof fn lemma_first_cover_from(chain: Seq<FontModel>, c: u32, from: int)
    requires
        0 <= from,
    ensures
        match first_cover_from(chain, c, from) {
            Some(i) => from <= i < chain.len() && chain[i].covers(c) && forall|j: int|
                from <= j < i ==> !(#[trigger] chain[j]).covers(c),
            None => forall|j: int| from <= j < chain.len() ==> !(#[trigger] chain[j]).covers(c),
        },
    decreases chain.len() - from,
{
    if from < chain.len() && !chain[from].covers(c) {
        lemma_first_cover_from(chain, c, from + 1);
    }
}

/// The first covering font is a font of the chain that has the glyph, and
/// no font before it has; there is none only where no font has the glyph.
pub proof fn lemma_first_cover(chain: Seq<FontModel>, c: u32)
    ensures
        match first_cover(chain, c) {
            Some(i) => 0 <= i < chain.len() && chain[i].covers(c) && forall|j: int|
                0 <= j < i ==> !(#[trigger] chain[j]).covers(c),
            None => forall|j: int| 0 <= j < chain.len() ==> !(#[trigger] chain[j]).covers(c),
        },
{
    lemma_first_cover_from(chain, c, 0);
}

/// A font added at the end of the chain changes nothing for a codepoint
/// that the chain covers already; for any other codepoint it is the first
/// covering font exactly if it has the glyph.
pub proof fn lemma_first_cover_push(chain: Seq<FontModel>, font: FontModel, c: u32)
    ensures
        first_cover(chain.push(font), c) == (match first_cover(chain, c) {
            Some(i) => Some(i),
            None => if font.covers(c) {
                Some(chain.len() as int)
            } else {
                None
            },
        }),
{
    lemma_first_cover(chain, c);
    lemma_first_cover(chain.push(font), c);
    let longer = chain.push(font);
    assert(forall|j: int| 0 <= j < chain.len() ==> longer[j] == chain[j]);
    match first_cover(chain, c) {
        Some(i) => {
            assert(longer[i].covers(c));
            match first_cover(longer, c) {
                Some(k) => {
                    if k < i {
                        assert(!chain[k].covers(c));
                    }
                },
                None => {},
            }
        },
        None => {
            match first_cover(longer, c) {
                Some(k) => {
                    if k < chain.len() {
                        assert(!chain[k].covers(c));
                    }
                },
                None => {
                    assert(!longer[chain.len() as int].covers(c));
                },
            }
        },
    }
}

/// Searches the chain front to back for a font that has a glyph for
/// `codepoint`.
pub fn covering_font(fonts: &Vec<Fnt>, codepoint: u32) -> (r: Option<usize>)
    ensures
        match r {
            Some(i) => first_cover(chain_view(fonts@), codepoint) == Some(i as int),
            None => first_cover(chain_view(fonts@), codepoint) is None,
        },
{
    let ghost chain = chain_view(fonts@);
    let mut i: usize = 0;
    while i < fonts.len()
        invariant
            i <= fonts.len(),
            chain == chain_view(fonts@),
            first_cover(chain, codepoint) == first_cover_from(chain, codepoint, i as int),
        decreases fonts.len() - i,
    {
        if fonts[i].has_glyph(codepoint) {
            return Some(i);
        }
        i = i + 1;
    }
    None
}

/// Makes the loaded fonts the chain of the canvas, the first one asked for
/// first, and returns how many there are.
pub fn drw_fontset_create(drw: &mut Drw, fonts: Vec<Option<Fnt>>) -> (n: usize)
    ensures
        final(drw).fonts@ == loaded(fonts@),
        final(drw)@ == (DrwModel { fonts: chain_view(loaded(fonts@)), ..old(drw)@ }),
        n == loaded(fonts@).len(),
{
    let mut rest = fonts;
    let mut chain: Vec<Fnt> = Vec::new();
    while rest.len() > 0
        invariant
            rest@.len() <= fonts@.len(),
            rest@ == fonts@.take(rest@.len() as int),
            loaded(fonts@) == loaded(rest@) + chain@,
        decreases rest.len(),
    {
        let ghost before = rest@;
        let last = rest.pop();
        assert(rest@ == before.drop_last());
        match last {
            Some(Some(f)) => {
                chain.insert(0, f);
                assert(loaded(before) + chain@.skip(1) == (loaded(rest@) + seq![f]) + chain@.skip(
                    1,
                ));
                assert((loaded(rest@) + seq![f]) + chain@.skip(1) =~= loaded(rest@) + chain@);
            },
            _ => {},
        }
    }
    assert(loaded(rest@) =~= Seq::<Fnt>::empty());
    assert(loaded(fonts@) =~= chain@);
    let n = chain.len();
    drw.fonts = chain;
    n
}

} // verus!
