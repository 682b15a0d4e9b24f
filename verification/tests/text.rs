use rxl::drw::{drw_setscheme, Clr, Drw, Rect, Scheme};
use rxl::font::{xfont_create, Face, Fnt, FontSource, Glyph};
use rxl::fontset::drw_fontset_create;
use rxl::run::Stop;
use rxl::segment::{drw_text_fallback, drw_text_segment, Pen, TextRun};
use rxl::text::{drw_fontset_getwidth, drw_text, TextError};
use std::cell::{Cell, RefCell};

fn clr(pixel: u64) -> Clr {
    Clr { pixel, red: 0, green: 0, blue: 0, alpha: 0xFFFF }
}

fn scheme() -> Scheme {
    Scheme { fg: clr(1), bg: clr(2), border: clr(3) }
}

fn font(xfont: u64, named: bool, glyphs: &[(char, u32)]) -> Fnt {
    let face = Face {
        xfont,
        ascent: 10,
        descent: 4,
        color: false,
        notdef: 5,
        glyphs: glyphs.iter().map(|&(c, a)| Glyph { codepoint: c as u32, advance: a }).collect(),
    };
    let source = if named { FontSource::Name } else { FontSource::Pattern };
    xfont_create(source, &face).unwrap()
}

fn ascii(xfont: u64, advance: u32) -> Fnt {
    let glyphs: Vec<(char, u32)> = (0x20u8..0x7F).map(|b| (b as char, advance)).collect();
    font(xfont, true, &glyphs)
}

fn canvas(fonts: Vec<Fnt>) -> Drw {
    let mut drw = Drw::create(2000, 20);
    drw_setscheme(&mut drw, Some(scheme()));
    drw_fontset_create(&mut drw, fonts.into_iter().map(Some).collect());
    drw
}

fn no_font(_: u32) -> Option<Fnt> {
    None
}

fn texts(runs: &[TextRun]) -> Vec<(usize, i64, u32, Vec<u8>)> {
    runs.iter().map(|r| (r.font, r.x, r.width, r.text.clone())).collect()
}

#[test]
fn one_font_one_run() {
    let mut drw = canvas(vec![font(1, true, &[('H', 8), ('i', 3)])]);
    let calls = Cell::new(0u32);
    let t = drw_text(&mut drw, 0, 0, 1000, 0, 0, b"Hi", false, false, |_c: u32| {
        calls.set(calls.get() + 1);
        None
    })
    .unwrap();
    assert_eq!(calls.get(), 0);
    assert_eq!(t.end, 11);
    assert_eq!(texts(&t.runs), vec![(0, 0, 11, b"Hi".to_vec())]);
    assert_eq!(t.fill, None);
    assert_eq!(t.ink, None);
    assert!(t.rejected.is_empty());
    assert_eq!(drw.fonts.len(), 1);
}

#[test]
fn fallback_font_is_taken_into_the_chain() {
    let mut drw = canvas(vec![ascii(1, 8)]);
    let asked = RefCell::new(Vec::new());
    let t = drw_text(&mut drw, 0, 0, 1000, 20, 0, "H€".as_bytes(), false, true, |c: u32| {
        asked.borrow_mut().push(c);
        Some(font(2, false, &[('€', 12)]))
    })
    .unwrap();
    assert_eq!(*asked.borrow(), vec![0x20AC]);
    assert_eq!(drw.fonts.len(), 2);
    assert_eq!(drw.fonts[0].xfont, 1);
    assert_eq!(drw.fonts[1].xfont, 2);
    assert_eq!(
        texts(&t.runs),
        vec![(0, 0, 8, b"H".to_vec()), (1, 8, 12, "€".as_bytes().to_vec())]
    );
    assert_eq!(t.runs[0].y, 13);
    assert_eq!(t.runs[1].y, 13);
    assert_eq!(t.end, 1000);
    assert!(t.rejected.is_empty());
}

#[test]
fn cut_text_ends_in_the_ellipsis() {
    let mut drw = canvas(vec![ascii(1, 10)]);
    let t = drw_text(&mut drw, 0, 0, 55, 0, 0, b"ABCDEFGHIJ", false, false, no_font).unwrap();
    assert_eq!(texts(&t.runs), vec![(0, 0, 50, b"AB...".to_vec())]);
    assert_eq!(t.end, 50);
    assert!(t.end <= 55);
    let t = drw_text(&mut drw, 0, 0, 50, 0, 0, b"ABCDEFGHIJ", false, false, no_font).unwrap();
    assert_eq!(texts(&t.runs), vec![(0, 0, 50, b"AB...".to_vec())]);
    let t = drw_text(&mut drw, 0, 0, 59, 0, 0, b"ABCDEFGHIJ", false, false, no_font).unwrap();
    assert_eq!(texts(&t.runs), vec![(0, 0, 50, b"AB...".to_vec())]);
}

#[test]
fn text_that_fits_is_not_cut() {
    let mut drw = canvas(vec![ascii(1, 10)]);
    let t = drw_text(&mut drw, 0, 0, 100, 0, 0, b"ABCDEFGHIJ", false, false, no_font).unwrap();
    assert_eq!(texts(&t.runs), vec![(0, 0, 100, b"ABCDEFGHIJ".to_vec())]);
    assert_eq!(t.end, 100);
    let t = drw_text(&mut drw, 0, 0, 99, 0, 0, b"ABCDEFGHIJ", false, false, no_font).unwrap();
    assert_eq!(texts(&t.runs), vec![(0, 0, 90, b"ABCDEF...".to_vec())]);
    assert_eq!(t.end, 90);
}

#[test]
fn short_rest_of_a_cut_text_has_no_ellipsis() {
    let mut drw = canvas(vec![ascii(1, 10)]);
    let t = drw_text(&mut drw, 0, 0, 25, 0, 0, b"ABCDEFGHIJ", false, false, no_font).unwrap();
    assert_eq!(texts(&t.runs), vec![(0, 0, 20, b"AB".to_vec())]);
    let t = drw_text(&mut drw, 0, 0, 30, 0, 0, b"ABCDEFGHIJ", false, false, no_font).unwrap();
    assert_eq!(texts(&t.runs), vec![(0, 0, 30, b"...".to_vec())]);
    let t = drw_text(&mut drw, 0, 0, 9, 0, 0, b"ABCDEFGHIJ", false, false, no_font).unwrap();
    assert!(t.runs.is_empty());
    assert_eq!(t.end, 0);
}

#[test]
fn measuring_twice_gives_the_same_width() {
    let mut drw = canvas(vec![ascii(1, 7), font(2, false, &[('€', 12)])]);
    let text = "a€b x€€".as_bytes();
    let first = drw_text(&mut drw, 0, 0, 1000, 0, 0, text, false, false, no_font).unwrap();
    let second = drw_text(&mut drw, 0, 0, 1000, 0, 0, text, false, false, no_font).unwrap();
    assert_eq!(first.end, 7 * 4 + 12 * 3);
    assert_eq!(first.end, second.end);
    assert_eq!(texts(&first.runs), texts(&second.runs));
    assert_eq!(drw.fonts.len(), 2);
}

#[test]
fn measuring_twice_with_other_answers_that_are_not_taken() {
    let mut drw = canvas(vec![font(1, true, &[('a', 7)])]);
    let first = drw_text(&mut drw, 0, 0, 1000, 0, 0, b"axa", false, false, no_font).unwrap();
    let second = drw_text(&mut drw, 0, 0, 1000, 0, 0, b"axa", false, false, |_c: u32| {
        Some(font(9, false, &[('y', 1)]))
    })
    .unwrap();
    assert_eq!(drw.fonts.len(), 1);
    assert_eq!(first.end, 19);
    assert_eq!(second.end, 19);
    assert_eq!(texts(&first.runs), texts(&second.runs));
    assert!(first.rejected.is_empty());
    assert_eq!(second.rejected.len(), 1);
    assert_eq!(second.rejected[0].xfont, 9);
}

#[test]
fn a_fallback_font_is_asked_for_once() {
    let mut drw = canvas(vec![ascii(1, 8)]);
    let calls = Cell::new(0u32);
    let matcher = |_c: u32| {
        calls.set(calls.get() + 1);
        Some(font(2, false, &[('€', 12)]))
    };
    let t = drw_text(&mut drw, 0, 0, 1000, 0, 0, "H€".as_bytes(), false, false, &matcher).unwrap();
    assert_eq!(t.end, 20);
    assert_eq!(calls.get(), 1);
    let t = drw_text(&mut drw, 0, 0, 1000, 0, 0, "€€H€".as_bytes(), false, false, &matcher)
        .unwrap();
    assert_eq!(t.end, 44);
    assert_eq!(calls.get(), 1);
    assert_eq!(drw.fonts.len(), 2);
    let t = drw_text(&mut drw, 0, 0, 1000, 0, 0, "H€€".as_bytes(), false, false, &matcher)
        .unwrap();
    assert_eq!(texts(&t.runs), vec![(0, 0, 8, b"H".to_vec()), (1, 8, 24, "€€".as_bytes().to_vec())]);
    assert_eq!(calls.get(), 1);
}

#[test]
fn same_codepoint_twice_in_one_text_is_asked_for_once() {
    let mut drw = canvas(vec![ascii(1, 8)]);
    let asked = RefCell::new(Vec::new());
    let t = drw_text(&mut drw, 0, 0, 1000, 0, 0, "€H€".as_bytes(), false, false, |c: u32| {
        asked.borrow_mut().push(c);
        Some(font(2, false, &[('€', 12)]))
    })
    .unwrap();
    assert_eq!(*asked.borrow(), vec![0x20AC]);
    assert_eq!(
        texts(&t.runs),
        vec![
            (1, 0, 12, "€".as_bytes().to_vec()),
            (0, 12, 8, b"H".to_vec()),
            (1, 20, 12, "€".as_bytes().to_vec())
        ]
    );
    assert_eq!(t.end, 32);
}

#[test]
fn without_a_fallback_the_primary_font_draws_a_box() {
    let mut drw = canvas(vec![font(1, true, &[('H', 8)])]);
    let calls = Cell::new(0u32);
    let t = drw_text(&mut drw, 0, 0, 1000, 0, 0, b"HxH", false, false, |_c: u32| {
        calls.set(calls.get() + 1);
        None
    })
    .unwrap();
    assert_eq!(calls.get(), 1);
    assert_eq!(texts(&t.runs), vec![(0, 0, 8, b"H".to_vec()), (0, 8, 13, b"xH".to_vec())]);
    assert_eq!(t.end, 21);
    assert_eq!(drw.fonts.len(), 1);
}

#[test]
fn every_codepoint_without_glyph_is_asked_for() {
    let mut drw = canvas(vec![font(1, true, &[('H', 8)])]);
    let asked = RefCell::new(Vec::new());
    let t = drw_text(&mut drw, 0, 0, 1000, 0, 0, b"xyx", false, false, |c: u32| {
        asked.borrow_mut().push(c);
        None
    })
    .unwrap();
    assert_eq!(*asked.borrow(), vec!['x' as u32, 'y' as u32, 'x' as u32]);
    assert_eq!(
        texts(&t.runs),
        vec![(0, 0, 5, b"x".to_vec()), (0, 5, 5, b"y".to_vec()), (0, 10, 5, b"x".to_vec())]
    );
    assert_eq!(t.end, 15);
}

#[test]
fn a_font_without_the_glyph_is_not_taken() {
    let mut drw = canvas(vec![font(1, true, &[('H', 8)]), font(2, false, &[('i', 3)])]);
    let t = drw_text(&mut drw, 0, 0, 1000, 0, 0, b"ixH", false, false, |_c: u32| {
        Some(font(9, false, &[('y', 1)]))
    })
    .unwrap();
    assert_eq!(drw.fonts.len(), 2);
    assert_eq!(t.rejected.len(), 1);
    assert_eq!(t.rejected[0].xfont, 9);
    assert_eq!(texts(&t.runs), vec![(1, 0, 3, b"i".to_vec()), (0, 3, 13, b"xH".to_vec())]);
    assert_eq!(t.end, 16);
}

#[test]
fn fallback_fonts_come_behind_the_fonts_asked_for() {
    let mut drw = canvas(vec![font(1, true, &[('a', 1)]), font(2, true, &[('b', 1)])]);
    let next = Cell::new(10u64);
    let t = drw_text(&mut drw, 0, 0, 1000, 0, 0, b"xaybz", false, false, |c: u32| {
        next.set(next.get() + 1);
        Some(font(next.get(), false, &[(char::from_u32(c).unwrap(), 2)]))
    })
    .unwrap();
    let ids: Vec<u64> = drw.fonts.iter().map(|f| f.xfont).collect();
    assert_eq!(ids, vec![1, 2, 11, 12, 13]);
    assert_eq!(t.end, 8);
    assert_eq!(
        texts(&t.runs),
        vec![
            (2, 0, 2, b"x".to_vec()),
            (0, 2, 1, b"a".to_vec()),
            (3, 3, 2, b"y".to_vec()),
            (1, 5, 1, b"b".to_vec()),
            (4, 6, 2, b"z".to_vec())
        ]
    );
}

#[test]
fn primary_font_without_template_cannot_ask() {
    let mut drw = canvas(vec![font(1, false, &[('H', 8)])]);
    let calls = Cell::new(0u32);
    let r = drw_text(&mut drw, 0, 0, 1000, 0, 0, b"HxH", false, false, |_c: u32| {
        calls.set(calls.get() + 1);
        None
    });
    assert_eq!(r.unwrap_err(), TextError::NoTemplate);
    assert_eq!(calls.get(), 0);
    assert_eq!(drw.fonts.len(), 1);
}

#[test]
fn primary_font_without_template_is_enough_for_covered_text() {
    let mut drw = canvas(vec![font(1, false, &[('H', 8)]), font(2, false, &[('i', 3)])]);
    let t = drw_text(&mut drw, 0, 0, 1000, 0, 0, b"HiH", false, false, no_font).unwrap();
    assert_eq!(t.end, 19);
}

#[test]
fn nothing_without_fonts() {
    let mut drw = Drw::create(100, 20);
    drw_setscheme(&mut drw, Some(scheme()));
    let t = drw_text(&mut drw, 5, 6, 100, 20, 2, b"Hi", false, true, no_font).unwrap();
    assert_eq!(t.end, 0);
    assert_eq!(t.fill, None);
    assert_eq!(t.ink, None);
    assert!(t.runs.is_empty());
    let t = drw_text(&mut drw, 5, 6, 100, 20, 2, b"Hi", false, false, no_font).unwrap();
    assert_eq!(t.end, 0);
}

#[test]
fn nothing_without_text() {
    let mut drw = canvas(vec![ascii(1, 8)]);
    let t = drw_text(&mut drw, 5, 6, 100, 20, 2, b"", false, true, no_font).unwrap();
    assert_eq!(t.end, 0);
    assert_eq!(t.fill, None);
    assert!(t.runs.is_empty());
}

#[test]
fn no_rendering_without_a_scheme() {
    let mut drw = canvas(vec![ascii(1, 8)]);
    drw_setscheme(&mut drw, None);
    let t = drw_text(&mut drw, 5, 6, 100, 20, 2, b"Hi", false, true, no_font).unwrap();
    assert_eq!(t.end, 0);
    assert_eq!(t.fill, None);
    assert!(t.runs.is_empty());
    let t = drw_text(&mut drw, 0, 0, 100, 0, 0, b"Hi", false, false, no_font).unwrap();
    assert_eq!(t.end, 16);
}

#[test]
fn rendering_fills_the_box_and_pads() {
    let mut drw = canvas(vec![ascii(1, 8)]);
    let t = drw_text(&mut drw, 30, 2, 100, 20, 4, b"Hi", false, true, no_font).unwrap();
    assert_eq!(t.fill, Some(Rect { x: 30, y: 2, w: 100, h: 20, filled: true, color: clr(2) }));
    assert_eq!(t.ink, Some(clr(1)));
    assert_eq!(texts(&t.runs), vec![(0, 34, 16, b"Hi".to_vec())]);
    assert_eq!(t.runs[0].y, 2 + 3 + 10);
    assert_eq!(t.end, 130);
}

#[test]
fn inverted_rendering_swaps_the_colours() {
    let mut drw = canvas(vec![ascii(1, 8)]);
    let t = drw_text(&mut drw, 0, 0, 100, 20, 0, b"Hi", true, true, no_font).unwrap();
    assert_eq!(t.fill.unwrap().color, clr(1));
    assert_eq!(t.ink, Some(clr(2)));
}

#[test]
fn padding_comes_off_the_width() {
    let mut drw = canvas(vec![ascii(1, 10)]);
    let t = drw_text(&mut drw, 0, 0, 60, 20, 10, b"ABCDEFGHIJ", false, true, no_font).unwrap();
    assert_eq!(texts(&t.runs), vec![(0, 10, 50, b"AB...".to_vec())]);
    assert_eq!(t.end, 60);
}

#[test]
fn padding_wider_than_the_box_leaves_no_width() {
    let mut drw = canvas(vec![ascii(1, 10)]);
    let t = drw_text(&mut drw, 7, 0, 5, 20, 9, b"AB", false, true, no_font).unwrap();
    assert!(t.runs.is_empty());
    assert_eq!(t.end, 16);
    assert_eq!(t.fill.unwrap().w, 5);
}

#[test]
fn measuring_ignores_the_padding() {
    let mut drw = canvas(vec![ascii(1, 10)]);
    let t = drw_text(&mut drw, 3, 0, 100, 0, 40, b"AB", false, false, no_font).unwrap();
    assert_eq!(texts(&t.runs), vec![(0, 3, 20, b"AB".to_vec())]);
    assert_eq!(t.end, 23);
}

#[test]
fn baseline_centres_the_line() {
    let mut drw = canvas(vec![ascii(1, 10)]);
    let y = |h: u32, drw: &mut Drw| {
        drw_text(drw, 0, 100, 50, h, 0, b"A", false, true, no_font).unwrap().runs[0].y
    };
    assert_eq!(y(14, &mut drw), 110);
    assert_eq!(y(15, &mut drw), 110);
    assert_eq!(y(16, &mut drw), 111);
    assert_eq!(y(13, &mut drw), 110);
    assert_eq!(y(12, &mut drw), 109);
    assert_eq!(y(11, &mut drw), 109);
    assert_eq!(y(0, &mut drw), 103);
}

#[test]
fn baseline_at_the_ends_of_the_range() {
    let mut big = font(1, true, &[('A', 1)]);
    big.h = u32::MAX;
    big.ascent = i32::MIN;
    let mut drw = canvas(vec![big]);
    let t = drw_text(&mut drw, i32::MIN, i32::MIN, 9, 0, 0, b"A", false, true, no_font).unwrap();
    assert_eq!(t.runs[0].y, 2 * (i32::MIN as i64) - (u32::MAX / 2) as i64);
    assert_eq!(t.runs[0].x, i32::MIN as i64);
    assert_eq!(t.end, i32::MIN as i64 + 9);
    let t = drw_text(&mut drw, i32::MAX, 0, u32::MAX, 0, u32::MAX, b"A", false, true, no_font)
        .unwrap();
    assert_eq!(t.end, i32::MAX as i64 + u32::MAX as i64);
    assert!(t.runs.is_empty());
}

#[test]
fn fonts_take_turns() {
    let mut drw = canvas(vec![font(1, true, &[('a', 10)]), font(2, false, &[('b', 7)])]);
    let t = drw_text(&mut drw, 0, 0, 1000, 0, 0, b"aabba", false, false, no_font).unwrap();
    assert_eq!(
        texts(&t.runs),
        vec![(0, 0, 20, b"aa".to_vec()), (1, 20, 14, b"bb".to_vec()), (0, 34, 10, b"a".to_vec())]
    );
    assert_eq!(t.end, 44);
}

#[test]
fn text_may_begin_with_another_font() {
    let mut drw = canvas(vec![font(1, true, &[('a', 10)]), font(2, false, &[('b', 7)])]);
    let t = drw_text(&mut drw, 0, 0, 1000, 0, 0, b"ba", false, false, no_font).unwrap();
    assert_eq!(texts(&t.runs), vec![(1, 0, 7, b"b".to_vec()), (0, 7, 10, b"a".to_vec())]);
}

#[test]
fn a_run_that_does_not_fit_is_left_out() {
    let mut drw = canvas(vec![font(1, true, &[('a', 10)]), font(2, false, &[('b', 10), ('c', 2)])]);
    let t = drw_text(&mut drw, 0, 0, 25, 0, 0, b"aaaabc", false, false, no_font).unwrap();
    assert_eq!(texts(&t.runs), vec![(0, 0, 20, b"aa".to_vec())]);
    assert_eq!(t.end, 20);
    let t = drw_text(&mut drw, 0, 0, 25, 0, 0, b"aaaacb", false, false, no_font).unwrap();
    assert_eq!(texts(&t.runs), vec![(0, 0, 20, b"aa".to_vec()), (1, 20, 2, b"c".to_vec())]);
    assert_eq!(t.end, 22);
}

#[test]
fn a_long_run_is_cut_to_the_limit() {
    let mut drw = canvas(vec![ascii(1, 10)]);
    drw.limit = 4;
    let t = drw_text(&mut drw, 0, 0, 1000, 0, 0, b"AAAAAAAA", false, false, no_font).unwrap();
    assert_eq!(texts(&t.runs), vec![(0, 0, 40, b"A...".to_vec())]);
    assert_eq!(t.end, 40);
    let t = drw_text(&mut drw, 0, 0, 1000, 0, 0, b"AAAA", false, false, no_font).unwrap();
    assert_eq!(texts(&t.runs), vec![(0, 0, 40, b"AAAA".to_vec())]);
    let t = drw_text(&mut drw, 0, 0, 25, 0, 0, b"AAAAAAAA", false, false, no_font).unwrap();
    assert_eq!(texts(&t.runs), vec![(0, 0, 20, b"AA".to_vec())]);
}

#[test]
fn the_default_limit() {
    let mut drw = canvas(vec![ascii(1, 1)]);
    let long = vec![b'A'; 2000];
    let t = drw_text(&mut drw, 0, 0, 100_000, 0, 0, &long, false, false, no_font).unwrap();
    assert_eq!(t.runs.len(), 1);
    assert_eq!(t.runs[0].text.len(), 1023);
    assert_eq!(&t.runs[0].text[1020..], b"...");
    assert_eq!(&t.runs[0].text[..1020], &long[..1020]);
    assert_eq!(t.end, 1023);
    let exact = vec![b'A'; 1023];
    let t = drw_text(&mut drw, 0, 0, 100_000, 0, 0, &exact, false, false, no_font).unwrap();
    assert_eq!(t.runs[0].text, exact);
}

#[test]
fn a_limit_of_nothing_draws_nothing() {
    let mut drw = canvas(vec![ascii(1, 10)]);
    drw.limit = 0;
    let t = drw_text(&mut drw, 0, 0, 1000, 0, 0, b"AAAA", false, false, no_font).unwrap();
    assert!(t.runs.is_empty());
    assert_eq!(t.end, 0);
}

#[test]
fn the_limit_may_cut_into_a_codepoint() {
    let mut drw = canvas(vec![font(1, true, &[('€', 10), ('\u{FFFD}', 3)])]);
    drw.limit = 4;
    let t = drw_text(&mut drw, 0, 0, 1000, 0, 0, "€€".as_bytes(), false, false, no_font).unwrap();
    assert_eq!(texts(&t.runs), vec![(0, 0, 13, vec![0xE2, b'.', b'.', b'.'])]);
    assert_eq!(t.end, 13);
}

#[test]
fn cut_text_of_wide_codepoints() {
    let mut drw = canvas(vec![font(1, true, &[('€', 10)])]);
    let t = drw_text(&mut drw, 0, 0, 25, 0, 0, "€€€".as_bytes(), false, false, no_font).unwrap();
    assert_eq!(texts(&t.runs), vec![(0, 0, 20, vec![0xE2, 0x82, 0xAC, b'.', b'.', b'.'])]);
}

#[test]
fn malformed_text_is_laid_out() {
    let mut drw = canvas(vec![font(1, true, &[('a', 10), ('\u{FFFD}', 4)])]);
    let text = [b'a', 0xFF, b'a', 0xE2, 0x82];
    let t = drw_text(&mut drw, 0, 0, 1000, 0, 0, &text, false, false, no_font).unwrap();
    assert_eq!(texts(&t.runs), vec![(0, 0, 28, text.to_vec())]);
    let calls = Cell::new(0u32);
    let mut bare = canvas(vec![font(1, true, &[('a', 10)])]);
    let t = drw_text(&mut bare, 0, 0, 1000, 0, 0, &text, false, false, |c: u32| {
        assert_eq!(c, 0xFFFD);
        calls.set(calls.get() + 1);
        None
    })
    .unwrap();
    assert_eq!(calls.get(), 2);
    assert_eq!(t.end, 30);
    assert_eq!(
        texts(&t.runs),
        vec![
            (0, 0, 10, vec![b'a']),
            (0, 10, 15, vec![0xFF, b'a']),
            (0, 25, 5, vec![0xE2, 0x82])
        ]
    );
}

#[test]
fn width_of_a_text() {
    let mut drw = canvas(vec![font(1, true, &[('H', 8), ('i', 3)])]);
    assert_eq!(drw_fontset_getwidth(&mut drw, b"Hi", no_font), Ok(11));
    assert_eq!(drw_fontset_getwidth(&mut drw, b"", no_font), Ok(0));
    assert_eq!(drw_fontset_getwidth(&mut drw, b"HiHi", no_font), Ok(22));
    let mut empty = Drw::create(1, 1);
    assert_eq!(drw_fontset_getwidth(&mut empty, b"Hi", no_font), Ok(0));
}

#[test]
fn width_needs_no_scheme() {
    let mut drw = canvas(vec![font(1, true, &[('H', 8), ('i', 3)])]);
    drw_setscheme(&mut drw, None);
    assert_eq!(drw_fontset_getwidth(&mut drw, b"Hi", no_font), Ok(11));
}

#[test]
fn width_may_take_a_fallback_font() {
    let mut drw = canvas(vec![font(1, true, &[('H', 8)])]);
    let w = drw_fontset_getwidth(&mut drw, "H€".as_bytes(), |_c: u32| {
        Some(font(2, false, &[('€', 12)]))
    });
    assert_eq!(w, Ok(20));
    assert_eq!(drw.fonts.len(), 2);
}

#[test]
fn width_without_template() {
    let mut drw = canvas(vec![font(1, false, &[('H', 8)])]);
    assert_eq!(drw_fontset_getwidth(&mut drw, b"Hx", no_font), Err(TextError::NoTemplate));
}

#[test]
fn one_step_of_layout() {
    let fonts = vec![font(1, true, &[('a', 10)]), font(2, false, &[('b', 7)])];
    let mut pen = Pen { pos: 0, used: 0, forced: false, x: 5, w: 100 };
    let seg = drw_text_segment(&fonts, 1023, 0, 14, b"aabx", &mut pen);
    assert_eq!(seg.stop, Stop::Switch(1));
    let run = seg.run.unwrap();
    assert_eq!((run.font, run.x, run.y, run.width), (0, 5, 10, 20));
    assert_eq!(run.text, b"aa".to_vec());
    assert_eq!(pen, Pen { pos: 2, used: 1, forced: false, x: 25, w: 80 });
    let seg = drw_text_segment(&fonts, 1023, 0, 14, b"aabx", &mut pen);
    assert_eq!(seg.stop, Stop::Miss('x' as u32));
    assert_eq!(seg.run.unwrap().text, b"b".to_vec());
    assert_eq!(pen, Pen { pos: 3, used: 1, forced: false, x: 32, w: 73 });
    let back = drw_text_fallback(&mut fonts.clone(), &mut pen, 'x' as u32, None);
    assert!(back.is_none());
    assert_eq!(pen, Pen { pos: 3, used: 0, forced: true, x: 32, w: 73 });
    let seg = drw_text_segment(&fonts, 1023, 0, 14, b"aabx", &mut pen);
    assert_eq!(seg.stop, Stop::End);
    assert_eq!(seg.run.unwrap().text, b"x".to_vec());
    assert_eq!(pen, Pen { pos: 4, used: 0, forced: false, x: 37, w: 68 });
}

#[test]
fn a_step_at_the_end_of_the_text() {
    let fonts = vec![font(1, true, &[('a', 10)])];
    let mut pen = Pen { pos: 2, used: 0, forced: false, x: 5, w: 100 };
    let seg = drw_text_segment(&fonts, 1023, 0, 14, b"aa", &mut pen);
    assert_eq!(seg.stop, Stop::End);
    assert!(seg.run.is_none());
    assert_eq!(pen, Pen { pos: 2, used: 0, forced: false, x: 5, w: 100 });
}

#[test]
fn taking_a_fallback_font() {
    let mut fonts = vec![font(1, true, &[('a', 10)])];
    let mut pen = Pen { pos: 3, used: 0, forced: false, x: 30, w: 70 };
    let back = drw_text_fallback(&mut fonts, &mut pen, 'x' as u32, Some(font(2, false, &[('x', 1)])));
    assert!(back.is_none());
    assert_eq!(fonts.len(), 2);
    assert_eq!(fonts[1].xfont, 2);
    assert_eq!(pen, Pen { pos: 3, used: 1, forced: false, x: 30, w: 70 });
}

#[test]
fn refusing_a_fallback_font() {
    let mut fonts = vec![font(1, true, &[('a', 10)]), font(2, false, &[('b', 10)])];
    let mut pen = Pen { pos: 3, used: 1, forced: false, x: 30, w: 70 };
    let back = drw_text_fallback(&mut fonts, &mut pen, 'x' as u32, Some(font(3, false, &[('y', 1)])));
    assert_eq!(back.unwrap().xfont, 3);
    assert_eq!(fonts.len(), 2);
    assert_eq!(pen, Pen { pos: 3, used: 0, forced: true, x: 30, w: 70 });
}
