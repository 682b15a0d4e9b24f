use rxl::font::{xfont_create, Face, Fnt, FontSource, Glyph};
use rxl::run::{elide, fit_run, scan_run, Stop, ELLIPSIS, RUN_LIMIT};

fn font(xfont: u64, glyphs: &[(char, u32)]) -> Fnt {
    let face = Face {
        xfont,
        ascent: 10,
        descent: 4,
        color: false,
        notdef: 5,
        glyphs: glyphs.iter().map(|&(c, a)| Glyph { codepoint: c as u32, advance: a }).collect(),
    };
    xfont_create(FontSource::Name, &face).unwrap()
}

fn chain() -> Vec<Fnt> {
    vec![font(1, &[('a', 10), ('b', 10)]), font(2, &[('b', 7), ('c', 7), ('€', 9)])]
}

#[test]
fn constants() {
    assert_eq!(ELLIPSIS, b'.');
    assert_eq!(RUN_LIMIT, 1023);
}

#[test]
fn run_reaches_the_end_of_the_text() {
    assert_eq!(scan_run(&chain(), b"abba", 0, 0, false), (4, Stop::End));
    assert_eq!(scan_run(&chain(), b"abba", 2, 0, false), (4, Stop::End));
    assert_eq!(scan_run(&chain(), b"abba", 4, 0, false), (4, Stop::End));
    assert_eq!(scan_run(&chain(), b"", 0, 0, false), (0, Stop::End));
}

#[test]
fn run_stops_in_front_of_another_font() {
    assert_eq!(scan_run(&chain(), b"abca", 0, 0, false), (2, Stop::Switch(1)));
    assert_eq!(scan_run(&chain(), "ab€".as_bytes(), 0, 0, false), (2, Stop::Switch(1)));
    assert_eq!(scan_run(&chain(), b"ca", 0, 0, false), (0, Stop::Switch(1)));
    assert_eq!(scan_run(&chain(), b"cca", 0, 1, false), (2, Stop::Switch(0)));
}

#[test]
fn the_first_font_with_the_glyph_gets_the_codepoint() {
    assert_eq!(scan_run(&chain(), b"bc", 0, 1, false), (0, Stop::Switch(0)));
    assert_eq!(scan_run(&chain(), b"cb", 0, 1, false), (1, Stop::Switch(0)));
}

#[test]
fn run_stops_in_front_of_a_codepoint_without_glyph() {
    assert_eq!(scan_run(&chain(), b"abxa", 0, 0, false), (2, Stop::Miss('x' as u32)));
    assert_eq!(scan_run(&chain(), b"xa", 0, 0, false), (0, Stop::Miss('x' as u32)));
    assert_eq!(scan_run(&chain(), &[0x61, 0xFF], 0, 0, false), (1, Stop::Miss(0xFFFD)));
}

#[test]
fn a_forced_codepoint_is_taken() {
    assert_eq!(scan_run(&chain(), b"xa", 0, 0, true), (2, Stop::End));
    assert_eq!(scan_run(&chain(), b"xxa", 0, 0, true), (1, Stop::Miss('x' as u32)));
    assert_eq!(scan_run(&chain(), b"ca", 0, 0, true), (2, Stop::End));
    assert_eq!(scan_run(&chain(), "€c".as_bytes(), 0, 0, true), (3, Stop::Switch(1)));
}

#[test]
fn everything_fits() {
    let f = font(1, &[('a', 10)]);
    assert_eq!(fit_run(&f, b"aaaa", 40), (4, 40));
    assert_eq!(fit_run(&f, b"aaaa", 1000), (4, 40));
    assert_eq!(fit_run(&f, b"", 0), (0, 0));
}

#[test]
fn longest_prefix_that_fits() {
    let f = font(1, &[('a', 10)]);
    assert_eq!(fit_run(&f, b"aaaa", 39), (3, 30));
    assert_eq!(fit_run(&f, b"aaaa", 30), (3, 30));
    assert_eq!(fit_run(&f, b"aaaa", 29), (2, 20));
    assert_eq!(fit_run(&f, b"aaaa", 10), (1, 10));
    assert_eq!(fit_run(&f, b"aaaa", 9), (0, 0));
    assert_eq!(fit_run(&f, b"aaaa", 0), (0, 0));
}

#[test]
fn fit_cuts_between_codepoints() {
    let f = font(1, &[('€', 10), ('a', 4)]);
    let text = "€a€".as_bytes();
    assert_eq!(fit_run(&f, text, 24), (7, 24));
    assert_eq!(fit_run(&f, text, 23), (4, 14));
    assert_eq!(fit_run(&f, text, 13), (3, 10));
    assert_eq!(fit_run(&f, text, 9), (0, 0));
}

#[test]
fn glyphs_without_width_always_fit() {
    let f = font(1, &[('a', 0), ('b', 3)]);
    assert_eq!(fit_run(&f, b"aaa", 0), (3, 0));
    assert_eq!(fit_run(&f, b"aba", 2), (1, 0));
    assert_eq!(fit_run(&f, b"aba", 3), (3, 3));
}

#[test]
fn fit_with_the_greatest_widths() {
    let f = font(1, &[('a', u32::MAX), ('b', 1)]);
    assert_eq!(fit_run(&f, b"a", u32::MAX), (1, u32::MAX));
    assert_eq!(fit_run(&f, b"ab", u32::MAX), (1, u32::MAX));
    assert_eq!(fit_run(&f, b"ba", u32::MAX), (1, 1));
}

#[test]
fn uncut_run_is_copied() {
    assert_eq!(elide(b"ABCDE", 5, false), b"ABCDE".to_vec());
    assert_eq!(elide(b"ABCDE", 2, false), b"AB".to_vec());
    assert_eq!(elide(b"ABCDE", 0, false), Vec::<u8>::new());
}

#[test]
fn cut_run_ends_in_the_ellipsis() {
    assert_eq!(elide(b"ABCDEFGHIJ", 5, true), b"AB...".to_vec());
    assert_eq!(elide(b"ABCDEFGHIJ", 3, true), b"...".to_vec());
    assert_eq!(elide(b"ABCDEFGHIJ", 10, true), b"ABCDEFG...".to_vec());
}

#[test]
fn short_cut_run_has_no_ellipsis() {
    assert_eq!(elide(b"ABCDEFGHIJ", 2, true), b"AB".to_vec());
    assert_eq!(elide(b"ABCDEFGHIJ", 1, true), b"A".to_vec());
    assert_eq!(elide(b"ABCDEFGHIJ", 0, true), Vec::<u8>::new());
}

#[test]
fn ellipsis_may_cut_into_a_codepoint() {
    let text = "a€€".as_bytes();
    assert_eq!(elide(text, 4, true), vec![b'a', b'.', b'.', b'.']);
    assert_eq!(elide(text, 7, true), vec![b'a', 0xE2, 0x82, 0xAC, b'.', b'.', b'.']);
}
