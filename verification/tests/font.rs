use rxl::font::{drw_font_getexts, xfont_create, xfont_source, Face, Fnt, FontSource, Glyph};

fn face(glyphs: &[(char, u32)]) -> Face {
    Face {
        xfont: 7,
        ascent: 11,
        descent: 3,
        color: false,
        notdef: 6,
        glyphs: glyphs.iter().map(|&(c, a)| Glyph { codepoint: c as u32, advance: a }).collect(),
    }
}

fn font(glyphs: &[(char, u32)]) -> Fnt {
    xfont_create(FontSource::Name, &face(glyphs)).unwrap()
}

#[test]
fn record_of_a_face() {
    let f = font(&[('H', 8), ('i', 3)]);
    assert_eq!(f.xfont, 7);
    assert_eq!(f.h, 14);
    assert_eq!(f.height(), 14);
    assert_eq!(f.ascent, 11);
    assert!(f.pattern);
    assert_eq!(f.notdef, 6);
    assert_eq!(f.glyphs.len(), 2);
}

#[test]
fn only_a_font_opened_by_name_owns_a_template() {
    let f = xfont_create(FontSource::Pattern, &face(&[('a', 1)])).unwrap();
    assert!(!f.pattern);
    let f = xfont_create(FontSource::Name, &face(&[('a', 1)])).unwrap();
    assert!(f.pattern);
}

#[test]
fn colour_faces_are_refused() {
    let mut c = face(&[('a', 1)]);
    c.color = true;
    assert!(xfont_create(FontSource::Name, &c).is_none());
    assert!(xfont_create(FontSource::Pattern, &c).is_none());
}

#[test]
fn line_height_is_ascent_plus_descent() {
    let mut c = face(&[]);
    c.ascent = 20;
    c.descent = 5;
    assert_eq!(xfont_create(FontSource::Name, &c).unwrap().h, 25);
    c.ascent = 0;
    c.descent = 0;
    assert_eq!(xfont_create(FontSource::Name, &c).unwrap().h, 0);
    c.ascent = i32::MAX;
    c.descent = i32::MAX;
    assert_eq!(xfont_create(FontSource::Name, &c).unwrap().h, 0xFFFF_FFFE);
}

#[test]
fn negative_line_height_counts_from_the_top() {
    let mut c = face(&[]);
    c.ascent = 2;
    c.descent = -3;
    assert_eq!(xfont_create(FontSource::Name, &c).unwrap().h, 0xFFFF_FFFF);
    c.ascent = i32::MIN;
    c.descent = i32::MIN;
    assert_eq!(xfont_create(FontSource::Name, &c).unwrap().h, 0);
}

#[test]
fn later_glyph_entry_counts() {
    let f = font(&[('a', 1), ('b', 2), ('a', 9)]);
    assert_eq!(f.advance('a' as u32), 9);
    assert_eq!(f.advance('b' as u32), 2);
}

#[test]
fn coverage_and_advance() {
    let f = font(&[('H', 8), ('i', 3), ('€', 12)]);
    assert!(f.has_glyph('H' as u32));
    assert!(f.has_glyph(0x20AC));
    assert!(!f.has_glyph('x' as u32));
    assert_eq!(f.advance('H' as u32), 8);
    assert_eq!(f.advance(0x20AC), 12);
    assert_eq!(f.advance('x' as u32), 6);
}

#[test]
fn width_adds_up_advances() {
    let f = font(&[('H', 8), ('i', 3), ('€', 12)]);
    assert_eq!(f.width(b"Hi"), 11);
    assert_eq!(f.width("H€i".as_bytes()), 23);
    assert_eq!(f.width(b""), 0);
    assert_eq!(f.width(b"Hix"), 17);
}

#[test]
fn width_counts_malformed_bytes_as_the_replacement() {
    let f = font(&[('H', 8), ('\u{FFFD}', 5)]);
    assert_eq!(f.width(&[0x48, 0xFF, 0x48]), 21);
    assert_eq!(f.width(&[0x48, 0xE2, 0x82]), 13);
    let g = font(&[('H', 8)]);
    assert_eq!(g.width(&[0x48, 0xFF, 0x48]), 22);
}

#[test]
fn width_does_not_overflow() {
    let f = font(&[('a', u32::MAX)]);
    assert_eq!(f.width(b"aaa"), 3 * 0xFFFF_FFFFu64);
}

#[test]
fn extents_of_a_text() {
    let f = font(&[('H', 8), ('i', 3)]);
    assert_eq!(f.get_extents(b"Hi"), Some((11, 14)));
    assert_eq!(f.get_extents(b"x"), Some((6, 14)));
}

#[test]
fn no_extents_of_an_empty_text() {
    let f = font(&[('H', 8), ('i', 3)]);
    assert_eq!(f.get_extents(b""), None);
}

#[test]
fn getexts_measures_a_prefix() {
    let f = font(&[('H', 8), ('i', 3)]);
    let mut w: u64 = 77;
    let mut h: u32 = 88;
    drw_font_getexts(&f, b"Hii", 2, &mut w, &mut h);
    assert_eq!((w, h), (11, 14));
    drw_font_getexts(&f, b"Hii", 3, &mut w, &mut h);
    assert_eq!((w, h), (14, 14));
}

#[test]
fn getexts_leaves_the_results_alone_without_text() {
    let f = font(&[('H', 8), ('i', 3)]);
    let mut w: u64 = 77;
    let mut h: u32 = 88;
    drw_font_getexts(&f, b"Hii", 0, &mut w, &mut h);
    assert_eq!((w, h), (77, 88));
}

#[test]
fn source_of_a_font() {
    assert_eq!(xfont_source(true, false), Some(FontSource::Name));
    assert_eq!(xfont_source(true, true), Some(FontSource::Name));
    assert_eq!(xfont_source(false, true), Some(FontSource::Pattern));
    assert_eq!(xfont_source(false, false), None);
}
