use dotmatrix::builder::ArrayBuilder;
use dotmatrix::color::Color;
use dotmatrix::color_set::{ColorSet, ColorSetBuilder};
use dotmatrix::error::RenderError;
use dotmatrix::font::{font_dir_path, glyph_path, CharImage, FontDir};
use dotmatrix::source::{Command, Metadata, Scroll, Source, Space, Text};

/// A glyph 3 wide and `h` high with a fixed pattern.
fn glyph_a(h: usize) -> CharImage {
    let mut g = CharImage::new(3, h);
    for y in 1..h {
        g.set(0, y, true);
        g.set(2, y, true);
    }
    g.set(1, 0, true);
    g.set(1, 2 % h, true);
    g
}

fn font(h: usize) -> FontDir {
    let mut f = FontDir::new("fonts", "test", CharImage::new(2, h));
    f.insert_char('A', glyph_a(h));
    f
}

fn colors(entries: &[(&str, &str)]) -> ColorSet {
    let mut b = ColorSetBuilder::new();
    for (n, v) in entries {
        b.append(n.to_string(), v.to_string()).unwrap();
    }
    b.build().unwrap()
}

const RED: Color = Color { r: 255, g: 0, b: 0, a: 255 };
const CLEAR: Color = Color { r: 0, g: 0, b: 0, a: 0 };

#[test]
fn end_to_end_single_glyph() {
    let set = colors(&[("_foreground", "#ff0000ff"), ("_background", "#00000000")]);
    let f = font(5);
    let glyph = f.get_char('A').unwrap().clone();
    let mut b = ArrayBuilder::new(set, f);
    b.process(&Command::Text(Text::new("A".to_string(), None, None))).unwrap();
    let grid = b.finish();
    assert_eq!(grid.height(), 5);
    assert_eq!(grid.dim(), (glyph.dim().0, 5));
    for x in 0..3 {
        for y in 0..5 {
            let want = if glyph.get(x, y) { RED } else { CLEAR };
            assert_eq!(grid.get(x, y), want);
        }
    }
    assert_eq!(grid.get(1, 0), RED);
    assert_eq!(grid.get(1, 1), CLEAR);
}

#[test]
fn text_with_named_colors_and_space() {
    let set = colors(&[
        ("_foreground", "#fff"),
        ("_background", "#000"),
        ("hot", "@red"),
        ("sky", "#0000ff"),
    ]);
    let mut b = ArrayBuilder::new(set, font(4));
    b.process(&Command::Text(Text::new("AA".to_string(), Some("hot".to_string()), None))).unwrap();
    b.process(&Command::Space(Space::new(2, Some("sky".to_string())))).unwrap();
    let grid = b.finish();
    assert_eq!(grid.dim(), (8, 4));
    assert_eq!(grid.get(1, 0), RED);
    assert_eq!(grid.get(4, 0), RED);
    assert_eq!(grid.get(1, 1), Color::new(0, 0, 0, 255));
    for y in 0..4 {
        assert_eq!(grid.get(6, y), Color::new(0, 0, 255, 255));
        assert_eq!(grid.get(7, y), Color::new(0, 0, 255, 255));
    }
}

#[test]
fn empty_space_and_text_add_nothing() {
    let set = colors(&[("_foreground", "#fff"), ("_background", "#000")]);
    let mut b = ArrayBuilder::new(set, font(3));
    b.process(&Command::Space(Space::new(0, None))).unwrap();
    b.process(&Command::Text(Text::new(String::new(), None, None))).unwrap();
    assert_eq!(b.finish().dim(), (0, 3));
}

#[test]
fn unknown_foreground_and_background() {
    let set = colors(&[("_foreground", "#fff")]);
    let mut b = ArrayBuilder::new(set, font(3));
    let r = b.process(&Command::Text(Text::new("A".to_string(), Some("nope".to_string()), None)));
    assert_eq!(r, Err(RenderError::UnknownForeground("nope".to_string())));
    let r = b.process(&Command::Text(Text::new("A".to_string(), None, None)));
    assert_eq!(r, Err(RenderError::UnknownBackground("_background".to_string())));
    let r = b.process(&Command::Space(Space::new(1, None)));
    assert_eq!(r, Err(RenderError::UnknownBackground("_background".to_string())));
    assert_eq!(b.finish().dim(), (0, 3));
}

#[test]
fn missing_glyph_and_height_mismatch() {
    let set = colors(&[("_foreground", "#fff"), ("_background", "#000")]);
    let mut f = font(3);
    f.insert_char('B', glyph_a(4));
    let mut b = ArrayBuilder::new(set, f);
    let r = b.process(&Command::Text(Text::new("AZ".to_string(), None, None)));
    assert_eq!(r, Err(RenderError::GlyphMissing('Z')));
    let r = b.process(&Command::Text(Text::new("AB".to_string(), None, None)));
    assert_eq!(r, Err(RenderError::HeightMismatch));
    assert_eq!(b.finish().dim(), (0, 3));
}

#[test]
fn glyph_bits() {
    let mut g = CharImage::new(2, 64);
    g.set(1, 63, true);
    g.set(1, 0, true);
    assert!(g.get(1, 63));
    assert!(g.get(1, 0));
    assert!(!g.get(0, 63));
    g.set(1, 63, false);
    assert!(!g.get(1, 63));
    assert!(g.get(1, 0));
    assert_eq!(g.dim(), (2, 64));
}

#[test]
fn glyph_from_grey_pixels() {
    // 2 wide, 2 high, row by row
    let g = CharImage::from_luma(2, 2, &vec![0, 255, 7, 8]);
    assert!(g.get(0, 0));
    assert!(!g.get(1, 0));
    assert!(g.get(0, 1));
    assert!(!g.get(1, 1));
}

#[test]
fn font_paths_and_height() {
    let f = font(5);
    assert_eq!(f.height(), 5);
    assert!(f.has_char('A'));
    assert!(f.has_char(' '));
    assert!(!f.has_char('q'));
    assert_eq!(f.char_path('A'), "fonts/test/chars/0041.png");
    assert_eq!(f.char_path('\u{3042}'), "fonts/test/chars/3042.png");
    assert_eq!(f.get_char('q').unwrap_err(), RenderError::GlyphMissing('q'));
}

#[test]
fn source_accessors() {
    let meta = Metadata::new(
        vec![
            ("_foreground".to_string(), "#fff".to_string()),
            ("_background".to_string(), "black".to_string()),
            ("black".to_string(), "#000".to_string()),
        ],
        "dot.png".to_string(),
        "mono".to_string(),
        Some(Scroll::new(16)),
    );
    let src = Source::new(
        meta,
        Some("out".to_string()),
        vec![Command::Space(Space::new(3, None))],
    );
    let m = src.metadata();
    assert_eq!(m.font(), "mono");
    assert_eq!(m.dot(), "dot.png");
    assert_eq!(m.scroll().unwrap().width(), 16);
    assert_eq!(src.output(), Some("out".to_string()));
    assert_eq!(src.body().len(), 1);
    let set = m.color_set().unwrap();
    assert_eq!(*set.get("_background").unwrap(), Color::new(0, 0, 0, 255));
    let t = Text::new("x".to_string(), Some("f".to_string()), None);
    assert_eq!((t.content(), t.foreground(), t.background()), ("x", Some("f"), None));
    let s = Space::new(2, Some("b".to_string()));
    assert_eq!((s.width(), s.background()), (2, Some("b")));
}

#[test]
fn metadata_color_set_errors() {
    let meta = Metadata::new(
        vec![("a".to_string(), "#1".to_string()), ("b".to_string(), "c".to_string())],
        String::new(),
        String::new(),
        None,
    );
    assert_eq!(meta.color_set().unwrap_err(), RenderError::MalformedColorLiteral("#1".to_string()));
    assert!(meta.scroll().is_none());
    let meta = Metadata::new(
        vec![("b".to_string(), "c".to_string())],
        String::new(),
        String::new(),
        None,
    );
    assert_eq!(meta.color_set().unwrap_err(), RenderError::UnknownColor("b".to_string()));
}

#[test]
fn glyph_file_paths() {
    let dir = font_dir_path("./fonts", "mono");
    assert_eq!(dir, "./fonts/mono/chars");
    assert_eq!(glyph_path(&dir, ' '), "./fonts/mono/chars/0020.png");
    assert_eq!(glyph_path("d", '\u{1F600}'), "d/f600.png");
}
