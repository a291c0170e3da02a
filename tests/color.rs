use dotmatrix::color::Color;
use dotmatrix::color_set::ColorSetBuilder;
use dotmatrix::error::RenderError;

fn c(s: &str) -> Color {
    Color::parse(s).unwrap().unwrap()
}

#[test]
fn test_color_cross() {
    let samples: Vec<(&str, &str, &str)> = vec![
        // with black is black
        ("#000000", "#000000", "#000000"),
        ("#ff0000", "#000000", "#000000"),
        ("#00ff00", "#000000", "#000000"),
        ("#0000ff", "#000000", "#000000"),
        // with white is itself
        ("#000000", "#ffffff", "#000000"),
        ("#ff0000", "#ffffff", "#ff0000"),
        ("#00ff00", "#ffffff", "#00ff00"),
        ("#0000ff", "#ffffff", "#0000ff"),
        // with other primary color is black
        ("#ff0000", "#00ff00", "#000000"),
        ("#00ff00", "#0000ff", "#000000"),
        ("#0000ff", "#ff0000", "#000000"),
    ];

    for s in &samples {
        let x = Color::parse(s.0).unwrap().unwrap();
        let y = Color::parse(s.1).unwrap().unwrap();
        let to_be = Color::parse(s.2).unwrap().unwrap();
        let actual = x.cross(&y);

        assert_eq!(
            actual,
            to_be,
            "cross '{}' and '{}' should be '{}', but '{}'",
            x.to_hex(),
            y.to_hex(),
            to_be.to_hex(),
            actual.to_hex()
        );

        let actual_swap = y.cross(&x);

        assert_eq!(
            actual,
            actual_swap,
            "should x.closs(&y) == y.cross(&x), but '{}' and '{}'",
            actual.to_hex(),
            actual_swap.to_hex()
        )
    }
}

#[test]
fn parse_short_and_long_hex() {
    assert_eq!(c("#fff"), Color::new(255, 255, 255, 255));
    assert_eq!(c("#ff0011"), Color::new(255, 0, 17, 255));
    assert_eq!(c("#ff0000ff"), Color::new(255, 0, 0, 255));
    assert_eq!(c("#00000000"), Color::new(0, 0, 0, 0));
    assert_eq!(c("#12AbCd80"), Color::new(0x12, 0xab, 0xcd, 0x80));
}

#[test]
fn parse_prefixed_css_colors() {
    assert_eq!(c("@red"), Color::new(255, 0, 0, 255));
    assert_eq!(c("@@slateblue"), Color::new(106, 90, 205, 255));
    assert_eq!(c("@rgba(255, 128, 12, 0.5)"), Color::new(255, 128, 12, 127));
    assert_eq!(c("@rgba(0, 0, 0, 0)"), Color::new(0, 0, 0, 0));
    assert_eq!(c("@rgba(1, 2, 3, 1)"), Color::new(1, 2, 3, 255));
    assert_eq!(c("@transparent"), Color::new(0, 0, 0, 0));
}

#[test]
fn parse_names_are_not_literals() {
    assert_eq!(Color::parse("red"), Ok(None));
    assert_eq!(Color::parse("_foreground"), Ok(None));
    assert_eq!(Color::parse(""), Ok(None));
}

#[test]
fn parse_malformed_literal() {
    assert_eq!(
        Color::parse("#zzz"),
        Err(RenderError::MalformedColorLiteral("#zzz".to_string()))
    );
    assert_eq!(
        Color::parse("@nosuchcolor"),
        Err(RenderError::MalformedColorLiteral("@nosuchcolor".to_string()))
    );
}

#[test]
fn hex_text_of_color() {
    assert_eq!(Color::new(255, 0, 17, 128).to_hex(), "#ff001180");
    assert_eq!(Color::new(0, 0, 0, 0).to_hex(), "#00000000");
}

#[test]
fn accessors_give_channels() {
    let x = Color::new(1, 2, 3, 4);
    assert_eq!((x.r(), x.g(), x.b(), x.a()), (1, 2, 3, 4));
}

#[test]
fn cross_multiplies_channels() {
    let x = Color::new(128, 255, 10, 255);
    let y = Color::new(128, 51, 0, 128);
    // 128*128/255 = 64.25, 255*51/255 = 51, 0, 255*128/255 = 128
    assert_eq!(x.cross(&y), Color::new(64, 51, 0, 128));
    assert_eq!(x.cross(&y), y.cross(&x));
}

#[test]
fn cross_black_with_anything_is_black() {
    let black = c("#000000");
    for other in ["#123456", "#ffffff", "#ff00ff", "#000000"] {
        assert_eq!(black.cross(&c(other)), black);
    }
}

#[test]
fn blend_transparent_over_opaque_is_back() {
    let front = Color::new(0, 0, 0, 0);
    for back in [Color::new(10, 200, 30, 255), Color::new(255, 255, 255, 255), Color::new(0, 0, 0, 255)] {
        assert_eq!(front.blend(&back), back);
    }
    let tinted_transparent = Color::new(200, 10, 10, 0);
    assert_eq!(tinted_transparent.blend(&Color::new(1, 2, 3, 255)), Color::new(1, 2, 3, 255));
}

#[test]
fn blend_over_opaque_black() {
    let black = Color::new(0, 0, 0, 255);
    assert_eq!(Color::new(255, 255, 255, 0).blend(&black), black);
    // full white at half alpha: 255*128*255 / 65025 = 128
    assert_eq!(Color::new(255, 255, 255, 128).blend(&black), Color::new(128, 128, 128, 255));
    assert_eq!(Color::new(255, 255, 255, 255).blend(&black), Color::new(255, 255, 255, 255));
    let darker = Color::new(255, 255, 255, 64).blend(&black);
    assert!(darker.r <= 64);
}

#[test]
fn blend_of_two_transparent_is_transparent_black() {
    let t = Color::new(9, 9, 9, 0);
    assert_eq!(t.blend(&Color::new(200, 100, 50, 0)), Color::new(0, 0, 0, 0));
}

#[test]
fn blend_mixes_by_alpha() {
    // front red at alpha 128 over opaque blue
    let r = Color::new(255, 0, 0, 128).blend(&Color::new(0, 0, 255, 255));
    // weight 128*255 + 255*127 = 65025; red 255*128*255/65025 = 128, blue 255*255*127/65025 = 127
    assert_eq!(r, Color::new(128, 0, 127, 255));
}

fn builder(entries: &[(&str, &str)]) -> ColorSetBuilder {
    let mut b = ColorSetBuilder::new();
    for (n, v) in entries {
        b.append(n.to_string(), v.to_string()).unwrap();
    }
    b
}

#[test]
fn color_set_resolves_alias() {
    let set = builder(&[("a", "#fff"), ("b", "a")]).build().unwrap();
    assert_eq!(*set.get("b").unwrap(), Color::new(255, 255, 255, 255));
    assert_eq!(*set.get("a").unwrap(), Color::new(255, 255, 255, 255));
}

#[test]
fn color_set_resolves_chain() {
    let set = builder(&[("c", "b"), ("b", "a"), ("a", "#102030")]).build().unwrap();
    assert_eq!(*set.get("c").unwrap(), Color::new(0x10, 0x20, 0x30, 255));
}

#[test]
fn color_set_self_cycle() {
    let r = builder(&[("a", "a")]).build();
    assert_eq!(r.unwrap_err(), RenderError::ColorCycle("a".to_string()));
}

#[test]
fn color_set_long_cycle() {
    let r = builder(&[("a", "b"), ("b", "a"), ("c", "#fff")]).build();
    assert_eq!(r.unwrap_err(), RenderError::ColorCycle("a".to_string()));
}

#[test]
fn color_set_unknown_reference() {
    let r = builder(&[("a", "b")]).build();
    assert_eq!(r.unwrap_err(), RenderError::UnknownColor("a".to_string()));
}

#[test]
fn color_set_get_unknown() {
    let set = builder(&[("a", "#fff")]).build().unwrap();
    assert_eq!(set.get("zz").unwrap_err(), RenderError::UnknownColor("zz".to_string()));
}

#[test]
fn color_set_append_replaces() {
    let set = builder(&[("a", "#fff"), ("a", "#000")]).build().unwrap();
    assert_eq!(*set.get("a").unwrap(), Color::new(0, 0, 0, 255));
}

#[test]
fn color_set_append_malformed() {
    let mut b = ColorSetBuilder::new();
    let r = b.append("a".to_string(), "#12".to_string());
    assert_eq!(r, Err(RenderError::MalformedColorLiteral("#12".to_string())));
    assert!(b.build().unwrap().get("a").is_err());
}

#[test]
fn css_alpha_to_eight_bits() {
    let a = |v: f32| Color::from_css((1, 2, 3, v.to_bits())).a;
    assert_eq!(a(0.0), 0);
    assert_eq!(a(1.0), 255);
    assert_eq!(a(0.5), 127);
    assert_eq!(a(0.2), 51);
    assert_eq!(a(0.1), 25);
    assert_eq!(a(0.003), 0);
    assert_eq!(a(0.004), 1);
    assert_eq!(a(-0.5), 0);
    assert_eq!(a(2.0), 255);
    assert_eq!(Color::from_css((9, 8, 7, 1.0f32.to_bits())), Color::new(9, 8, 7, 255));
}

#[test]
fn nan_alpha_is_transparent() {
    assert_eq!(Color::from_css((1, 2, 3, f32::NAN.to_bits())).a, 0);
    assert_eq!(Color::from_css((1, 2, 3, (-f32::NAN).to_bits())).a, 0);
    assert_eq!(c("@rgba(1, 2, 3, nan%)"), Color::new(1, 2, 3, 0));
    assert_eq!(c("@rgba(1, 2, 3, nan)"), Color::new(1, 2, 3, 0));
    assert_eq!(Color::from_css((1, 2, 3, f32::INFINITY.to_bits())).a, 255);
    assert_eq!(Color::from_css((1, 2, 3, f32::NEG_INFINITY.to_bits())).a, 0);
}
