use vstd::prelude::*;
use crate::error::{ErrorView, RenderError};

verus! {

/// An RGBA color. Each channel holds `v` for the value `v / 255`, so two
/// colors are equal exactly when their 8-bit channels are.
#[derive(Debug, Clone, Copy, PartialEq, Eq, Structural, Hash)]
pub struct Color {
    pub r: u8,
    pub g: u8,
    pub b: u8,
    pub a: u8,
}

/// The product of two channels, `x/255 * y/255`, truncated to 8 bits.
pub open spec fn mul_channel(x: u8, y: u8) -> u8 {
    ((x as int * y as int) / 255) as u8
}

/// Channel-wise product of two colors, alpha included.
pub open spec fn cross_spec(p: Color, q: Color) -> Color {
    Color {
        r: mul_channel(p.r, q.r),
        g: mul_channel(p.g, q.g),
        b: mul_channel(p.b, q.b),
        a: mul_channel(p.a, q.a),
    }
}

/// Alpha of `front` over `back`, scaled by 255 * 255.
pub open spec fn blend_weight(front: Color, back: Color) -> int {
    front.a as int * 255 + back.a as int * (255 - front.a as int)
}

/// One channel of `front` over `back`, weighted by each side's coverage.
pub open spec fn blend_channel(cf: u8, af: u8, cb: u8, ab: u8, weight: int) -> u8 {
    ((cf as int * af as int * 255 + cb as int * ab as int * (255 - af as int)) / weight) as u8
}

/// Alpha-over compositing of `front` onto `back`.
pub open spec fn blend_spec(front: Color, back: Color) -> Color {
    let w = blend_weight(front, back);
    if w == 0 {
        Color { r: 0, g: 0, b: 0, a: 0 }
    } else {
        Color {
            r: blend_channel(front.r, front.a, back.r, back.a, w),
            g: blend_channel(front.g, front.a, back.g, back.a, w),
            b: blend_channel(front.b, front.a, back.b, back.a, w),
            a: (w / 255) as u8,
        }
    }
}

/// The lower-case hex digit of `d`.
pub open spec fn hex_char(d: int) -> char {
    if d < 10 {
        ('0' as int + d) as char
    } else {
        ('a' as int + d - 10) as char
    }
}

/// `#rrggbbaa` in lower-case hex.
pub open spec fn hex_string(c: Color) -> Seq<char> {
    seq![
        '#',
        hex_char(c.r as int / 16),
        hex_char(c.r as int % 16),
        hex_char(c.g as int / 16),
        hex_char(c.g as int % 16),
        hex_char(c.b as int / 16),
        hex_char(c.b as int % 16),
        hex_char(c.a as int / 16),
        hex_char(c.a as int % 16),
    ]
}

/// Text that starts with `#` or `@` is meant as a color literal.
pub open spec fn is_literal(s: Seq<char>) -> bool {
    s.len() > 0 && (s[0] == '#' || s[0] == '@')
}

/// The text with its leading `@` characters removed.
pub open spec fn strip_ats(s: Seq<char>) -> Seq<char>
    decreases s.len(),
{
    if s.len() > 0 && s[0] == '@' {
        strip_ats(s.drop_first())
    } else {
        s
    }
}

pub open spec fn is_hex_digit(c: char) -> bool {
    ('0' <= c && c <= '9') || ('a' <= c && c <= 'f') || ('A' <= c && c <= 'F')
}

pub open spec fn hex_value(c: char) -> int {
    if '0' <= c && c <= '9' {
        c as int - '0' as int
    } else if 'a' <= c && c <= 'f' {
        c as int - 'a' as int + 10
    } else {
        c as int - 'A' as int + 10
    }
}

/// `#` followed by eight hex digits: red, green, blue and alpha.
pub open spec fn is_hex8(b: Seq<char>) -> bool {
    &&& b.len() == 9
    &&& b[0] == '#'
    &&& forall|i: int| 1 <= i < 9 ==> is_hex_digit(#[trigger] b[i])
}

pub open spec fn hex_byte(b: Seq<char>, i: int) -> u8 {
    (hex_value(b[i]) * 16 + hex_value(b[i + 1])) as u8
}

pub open spec fn hex8_color(b: Seq<char>) -> Color {
    Color { r: hex_byte(b, 1), g: hex_byte(b, 3), b: hex_byte(b, 5), a: hex_byte(b, 7) }
}

/// What the CSS color parser makes of a text: red, green and blue in 8 bits
/// and the IEEE-754 single-precision bit pattern of alpha, or nothing where
/// the text is no CSS color. Where alpha is not a number, the sign of that
/// NaN is not fixed: see `same_css`.
pub uninterp spec fn css_channels(s: Seq<char>) -> Option<(u8, u8, u8, u32)>;

/// The single-precision bit pattern is a NaN: all exponent bits set and a
/// fraction that is not zero.
pub open spec fn is_nan_bits(bits: u32) -> bool {
    (bits >> 23u32) & 0xffu32 == 0xffu32 && bits & 0x7fffffu32 != 0
}

/// Two parse results that agree on every channel, where two NaN alphas
/// count as the same whatever their sign and payload.
pub open spec fn same_css(p: (u8, u8, u8, u32), q: (u8, u8, u8, u32)) -> bool {
    &&& p.0 == q.0
    &&& p.1 == q.1
    &&& p.2 == q.2
    &&& (p.3 == q.3 || (is_nan_bits(p.3) && is_nan_bits(q.3)))
}

/// A single-precision bit pattern of a value `x` taken to 8 bits as
/// `floor(x * 255)`, clamped to `0..=255`: NaN, negative values and values
/// below 2^-8 give 0, values from 1 up give 255.
pub open spec fn unit_bits_to_byte(bits: u32) -> u8 {
    let e = (bits >> 23u32) & 0xffu32;
    let m = bits & 0x7fffffu32;
    if is_nan_bits(bits) || bits >> 31u32 == 1 || e < 119 {
        0
    } else if e >= 127 {
        255
    } else {
        (((0x800000 + m) * 255) as u32 >> (150 - e) as u32) as u8
    }
}

/// The color that the body of a literal (after its `@`s) denotes.
pub open spec fn literal_color(b: Seq<char>) -> Option<Color> {
    if is_hex8(b) {
        Some(hex8_color(b))
    } else {
        match css_channels(b) {
            Some(t) => Some(Color { r: t.0, g: t.1, b: t.2, a: unit_bits_to_byte(t.3) }),
            None => None,
        }
    }
}

/// Relies on `FromStr for css_color_parser::Color`: a CSS3 color (hex
/// `#rgb` / `#rrggbb`, a named color, `rgb()`, `rgba()`, `hsl()`, `hsla()`)
/// with its alpha handed over as the bits of its `f32`. An alpha computed as
/// NaN may carry either sign, so only its being NaN is fixed by the text.
#[verifier::external_body]
fn parse_css(s: &str) -> (r: Option<(u8, u8, u8, u32)>)
    ensures
        r is Some <==> css_channels(s@) is Some,
        r is Some ==> same_css(r->0, css_channels(s@)->0),
{
    match s.parse::<css_color_parser::Color>() {
        Ok(c) => Some((c.r, c.g, c.b, c.a.to_bits())),
        Err(_) => None,
    }
}

fn unit_bits_to_byte_exec(bits: u32) -> (r: u8)
    ensures
        r == unit_bits_to_byte(bits),
{
    let e: u32 = (bits >> 23u32) & 0xffu32;
    let m: u32 = bits & 0x7fffffu32;
    if (e == 0xffu32 && m != 0) || bits >> 31u32 == 1 || e < 119 {
        0
    } else if e >= 127 {
        255
    } else {
        assert(bits & 0x7fffffu32 <= 0x7fffffu32) by (bit_vector);
        (((0x800000 + m) * 255) >> (150 - e)) as u8
    }
}

proof fn lemma_mul_channel_bound(x: u8, y: u8)
    ensures
        (x as int * y as int) / 255 <= 255,
        x as int * y as int <= 255 * 255,
{
    assert(x as int * y as int <= 255 * 255) by (nonlinear_arith)
        requires
            x <= 255,
            y <= 255,
    ;
}

proof fn lemma_blend_channel_bound(cf: u8, af: u8, cb: u8, ab: u8, w: int)
    requires
        w == af as int * 255 + ab as int * (255 - af as int),
        w > 0,
    ensures
        0 <= (cf as int * af as int * 255 + cb as int * ab as int * (255 - af as int)) / w <= 255,
{
    let n = cf as int * af as int * 255 + cb as int * ab as int * (255 - af as int);
    assert(0 <= n <= 255 * w) by (nonlinear_arith)
        requires
            n == cf as int * af as int * 255 + cb as int * ab as int * (255 - af as int),
            w == af as int * 255 + ab as int * (255 - af as int),
            cf <= 255,
            cb <= 255,
            af <= 255,
            ab <= 255,
    ;
    assert(n / w <= 255) by (nonlinear_arith)
        requires
            0 <= n <= 255 * w,
            w > 0,
    ;
}

pub(crate) fn hex_digit_str(d: usize) -> (r: &'static str)
    requires
        d < 16,
    ensures
        r@ == seq![hex_char(d as int)],
{
    let digits: &'static str = "0123456789abcdef";
    proof {
        reveal_strlit("0123456789abcdef");
    }
    let r: &'static str = digits.substring_char(d, d + 1);
    assert(r@ =~= seq![hex_char(d as int)]);
    r
}

fn mul_channel_exec(x: u8, y: u8) -> (r: u8)
    ensures
        r == mul_channel(x, y),
{
    proof {
        lemma_mul_channel_bound(x, y);
    }
    ((x as u32 * y as u32) / 255) as u8
}

fn blend_channel_exec(cf: u8, af: u8, cb: u8, ab: u8, w: u32) -> (r: u8)
    requires
        w as int == af as int * 255 + ab as int * (255 - af as int),
        w > 0,
    ensures
        r == blend_channel(cf, af, cb, ab, w as int),
{
    proof {
        lemma_blend_channel_bound(cf, af, cb, ab, w as int);
        lemma_mul_channel_bound(cf, af);
        lemma_mul_channel_bound(cb, ab);
        assert(cf as int * af as int * 255 <= 255 * 255 * 255) by (nonlinear_arith)
            requires
                cf as int * af as int <= 255 * 255,
        ;
        assert(cb as int * ab as int * (255 - af as int) <= 255 * 255 * 255) by (nonlinear_arith)
            requires
                cb as int * ab as int <= 255 * 255,
                af <= 255,
        ;
    }
    let front: u32 = cf as u32 * af as u32 * 255;
    let back: u32 = cb as u32 * ab as u32 * (255 - af as u32);
    ((front + back) / w) as u8
}

fn hex_digit_exec(c: char) -> (r: Option<u8>)
    ensures
        r is Some <==> is_hex_digit(c),
        r is Some ==> r->0 as int == hex_value(c) && r->0 < 16,
{
    if '0' <= c && c <= '9' {
        Some((c as u32 - '0' as u32) as u8)
    } else if 'a' <= c && c <= 'f' {
        Some((c as u32 - 'a' as u32 + 10) as u8)
    } else if 'A' <= c && c <= 'F' {
        Some((c as u32 - 'A' as u32 + 10) as u8)
    } else {
        None
    }
}

/// Reads `#rrggbbaa`, or nothing where the text is not of that form.
fn parse_hex8(b: &str) -> (r: Option<Color>)
    ensures
        r is Some <==> is_hex8(b@),
        r is Some ==> r->0 == hex8_color(b@),
{
    let n: usize = b.unicode_len();
    if n != 9 || b.get_char(0) != '#' {
        return None;
    }
    let mut digits: Vec<u8> = Vec::new();
    let mut i: usize = 1;
    while i < 9
        invariant
            n == 9 == b@.len(),
            b@[0] == '#',
            1 <= i <= 9,
            digits@.len() == i - 1,
            forall|j: int| 1 <= j < i ==> is_hex_digit(#[trigger] b@[j]),
            forall|k: int|
                0 <= k < i - 1 ==> #[trigger] digits@[k] as int == hex_value(b@[k + 1])
                    && digits@[k] < 16,
        decreases 9 - i,
    {
        match hex_digit_exec(b.get_char(i)) {
            Some(d) => digits.push(d),
            None => {
                return None;
            },
        }
        i = i + 1;
    }
    assert(digits@[0] < 16 && digits@[1] < 16 && digits@[2] < 16 && digits@[3] < 16);
    assert(digits@[4] < 16 && digits@[5] < 16 && digits@[6] < 16 && digits@[7] < 16);
    let c = Color {
        r: digits[0] * 16 + digits[1],
        g: digits[2] * 16 + digits[3],
        b: digits[4] * 16 + digits[5],
        a: digits[6] * 16 + digits[7],
    };
    assert(c == hex8_color(b@));
    Some(c)
}

impl Color {
    /// A color from its four 8-bit channels.
    pub fn new(r: u8, g: u8, b: u8, a: u8) -> (c: Color)
        ensures
            c == (Color { r, g, b, a }),
    {
        Color { r, g, b, a }
    }

    /// The color of a CSS parse result: 8-bit red, green and blue, and the
    /// single-precision bits of alpha.
    pub fn from_css(t: (u8, u8, u8, u32)) -> (c: Color)
        ensures
            c == (Color { r: t.0, g: t.1, b: t.2, a: unit_bits_to_byte(t.3) }),
    {
        Color { r: t.0, g: t.1, b: t.2, a: unit_bits_to_byte_exec(t.3) }
    }

    /// Reads a color literal. Text that does not start with `#` or `@` is no
    /// literal (`Ok(None)`): it names another color. Leading `@`s are dropped;
    /// the rest is `#rrggbbaa` or a CSS color, else the literal is malformed.
    pub fn parse(s: &str) -> (r: Result<Option<Color>, RenderError>)
        ensures
            match r {
                Ok(None) => !is_literal(s@),
                Ok(Some(c)) => is_literal(s@) && literal_color(strip_ats(s@)) == Some(c),
                Err(e) => is_literal(s@) && literal_color(strip_ats(s@)) is None
                    && e@ == ErrorView::MalformedColorLiteral(s@),
            },
    {
        let n: usize = s.unicode_len();
        if n == 0 {
            return Ok(None);
        }
        let first: char = s.get_char(0);
        if first != '#' && first != '@' {
            return Ok(None);
        }
        let mut k: usize = 0;
        assert(s@.subrange(0, n as int) =~= s@);
        while k < n && s.get_char(k) == '@'
            invariant
                n == s@.len(),
                k <= n,
                strip_ats(s@) == strip_ats(s@.subrange(k as int, n as int)),
            decreases n - k,
        {
            proof {
                let t = s@.subrange(k as int, n as int);
                assert(t.drop_first() =~= s@.subrange(k + 1, n as int));
            }
            k = k + 1;
        }
        let body: &str = s.substring_char(k, n);
        proof {
            let t = s@.subrange(k as int, n as int);
            assert(body@ == t);
            assert(strip_ats(t) == t);
        }
        match parse_hex8(body) {
            Some(c) => Ok(Some(c)),
            None => match parse_css(body) {
                Some(t) => {
                    proof {
                        let u = css_channels(body@)->0;
                        assert(unit_bits_to_byte(t.3) == unit_bits_to_byte(u.3));
                    }
                    Ok(Some(Color::from_css(t)))
                },
                None => Err(RenderError::MalformedColorLiteral(String::from_str(s))),
            },
        }
    }

    /// Channel-wise product with `p`, used to tint a stencil cell.
    pub fn cross(&self, p: &Color) -> (c: Color)
        ensures
            c == cross_spec(*self, *p),
    {
        Color {
            r: mul_channel_exec(self.r, p.r),
            g: mul_channel_exec(self.g, p.g),
            b: mul_channel_exec(self.b, p.b),
            a: mul_channel_exec(self.a, p.a),
        }
    }

    /// `self` composited over `back`.
    pub fn blend(&self, back: &Color) -> (c: Color)
        ensures
            c == blend_spec(*self, *back),
    {
        let af: u8 = self.a;
        proof {
            lemma_mul_channel_bound(back.a, (255 - af) as u8);
        }
        let w: u32 = af as u32 * 255 + back.a as u32 * (255 - af as u32);
        if w == 0 {
            return Color { r: 0, g: 0, b: 0, a: 0 };
        }
        Color {
            r: blend_channel_exec(self.r, af, back.r, back.a, w),
            g: blend_channel_exec(self.g, af, back.g, back.a, w),
            b: blend_channel_exec(self.b, af, back.b, back.a, w),
            a: (w / 255) as u8,
        }
    }

    /// The color as `#rrggbbaa`.
    pub fn to_hex(&self) -> (r: String)
        ensures
            r@ == hex_string(*self),
    {
        let mut r: String = String::from_str("#");
        proof {
            reveal_strlit("#");
        }
        r.append(hex_digit_str((self.r / 16) as usize));
        r.append(hex_digit_str((self.r % 16) as usize));
        r.append(hex_digit_str((self.g / 16) as usize));
        r.append(hex_digit_str((self.g % 16) as usize));
        r.append(hex_digit_str((self.b / 16) as usize));
        r.append(hex_digit_str((self.b % 16) as usize));
        r.append(hex_digit_str((self.a / 16) as usize));
        r.append(hex_digit_str((self.a % 16) as usize));
        assert(r@ =~= hex_string(*self));
        r
    }

    /// Red in 8 bits.
    pub fn r(&self) -> (v: u8)
        ensures
            v == self.r,
    {
        self.r
    }

    /// Green in 8 bits.
    pub fn g(&self) -> (v: u8)
        ensures
            v == self.g,
    {
        self.g
    }

    /// Blue in 8 bits.
    pub fn b(&self) -> (v: u8)
        ensures
            v == self.b,
    {
        self.b
    }

    /// Alpha in 8 bits.
    pub fn a(&self) -> (v: u8)
        ensures
            v == self.a,
    {
        self.a
    }
}

/// Compositing a fully transparent color over an opaque one gives the
/// opaque one back.
pub proof fn law_blend_transparent_over_opaque(front: Color, back: Color)
    requires
        front.a == 0,
        back.a == 255,
    ensures
        blend_spec(front, back) == back,
{
    assert forall|cf: u8, cb: u8|
        blend_channel(cf, 0, cb, 255, 65025) == cb by {
        assert((cf as int * 0 * 255 + cb as int * 255 * (255 - 0)) / 65025 == cb as int)
            by (nonlinear_arith)
            requires
                cb <= 255,
        ;
    }
    assert(blend_weight(front, back) == 65025);
}

/// Over opaque black, each channel of the result is at most the front's
/// alpha: the lower that alpha, the darker the result, down to opaque black
/// for a fully transparent front.
pub proof fn law_blend_over_opaque_black(front: Color)
    ensures
        blend_spec(front, Color { r: 0, g: 0, b: 0, a: 255 }).a == 255,
        blend_spec(front, Color { r: 0, g: 0, b: 0, a: 255 }).r <= front.a,
        blend_spec(front, Color { r: 0, g: 0, b: 0, a: 255 }).g <= front.a,
        blend_spec(front, Color { r: 0, g: 0, b: 0, a: 255 }).b <= front.a,
        front.a == 0 ==> blend_spec(front, Color { r: 0, g: 0, b: 0, a: 255 }) == (Color {
            r: 0,
            g: 0,
            b: 0,
            a: 255,
        }),
{
    let af = front.a;
    assert(front.a as int * 255 + 255 * (255 - front.a as int) == 65025);
    assert forall|cf: u8| #[trigger]
        blend_channel(cf, af, 0, 255, 65025) <= af by {
        let q = (cf as int * af as int * 255 + 0 * 255 * (255 - af as int)) / 65025;
        assert(0 <= q <= af) by (nonlinear_arith)
            requires
                q == (cf as int * af as int * 255 + 0 * 255 * (255 - af as int)) / 65025,
                cf <= 255,
                af <= 255,
        ;
    }
}

/// Tinting is symmetric: `cross(x, y) == cross(y, x)`.
pub proof fn law_cross_commutes(x: Color, y: Color)
    ensures
        cross_spec(x, y) == cross_spec(y, x),
{
    assert(x.r as int * y.r as int == y.r as int * x.r as int) by (nonlinear_arith);
    assert(x.g as int * y.g as int == y.g as int * x.g as int) by (nonlinear_arith);
    assert(x.b as int * y.b as int == y.b as int * x.b as int) by (nonlinear_arith);
    assert(x.a as int * y.a as int == y.a as int * x.a as int) by (nonlinear_arith);
}

/// Tinting by opaque white leaves a color as it is.
pub proof fn law_cross_white(x: Color)
    ensures
        cross_spec(x, Color { r: 255, g: 255, b: 255, a: 255 }) == x,
{
    assert forall|v: u8| #[trigger] mul_channel(v, 255) == v by {
        assert((v as int * 255) / 255 == v as int) by (nonlinear_arith);
    }
}

/// Tinting black by anything stays black; the alpha is the product of the
/// two alphas.
pub proof fn law_cross_black(y: Color, a: u8)
    ensures
        cross_spec(Color { r: 0, g: 0, b: 0, a }, y) == (Color {
            r: 0,
            g: 0,
            b: 0,
            a: mul_channel(a, y.a),
        }),
{
}

/// Tinting two colors that share no lit channel gives black.
pub proof fn law_cross_disjoint_primaries(x: Color, y: Color)
    requires
        x.r == 0 || y.r == 0,
        x.g == 0 || y.g == 0,
        x.b == 0 || y.b == 0,
    ensures
        cross_spec(x, y).r == 0,
        cross_spec(x, y).g == 0,
        cross_spec(x, y).b == 0,
{
}

} // verus!
