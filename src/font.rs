use vstd::prelude::*;
use std::collections::HashMap;
use crate::color::{hex_char, hex_digit_str};
use crate::error::{ErrorView, RenderError};

verus! {

broadcast use vstd::std_specs::hash::group_hash_axioms;

/// Bit `y` of `w`.
pub open spec fn bit_at(w: u64, y: int) -> bool {
    (w >> (y as u64)) & 1u64 == 1u64
}

/// The glyph of one character: a grid of lit and unlit pixels, each column
/// packed into the low bits of a word (row `y` in bit `y`).
#[derive(Debug, Clone)]
pub struct CharImage {
    ysize: usize,
    arr: Vec<u64>,
}

impl View for CharImage {
    type V = Seq<Seq<bool>>;

    /// The columns, left to right, each from top to bottom.
    closed spec fn view(&self) -> Seq<Seq<bool>> {
        self.arr@.map_values(|w: u64| Seq::new(self.ysize as nat, |y: int| bit_at(w, y)))
    }
}

proof fn lemma_bits_of_zero(y: u64)
    requires
        y < 64,
    ensures
        (0u64 >> y) & 1u64 != 1u64,
{
    assert((0u64 >> y) & 1u64 != 1u64) by (bit_vector)
        requires
            y < 64,
    ;
}

proof fn lemma_set_bit(w: u64, y: u64, z: u64)
    requires
        y < 64,
        z < 64,
    ensures
        ((w | (1u64 << y)) >> z) & 1u64 == 1u64 <==> (z == y || (w >> z) & 1u64 == 1u64),
        ((w & !(1u64 << y)) >> z) & 1u64 == 1u64 <==> (z != y && (w >> z) & 1u64 == 1u64),
        (w & (1u64 << y) != 0) <==> (w >> y) & 1u64 == 1u64,
{
    assert(((w | (1u64 << y)) >> z) & 1u64 == 1u64 <==> (z == y || (w >> z) & 1u64 == 1u64))
        by (bit_vector)
        requires
            y < 64,
            z < 64,
    ;
    assert(((w & !(1u64 << y)) >> z) & 1u64 == 1u64 <==> (z != y && (w >> z) & 1u64 == 1u64))
        by (bit_vector)
        requires
            y < 64,
            z < 64,
    ;
    assert((w & (1u64 << y) != 0) <==> (w >> y) & 1u64 == 1u64) by (bit_vector)
        requires
            y < 64,
    ;
}

impl CharImage {
    /// The number of rows.
    pub closed spec fn spec_ysize(&self) -> nat {
        self.ysize as nat
    }

    /// A column fits in a word, and every column has `spec_ysize()` pixels.
    pub open spec fn wf(&self) -> bool {
        &&& self.spec_ysize() <= 64
        &&& forall|x: int| 0 <= x < self@.len() ==> (#[trigger] self@[x]).len() == self.spec_ysize()
    }

    /// An unlit glyph of `xsize` columns and `ysize` rows.
    pub fn new(xsize: usize, ysize: usize) -> (r: CharImage)
        requires
            ysize <= 64,
        ensures
            r.wf(),
            r.spec_ysize() == ysize,
            r@ == Seq::new(xsize as nat, |x: int| Seq::new(ysize as nat, |y: int| false)),
    {
        let mut arr: Vec<u64> = Vec::with_capacity(xsize);
        let mut x: usize = 0;
        while x < xsize
            invariant
                x <= xsize,
                arr@ == Seq::new(x as nat, |i: int| 0u64),
            decreases xsize - x,
        {
            arr.push(0);
            x = x + 1;
            assert(arr@ =~= Seq::new(x as nat, |i: int| 0u64));
        }
        let r = CharImage { ysize, arr };
        assert forall|i: int| 0 <= i < xsize implies r@[i] == Seq::new(ysize as nat, |y: int| false) by {
            assert forall|y: int| 0 <= y < ysize implies !bit_at(0u64, y) by {
                lemma_bits_of_zero(y as u64);
            }
            assert(r@[i] =~= Seq::new(ysize as nat, |y: int| false));
        }
        assert(r@ =~= Seq::new(xsize as nat, |x: int| Seq::new(ysize as nat, |y: int| false)));
        r
    }

    /// Lights (`v`) or clears pixel `(x, y)`.
    pub fn set(&mut self, x: usize, y: usize, v: bool)
        requires
            old(self).wf(),
            x < old(self)@.len(),
            y < old(self).spec_ysize(),
        ensures
            final(self).wf(),
            final(self).spec_ysize() == old(self).spec_ysize(),
            final(self)@ == old(self)@.update(x as int, old(self)@[x as int].update(y as int, v)),
    {
        let ghost before = self@;
        let current: u64 = self.arr[x];
        let mask: u64 = 1u64 << (y as u64);
        let next: u64 = if v {
            current | mask
        } else {
            current & !mask
        };
        self.arr.set(x, next);
        assert forall|z: int| 0 <= z < self.ysize implies bit_at(next, z) == (if z == y {
            v
        } else {
            bit_at(current, z)
        }) by {
            lemma_set_bit(current, y as u64, z as u64);
        }
        assert(self@[x as int] =~= before[x as int].update(y as int, v));
        assert(self@ =~= before.update(x as int, before[x as int].update(y as int, v)));
    }

    /// Whether pixel `(x, y)` is lit.
    pub fn get(&self, x: usize, y: usize) -> (r: bool)
        requires
            self.wf(),
            x < self@.len(),
            y < self.spec_ysize(),
        ensures
            r == self@[x as int][y as int],
    {
        let current: u64 = self.arr[x];
        let mask: u64 = 1u64 << (y as u64);
        proof {
            lemma_set_bit(current, y as u64, y as u64);
        }
        current & mask != 0
    }

    /// Width and height.
    pub fn dim(&self) -> (r: (usize, usize))
        ensures
            r.0 == self@.len(),
            r.1 == self.spec_ysize(),
    {
        (self.arr.len(), self.ysize)
    }

    /// The glyph drawn by a grey-scale raster given row by row: a pixel darker
    /// than 8 is lit.
    pub fn from_luma(xsize: usize, ysize: usize, luma: &Vec<u8>) -> (r: CharImage)
        requires
            ysize <= 64,
            luma@.len() == xsize * ysize,
        ensures
            r.wf(),
            r.spec_ysize() == ysize,
            r@.len() == xsize,
            forall|x: int, y: int|
                0 <= x < xsize && 0 <= y < ysize ==> #[trigger] r@[x][y] == (luma@[y * xsize + x]
                    < 8),
    {
        let total: usize = luma.len();
        let mut img = CharImage::new(xsize, ysize);
        let mut x: usize = 0;
        while x < xsize
            invariant
                luma@.len() == xsize * ysize,
                total == luma@.len(),
                x <= xsize,
                img.wf(),
                img.spec_ysize() == ysize,
                img@.len() == xsize,
                forall|i: int, y: int|
                    0 <= i < x && 0 <= y < ysize ==> #[trigger] img@[i][y] == (luma@[y * xsize + i]
                        < 8),
                forall|i: int, y: int| x <= i < xsize && 0 <= y < ysize ==> !#[trigger] img@[i][y],
            decreases xsize - x,
        {
            let mut y: usize = 0;
            while y < ysize
                invariant
                    luma@.len() == xsize * ysize,
                    total == luma@.len(),
                    x < xsize,
                    y <= ysize,
                    img.wf(),
                    img.spec_ysize() == ysize,
                    img@.len() == xsize,
                    forall|i: int, yy: int|
                        (0 <= i < x && 0 <= yy < ysize) || (i == x && 0 <= yy < y)
                            ==> #[trigger] img@[i][yy] == (luma@[yy * xsize + i] < 8),
                    forall|i: int, yy: int|
                        ((x < i < xsize && 0 <= yy < ysize) || (i == x && y <= yy < ysize))
                            ==> !#[trigger] img@[i][yy],
                decreases ysize - y,
            {
                proof {
                    assert(y * xsize + x < xsize * ysize && 0 <= y * xsize) by (nonlinear_arith)
                        requires
                            y < ysize,
                            x < xsize,
                    ;
                }
                let lit: bool = luma[y * xsize + x] < 8;
                img.set(x, y, lit);
                y = y + 1;
            }
            x = x + 1;
        }
        img
    }
}

/// The name of the file that holds the glyph of `ch`: the low 16 bits of its
/// code in four lower-case hex digits, then `.png`.
pub open spec fn glyph_file_name(ch: char) -> Seq<char> {
    let v = (ch as u32 as int) % 65536;
    seq![hex_char(v / 4096), hex_char((v / 256) % 16), hex_char((v / 16) % 16), hex_char(v % 16)]
        + seq!['.', 'p', 'n', 'g']
}

/// The directory that holds the glyph files of font `font_name` under
/// `search_path`.
pub fn font_dir_path(search_path: &str, font_name: &str) -> (r: String)
    ensures
        r@ == search_path@ + seq!['/'] + font_name@ + seq!['/', 'c', 'h', 'a', 'r', 's'],
{
    let mut dir: String = String::from_str(search_path);
    dir.append("/");
    dir.append(font_name);
    dir.append("/chars");
    proof {
        reveal_strlit("/");
        reveal_strlit("/chars");
    }
    assert(dir@ =~= search_path@ + seq!['/'] + font_name@ + seq!['/', 'c', 'h', 'a', 'r', 's']);
    dir
}

/// The path of the file in `dir` that holds the glyph of `ch`.
pub fn glyph_path(dir: &str, ch: char) -> (r: String)
    ensures
        r@ == dir@ + seq!['/'] + glyph_file_name(ch),
{
    let code: u32 = ch as u32;
    let v: usize = (code & 0xffffu32) as usize;
    proof {
        assert(code & 0xffffu32 == code % 65536) by (bit_vector);
    }
    let mut r: String = String::from_str(dir);
    r.append("/");
    r.append(hex_digit_str(v / 4096));
    r.append(hex_digit_str((v / 256) % 16));
    r.append(hex_digit_str((v / 16) % 16));
    r.append(hex_digit_str(v % 16));
    r.append(".png");
    proof {
        reveal_strlit("/");
        reveal_strlit(".png");
    }
    assert(r@ =~= dir@ + seq!['/'] + glyph_file_name(ch));
    r
}

/// The glyphs of one font, by character code, with the space glyph always
/// present: its height is the font's height.
#[derive(Debug, Clone)]
pub struct FontDir {
    dir: String,
    cache: HashMap<u32, CharImage>,
}

impl FontDir {
    /// The glyph of each character that has been loaded.
    pub closed spec fn glyphs(&self) -> Map<u32, CharImage> {
        self.cache@
    }

    /// Where the glyph files lie.
    pub closed spec fn spec_dir(&self) -> Seq<char> {
        self.dir@
    }

    pub open spec fn wf(&self) -> bool {
        &&& self.glyphs().contains_key(' ' as u32)
        &&& forall|k: u32| #[trigger] self.glyphs().contains_key(k) ==> self.glyphs()[k].wf()
    }

    /// The height of the font: that of its space glyph.
    pub open spec fn spec_height(&self) -> nat {
        self.glyphs()[' ' as u32].spec_ysize()
    }

    /// A font whose glyph files lie in `search_path/font_name/chars`, with
    /// its space glyph.
    pub fn new(search_path: &str, font_name: &str, space: CharImage) -> (r: FontDir)
        requires
            space.wf(),
        ensures
            r.wf(),
            r.glyphs() == Map::<u32, CharImage>::empty().insert(' ' as u32, space),
            r.spec_dir() == search_path@ + seq!['/'] + font_name@ + seq!['/', 'c', 'h', 'a', 'r', 's'],
    {
        let dir: String = font_dir_path(search_path, font_name);
        let mut cache: HashMap<u32, CharImage> = HashMap::new();
        cache.insert(' ' as u32, space);
        assert(cache@ == Map::<u32, CharImage>::empty().insert(' ' as u32, space));
        FontDir { dir, cache }
    }

    /// The path of the file that holds the glyph of `ch`.
    pub fn char_path(&self, ch: char) -> (r: String)
        ensures
            r@ == self.spec_dir() + seq!['/'] + glyph_file_name(ch),
    {
        glyph_path(self.dir.as_str(), ch)
    }

    /// Whether the glyph of `ch` has been loaded.
    pub fn has_char(&self, ch: char) -> (r: bool)
        ensures
            r == self.glyphs().contains_key(ch as u32),
    {
        self.cache.contains_key(&(ch as u32))
    }

    /// Adds the glyph of `ch`, replacing one loaded before.
    pub fn insert_char(&mut self, ch: char, glyph: CharImage)
        requires
            old(self).wf(),
            glyph.wf(),
            ch != ' ' || glyph.spec_ysize() == old(self).spec_height(),
        ensures
            final(self).wf(),
            final(self).glyphs() == old(self).glyphs().insert(ch as u32, glyph),
            final(self).spec_dir() == old(self).spec_dir(),
            final(self).spec_height() == old(self).spec_height(),
    {
        self.cache.insert(ch as u32, glyph);
    }

    /// The glyph of `ch`.
    pub fn get_char(&self, ch: char) -> (r: Result<&CharImage, RenderError>)
        ensures
            match r {
                Ok(g) => self.glyphs().contains_key(ch as u32) && *g == self.glyphs()[ch as u32],
                Err(e) => !self.glyphs().contains_key(ch as u32) && e@ == ErrorView::GlyphMissing(ch),
            },
    {
        match self.cache.get(&(ch as u32)) {
            Some(g) => Ok(g),
            None => Err(RenderError::GlyphMissing(ch)),
        }
    }

    /// The height of every glyph of the font.
    pub fn height(&self) -> (h: usize)
        requires
            self.wf(),
        ensures
            h == self.spec_height(),
    {
        let space: &CharImage = self.cache.get(&(' ' as u32)).unwrap();
        space.dim().1
    }
}

} // verus!
