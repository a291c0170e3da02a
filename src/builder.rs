use vstd::prelude::*;
use crate::array::Array;
use crate::color::Color;
use crate::color_set::ColorSet;
use crate::error::{ErrorView, RenderError};
use crate::font::{CharImage, FontDir};
use crate::source::{Command, Space, Text};

verus! {

/// The columns of a glyph with lit pixels in `fore` and the rest in `back`.
pub open spec fn glyph_columns(g: Seq<Seq<bool>>, fore: Color, back: Color) -> Seq<Seq<Color>> {
    g.map_values(|col: Seq<bool>| col.map_values(|lit: bool| if lit { fore } else { back }))
}

/// The columns of the glyphs of `content`, one character after another.
pub open spec fn text_columns(
    font: Map<u32, CharImage>,
    content: Seq<char>,
    fore: Color,
    back: Color,
) -> Seq<Seq<Color>>
    decreases content.len(),
{
    if content.len() == 0 {
        Seq::empty()
    } else {
        text_columns(font, content.drop_last(), fore, back) + glyph_columns(
            font[content.last() as u32]@,
            fore,
            back,
        )
    }
}

/// The first character from `i` on that has no glyph or a glyph of another
/// height than `h`, or the length of `content` if there is none.
pub open spec fn first_bad_char(font: Map<u32, CharImage>, content: Seq<char>, h: nat, i: int) -> int
    decreases content.len() - i,
{
    if i >= content.len() || i < 0 {
        content.len() as int
    } else if !font.contains_key(content[i] as u32) || font[content[i] as u32].spec_ysize() != h {
        i
    } else {
        first_bad_char(font, content, h, i + 1)
    }
}

proof fn lemma_first_bad_char(font: Map<u32, CharImage>, content: Seq<char>, h: nat, i: int)
    requires
        0 <= i <= content.len(),
        first_bad_char(font, content, h, i) == content.len(),
    ensures
        forall|j: int|
            i <= j < content.len() ==> font.contains_key(#[trigger] content[j] as u32)
                && font[content[j] as u32].spec_ysize() == h,
    decreases content.len() - i,
{
    if i < content.len() {
        lemma_first_bad_char(font, content, h, i + 1);
    }
}

pub open spec fn name_or(name: Option<Seq<char>>, default: Seq<char>) -> Seq<char> {
    match name {
        Some(n) => n,
        None => default,
    }
}

/// What a text run adds to a grid of height `h`, or why it fails: first an
/// unknown foreground, then an unknown background, then the first character
/// without a glyph or with a glyph of another height.
pub open spec fn text_outcome(
    colors: Map<Seq<char>, Color>,
    font: Map<u32, CharImage>,
    h: nat,
    text: Text,
) -> Result<Seq<Seq<Color>>, ErrorView> {
    let fore = name_or(text.spec_foreground(), "_foreground"@);
    let back = name_or(text.spec_background(), "_background"@);
    let content = text.spec_content();
    let k = first_bad_char(font, content, h, 0);
    if !colors.contains_key(fore) {
        Err(ErrorView::UnknownForeground(fore))
    } else if !colors.contains_key(back) {
        Err(ErrorView::UnknownBackground(back))
    } else if k < content.len() {
        if !font.contains_key(content[k] as u32) {
            Err(ErrorView::GlyphMissing(content[k]))
        } else {
            Err(ErrorView::HeightMismatch)
        }
    } else {
        Ok(text_columns(font, content, colors[fore], colors[back]))
    }
}

/// What a space run adds to a grid of height `h`: `width` columns in its
/// background color, or why it fails.
pub open spec fn space_outcome(colors: Map<Seq<char>, Color>, h: nat, space: Space) -> Result<
    Seq<Seq<Color>>,
    ErrorView,
> {
    let back = name_or(space.spec_background(), "_background"@);
    if !colors.contains_key(back) {
        Err(ErrorView::UnknownBackground(back))
    } else {
        Ok(Seq::new(space.spec_width(), |x: int| Seq::new(h, |y: int| colors[back])))
    }
}

pub open spec fn command_outcome(
    colors: Map<Seq<char>, Color>,
    font: Map<u32, CharImage>,
    h: nat,
    command: Command,
) -> Result<Seq<Seq<Color>>, ErrorView> {
    match command {
        Command::Text(t) => text_outcome(colors, font, h, t),
        Command::Space(s) => space_outcome(colors, h, s),
    }
}

/// Renders runs, in order, into a grid of the font's height.
#[derive(Debug)]
pub struct ArrayBuilder {
    array: Array,
    color_set: ColorSet,
    font_dir: FontDir,
}

impl ArrayBuilder {
    /// The grid so far.
    pub closed spec fn grid(&self) -> Array {
        self.array
    }

    pub closed spec fn colors(&self) -> Map<Seq<char>, Color> {
        self.color_set@
    }

    pub closed spec fn font(&self) -> FontDir {
        self.font_dir
    }

    pub open spec fn wf(&self) -> bool {
        &&& self.grid().wf()
        &&& self.font().wf()
        &&& self.grid().spec_height() == self.font().spec_height()
    }

    /// An empty grid of the font's height.
    pub fn new(color_set: ColorSet, font_dir: FontDir) -> (r: ArrayBuilder)
        requires
            font_dir.wf(),
        ensures
            r.wf(),
            r.grid()@ == Seq::<Seq<Color>>::empty(),
            r.colors() == color_set@,
            r.font() == font_dir,
    {
        let height: usize = font_dir.height();
        ArrayBuilder { array: Array::new(height), color_set, font_dir }
    }

    /// Appends the columns of one run. On failure the grid is unchanged.
    pub fn process(&mut self, command: &Command) -> (r: Result<(), RenderError>)
        requires
            old(self).wf(),
        ensures
            final(self).wf(),
            final(self).colors() == old(self).colors(),
            final(self).font() == old(self).font(),
            match r {
                Ok(()) => command_outcome(
                    old(self).colors(),
                    old(self).font().glyphs(),
                    old(self).grid().spec_height(),
                    *command,
                ) is Ok && final(self).grid()@ == old(self).grid()@ + command_outcome(
                    old(self).colors(),
                    old(self).font().glyphs(),
                    old(self).grid().spec_height(),
                    *command,
                )->Ok_0,
                Err(e) => command_outcome(
                    old(self).colors(),
                    old(self).font().glyphs(),
                    old(self).grid().spec_height(),
                    *command,
                ) == Err::<Seq<Seq<Color>>, _>(e@) && final(self).grid()@ == old(self).grid()@,
            },
    {
        match command {
            Command::Text(text) => self.process_text(text),
            Command::Space(space) => self.process_space(space),
        }
    }

    fn process_text(&mut self, text: &Text) -> (r: Result<(), RenderError>)
        requires
            old(self).wf(),
        ensures
            final(self).wf(),
            final(self).colors() == old(self).colors(),
            final(self).font() == old(self).font(),
            match r {
                Ok(()) => text_outcome(
                    old(self).colors(),
                    old(self).font().glyphs(),
                    old(self).grid().spec_height(),
                    *text,
                ) is Ok && final(self).grid()@ == old(self).grid()@ + text_outcome(
                    old(self).colors(),
                    old(self).font().glyphs(),
                    old(self).grid().spec_height(),
                    *text,
                )->Ok_0,
                Err(e) => text_outcome(
                    old(self).colors(),
                    old(self).font().glyphs(),
                    old(self).grid().spec_height(),
                    *text,
                ) == Err::<Seq<Seq<Color>>, _>(e@) && final(self).grid()@ == old(self).grid()@,
            },
    {
        let fore_name: &str = match text.foreground() {
            Some(s) => s,
            None => "_foreground",
        };
        let back_name: &str = match text.background() {
            Some(s) => s,
            None => "_background",
        };
        let fore: Color = match self.color_set.get(fore_name) {
            Ok(c) => *c,
            Err(_) => {
                return Err(RenderError::UnknownForeground(String::from_str(fore_name)));
            },
        };
        let back: Color = match self.color_set.get(back_name) {
            Ok(c) => *c,
            Err(_) => {
                return Err(RenderError::UnknownBackground(String::from_str(back_name)));
            },
        };
        let content: &str = text.content();
        let n: usize = content.unicode_len();
        let h: usize = self.array.height();
        let ghost font = self.font_dir.glyphs();
        let mut i: usize = 0;
        while i < n
            invariant
                self.wf(),
                self.grid() == old(self).grid(),
                self.colors() == old(self).colors(),
                self.font() == old(self).font(),
                self.colors().contains_key(name_or(text.spec_foreground(), "_foreground"@)),
                self.colors().contains_key(name_or(text.spec_background(), "_background"@)),
                n == content@.len(),
                content@ == text.spec_content(),
                font == self.font_dir.glyphs(),
                h == self.array.spec_height(),
                i <= n,
                first_bad_char(font, content@, h as nat, 0) == first_bad_char(
                    font,
                    content@,
                    h as nat,
                    i as int,
                ),
            decreases n - i,
        {
            let c: char = content.get_char(i);
            match self.font_dir.get_char(c) {
                Err(e) => {
                    return Err(e);
                },
                Ok(g) => {
                    if g.dim().1 != h {
                        return Err(RenderError::HeightMismatch);
                    }
                },
            }
            i = i + 1;
        }
        let ghost start = self.array@;
        proof {
            lemma_first_bad_char(font, content@, h as nat, 0);
        }
        let mut i: usize = 0;
        assert(content@.take(0) =~= Seq::<char>::empty());
        assert(start + Seq::<Seq<Color>>::empty() =~= start);
        while i < n
            invariant
                self.wf(),
                n == content@.len(),
                font == self.font_dir.glyphs(),
                self.colors() == old(self).colors(),
                self.font() == old(self).font(),
                h == self.array.spec_height(),
                i <= n,
                first_bad_char(font, content@, h as nat, 0) == n,
                forall|j: int|
                    0 <= j < n ==> font.contains_key(#[trigger] content@[j] as u32) && font[content@[j]
                        as u32].spec_ysize() == h,
                self.array@ == start + text_columns(font, content@.take(i as int), fore, back),
            decreases n - i,
        {
            let c: char = content.get_char(i);
            assert(font.contains_key(content@[i as int] as u32));
            let g: &CharImage = match self.font_dir.get_char(c) {
                Ok(g) => g,
                Err(e) => {
                    return Err(e);
                },
            };
            let w: usize = g.dim().0;
            let ghost before = self.array@;
            let mut x: usize = 0;
            while x < w
                invariant
                    self.wf(),
                    self.colors() == old(self).colors(),
                    self.font() == old(self).font(),
                    h == self.array.spec_height(),
                    g.wf(),
                    g.spec_ysize() == h,
                    w == g@.len(),
                    x <= w,
                    self.array@ == before + glyph_columns(g@, fore, back).take(x as int),
                decreases w - x,
            {
                let mut line: Vec<Color> = Vec::new();
                let mut y: usize = 0;
                while y < h
                    invariant
                        g.wf(),
                        g.spec_ysize() == h,
                        w == g@.len(),
                        x < w,
                        y <= h,
                        line@ == glyph_columns(g@, fore, back)[x as int].take(y as int),
                    decreases h - y,
                {
                    if g.get(x, y) {
                        line.push(fore);
                    } else {
                        line.push(back);
                    }
                    y = y + 1;
                    assert(line@ =~= glyph_columns(g@, fore, back)[x as int].take(y as int));
                }
                assert(line@ =~= glyph_columns(g@, fore, back)[x as int]);
                let _ = self.array.add_line(line);
                x = x + 1;
                assert(self.array@ =~= before + glyph_columns(g@, fore, back).take(x as int));
            }
            assert(glyph_columns(g@, fore, back).take(w as int) =~= glyph_columns(g@, fore, back));
            assert(content@.take(i + 1).drop_last() =~= content@.take(i as int));
            i = i + 1;
            assert(self.array@ =~= start + text_columns(font, content@.take(i as int), fore, back));
        }
        assert(content@.take(n as int) =~= content@);
        Ok(())
    }

    fn process_space(&mut self, space: &Space) -> (r: Result<(), RenderError>)
        requires
            old(self).wf(),
        ensures
            final(self).wf(),
            final(self).colors() == old(self).colors(),
            final(self).font() == old(self).font(),
            match r {
                Ok(()) => space_outcome(old(self).colors(), old(self).grid().spec_height(), *space)
                    is Ok && final(self).grid()@ == old(self).grid()@ + space_outcome(
                    old(self).colors(),
                    old(self).grid().spec_height(),
                    *space,
                )->Ok_0,
                Err(e) => space_outcome(old(self).colors(), old(self).grid().spec_height(), *space)
                    == Err::<Seq<Seq<Color>>, _>(e@) && final(self).grid()@ == old(self).grid()@,
            },
    {
        let back_name: &str = match space.background() {
            Some(s) => s,
            None => "_background",
        };
        let back: Color = match self.color_set.get(back_name) {
            Ok(c) => *c,
            Err(_) => {
                return Err(RenderError::UnknownBackground(String::from_str(back_name)));
            },
        };
        let h: usize = self.array.height();
        let width: usize = space.width();
        let ghost start = self.array@;
        let ghost want = Seq::new(width as nat, |x: int| Seq::new(h as nat, |y: int| back));
        let mut x: usize = 0;
        while x < width
            invariant
                self.wf(),
                self.colors() == old(self).colors(),
                self.font() == old(self).font(),
                h == self.array.spec_height(),
                x <= width,
                want == Seq::new(width as nat, |x: int| Seq::new(h as nat, |y: int| back)),
                self.array@ == start + want.take(x as int),
            decreases width - x,
        {
            let mut line: Vec<Color> = Vec::new();
            let mut y: usize = 0;
            while y < h
                invariant
                    y <= h,
                    line@ == Seq::new(y as nat, |j: int| back),
                decreases h - y,
            {
                line.push(back);
                y = y + 1;
                assert(line@ =~= Seq::new(y as nat, |j: int| back));
            }
            assert(line@ =~= want[x as int]);
            let _ = self.array.add_line(line);
            x = x + 1;
            assert(self.array@ =~= start + want.take(x as int));
        }
        assert(want.take(width as int) =~= want);
        Ok(())
    }

    /// The finished grid.
    pub fn finish(self) -> (r: Array)
        ensures
            r == self.grid(),
    {
        self.array
    }
}

} // verus!
