use vstd::prelude::*;
use crate::color::{is_literal, literal_color, strip_ats};
use crate::color_set::{
    build_outcome, entry_for, upsert, ColorSet, ColorSetBuilder, EntryView,
};
use crate::error::{ErrorView, RenderError};

verus! {

/// A rendering job: its settings, an optional output name, and the runs to
/// render in order.
#[derive(Debug, Clone)]
pub struct Source {
    meta: Metadata,
    output: Option<String>,
    body: Vec<Command>,
}

/// The settings of a job: named colors (text for each name), the image of
/// one dot, the font, and the frame width when the output scrolls.
#[derive(Debug, Clone)]
pub struct Metadata {
    colors: Vec<(String, String)>,
    dot: String,
    font: String,
    scroll: Option<Scroll>,
}

/// Scrolling output: the width of a frame, in logical columns.
#[derive(Debug, Clone)]
pub struct Scroll {
    width: usize,
}

/// One run to render.
#[derive(Debug, Clone)]
pub enum Command {
    Text(Text),
    Space(Space),
}

/// Text in a foreground color over a background color; the names default
/// to `_foreground` and `_background`.
#[derive(Debug, Clone)]
pub struct Text {
    content: String,
    foreground: Option<String>,
    background: Option<String>,
}

/// Blank columns in a background color, which defaults to `_background`.
#[derive(Debug, Clone)]
pub struct Space {
    width: usize,
    background: Option<String>,
}

pub open spec fn opt_view(o: Option<String>) -> Option<Seq<char>> {
    match o {
        Some(s) => Some(s@),
        None => None,
    }
}

pub open spec fn pairs_view(v: Seq<(String, String)>) -> Seq<(Seq<char>, Seq<char>)> {
    v.map_values(|p: (String, String)| (p.0@, p.1@))
}

/// Entries of a color set after appending `colors` in order.
pub open spec fn entries_after(colors: Seq<(Seq<char>, Seq<char>)>) -> Seq<(Seq<char>, EntryView)>
    decreases colors.len(),
{
    if colors.len() == 0 {
        Seq::empty()
    } else {
        upsert(
            entries_after(colors.drop_last()),
            colors.last().0,
            entry_for(colors.last().1),
        )
    }
}

/// The first color text from `i` on that is a malformed literal, or the
/// number of colors if there is none.
pub open spec fn first_malformed(colors: Seq<(Seq<char>, Seq<char>)>, i: int) -> int
    decreases colors.len() - i,
{
    if i >= colors.len() || i < 0 {
        colors.len() as int
    } else if is_literal(colors[i].1) && literal_color(strip_ats(colors[i].1)) is None {
        i
    } else {
        first_malformed(colors, i + 1)
    }
}

impl Source {
    pub closed spec fn spec_meta(&self) -> Metadata {
        self.meta
    }

    pub closed spec fn spec_output(&self) -> Option<Seq<char>> {
        opt_view(self.output)
    }

    pub closed spec fn spec_body(&self) -> Seq<Command> {
        self.body@
    }

    pub fn new(meta: Metadata, output: Option<String>, body: Vec<Command>) -> (r: Source)
        ensures
            r.spec_meta() == meta,
            r.spec_output() == opt_view(output),
            r.spec_body() == body@,
    {
        Source { meta, output, body }
    }

    /// The settings.
    pub fn metadata(&self) -> (r: Metadata)
        ensures
            r.spec_colors() == self.spec_meta().spec_colors(),
            r.spec_dot() == self.spec_meta().spec_dot(),
            r.spec_font() == self.spec_meta().spec_font(),
            r.spec_scroll() == self.spec_meta().spec_scroll(),
    {
        self.meta.copy()
    }

    /// The output name, if the job gives one.
    pub fn output(&self) -> (r: Option<String>)
        ensures
            opt_view(r) == self.spec_output(),
    {
        match &self.output {
            Some(o) => Some(o.clone()),
            None => None,
        }
    }

    /// The runs, in order.
    pub fn body(&self) -> (r: &Vec<Command>)
        ensures
            r@ == self.spec_body(),
    {
        &self.body
    }
}

impl Metadata {
    pub closed spec fn spec_colors(&self) -> Seq<(Seq<char>, Seq<char>)> {
        pairs_view(self.colors@)
    }

    pub closed spec fn spec_dot(&self) -> Seq<char> {
        self.dot@
    }

    pub closed spec fn spec_font(&self) -> Seq<char> {
        self.font@
    }

    pub closed spec fn spec_scroll(&self) -> Option<nat> {
        match self.scroll {
            Some(s) => Some(s.width as nat),
            None => None,
        }
    }

    pub fn new(colors: Vec<(String, String)>, dot: String, font: String, scroll: Option<Scroll>) -> (r: Metadata)
        ensures
            r.spec_colors() == pairs_view(colors@),
            r.spec_dot() == dot@,
            r.spec_font() == font@,
            r.spec_scroll() == (match scroll {
                Some(s) => Some(s.spec_width()),
                None => None::<nat>,
            }),
    {
        Metadata { colors, dot, font, scroll }
    }

    fn copy(&self) -> (r: Metadata)
        ensures
            r.spec_colors() == self.spec_colors(),
            r.spec_dot() == self.spec_dot(),
            r.spec_font() == self.spec_font(),
            r.spec_scroll() == self.spec_scroll(),
    {
        let mut colors: Vec<(String, String)> = Vec::new();
        let mut i: usize = 0;
        while i < self.colors.len()
            invariant
                i <= self.colors@.len(),
                pairs_view(colors@) == self.spec_colors().take(
                    i as int,
                ),
            decreases self.colors@.len() - i,
        {
            let ghost before = colors@;
            let n0: String = self.colors[i].0.clone();
            let n1: String = self.colors[i].1.clone();
            colors.push((n0, n1));
            assert(colors@ == before.push((n0, n1)));
            assert(pairs_view(colors@) =~= pairs_view(before).push((n0@, n1@)));
            assert(self.spec_colors()[i as int] == (n0@, n1@));
            assert(self.spec_colors().take(i + 1) =~= self.spec_colors().take(i as int).push((n0@, n1@)));
            i = i + 1;
            assert(pairs_view(colors@) =~= self.spec_colors().take(
                i as int,
            ));
        }
        assert(self.spec_colors().take(i as int) =~= self.spec_colors());
        let scroll: Option<Scroll> = match &self.scroll {
            Some(s) => Some(Scroll { width: s.width }),
            None => None,
        };
        Metadata { colors, dot: self.dot.clone(), font: self.font.clone(), scroll }
    }

    /// The named colors, each with its text, in order.
    pub fn colors(&self) -> (r: &Vec<(String, String)>)
        ensures
            pairs_view(r@) == self.spec_colors(),
    {
        &self.colors
    }

    /// The font's name.
    pub fn font(&self) -> (r: &str)
        ensures
            r@ == self.spec_font(),
    {
        self.font.as_str()
    }

    /// Where the image of one dot lies.
    pub fn dot(&self) -> (r: &str)
        ensures
            r@ == self.spec_dot(),
    {
        self.dot.as_str()
    }

    /// The scroll settings, if the output scrolls.
    pub fn scroll(&self) -> (r: Option<&Scroll>)
        ensures
            match r {
                Some(s) => self.spec_scroll() == Some(s.spec_width()),
                None => self.spec_scroll() is None,
            },
    {
        match &self.scroll {
            Some(s) => Some(s),
            None => None,
        }
    }

    /// Reads the named colors in order and resolves them. A malformed literal
    /// fails first; then resolving fails as `ColorSetBuilder::build` does.
    pub fn color_set(&self) -> (r: Result<ColorSet, RenderError>)
        ensures
            ({
                let cs = self.spec_colors();
                let k = first_malformed(cs, 0);
                if k < cs.len() {
                    r is Err && r->Err_0@ == ErrorView::MalformedColorLiteral(cs[k].1)
                } else {
                    match r {
                        Ok(set) => build_outcome(entries_after(cs)) == Ok::<_, ErrorView>(
                            set.entries(),
                        ),
                        Err(e) => build_outcome(entries_after(cs)) == Err::<
                            Seq<(Seq<char>, crate::color::Color)>,
                            _,
                        >(e@),
                    }
                }
            }),
    {
        let ghost cs = self.spec_colors();
        let mut builder = ColorSetBuilder::new();
        let mut i: usize = 0;
        assert(cs.take(0) =~= Seq::<(Seq<char>, Seq<char>)>::empty());
        while i < self.colors.len()
            invariant
                cs == self.spec_colors(),
                i <= cs.len(),
                builder.wf(),
                builder.entries() == entries_after(cs.take(i as int)),
                first_malformed(cs, 0) == first_malformed(cs, i as int),
            decreases cs.len() - i,
        {
            let name: String = self.colors[i].0.clone();
            let text: String = self.colors[i].1.clone();
            assert(cs[i as int] == (name@, text@));
            match builder.append(name, text) {
                Err(e) => {
                    return Err(e);
                },
                Ok(()) => {},
            }
            assert(cs.take(i + 1).drop_last() =~= cs.take(i as int));
            i = i + 1;
        }
        assert(cs.take(i as int) =~= cs);
        builder.build()
    }
}

impl Scroll {
    pub closed spec fn spec_width(&self) -> nat {
        self.width as nat
    }

    pub fn new(width: usize) -> (r: Scroll)
        ensures
            r.spec_width() == width,
    {
        Scroll { width }
    }

    /// The width of a frame, in logical columns.
    pub fn width(&self) -> (r: usize)
        ensures
            r == self.spec_width(),
    {
        self.width
    }
}

impl Text {
    pub closed spec fn spec_content(&self) -> Seq<char> {
        self.content@
    }

    pub closed spec fn spec_foreground(&self) -> Option<Seq<char>> {
        opt_view(self.foreground)
    }

    pub closed spec fn spec_background(&self) -> Option<Seq<char>> {
        opt_view(self.background)
    }

    pub fn new(content: String, foreground: Option<String>, background: Option<String>) -> (r: Text)
        ensures
            r.spec_content() == content@,
            r.spec_foreground() == opt_view(foreground),
            r.spec_background() == opt_view(background),
    {
        Text { content, foreground, background }
    }

    /// The characters to render.
    pub fn content(&self) -> (r: &str)
        ensures
            r@ == self.spec_content(),
    {
        self.content.as_str()
    }

    /// The foreground color's name, if given.
    pub fn foreground(&self) -> (r: Option<&str>)
        ensures
            match r {
                Some(s) => self.spec_foreground() == Some(s@),
                None => self.spec_foreground() is None,
            },
    {
        match &self.foreground {
            Some(s) => Some(s.as_str()),
            None => None,
        }
    }

    /// The background color's name, if given.
    pub fn background(&self) -> (r: Option<&str>)
        ensures
            match r {
                Some(s) => self.spec_background() == Some(s@),
                None => self.spec_background() is None,
            },
    {
        match &self.background {
            Some(s) => Some(s.as_str()),
            None => None,
        }
    }
}

impl Space {
    pub closed spec fn spec_width(&self) -> nat {
        self.width as nat
    }

    pub closed spec fn spec_background(&self) -> Option<Seq<char>> {
        opt_view(self.background)
    }

    pub fn new(width: usize, background: Option<String>) -> (r: Space)
        ensures
            r.spec_width() == width,
            r.spec_background() == opt_view(background),
    {
        Space { width, background }
    }

    /// The number of columns.
    pub fn width(&self) -> (r: usize)
        ensures
            r == self.spec_width(),
    {
        self.width
    }

    /// The background color's name, if given.
    pub fn background(&self) -> (r: Option<&str>)
        ensures
            match r {
                Some(s) => self.spec_background() == Some(s@),
                None => self.spec_background() is None,
            },
    {
        match &self.background {
            Some(s) => Some(s.as_str()),
            None => None,
        }
    }
}

} // verus!
