use vstd::prelude::*;
use crate::array::Array;
use crate::color::{cross_spec, Color};

verus! {

/// `t` is the stencil `dot` with every cell tinted by `c`.
pub open spec fn is_tint_of(t: Array, dot: Array, c: Color) -> bool {
    &&& t.wf()
    &&& t.spec_height() == dot.spec_height()
    &&& t@.len() == dot@.len()
    &&& forall|x: int, y: int|
        0 <= x < dot@.len() && 0 <= y < dot.spec_height() ==> #[trigger] t.at(x, y) == cross_spec(
            dot.at(x, y),
            c,
        )
}

pub open spec fn table_colors(table: Seq<(Color, Array)>) -> Seq<Color> {
    table.map_values(|e: (Color, Array)| e.0)
}

/// Every cell of `a` has its color among `colors`.
pub open spec fn covers(colors: Seq<Color>, a: Array) -> bool {
    forall|x: int, y: int|
        0 <= x < a@.len() && 0 <= y < a.spec_height() ==> colors.contains(#[trigger] a.at(x, y))
}

/// The color of physical pixel `(x, y)`: the stencil cell under it tinted by
/// the logical cell that it belongs to.
pub open spec fn expanded_at(array: Array, dot: Array, x: int, y: int) -> Color {
    cross_spec(
        dot.at(x % (dot@.len() as int), y % (dot.spec_height() as int)),
        array.at(x / (dot@.len() as int), y / (dot.spec_height() as int)),
    )
}

/// The logical columns that a window of `width` columns starting at column
/// `offset` sees: columns outside the grid are `background` throughout.
pub open spec fn slice_columns(
    cols: Seq<Seq<Color>>,
    height: nat,
    offset: int,
    width: nat,
    background: Color,
) -> Seq<Seq<Color>> {
    Seq::new(
        width,
        |i: int|
            if i + offset < 0 || i + offset >= cols.len() {
                Seq::new(height, |y: int| background)
            } else {
                cols[i + offset]
            },
    )
}

/// A logical grid seen through a dot stencil: each logical cell becomes a
/// block of the stencil's size, tinted by the cell's color. The tinted
/// stencil of each distinct color is computed once, when the grid is made.
#[derive(Debug)]
pub struct DotArray {
    array: Array,
    dot: Array,
    dot_table: Vec<(Color, Array)>,
}

proof fn lemma_div_bound(x: int, d: int, w: int)
    requires
        0 <= x < w * d,
        0 <= w,
        0 <= d,
    ensures
        d > 0,
        x / d < w,
        0 <= x % d < d,
        0 <= x / d,
{
    if d <= 0 {
        assert(w * d <= 0) by (nonlinear_arith)
            requires
                0 <= w,
                d <= 0,
        ;
    }
    assert(x / d < w) by (nonlinear_arith)
        requires
            0 <= x < w * d,
            d > 0,
    ;
}

/// A copy of `a`, cell for cell.
fn copy_array(a: &Array) -> (r: Array)
    requires
        a.wf(),
    ensures
        r.wf(),
        r.spec_height() == a.spec_height(),
        r@ == a@,
{
    let r = a.map(|c: &Color| -> (o: Color)
        ensures
            o == *c,
        { *c });
    assert forall|x: int| 0 <= x < r@.len() implies r@[x] == a@[x] by {
        assert(r@[x] =~= a@[x]) by {
            assert forall|y: int| 0 <= y < r@[x].len() implies r@[x][y] == a@[x][y] by {
                assert(r.at(x, y) == a.at(x, y));
            }
        }
    }
    assert(r@ =~= a@);
    r
}

/// The stencil tinted by `c`.
fn tint(dot: &Array, c: Color) -> (r: Array)
    requires
        dot.wf(),
    ensures
        is_tint_of(r, *dot, c),
{
    dot.map(|p: &Color| -> (o: Color)
        ensures
            o == cross_spec(*p, c),
        { p.cross(&c) })
}

/// The index of `c` in the table, if it is there.
fn find_color(table: &Vec<(Color, Array)>, c: Color) -> (r: Option<usize>)
    ensures
        match r {
            Some(k) => k < table@.len() && table@[k as int].0 == c,
            None => !table_colors(table@).contains(c),
        },
{
    let mut k: usize = 0;
    while k < table.len()
        invariant
            k <= table@.len(),
            forall|j: int| 0 <= j < k ==> table@[j].0 != c,
        decreases table@.len() - k,
    {
        if table[k].0 == c {
            return Some(k);
        }
        k = k + 1;
    }
    proof {
        if table_colors(table@).contains(c) {
            let j = choose|j: int| 0 <= j < table@.len() && table_colors(table@)[j] == c;
            assert(table@[j].0 == c);
        }
    }
    None
}

impl DotArray {
    /// The logical grid.
    pub closed spec fn logical(&self) -> Array {
        self.array
    }

    /// The stencil of one dot.
    pub closed spec fn stencil(&self) -> Array {
        self.dot
    }

    /// The tinted stencils, one per distinct color.
    pub closed spec fn table(&self) -> Seq<(Color, Array)> {
        self.dot_table@
    }

    pub open spec fn wf(&self) -> bool {
        &&& self.table_ok()
        &&& covers(table_colors(self.table()), self.logical())
    }

    /// Each table entry is the stencil tinted by its color, and no color
    /// comes twice.
    pub open spec fn table_ok(&self) -> bool {
        &&& self.logical().wf()
        &&& self.stencil().wf()
        &&& forall|k: int|
            0 <= k < self.table().len() ==> is_tint_of(
                (#[trigger] self.table()[k]).1,
                self.stencil(),
                self.table()[k].0,
            )
        &&& forall|i: int, j: int|
            0 <= i < j < self.table().len() ==> self.table()[i].0 != self.table()[j].0
    }

    /// Adds the tinted stencil of `c` unless the table has it already.
    fn ensure_color_dot(&mut self, c: Color)
        requires
            old(self).table_ok(),
        ensures
            final(self).logical() == old(self).logical(),
            final(self).stencil() == old(self).stencil(),
            final(self).table_ok(),
            table_colors(final(self).table()).contains(c),
            forall|d: Color|
                table_colors(old(self).table()).contains(d) ==> table_colors(
                    final(self).table(),
                ).contains(d),
    {
        match find_color(&self.dot_table, c) {
            Some(k) => {
                assert(table_colors(self.table())[k as int] == c);
            },
            None => {
                let t = tint(&self.dot, c);
                let ghost old_table = self.table();
                self.dot_table.push((c, t));
                assert(table_colors(self.table()) =~= table_colors(old_table).push(c));
                assert(table_colors(self.table())[old_table.len() as int] == c);
                assert forall|d: Color| table_colors(old_table).contains(d) implies table_colors(
                    self.table(),
                ).contains(d) by {
                    let j = choose|j: int|
                        0 <= j < old_table.len() && table_colors(old_table)[j] == d;
                    assert(table_colors(self.table())[j] == d);
                }
                assert forall|i: int, j: int|
                    0 <= i < j < self.table().len() implies self.table()[i].0
                    != self.table()[j].0 by {
                    if j == old_table.len() {
                        assert(table_colors(old_table)[i] == self.table()[i].0);
                    }
                }
            },
        }
    }

    /// Pairs a logical grid with a dot stencil and tints the stencil once for
    /// each distinct color of the grid.
    pub fn new(array: Array, dot: Array) -> (r: DotArray)
        requires
            array.wf(),
            dot.wf(),
        ensures
            r.wf(),
            r.logical() == array,
            r.stencil() == dot,
    {
        let mut r = DotArray { array, dot, dot_table: Vec::new() };
        let w: usize = r.array.dim().0;
        let h: usize = r.array.height();
        let mut x: usize = 0;
        while x < w
            invariant
                r.logical() == array,
                r.stencil() == dot,
                r.table_ok(),
                w == array@.len(),
                h == array.spec_height(),
                x <= w,
                forall|i: int, y: int|
                    0 <= i < x && 0 <= y < h ==> table_colors(r.table()).contains(
                        #[trigger] array.at(i, y),
                    ),
            decreases w - x,
        {
            let mut y: usize = 0;
            while y < h
                invariant
                    r.logical() == array,
                    r.stencil() == dot,
                    r.table_ok(),
                    w == array@.len(),
                    h == array.spec_height(),
                    x < w,
                    y <= h,
                    forall|i: int, yy: int|
                        (0 <= i < x && 0 <= yy < h) || (i == x && 0 <= yy < y)
                            ==> table_colors(r.table()).contains(#[trigger] array.at(i, yy)),
                decreases h - y,
            {
                let c: Color = r.array.get(x, y);
                r.ensure_color_dot(c);
                y = y + 1;
            }
            x = x + 1;
        }
        r
    }

    /// The stencil's color at `(sx, sy)` tinted by `c`, read from the table.
    fn tinted_cell(&self, c: Color, sx: usize, sy: usize) -> (r: Color)
        requires
            self.table_ok(),
            sx < self.stencil()@.len(),
            sy < self.stencil().spec_height(),
        ensures
            r == cross_spec(self.stencil().at(sx as int, sy as int), c),
    {
        match find_color(&self.dot_table, c) {
            Some(k) => {
                assert(is_tint_of(self.table()[k as int].1, self.stencil(), c));
                self.dot_table[k].1.get(sx, sy)
            },
            None => self.dot.get(sx, sy).cross(&c),
        }
    }

    /// Width and height of one dot.
    pub fn dot_dim(&self) -> (r: (usize, usize))
        ensures
            r.0 == self.stencil()@.len(),
            r.1 == self.stencil().spec_height(),
    {
        self.dot.dim()
    }

    /// Width and height of the logical grid, in dots.
    pub fn dim_in_dot(&self) -> (r: (usize, usize))
        ensures
            r.0 == self.logical()@.len(),
            r.1 == self.logical().spec_height(),
    {
        self.array.dim()
    }

    /// Width and height in physical pixels.
    pub fn dim(&self) -> (r: (usize, usize))
        requires
            self.logical()@.len() * self.stencil()@.len() <= usize::MAX,
            self.logical().spec_height() * self.stencil().spec_height() <= usize::MAX,
        ensures
            r.0 == self.logical()@.len() * self.stencil()@.len(),
            r.1 == self.logical().spec_height() * self.stencil().spec_height(),
    {
        let (ax, ay) = self.array.dim();
        let (dx, dy) = self.dot.dim();
        (ax * dx, ay * dy)
    }

    /// The color of physical pixel `(x, y)`.
    pub fn get(&self, x: usize, y: usize) -> (r: Color)
        requires
            self.wf(),
            x < self.logical()@.len() * self.stencil()@.len(),
            y < self.logical().spec_height() * self.stencil().spec_height(),
        ensures
            r == expanded_at(self.logical(), self.stencil(), x as int, y as int),
    {
        let (dx, dy) = self.dot.dim();
        proof {
            lemma_div_bound(x as int, dx as int, self.logical()@.len() as int);
            lemma_div_bound(y as int, dy as int, self.logical().spec_height() as int);
        }
        let ap: Color = self.array.get(x / dx, y / dy);
        self.tinted_cell(ap, x % dx, y % dy)
    }

    /// A window of `width` logical columns starting at column `offset`, with
    /// columns outside the grid in `background`. The window is a grid of its
    /// own, with the same stencil and the tinted stencils already made.
    pub fn slice(&self, offset: isize, width: usize, background: &Color) -> (r: DotArraySlice)
        requires
            self.wf(),
        ensures
            r.grid().wf(),
            r.grid().stencil()@ == self.stencil()@,
            r.grid().stencil().spec_height() == self.stencil().spec_height(),
            r.grid().logical().spec_height() == self.logical().spec_height(),
            r.grid().logical()@ == slice_columns(
                self.logical()@,
                self.logical().spec_height(),
                offset as int,
                width as nat,
                *background,
            ),
    {
        let h: usize = self.array.height();
        let w: usize = self.array.dim().0;
        let ghost cols = self.logical()@;
        let ghost want = slice_columns(cols, h as nat, offset as int, width as nat, *background);
        let mut arr = Array::with_dim(width, h);
        let mut i: usize = 0;
        while i < width
            invariant
                self.wf(),
                h == self.logical().spec_height(),
                w == cols.len(),
                cols == self.logical()@,
                want == slice_columns(cols, h as nat, offset as int, width as nat, *background),
                i <= width,
                arr.wf(),
                arr.spec_height() == h,
                arr@ == want.take(i as int),
            decreases width - i,
        {
            let rx: i128 = i as i128 + offset as i128;
            let col: Vec<Color> = if rx < 0 || rx >= w as i128 {
                filled_column(h, *background)
            } else {
                let src: &Vec<Color> = self.array.get_line(rx as usize).unwrap();
                copy_column(src)
            };
            assert(col@ =~= want[i as int]);
            let _ = arr.add_line(col);
            assert(arr@ =~= want.take(i + 1));
            i = i + 1;
        }
        assert(arr@ =~= want);
        let mut table: Vec<(Color, Array)> = Vec::new();
        let mut k: usize = 0;
        while k < self.dot_table.len()
            invariant
                self.wf(),
                k <= self.table().len(),
                table@.len() == k,
                forall|j: int|
                    0 <= j < k ==> (#[trigger] table@[j]).0 == self.table()[j].0 && table@[j].1@
                        == self.table()[j].1@ && table@[j].1.spec_height() == self.table()[j].1.spec_height()
                        && table@[j].1.wf(),
            decreases self.table().len() - k,
        {
            assert(is_tint_of(self.table()[k as int].1, self.stencil(), self.table()[k as int].0));
            let t: Array = copy_array(&self.dot_table[k].1);
            table.push((self.dot_table[k].0, t));
            k = k + 1;
        }
        let mut grid = DotArray { array: arr, dot: copy_array(&self.dot), dot_table: table };
        assert(table_colors(grid.table()) =~= table_colors(self.table()));
        assert forall|j: int| 0 <= j < grid.table().len() implies is_tint_of(
            (#[trigger] grid.table()[j]).1,
            grid.stencil(),
            grid.table()[j].0,
        ) by {
            assert(is_tint_of(self.table()[j].1, self.stencil(), self.table()[j].0));
            assert forall|x: int, y: int|
                0 <= x < grid.stencil()@.len() && 0 <= y < grid.stencil().spec_height() implies #[trigger] grid.table()[j].1.at(x, y)
                == cross_spec(grid.stencil().at(x, y), grid.table()[j].0) by {
                assert(self.table()[j].1.at(x, y) == cross_spec(self.stencil().at(x, y), self.table()[j].0));
            }
        }
        grid.ensure_color_dot(*background);
        assert forall|x: int, y: int|
            0 <= x < grid.logical()@.len() && 0 <= y < grid.logical().spec_height() implies table_colors(
            grid.table(),
        ).contains(#[trigger] grid.logical().at(x, y)) by {
            let rx = x + offset;
            if rx < 0 || rx >= cols.len() {
                assert(grid.logical().at(x, y) == *background);
            } else {
                assert(grid.logical().at(x, y) == self.logical().at(rx, y));
                assert(table_colors(self.table()).contains(self.logical().at(rx, y)));
            }
        }
        DotArraySlice { grid }
    }
}

/// A column of `h` cells, all `c`.
fn filled_column(h: usize, c: Color) -> (r: Vec<Color>)
    ensures
        r@ == Seq::new(h as nat, |y: int| c),
{
    let mut col: Vec<Color> = Vec::with_capacity(h);
    let mut y: usize = 0;
    while y < h
        invariant
            y <= h,
            col@ == Seq::new(y as nat, |j: int| c),
        decreases h - y,
    {
        col.push(c);
        y = y + 1;
        assert(col@ =~= Seq::new(y as nat, |j: int| c));
    }
    col
}

/// A copy of a column.
fn copy_column(src: &Vec<Color>) -> (r: Vec<Color>)
    ensures
        r@ == src@,
{
    let mut col: Vec<Color> = Vec::with_capacity(src.len());
    let mut y: usize = 0;
    while y < src.len()
        invariant
            y <= src@.len(),
            col@ == src@.take(y as int),
        decreases src@.len() - y,
    {
        col.push(src[y]);
        y = y + 1;
        assert(col@ =~= src@.take(y as int));
    }
    assert(col@ =~= src@);
    col
}

/// One frame of a scroll: a window onto a dot grid, as a dot grid itself.
#[derive(Debug)]
pub struct DotArraySlice {
    grid: DotArray,
}

impl DotArraySlice {
    /// The window's own logical grid, stencil and tinted stencils.
    pub closed spec fn grid(&self) -> DotArray {
        self.grid
    }

    /// The window as a dot grid.
    pub fn as_dot_array(&self) -> (r: &DotArray)
        ensures
            *r == self.grid(),
    {
        &self.grid
    }

    /// Width and height in physical pixels.
    pub fn dim(&self) -> (r: (usize, usize))
        requires
            self.grid().logical()@.len() * self.grid().stencil()@.len() <= usize::MAX,
            self.grid().logical().spec_height() * self.grid().stencil().spec_height()
                <= usize::MAX,
        ensures
            r.0 == self.grid().logical()@.len() * self.grid().stencil()@.len(),
            r.1 == self.grid().logical().spec_height() * self.grid().stencil().spec_height(),
    {
        self.grid.dim()
    }

    /// The color of physical pixel `(x, y)` of the window.
    pub fn get(&self, x: usize, y: usize) -> (r: Color)
        requires
            self.grid().wf(),
            x < self.grid().logical()@.len() * self.grid().stencil()@.len(),
            y < self.grid().logical().spec_height() * self.grid().stencil().spec_height(),
        ensures
            r == expanded_at(self.grid().logical(), self.grid().stencil(), x as int, y as int),
    {
        self.grid.get(x, y)
    }
}

/// A window that lies wholly left or right of the grid shows only the
/// background; one that lies wholly inside shows the grid's own columns.
pub proof fn law_slice_boundary(
    cols: Seq<Seq<Color>>,
    height: nat,
    offset: int,
    width: nat,
    background: Color,
)
    ensures
        slice_columns(cols, height, offset, width, background).len() == width,
        offset + width <= 0 || offset >= cols.len() ==> forall|i: int|
            0 <= i < width ==> #[trigger] slice_columns(cols, height, offset, width, background)[i]
                == Seq::new(height, |y: int| background),
        0 <= offset && offset + width <= cols.len() ==> slice_columns(
            cols,
            height,
            offset,
            width,
            background,
        ) == cols.subrange(offset, offset + width),
{
    if 0 <= offset && offset + width <= cols.len() {
        assert(slice_columns(cols, height, offset, width, background) =~= cols.subrange(
            offset,
            offset + width,
        ));
    }
}

/// Dot expansion of a `W x H` grid through a `dw x dh` stencil is
/// `W * dw x H * dh` pixels, and pixel `(x, y)` lies in logical cell
/// `(x / dw, y / dh)` at stencil cell `(x % dw, y % dh)`, both in range, with
/// the color `cross(stencil cell, logical cell)`.
pub proof fn law_dot_expansion(d: DotArray, x: int, y: int)
    requires
        d.wf(),
        0 <= x < d.logical()@.len() * d.stencil()@.len(),
        0 <= y < d.logical().spec_height() * d.stencil().spec_height(),
    ensures
        0 <= x / (d.stencil()@.len() as int) < d.logical()@.len(),
        0 <= y / (d.stencil().spec_height() as int) < d.logical().spec_height(),
        0 <= x % (d.stencil()@.len() as int) < d.stencil()@.len(),
        0 <= y % (d.stencil().spec_height() as int) < d.stencil().spec_height(),
        expanded_at(d.logical(), d.stencil(), x, y) == cross_spec(
            d.stencil().at(x % (d.stencil()@.len() as int), y % (d.stencil().spec_height() as int)),
            d.logical().at(x / (d.stencil()@.len() as int), y / (d.stencil().spec_height() as int)),
        ),
{
    lemma_div_bound(x, d.stencil()@.len() as int, d.logical()@.len() as int);
    lemma_div_bound(y, d.stencil().spec_height() as int, d.logical().spec_height() as int);
}

} // verus!
