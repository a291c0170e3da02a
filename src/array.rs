use vstd::prelude::*;
use crate::color::Color;
use crate::error::{ErrorView, RenderError};

verus! {

/// A grid of colors, kept as columns that all have the same height.
#[derive(Debug, Clone)]
pub struct Array {
    cells: Vec<Vec<Color>>,
    height: usize,
}

pub open spec fn column_views(cells: Seq<Vec<Color>>) -> Seq<Seq<Color>> {
    cells.map_values(|c: Vec<Color>| c@)
}

/// Every column of `cols` has `height` cells.
pub open spec fn all_of_height(cols: Seq<Seq<Color>>, height: nat) -> bool {
    forall|x: int| 0 <= x < cols.len() ==> (#[trigger] cols[x]).len() == height
}

impl View for Array {
    type V = Seq<Seq<Color>>;

    /// The columns, left to right, each from top to bottom.
    closed spec fn view(&self) -> Seq<Seq<Color>> {
        column_views(self.cells@)
    }
}

impl Array {
    /// The height that every column has.
    pub closed spec fn spec_height(&self) -> nat {
        self.height as nat
    }

    pub open spec fn wf(&self) -> bool {
        all_of_height(self@, self.spec_height())
    }

    /// The color at column `x`, row `y`.
    pub open spec fn at(&self, x: int, y: int) -> Color {
        self@[x][y]
    }

    /// An empty grid whose columns will have `height` cells.
    pub fn new(height: usize) -> (r: Array)
        ensures
            r.wf(),
            r@ == Seq::<Seq<Color>>::empty(),
            r.spec_height() == height,
    {
        let r = Array { cells: Vec::new(), height };
        assert(r@ =~= Seq::<Seq<Color>>::empty());
        r
    }

    /// An empty grid with room for `width` columns of `height` cells.
    pub fn with_dim(width: usize, height: usize) -> (r: Array)
        ensures
            r.wf(),
            r@ == Seq::<Seq<Color>>::empty(),
            r.spec_height() == height,
    {
        let r = Array { cells: Vec::with_capacity(width), height };
        assert(r@ =~= Seq::<Seq<Color>>::empty());
        r
    }

    /// Appends a column on the right. A column whose length is not the
    /// grid's height is refused and leaves the grid as it was.
    pub fn add_line(&mut self, line: Vec<Color>) -> (r: Result<(), RenderError>)
        requires
            old(self).wf(),
        ensures
            final(self).wf(),
            final(self).spec_height() == old(self).spec_height(),
            line@.len() == old(self).spec_height() ==> r is Ok && final(self)@ == old(self)@.push(
                line@,
            ),
            line@.len() != old(self).spec_height() ==> r is Err && r->Err_0@
                == ErrorView::HeightMismatch && final(self)@ == old(self)@,
    {
        if line.len() != self.height {
            return Err(RenderError::HeightMismatch);
        }
        let ghost before = self@;
        self.cells.push(line);
        assert(self@ =~= before.push(line@));
        Ok(())
    }

    /// Column `x`, if the grid has one.
    pub fn get_line(&self, x: usize) -> (r: Option<&Vec<Color>>)
        ensures
            x < self@.len() ==> r is Some && r->0@ == self@[x as int],
            x >= self@.len() ==> r is None,
    {
        if x < self.cells.len() {
            Some(&self.cells[x])
        } else {
            None
        }
    }

    /// The number of cells in each column.
    pub fn height(&self) -> (h: usize)
        ensures
            h == self.spec_height(),
    {
        self.height
    }

    /// Width and height.
    pub fn dim(&self) -> (r: (usize, usize))
        ensures
            r.0 == self@.len(),
            r.1 == self.spec_height(),
    {
        (self.cells.len(), self.height)
    }

    /// The color at column `x`, row `y`.
    pub fn get(&self, x: usize, y: usize) -> (c: Color)
        requires
            self.wf(),
            x < self@.len(),
            y < self.spec_height(),
        ensures
            c == self.at(x as int, y as int),
    {
        assert(self.cells@[x as int]@ == self@[x as int]);
        assert(self@[x as int].len() == self.spec_height());
        self.cells[x][y]
    }

    /// Every cell with its position, column by column: cell `(x, y)` is
    /// entry `x * height + y`.
    pub fn iter(&self) -> (r: Vec<(usize, usize, Color)>)
        requires
            self.wf(),
        ensures
            r@.len() == self@.len() * self.spec_height(),
            forall|x: int, y: int|
                0 <= x < self@.len() && 0 <= y < self.spec_height() ==> r@[x * self.spec_height()
                    + y] == (x as usize, y as usize, #[trigger] self.at(x, y)),
    {
        let h: usize = self.height;
        let mut r: Vec<(usize, usize, Color)> = Vec::new();
        let mut x: usize = 0;
        while x < self.cells.len()
            invariant
                self.wf(),
                h == self.spec_height(),
                x <= self@.len(),
                r@.len() == x * h,
                forall|i: int, y: int|
                    0 <= i < x && 0 <= y < h ==> r@[i * h + y] == (i as usize, y as usize, #[trigger] self.at(i, y)),
            decreases self@.len() - x,
        {
            let mut y: usize = 0;
            while y < h
                invariant
                    self.wf(),
                    h == self.spec_height(),
                    x < self@.len(),
                    y <= h,
                    r@.len() == x * h + y,
                    forall|i: int, yy: int|
                        (0 <= i < x && 0 <= yy < h) || (i == x && 0 <= yy < y) ==> r@[i * h + yy] == (
                            i as usize,
                            yy as usize,
                            #[trigger] self.at(i, yy),
                        ),
                decreases h - y,
            {
                let c: Color = self.get(x, y);
                let ghost before = r@;
                r.push((x, y, c));
                assert forall|i: int, yy: int|
                    (0 <= i < x && 0 <= yy < h) || (i == x && 0 <= yy <= y) implies r@[i * h + yy]
                    == (i as usize, yy as usize, #[trigger] self.at(i, yy)) by {
                    if i < x {
                        assert(i * h + yy < x * h) by (nonlinear_arith)
                            requires
                                0 <= i < x,
                                0 <= yy < h,
                        ;
                        assert(r@[i * h + yy] == before[i * h + yy]);
                    } else if yy < y {
                        assert(r@[i * h + yy] == before[i * h + yy]);
                    }
                }
                y = y + 1;
            }
            proof {
                assert((x + 1) * h == x * h + h) by (nonlinear_arith);
            }
            x = x + 1;
        }
        r
    }

    /// The columns themselves.
    pub fn cells(&self) -> (r: &Vec<Vec<Color>>)
        ensures
            column_views(r@) == self@,
    {
        &self.cells
    }

    /// A grid of the same shape with `f` applied to every cell.
    pub fn map<F: Fn(&Color) -> Color>(&self, f: F) -> (r: Array)
        requires
            self.wf(),
            forall|c: Color| f.requires((&c,)),
        ensures
            r.wf(),
            r.spec_height() == self.spec_height(),
            r@.len() == self@.len(),
            forall|x: int, y: int|
                0 <= x < self@.len() && 0 <= y < self.spec_height() ==> f.ensures(
                    (&self.at(x, y),),
                    #[trigger] r.at(x, y),
                ),
    {
        let mut out = Array::with_dim(self.cells.len(), self.height);
        let mut x: usize = 0;
        while x < self.cells.len()
            invariant
                self.wf(),
                forall|c: Color| f.requires((&c,)),
                x <= self@.len(),
                out.wf(),
                out.spec_height() == self.spec_height(),
                out@.len() == x,
                forall|i: int, y: int|
                    0 <= i < x && 0 <= y < self.spec_height() ==> f.ensures(
                        (&self.at(i, y),),
                        #[trigger] out.at(i, y),
                    ),
            decreases self@.len() - x,
        {
            let column: &Vec<Color> = &self.cells[x];
            assert(column@ == self@[x as int]);
            let mut line: Vec<Color> = Vec::new();
            let mut y: usize = 0;
            while y < self.height
                invariant
                    self.wf(),
                    forall|c: Color| f.requires((&c,)),
                    x < self@.len(),
                    column@ == self@[x as int],
                    column@.len() == self.spec_height(),
                    y <= self.spec_height(),
                    line@.len() == y,
                    forall|j: int| 0 <= j < y ==> f.ensures((&self.at(x as int, j),), #[trigger] line@[j]),
                decreases self.spec_height() - y,
            {
                let c: Color = f(&column[y]);
                line.push(c);
                y = y + 1;
            }
            let ghost old_out = out;
            let _ = out.add_line(line);
            assert(out@ == old_out@.push(line@));
            assert forall|i: int, j: int|
                0 <= i < x + 1 && 0 <= j < self.spec_height() implies f.ensures(
                (&self.at(i, j),),
                #[trigger] out.at(i, j),
            ) by {
                if i < x {
                    assert(out.at(i, j) == old_out.at(i, j));
                } else {
                    assert(out.at(i, j) == line@[j]);
                }
            }
            x = x + 1;
        }
        out
    }

    /// The grid of a raster given row by row as red, green, blue and alpha
    /// bytes: pixel `(x, y)` starts at byte `4 * (y * width + x)`.
    pub fn from_rgba(width: usize, height: usize, data: &Vec<u8>) -> (r: Array)
        requires
            data@.len() == 4 * width * height,
        ensures
            r.wf(),
            r.spec_height() == height,
            r@.len() == width,
            forall|x: int, y: int|
                0 <= x < width && 0 <= y < height ==> #[trigger] r.at(x, y) == (Color {
                    r: data@[4 * (y * width + x)],
                    g: data@[4 * (y * width + x) + 1],
                    b: data@[4 * (y * width + x) + 2],
                    a: data@[4 * (y * width + x) + 3],
                }),
    {
        let total: usize = data.len();
        let mut out = Array::with_dim(width, height);
        let mut x: usize = 0;
        while x < width
            invariant
                data@.len() == 4 * width * height,
                total == data@.len(),
                x <= width,
                out.wf(),
                out.spec_height() == height,
                out@.len() == x,
                forall|i: int, y: int|
                    0 <= i < x && 0 <= y < height ==> #[trigger] out.at(i, y) == (Color {
                        r: data@[4 * (y * width + i)],
                        g: data@[4 * (y * width + i) + 1],
                        b: data@[4 * (y * width + i) + 2],
                        a: data@[4 * (y * width + i) + 3],
                    }),
            decreases width - x,
        {
            let mut line: Vec<Color> = Vec::with_capacity(height);
            let mut y: usize = 0;
            while y < height
                invariant
                    data@.len() == 4 * width * height,
                    total == data@.len(),
                    x < width,
                    y <= height,
                    line@.len() == y,
                    forall|j: int|
                        0 <= j < y ==> #[trigger] line@[j] == (Color {
                            r: data@[4 * (j * width + x)],
                            g: data@[4 * (j * width + x) + 1],
                            b: data@[4 * (j * width + x) + 2],
                            a: data@[4 * (j * width + x) + 3],
                        }),
                decreases height - y,
            {
                proof {
                    assert(4 * (y * width + x) + 3 < 4 * width * height && 0 <= y * width)
                        by (nonlinear_arith)
                        requires
                            y < height,
                            x < width,
                    ;
                }
                let p: usize = 4 * (y * width + x);
                line.push(Color { r: data[p], g: data[p + 1], b: data[p + 2], a: data[p + 3] });
                y = y + 1;
            }
            let ghost old_out = out;
            let _ = out.add_line(line);
            assert(out@ == old_out@.push(line@));
            assert forall|i: int, j: int| 0 <= i < x + 1 && 0 <= j < height implies #[trigger] out.at(
                i,
                j,
            ) == (Color {
                r: data@[4 * (j * width + i)],
                g: data@[4 * (j * width + i) + 1],
                b: data@[4 * (j * width + i) + 2],
                a: data@[4 * (j * width + i) + 3],
            }) by {
                if i < x {
                    assert(out.at(i, j) == old_out.at(i, j));
                } else {
                    assert(out.at(i, j) == line@[j]);
                }
            }
            x = x + 1;
        }
        out
    }
}

} // verus!
