use vstd::prelude::*;
use crate::color::Color;
use crate::dot_array::slice_columns;
use crate::color::{hex_char, hex_digit_str};

verus! {

/// The decimal digits of `n`, most significant first.
pub open spec fn decimal(n: nat) -> Seq<char>
    decreases n,
{
    if n < 10 {
        seq![hex_char(n as int)]
    } else {
        decimal(n / 10).push(hex_char((n % 10) as int))
    }
}

/// `s` with zeros in front up to `width` characters.
pub open spec fn zero_pad(s: Seq<char>, width: nat) -> Seq<char> {
    if s.len() >= width {
        s
    } else {
        Seq::new((width - s.len()) as nat, |i: int| '0') + s
    }
}

/// How many digits frame numbers get when there are `count` frames.
pub open spec fn index_width(count: nat) -> nat {
    if count < 10 {
        1
    } else if count < 100 {
        2
    } else if count < 1000 {
        3
    } else if count < 10_000 {
        4
    } else if count < 100_000 {
        5
    } else {
        9
    }
}

fn decimal_string(n: usize) -> (r: String)
    ensures
        r@ == decimal(n as nat),
    decreases n,
{
    if n < 10 {
        String::from_str(hex_digit_str(n))
    } else {
        let mut s: String = decimal_string(n / 10);
        s.append(hex_digit_str(n % 10));
        s
    }
}

/// The number of frame `index` out of `count`, zero-padded so that the names
/// of all frames sort in order.
pub fn file_index(count: usize, index: usize) -> (r: String)
    ensures
        r@ == zero_pad(decimal(index as nat), index_width(count as nat)),
{
    let width: usize = if count < 10 {
        1
    } else if count < 100 {
        2
    } else if count < 1000 {
        3
    } else if count < 10_000 {
        4
    } else if count < 100_000 {
        5
    } else {
        9
    };
    let digits: String = decimal_string(index);
    let len: usize = digits.as_str().unicode_len();
    let mut r: String = String::new();
    let mut k: usize = len;
    while k < width
        invariant
            len <= k <= width || (len > width && k == len),
            r@ == Seq::new((k - len) as nat, |i: int| '0'),
        decreases width - k,
    {
        r.append("0");
        proof {
            reveal_strlit("0");
        }
        k = k + 1;
        assert(r@ =~= Seq::new((k - len) as nat, |i: int| '0'));
    }
    r.append(digits.as_str());
    assert(r@ =~= zero_pad(decimal(index as nat), index_width(count as nat)));
    r
}

/// The first offset and the offset past the last of a scroll of content
/// `logical_width` columns wide through frames `frame_width` columns wide:
/// the content enters from the right and leaves to the left.
pub fn frame_range(logical_width: usize, frame_width: usize) -> (r: (isize, isize))
    requires
        logical_width + 2 * frame_width <= isize::MAX,
    ensures
        r.0 == -(frame_width as int),
        r.1 == logical_width + frame_width,
        r.1 - r.0 == logical_width + 2 * frame_width,
{
    let f: isize = frame_width as isize;
    (-f, logical_width as isize + f)
}

/// The offset of every frame of a scroll, in order: frame `i` starts at
/// column `i - frame_width`, and there are `logical_width + 2 * frame_width`
/// frames.
pub fn frame_offsets(logical_width: usize, frame_width: usize) -> (r: Vec<isize>)
    requires
        logical_width + 2 * frame_width <= isize::MAX,
    ensures
        r@.len() == logical_width + 2 * frame_width,
        forall|i: int| 0 <= i < r@.len() ==> #[trigger] r@[i] == i - frame_width,
{
    let (start, end) = frame_range(logical_width, frame_width);
    let mut r: Vec<isize> = Vec::new();
    let mut o: isize = start;
    while o < end
        invariant
            start == -(frame_width as int),
            end == logical_width + frame_width,
            start <= o <= end,
            r@.len() == o - start,
            forall|i: int| 0 <= i < r@.len() ==> #[trigger] r@[i] == i - frame_width,
        decreases end - o,
    {
        r.push(o);
        o = o + 1;
    }
    r
}

/// A scroll of content `W` columns wide through frames `F` wide has
/// `W + 2F` frames; the first and the last show only the background; and
/// each column of the content is the first column of one frame.
pub proof fn law_scroll_frames(cols: Seq<Seq<Color>>, height: nat, frame_width: nat, background: Color)
    requires
        frame_width > 0,
    ensures
        (cols.len() + frame_width) - (-(frame_width as int)) == cols.len() + 2 * frame_width,
        forall|i: int|
            0 <= i < frame_width ==> #[trigger] slice_columns(
                cols,
                height,
                -(frame_width as int),
                frame_width,
                background,
            )[i] == Seq::new(height, |y: int| background),
        forall|i: int|
            0 <= i < frame_width ==> #[trigger] slice_columns(
                cols,
                height,
                cols.len() + frame_width - 1,
                frame_width,
                background,
            )[i] == Seq::new(height, |y: int| background),
        forall|x: int|
            0 <= x < cols.len() ==> #[trigger] slice_columns(
                cols,
                height,
                x,
                frame_width,
                background,
            )[0] == cols[x],
{
}

} // verus!
