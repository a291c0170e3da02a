use dotmatrix::array::Array;
use dotmatrix::color::Color;
use dotmatrix::dot_array::DotArray;
use dotmatrix::error::RenderError;
use dotmatrix::scroll::{file_index, frame_range};

fn col(cs: &[Color]) -> Vec<Color> {
    cs.to_vec()
}

const RED: Color = Color { r: 255, g: 0, b: 0, a: 255 };
const GREEN: Color = Color { r: 0, g: 255, b: 0, a: 255 };
const BLUE: Color = Color { r: 0, g: 0, b: 255, a: 255 };
const WHITE: Color = Color { r: 255, g: 255, b: 255, a: 255 };
const GREY: Color = Color { r: 128, g: 128, b: 128, a: 255 };

#[test]
fn add_line_of_wrong_height_fails() {
    let mut a = Array::new(2);
    assert_eq!(a.add_line(col(&[RED, GREEN])), Ok(()));
    assert_eq!(a.add_line(col(&[RED])), Err(RenderError::HeightMismatch));
    assert_eq!(a.add_line(col(&[RED, GREEN, BLUE])), Err(RenderError::HeightMismatch));
    assert_eq!(a.dim(), (1, 2));
    assert_eq!(a.get_line(0).unwrap(), &vec![RED, GREEN]);
    assert!(a.get_line(1).is_none());
}

#[test]
fn array_accessors() {
    let mut a = Array::with_dim(2, 1);
    a.add_line(col(&[RED])).unwrap();
    a.add_line(col(&[BLUE])).unwrap();
    assert_eq!(a.height(), 1);
    assert_eq!(a.get(1, 0), BLUE);
    assert_eq!(a.cells().len(), 2);
    assert_eq!(a.iter(), vec![(0, 0, RED), (1, 0, BLUE)]);
    let b = a.map(|c| c.cross(&GREY));
    assert_eq!(b.get(0, 0), Color::new(128, 0, 0, 255));
}

#[test]
fn array_from_rgba_bytes() {
    // 2 wide, 1 high
    let data = vec![1, 2, 3, 4, 5, 6, 7, 8];
    let a = Array::from_rgba(2, 1, &data);
    assert_eq!(a.dim(), (2, 1));
    assert_eq!(a.get(0, 0), Color::new(1, 2, 3, 4));
    assert_eq!(a.get(1, 0), Color::new(5, 6, 7, 8));
}

fn logical() -> Array {
    // 3 columns, 2 rows
    let mut a = Array::new(2);
    a.add_line(col(&[RED, GREEN])).unwrap();
    a.add_line(col(&[BLUE, RED])).unwrap();
    a.add_line(col(&[WHITE, WHITE])).unwrap();
    a
}

fn stencil() -> Array {
    // 2 wide, 3 high
    let mut d = Array::new(3);
    d.add_line(col(&[WHITE, GREY, WHITE])).unwrap();
    d.add_line(col(&[GREY, Color::new(0, 0, 0, 255), GREY])).unwrap();
    d
}

#[test]
fn dot_expansion_dimensions_and_pixels() {
    let a = logical();
    let d = stencil();
    let da = DotArray::new(a.clone(), d.clone());
    assert_eq!(da.dim(), (6, 6));
    assert_eq!(da.dot_dim(), (2, 3));
    assert_eq!(da.dim_in_dot(), (3, 2));
    for x in 0..6 {
        for y in 0..6 {
            let want = a.get(x / 2, y / 3).cross(&d.get(x % 2, y % 3));
            assert_eq!(da.get(x, y), want);
        }
    }
    assert_eq!(da.get(0, 0), RED);
    assert_eq!(da.get(1, 0), Color::new(128, 0, 0, 255));
    assert_eq!(da.get(3, 4), Color::new(0, 0, 0, 255));
}

#[test]
fn slice_left_of_grid_is_background() {
    let da = DotArray::new(logical(), stencil());
    let f = 3;
    let bg = Color::new(10, 20, 30, 255);
    let s = da.slice(-(f as isize), f, &bg);
    assert_eq!(s.dim(), (6, 6));
    let inner = s.as_dot_array();
    assert_eq!(inner.dim_in_dot(), (3, 2));
    for x in 0..6 {
        for y in 0..6 {
            assert_eq!(s.get(x, y), bg.cross(&stencil().get(x % 2, y % 3)));
        }
    }
}

#[test]
fn slice_inside_grid_keeps_columns() {
    let da = DotArray::new(logical(), stencil());
    let bg = Color::new(10, 20, 30, 255);
    let s = da.slice(1, 2, &bg);
    assert_eq!(s.dim(), (4, 6));
    for x in 0..4 {
        for y in 0..6 {
            assert_eq!(s.get(x, y), da.get(x + 2, y));
        }
    }
}

#[test]
fn slice_across_right_edge() {
    let da = DotArray::new(logical(), stencil());
    let bg = BLUE;
    let s = da.slice(2, 3, &bg);
    // logical column 0 of the window is column 2 of the grid, the rest is background
    assert_eq!(s.get(0, 0), WHITE);
    assert_eq!(s.get(2, 0), BLUE);
    assert_eq!(s.get(4, 0), BLUE);
}

#[test]
fn frame_count_is_width_plus_two_frames() {
    let (start, end) = frame_range(10, 4);
    assert_eq!((start, end), (-4, 14));
    assert_eq!((end - start) as usize, 10 + 2 * 4);
    let (start, end) = frame_range(0, 1);
    assert_eq!(end - start, 2);
}

#[test]
fn frame_file_index_padding() {
    assert_eq!(file_index(5, 3), "3");
    assert_eq!(file_index(11, 3), "03");
    assert_eq!(file_index(100, 42), "042");
    assert_eq!(file_index(9999, 7), "0007");
    assert_eq!(file_index(10_000, 12345), "12345");
    assert_eq!(file_index(150_000, 42), "000000042");
    assert_eq!(file_index(10, 123), "123");
}

#[test]
fn frame_offsets_run_from_minus_width() {
    let offs = dotmatrix::scroll::frame_offsets(3, 2);
    assert_eq!(offs, vec![-2, -1, 0, 1, 2, 3, 4]);
    assert_eq!(offs.len(), 3 + 2 * 2);
    assert!(dotmatrix::scroll::frame_offsets(0, 0).is_empty());
}
