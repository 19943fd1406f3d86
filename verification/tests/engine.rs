use outline_raster::bitmap::BitmapEngine;
use outline_raster::engine::{floor_div64, pow2_i64, SoftwareEngine};
use outline_raster::flatten::make_line;
use outline_raster::outline::Vector;

fn v(x: i32, y: i32) -> Vector {
    Vector { x, y }
}

fn engine(tile_order: i32) -> SoftwareEngine {
    SoftwareEngine::new(tile_order, 0).unwrap()
}

/// The tile at the start of a buffer whose rows are `stride` bytes apart.
fn tile(buf: &[u8], stride: usize, size: usize) -> Vec<Vec<u8>> {
    (0..size).map(|y| buf[y * stride..y * stride + size].to_vec()).collect()
}

#[test]
fn solid_tile() {
    let e = engine(2);
    let mut buf = vec![9u8; 4 * 6];
    e.fill_solid(&mut buf, 6, 1);
    for y in 0..4 {
        assert_eq!(&buf[y * 6..y * 6 + 6], &[255, 255, 255, 255, 9, 9][..]);
    }
    e.fill_solid(&mut buf, 6, 0);
    for y in 0..4 {
        assert_eq!(&buf[y * 6..y * 6 + 6], &[0, 0, 0, 0, 9, 9][..]);
    }
    e.fill_solid(&mut buf, 6, i32::MIN);
    assert_eq!(buf[0], 255);
    // a tile of one pixel
    let mut one = vec![0u8; 3];
    engine(0).fill_solid(&mut one, 1, -1);
    assert_eq!(one, vec![255, 0, 0]);
}

#[test]
fn halfplane_left_of_a_vertical_line() {
    // the line x = 160, through the middle of column 2
    let l = make_line(v(160, 0), v(160, 64));
    assert_eq!((l.a, l.b, l.c, l.scale), (1 << 30, 0, 64 * 160 << 24, 1056561954));
    let e = engine(2);
    let mut buf = vec![7u8; 16];
    e.fill_halfplane(&mut buf, 4, l.a, l.b, l.c, l.scale);
    assert_eq!(tile(&buf, 4, 4), vec![vec![255, 255, 128, 0]; 4]);
    // the other side
    e.fill_halfplane(&mut buf, 4, l.a, l.b, l.c, -l.scale);
    assert_eq!(tile(&buf, 4, 4), vec![vec![0, 0, 127, 255]; 4]);
}

#[test]
fn halfplane_below_a_diagonal() {
    let l = make_line(v(0, 0), v(256, 256));
    let expected = vec![
        vec![128, 0, 0, 0],
        vec![255, 128, 0, 0],
        vec![255, 255, 128, 0],
        vec![255, 255, 255, 128],
    ];
    let mut buf = vec![0u8; 16];
    engine(2).fill_halfplane(&mut buf, 4, l.a, l.b, l.c, l.scale);
    assert_eq!(tile(&buf, 4, 4), expected);
    // in the corner of a tile of 16 by 16 the same pixels come out
    let mut buf = vec![0u8; 256];
    engine(4).fill_halfplane(&mut buf, 16, l.a, l.b, l.c, l.scale);
    let rows = tile(&buf, 16, 16);
    assert_eq!(&rows[0][..4], &[128, 0, 0, 0][..]);
    assert_eq!(&rows[1][..4], &[255, 128, 0, 0][..]);
    assert_eq!(rows[15][15], 128);
    assert_eq!(rows[15][14], 255);
    assert_eq!(rows[14][15], 0);
}

#[test]
fn generic_tile_without_segments_is_the_winding_number() {
    let e = engine(2);
    let mut buf = vec![3u8; 16];
    e.fill_generic(&mut buf, 4, &[], 0);
    assert_eq!(buf, vec![0u8; 16]);
    e.fill_generic(&mut buf, 4, &[], 1);
    assert_eq!(buf, vec![255u8; 16]);
    e.fill_generic(&mut buf, 4, &[], -1);
    assert_eq!(buf, vec![255u8; 16]);
}

#[test]
fn generic_tile_between_two_lines() {
    // what lies between x = 64 and x = 192
    let up = make_line(v(64, 256), v(64, 0));
    let down = make_line(v(192, 0), v(192, 256));
    let mut buf = vec![0u8; 16];
    engine(2).fill_generic(&mut buf, 4, &[up, down], 0);
    let rows = tile(&buf, 4, 4);
    for row in rows.iter() {
        assert!(row[0] <= 2 && row[3] <= 2, "{:?}", row);
        assert!(row[1] >= 253 && row[2] >= 253, "{:?}", row);
    }
    assert_eq!(rows[0], rows[3]);
}

#[test]
fn bitmaps_add_up() {
    let e = engine(2);
    let mut dst = vec![0u8, 10, 200, 255, 1, 9, 9, 9];
    let mut src = vec![0u8, 20, 100, 255, 2];
    e.add_bitmaps(&mut dst, 4, &mut src, 3, 2, 2);
    // two rows of two pixels: rows of dst are 4 apart, rows of src 3
    assert_eq!(dst, vec![0, 30, 200, 255, 255, 11, 9, 9]);
    assert_eq!(src, vec![0, 20, 100, 255, 2]);
}

#[test]
fn bitmaps_subtract_and_multiply() {
    let e = engine(2);
    let mut dst = vec![10u8, 200, 0, 255];
    let mut src = vec![20u8, 100, 0, 255];
    e.sub_bitmaps(&mut dst, 4, &mut src, 4, 1, 4);
    assert_eq!(dst, vec![0, 100, 0, 0]);
    let mut dst = vec![255u8, 255, 128, 0, 1];
    let mut src = vec![255u8, 128, 128, 255, 1];
    e.mul_bitmaps(&mut dst, 5, &mut src, 5, 1, 5);
    assert_eq!(dst, vec![255, 128, 64, 0, 1]);
    let mut dst = vec![200u8, 100];
    let mut src = vec![255u8, 0];
    e.add_bitmaps(&mut dst, 1, &mut src, 1, 2, 1);
    assert_eq!(dst, vec![255, 100]);
}

#[test]
fn blur_weighs_the_neighbours() {
    let e = engine(2);
    let mut buf = vec![0u8, 0, 0, 0, 9, 0, 255, 255, 0, 9, 0, 255, 255, 0];
    let mut tmp = vec![0u16; 8];
    e.be_blur(&mut buf, 4, 3, 5, &mut tmp);
    assert_eq!(buf, vec![15, 47, 47, 15, 9, 47, 143, 143, 47, 9, 47, 143, 143, 47]);

    let mut one = vec![160u8];
    e.be_blur(&mut one, 1, 1, 1, &mut tmp);
    assert_eq!(one, vec![40]);

    let mut row = vec![16u8, 32, 48];
    e.be_blur(&mut row, 3, 1, 3, &mut tmp);
    assert_eq!(row, vec![8, 16, 16]);

    let mut full = vec![255u8; 4];
    e.be_blur(&mut full, 2, 2, 2, &mut tmp);
    assert_eq!(full, vec![143u8; 4]);
}

#[test]
fn numbers() {
    assert_eq!(pow2_i64(0), 1);
    assert_eq!(pow2_i64(62), 1 << 62);
    assert_eq!(floor_div64(-1, 4), -1);
    assert_eq!(floor_div64(-4, 4), -1);
    assert_eq!(floor_div64(-5, 4), -2);
    assert_eq!(floor_div64(7, 4), 1);
    assert_eq!(floor_div64(-(1 << 62), 1 << 61), -2);
}
