use outline_raster::bitmap::{Bitmap, BitmapEngine};
use outline_raster::engine::SoftwareEngine;
use outline_raster::error::RasterError;
use outline_raster::outline::{Outline, SegmentType, Vector};
use outline_raster::rasterizer::RasterizerData;

fn v(x: i32, y: i32) -> Vector {
    Vector { x, y }
}

/// A closed contour through the given corners.
fn polygon(corners: &[(i32, i32)]) -> Outline {
    let mut o = Outline::new(corners.len() + 1, corners.len());
    for (i, &(x, y)) in corners.iter().enumerate() {
        if i == 0 {
            o.add_point(v(x, y), None).unwrap();
        } else {
            o.add_point(v(x, y), Some(SegmentType::LineSegment)).unwrap();
        }
    }
    o.close_contour();
    o
}

/// Rasterizes the outline into a fresh bitmap and hands back its rows.
fn render(outline: &Outline, tile_order: i32, width: i32, height: i32, x0: i32, y0: i32) -> Vec<Vec<u8>> {
    let engine = SoftwareEngine::new(tile_order, 2).unwrap();
    let mut bitmap = Bitmap::new(engine, width, height, true).unwrap();
    let mut rst = RasterizerData::new(tile_order as usize, 16).unwrap();
    rst.set_outline(outline, false);
    let stride = bitmap.stride();
    rst.fill(&engine, bitmap.buffer_mut(), x0, y0, width, height, stride);
    let bytes = bitmap.buffer();
    (0..height as usize)
        .map(|y| bytes[y * stride as usize..y * stride as usize + width as usize].to_vec())
        .collect()
}

#[test]
fn square_fills_its_bitmap() {
    let square = polygon(&[(0, 0), (256, 0), (256, 256), (0, 256)]);
    let rows = render(&square, 2, 4, 4, 0, 0);
    assert_eq!(rows, vec![vec![255u8; 4]; 4]);
}

#[test]
fn square_fills_its_bitmap_either_way_round() {
    let square = polygon(&[(0, 0), (0, 256), (256, 256), (256, 0)]);
    let rows = render(&square, 2, 4, 4, 0, 0);
    assert_eq!(rows, vec![vec![255u8; 4]; 4]);
}

#[test]
fn nothing_leaves_the_bitmap_as_it_is() {
    let empty = Outline::new(0, 0);
    let rows = render(&empty, 2, 8, 4, 0, 0);
    assert_eq!(rows, vec![vec![0u8; 8]; 4]);
}

#[test]
fn rectangle_between_pixel_edges() {
    // columns 1..5 of rows 1..7; the edges lie between pixels, and what they
    // leave of their neighbours is the width of the ramp of the scale
    let rect = polygon(&[(64, 64), (320, 64), (320, 448), (64, 448)]);
    let rows = render(&rect, 2, 8, 8, 0, 0);
    let row: Vec<u8> = vec![1, 254, 255, 255, 254, 1, 0, 0];
    let none: Vec<u8> = vec![0; 8];
    assert_eq!(
        rows,
        vec![none.clone(), row.clone(), row.clone(), row.clone(), row.clone(), row.clone(), row, none]
    );
}

#[test]
fn edge_through_the_middle_of_a_pixel_covers_half_of_it() {
    // the right edge runs through the middle of column 3
    let shape = polygon(&[(64, 64), (224, 64), (224, 448), (64, 448)]);
    let rows = render(&shape, 2, 8, 8, 0, 0);
    let row: Vec<u8> = vec![1, 254, 255, 128, 0, 0, 0, 0];
    for y in 1..7 {
        assert_eq!(rows[y], row, "row {}", y);
    }
    assert_eq!(rows[0], vec![0u8; 8]);
    assert_eq!(rows[7], vec![0u8; 8]);
}

#[test]
fn small_square_inside_one_tile() {
    // pixels 1 and 2 of rows 1 and 2, painted from four segments at once
    let square = polygon(&[(64, 64), (192, 64), (192, 192), (64, 192)]);
    let rows = render(&square, 2, 4, 4, 0, 0);
    assert_eq!(
        rows,
        vec![
            vec![0, 0, 0, 0],
            vec![2, 253, 254, 2],
            vec![2, 253, 254, 2],
            vec![0, 0, 0, 0],
        ]
    );
    let rows = render(&square, 3, 8, 8, 0, 0);
    assert_eq!(rows[0], vec![0u8; 8]);
    assert_eq!(rows[1], vec![2, 254, 254, 2, 0, 0, 0, 0]);
    assert_eq!(rows[2], vec![2, 254, 254, 2, 0, 0, 0, 0]);
    for y in 3..8 {
        assert_eq!(rows[y], vec![0u8; 8], "row {}", y);
    }
}

#[test]
fn square_across_tiles() {
    // pixels 2..6 of rows 2..6 on a canvas of two by two tiles
    let square = polygon(&[(128, 128), (384, 128), (384, 384), (128, 384)]);
    let rows = render(&square, 2, 8, 8, 0, 0);
    let row: Vec<u8> = vec![0, 2, 253, 255, 255, 254, 2, 0];
    for (y, got) in rows.iter().enumerate() {
        if (2..6).contains(&y) {
            assert_eq!(got, &row, "row {}", y);
        } else {
            assert_eq!(got, &vec![0u8; 8], "row {}", y);
        }
    }
}

#[test]
fn origin_of_the_canvas_moves_the_shape() {
    // the same square, seen from a canvas whose corner lies at pixel (2, 2)
    let square = polygon(&[(128, 128), (384, 128), (384, 384), (128, 384)]);
    let rows = render(&square, 2, 4, 4, 2, 2);
    assert_eq!(rows, vec![vec![255u8; 4]; 4]);
    // and from one whose corner lies in the middle of the square
    let rows = render(&square, 2, 4, 4, 4, 4);
    assert_eq!(
        rows,
        vec![
            vec![255, 254, 2, 0],
            vec![255, 254, 2, 0],
            vec![0, 0, 0, 0],
            vec![0, 0, 0, 0],
        ]
    );
}

#[test]
fn triangle_with_a_slanted_edge() {
    // corners in the middle of pixels (0, 0), (7, 0) and (0, 7)
    let expected: Vec<Vec<u8>> = vec![
        vec![64, 128, 128, 128, 128, 128, 128, 30],
        vec![128, 255, 255, 255, 255, 255, 127, 0],
        vec![128, 255, 255, 255, 255, 127, 0, 0],
        vec![128, 255, 255, 255, 127, 0, 0, 0],
        vec![128, 255, 255, 127, 0, 0, 0, 0],
        vec![128, 255, 127, 0, 0, 0, 0, 0],
        vec![128, 127, 0, 0, 0, 0, 0, 0],
        vec![32, 0, 0, 0, 0, 0, 0, 0],
    ];
    let tri = polygon(&[(32, 32), (480, 32), (32, 480)]);
    // tile by tile, and as one tile from all three segments
    assert_eq!(render(&tri, 2, 8, 8, 0, 0), expected);
    assert_eq!(render(&tri, 3, 8, 8, 0, 0), expected);
}

#[test]
fn triangle_the_other_way_round_covers_the_same() {
    let tri = polygon(&[(32, 32), (480, 32), (32, 480)]);
    let rev = polygon(&[(32, 32), (32, 480), (480, 32)]);
    let a = render(&tri, 2, 8, 8, 0, 0);
    let b = render(&rev, 2, 8, 8, 0, 0);
    for y in 0..8 {
        for x in 0..8 {
            let d = (a[y][x] as i32 - b[y][x] as i32).abs();
            assert!(d <= 1, "pixel ({}, {}): {} and {}", x, y, a[y][x], b[y][x]);
        }
    }
    assert_eq!(b[1], vec![128, 255, 255, 255, 255, 255, 128, 0]);
}

#[test]
fn diamond_cuts_the_corners_of_pixels() {
    // a square on its tip: each slanted edge cuts an eighth off the pixels it
    // passes and leaves an eighth of those beside them
    let diamond = polygon(&[(256, 32), (480, 256), (256, 480), (32, 256)]);
    let rows = render(&diamond, 2, 8, 8, 0, 0);
    assert_eq!(rows[0], vec![0, 0, 0, 33, 32, 0, 0, 0]);
    assert_eq!(rows[1], vec![0, 0, 33, 223, 223, 32, 0, 0]);
    assert_eq!(rows[3], vec![33, 223, 255, 255, 255, 255, 223, 32]);
    assert_eq!(rows[7], vec![0, 0, 0, 32, 32, 0, 0, 0]);
    let sum: u32 = rows.iter().flatten().map(|&p| p as u32).sum();
    // the diamond covers 24.5 pixels
    assert!((sum as i64 - 6248).abs() <= 16, "sum {}", sum);
}

#[test]
fn two_outlines_make_one_shape() {
    let left = polygon(&[(0, 0), (128, 0), (128, 256), (0, 256)]);
    let right = polygon(&[(128, 0), (256, 0), (256, 256), (128, 256)]);
    let engine = SoftwareEngine::new(2, 2).unwrap();
    let mut bitmap = Bitmap::new(engine, 4, 4, true).unwrap();
    let mut rst = RasterizerData::new(2, 16).unwrap();
    rst.set_outline(&left, false);
    rst.set_outline(&right, true);
    let stride = bitmap.stride();
    rst.fill(&engine, bitmap.buffer_mut(), 0, 0, 4, 4, stride);
    for y in 0..4 {
        assert_eq!(&bitmap.buffer()[y * stride as usize..][..4], &[255u8; 4][..]);
    }
}

#[test]
fn fill_uses_the_segments_up() {
    let square = polygon(&[(0, 0), (256, 0), (256, 256), (0, 256)]);
    let engine = SoftwareEngine::new(2, 2).unwrap();
    let mut rst = RasterizerData::new(2, 16).unwrap();
    rst.set_outline(&square, false);
    let mut first = vec![0u8; 16];
    rst.fill(&engine, &mut first, 0, 0, 4, 4, 4);
    assert_eq!(first, vec![255u8; 16]);
    // nothing is left to draw
    let mut second = vec![7u8; 16];
    rst.fill(&engine, &mut second, 0, 0, 4, 4, 4);
    assert_eq!(second, vec![7u8; 16]);
}

#[test]
fn fill_keeps_off_the_padding_of_a_row() {
    let square = polygon(&[(0, 0), (256, 0), (256, 256), (0, 256)]);
    let engine = SoftwareEngine::new(2, 2).unwrap();
    let mut rst = RasterizerData::new(2, 16).unwrap();
    rst.set_outline(&square, false);
    let mut buf = vec![9u8; 4 * 6];
    rst.fill(&engine, &mut buf, 0, 0, 4, 4, 6);
    for y in 0..4 {
        assert_eq!(&buf[y * 6..y * 6 + 6], &[255, 255, 255, 255, 9, 9][..]);
    }
}

#[test]
fn rasterizer_refuses_a_tile_order_out_of_range() {
    assert!(matches!(RasterizerData::new(9, 16), Err(RasterError::AllocationOverflow)));
    assert!(RasterizerData::new(8, 16).is_ok());
    assert!(RasterizerData::new(0, 0).is_ok());
}

#[test]
fn engine_orders() {
    assert!(SoftwareEngine::new(6, 0).is_none());
    assert!(SoftwareEngine::new(-1, 0).is_none());
    assert!(SoftwareEngine::new(0, 13).is_none());
    let e = SoftwareEngine::new(5, 12).unwrap();
    assert_eq!(e.tile_order(), 5);
    assert_eq!(e.align_order(), 12);
}

#[test]
fn shapes_along_the_borders_of_the_canvas() {
    // along the left border, from row 1 to row 6
    let left = polygon(&[(0, 64), (256, 64), (256, 448), (0, 448)]);
    let rows = render(&left, 2, 8, 8, 0, 0);
    for y in 2..6 {
        assert_eq!(rows[y], vec![255, 255, 255, 255, 0, 0, 0, 0], "row {}", y);
    }
    assert!(rows[0].iter().all(|&p| p <= 2));
    assert!(rows[7].iter().all(|&p| p <= 2));
    // along the top border, from column 1 to column 4
    let top = polygon(&[(64, 0), (320, 0), (320, 256), (64, 256)]);
    let rows = render(&top, 2, 8, 8, 0, 0);
    for y in 0..4 {
        assert_eq!(rows[y], vec![2, 253, 255, 255, 253, 2, 0, 0], "row {}", y);
    }
    for y in 4..8 {
        assert_eq!(rows[y], vec![0u8; 8], "row {}", y);
    }
    // over the upper left corner of the canvas
    let over = polygon(&[(-64, -64), (256, -64), (256, 256), (-64, 256)]);
    let rows = render(&over, 2, 8, 8, 0, 0);
    for y in 0..8 {
        let row: Vec<u8> = if y < 4 { vec![255, 255, 255, 255, 0, 0, 0, 0] } else { vec![0; 8] };
        assert_eq!(rows[y], row, "row {}", y);
    }
}
