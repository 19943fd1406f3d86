use outline_raster::bitmap::Bitmap;
use outline_raster::engine::SoftwareEngine;
use outline_raster::outline::{Outline, SegmentType, Vector};
use outline_raster::rasterizer::RasterizerData;

/// A small generator of numbers that repeats itself from run to run.
struct Numbers(u64);

impl Numbers {
    fn next(&mut self) -> u64 {
        self.0 = self.0.wrapping_mul(6364136223846793005).wrapping_add(1442695040888963407);
        self.0 >> 33
    }

    fn below(&mut self, n: u64) -> i32 {
        (self.next() % n) as i32
    }
}

fn polygon(corners: &[(i32, i32)]) -> Outline {
    let mut o = Outline::new(corners.len() + 1, corners.len());
    for (i, &(x, y)) in corners.iter().enumerate() {
        let p = Vector { x, y };
        if i == 0 {
            o.add_point(p, None).unwrap();
        } else {
            o.add_point(p, Some(SegmentType::LineSegment)).unwrap();
        }
    }
    o.close_contour();
    o
}

#[test]
fn many_shapes_fill() {
    let mut numbers = Numbers(12345);
    let mut filled = 0;
    for round in 0..3000 {
        let order = 2 + numbers.below(3);
        let tile = 1 << order;
        let width = tile * (1 + numbers.below(3));
        let height = tile * (1 + numbers.below(3));
        let n = 3 + numbers.below(5) as usize;
        // corners on a grid that is coarse in every third round, so that
        // edges run along the borders of pixels and tiles
        let step = if round % 3 == 0 { 64 * tile } else if round % 3 == 1 { 32 } else { 1 };
        let span_x = (64 * width + 256) / step + 1;
        let span_y = (64 * height + 256) / step + 1;
        let corners: Vec<(i32, i32)> = (0..n)
            .map(|_| {
                (
                    numbers.below(span_x as u64) * step - 128,
                    numbers.below(span_y as u64) * step - 128,
                )
            })
            .collect();
        let outline = polygon(&corners);
        let engine = SoftwareEngine::new(order, 0).unwrap();
        let mut bitmap = Bitmap::new(engine, width, height, true).unwrap();
        let mut rst = RasterizerData::new(order as usize, 16).unwrap();
        rst.set_outline(&outline, false);
        let stride = bitmap.stride();
        rst.fill(&engine, bitmap.buffer_mut(), 0, 0, width, height, stride);
        if bitmap.buffer().iter().any(|&p| p != 0) {
            filled += 1;
        }
        assert!(rst.lines().is_empty());
    }
    assert!(filled > 1000, "{} shapes left a mark", filled);
}

#[test]
fn tiles_agree_on_a_shape() {
    // the same shape comes out much the same whatever the size of the tiles
    let mut numbers = Numbers(777);
    for round in 0..300 {
        let n = 3 + numbers.below(3) as usize;
        let corners: Vec<(i32, i32)> =
            (0..n).map(|_| (32 + numbers.below(960) , 32 + numbers.below(960))).collect();
        let outline = polygon(&corners);
        let mut images: Vec<Vec<u8>> = Vec::new();
        for order in [2, 3, 4] {
            let engine = SoftwareEngine::new(order, 0).unwrap();
            let mut rst = RasterizerData::new(order as usize, 16).unwrap();
            rst.set_outline(&outline, false);
            let mut buf = vec![0u8; 16 * 16];
            rst.fill(&engine, &mut buf, 0, 0, 16, 16, 16);
            images.push(buf);
        }
        let sums: Vec<i64> =
            images.iter().map(|b| b.iter().map(|&p| p as i64).sum()).collect();
        for s in &sums[1..] {
            assert!((s - sums[0]).abs() <= 256 * 6, "round {}: {:?} {:?}", round, corners, sums);
        }
    }
}
