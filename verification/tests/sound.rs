use outline_raster::flatten::make_line;
use outline_raster::outline::Vector;
use outline_raster::polyline::Segment;
use outline_raster::split::{polyline_split_horz, polyline_split_vert};

struct Numbers(u64);

impl Numbers {
    fn below(&mut self, n: u64) -> i32 {
        self.0 = self.0.wrapping_mul(6364136223846793005).wrapping_add(1442695040888963407);
        ((self.0 >> 33) % n) as i32
    }
}

fn f(s: &Segment, x: i32, y: i32) -> i128 {
    s.a as i128 * x as i128 + s.b as i128 * y as i128 - s.c as i128
}

/// What is held to be true of every segment that cutting leaves.
fn sound(s: &Segment) -> Result<(), String> {
    let fl = s.flags;
    let check = |ok: bool, what: &str| if ok { Ok(()) } else { Err(format!("{}: {:?}", what, s)) };
    check(s.x_min <= s.x_max && s.y_min <= s.y_max, "box")?;
    check(fl.ul_dr == ((s.b > 0) != (s.a >= 0)), "signs")?;
    check(s.a != 0 || s.y_min == s.y_max, "flat")?;
    check(s.b != 0 || s.x_min == s.x_max, "upright")?;
    if fl.ul_dr {
        check(fl.exact_left || fl.exact_top, "upper left end")?;
        check(fl.exact_right || fl.exact_bottom, "lower right end")?;
    } else {
        check(fl.exact_right || fl.exact_top, "upper right end")?;
        check(fl.exact_left || fl.exact_bottom, "lower left end")?;
    }
    // the line at height y lies at or right of x / at or left of x
    let right_of = |x: i32, y: i32| if s.a >= 0 { f(s, x, y) <= 0 } else { f(s, x, y) >= 0 };
    let left_of = |x: i32, y: i32| if s.a > 0 { f(s, x, y) >= 0 } else { f(s, x, y) <= 0 };
    // the line at column x lies at or below y / at or above y
    let below = |x: i32, y: i32| if s.b >= 0 { f(s, x, y) <= 0 } else { f(s, x, y) >= 0 };
    let above = |x: i32, y: i32| if s.b > 0 { f(s, x, y) >= 0 } else { f(s, x, y) <= 0 };
    if fl.exact_top {
        check(right_of(s.x_min, s.y_min) && left_of(s.x_max, s.y_min), "top")?;
    }
    if fl.exact_bottom {
        check(right_of(s.x_min, s.y_max) && left_of(s.x_max, s.y_max), "bottom")?;
    }
    if fl.exact_left {
        check(below(s.x_min, s.y_min) && above(s.x_min, s.y_max), "left")?;
    }
    if fl.exact_right {
        check(below(s.x_max, s.y_min) && above(s.x_max, s.y_max), "right")?;
    }
    Ok(())
}

fn cut_all(lines: Vec<Segment>, width: i32, height: i32, numbers: &mut Numbers, depth: u32) {
    for s in &lines {
        sound(s).unwrap();
    }
    if depth == 0 || lines.is_empty() || (width <= 1 && height <= 1) {
        return;
    }
    let n = lines.len();
    let horizontal = if width <= 1 { false } else if height <= 1 { true } else { numbers.below(2) == 0 };
    if horizontal {
        let x = 1 + numbers.below((width - 1) as u64);
        let s = polyline_split_horz(&lines, [n, 0], [0, 0], x).unwrap();
        cut_all(s.first, x, height, numbers, depth - 1);
        cut_all(s.second, width - x, height, numbers, depth - 1);
    } else {
        let y = 1 + numbers.below((height - 1) as u64);
        let s = polyline_split_vert(&lines, [n, 0], [0, 0], y).unwrap();
        cut_all(s.first, width, y, numbers, depth - 1);
        cut_all(s.second, width, height - y, numbers, depth - 1);
    }
}

#[test]
fn cuts_leave_sound_segments() {
    let mut numbers = Numbers(99);
    for round in 0..4000 {
        let size = if round % 2 == 0 { 16 } else { 1000 };
        let n = 1 + numbers.below(6) as usize;
        let mut lines = Vec::new();
        for _ in 0..n {
            let p0 = Vector { x: numbers.below(size as u64 + 1), y: numbers.below(size as u64 + 1) };
            let p1 = Vector { x: numbers.below(size as u64 + 1), y: numbers.below(size as u64 + 1) };
            if p0 != p1 {
                lines.push(make_line(p0, p1));
            }
        }
        cut_all(lines, size, size, &mut numbers, 12);
    }
}
