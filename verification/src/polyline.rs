//! Polyline segments: straight pieces of a flattened outline, as lines with boxes.

use vstd::prelude::*;
use crate::utils::{i64_mul, lemma_product_bound};

verus! {

/// One property of a polyline segment.
#[derive(Debug, Copy, Clone, PartialEq, Eq, Structural)]
pub enum SegmentFlag {
    /// The segment runs downwards.
    Dn,
    /// The segment joins the upper left and the lower right corner of its box.
    UlDr,
    /// The left side of the box touches the segment.
    ExactLeft,
    /// The right side of the box touches the segment.
    ExactRight,
    /// The top side of the box touches the segment.
    ExactTop,
    /// The bottom side of the box touches the segment.
    ExactBottom,
}

impl SegmentFlag {
    /// The bit that stands for the flag in a packed word.
    pub fn bit(self) -> (r: u32)
        ensures
            r == match self {
                SegmentFlag::Dn => 1u32,
                SegmentFlag::UlDr => 2u32,
                SegmentFlag::ExactLeft => 4u32,
                SegmentFlag::ExactRight => 8u32,
                SegmentFlag::ExactTop => 16u32,
                SegmentFlag::ExactBottom => 32u32,
            },
    {
        match self {
            SegmentFlag::Dn => 1,
            SegmentFlag::UlDr => 2,
            SegmentFlag::ExactLeft => 4,
            SegmentFlag::ExactRight => 8,
            SegmentFlag::ExactTop => 16,
            SegmentFlag::ExactBottom => 32,
        }
    }
}

/// A set of segment flags.
#[derive(Debug, Copy, Clone, PartialEq, Eq, Structural)]
pub struct SegmentFlags {
    pub dn: bool,
    pub ul_dr: bool,
    pub exact_left: bool,
    pub exact_right: bool,
    pub exact_top: bool,
    pub exact_bottom: bool,
}

impl Default for SegmentFlags {
    fn default() -> (r: Self)
        ensures
            r == SegmentFlags::none(),
    {
        SegmentFlags {
            dn: false,
            ul_dr: false,
            exact_left: false,
            exact_right: false,
            exact_top: false,
            exact_bottom: false,
        }
    }
}

impl SegmentFlags {
    /// The empty set.
    pub open spec fn none() -> Self {
        SegmentFlags {
            dn: false,
            ul_dr: false,
            exact_left: false,
            exact_right: false,
            exact_top: false,
            exact_bottom: false,
        }
    }

    pub open spec fn has(self, flag: SegmentFlag) -> bool {
        match flag {
            SegmentFlag::Dn => self.dn,
            SegmentFlag::UlDr => self.ul_dr,
            SegmentFlag::ExactLeft => self.exact_left,
            SegmentFlag::ExactRight => self.exact_right,
            SegmentFlag::ExactTop => self.exact_top,
            SegmentFlag::ExactBottom => self.exact_bottom,
        }
    }

    /// The set with `flag` put to `value` and all else as in `self`.
    pub open spec fn with(self, flag: SegmentFlag, value: bool) -> Self {
        match flag {
            SegmentFlag::Dn => SegmentFlags { dn: value, ..self },
            SegmentFlag::UlDr => SegmentFlags { ul_dr: value, ..self },
            SegmentFlag::ExactLeft => SegmentFlags { exact_left: value, ..self },
            SegmentFlag::ExactRight => SegmentFlags { exact_right: value, ..self },
            SegmentFlag::ExactTop => SegmentFlags { exact_top: value, ..self },
            SegmentFlag::ExactBottom => SegmentFlags { exact_bottom: value, ..self },
        }
    }

    pub fn contains(&self, flag: SegmentFlag) -> (r: bool)
        ensures
            r == self.has(flag),
    {
        match flag {
            SegmentFlag::Dn => self.dn,
            SegmentFlag::UlDr => self.ul_dr,
            SegmentFlag::ExactLeft => self.exact_left,
            SegmentFlag::ExactRight => self.exact_right,
            SegmentFlag::ExactTop => self.exact_top,
            SegmentFlag::ExactBottom => self.exact_bottom,
        }
    }

    pub fn insert(&mut self, flag: SegmentFlag)
        ensures
            *final(self) == old(self).with(flag, true),
    {
        match flag {
            SegmentFlag::Dn => self.dn = true,
            SegmentFlag::UlDr => self.ul_dr = true,
            SegmentFlag::ExactLeft => self.exact_left = true,
            SegmentFlag::ExactRight => self.exact_right = true,
            SegmentFlag::ExactTop => self.exact_top = true,
            SegmentFlag::ExactBottom => self.exact_bottom = true,
        }
    }

    pub fn remove(&mut self, flag: SegmentFlag)
        ensures
            *final(self) == old(self).with(flag, false),
    {
        match flag {
            SegmentFlag::Dn => self.dn = false,
            SegmentFlag::UlDr => self.ul_dr = false,
            SegmentFlag::ExactLeft => self.exact_left = false,
            SegmentFlag::ExactRight => self.exact_right = false,
            SegmentFlag::ExactTop => self.exact_top = false,
            SegmentFlag::ExactBottom => self.exact_bottom = false,
        }
    }
}

/// No coordinate of a segment's box leaves `-COORD_LIMIT ..= COORD_LIMIT`.
pub const COORD_LIMIT: i32 = 0x4000_0000;

/// No offset `c` of a segment leaves `-OFFSET_LIMIT ..= OFFSET_LIMIT`.
pub const OFFSET_LIMIT: i64 = 0x5fff_ffff_ffff_ffff;

/// By how much `c` can change when a segment is moved by one unit.
pub const OFFSET_PER_UNIT: i64 = 0x8000_0000;

/// One straight piece of a flattened outline: the line `a * x + b * y = c`,
/// the box that holds the piece, and what is known of how the piece lies in it.
#[derive(Debug, Copy, Clone, PartialEq, Eq, Structural)]
pub struct Segment {
    pub c: i64,
    pub a: i32,
    pub b: i32,
    /// Turns a signed distance from the line into a share of a pixel.
    pub scale: i32,
    pub flags: SegmentFlags,
    pub x_min: i32,
    pub x_max: i32,
    pub y_min: i32,
    pub y_max: i32,
}

impl Default for Segment {
    fn default() -> (r: Self)
        ensures
            r == (Segment {
                c: 0,
                a: 0,
                b: 0,
                scale: 0,
                flags: SegmentFlags::none(),
                x_min: 0,
                x_max: 0,
                y_min: 0,
                y_max: 0,
            }),
    {
        Segment {
            c: 0,
            a: 0,
            b: 0,
            scale: 0,
            flags: SegmentFlags::default(),
            x_min: 0,
            x_max: 0,
            y_min: 0,
            y_max: 0,
        }
    }
}

impl Segment {
    /// The numbers of the segment leave room for it to be moved by up to
    /// `room_x` units to the left and `room_y` units upwards, and for its
    /// line to be evaluated anywhere in its box after that.
    pub open spec fn fits(self, room_x: int, room_y: int) -> bool {
        &&& -COORD_LIMIT + room_x <= self.x_min <= COORD_LIMIT
        &&& -COORD_LIMIT + room_x <= self.x_max <= COORD_LIMIT
        &&& -COORD_LIMIT + room_y <= self.y_min <= COORD_LIMIT
        &&& -COORD_LIMIT + room_y <= self.y_max <= COORD_LIMIT
        &&& self.a > i32::MIN
        &&& self.b > i32::MIN
        &&& self.scale > i32::MIN
        &&& -OFFSET_LIMIT + OFFSET_PER_UNIT * (room_x + room_y) <= self.c
        &&& self.c <= OFFSET_LIMIT - OFFSET_PER_UNIT * (room_x + room_y)
    }

    /// The first value for a segment from the upper left to the lower right, else the second.
    pub open spec fn pick(self, if_ul_dr: i32, otherwise: i32) -> i32 {
        if self.flags.ul_dr {
            if_ul_dr
        } else {
            otherwise
        }
    }

    /// The segment lies at or right of the vertical line at `x`: read off the
    /// box where its left side is exact, else off the line at the corner of
    /// the box that lies furthest to the left on the segment.
    pub open spec fn spec_check_left(self, x: i32) -> bool {
        if self.flags.exact_left {
            self.x_min >= x
        } else {
            let cc = self.c - self.a * x - self.b * self.pick(self.y_min, self.y_max);
            (if self.a < 0 { -cc } else { cc }) >= 0
        }
    }

    /// The segment lies at or left of the vertical line at `x`.
    pub open spec fn spec_check_right(self, x: i32) -> bool {
        if self.flags.exact_right {
            self.x_max <= x
        } else {
            let cc = self.c - self.a * x - self.b * self.pick(self.y_max, self.y_min);
            (if self.a > 0 { -cc } else { cc }) >= 0
        }
    }

    /// The segment lies at or below the horizontal line at `y`.
    pub open spec fn spec_check_top(self, y: i32) -> bool {
        if self.flags.exact_top {
            self.y_min >= y
        } else {
            let cc = self.c - self.b * y - self.a * self.pick(self.x_min, self.x_max);
            (if self.b < 0 { -cc } else { cc }) >= 0
        }
    }

    /// The segment lies at or above the horizontal line at `y`.
    pub open spec fn spec_check_bottom(self, y: i32) -> bool {
        if self.flags.exact_bottom {
            self.y_max <= y
        } else {
            let cc = self.c - self.b * y - self.a * self.pick(self.x_max, self.x_min);
            (if self.b > 0 { -cc } else { cc }) >= 0
        }
    }

    /// The segment seen from an origin `x` units further right. What would lie
    /// left of the new origin is cut off the box.
    pub open spec fn moved_x(self, x: i32) -> Segment {
        let x_min = if self.x_min - x > 0 { self.x_min - x } else { 0 };
        Segment {
            x_min: x_min as i32,
            x_max: (self.x_max - x) as i32,
            c: (self.c - self.a * x) as i64,
            flags: if x_min == 0 && self.flags.exact_left && self.flags.ul_dr {
                SegmentFlags { exact_top: false, ..self.flags }
            } else {
                self.flags
            },
            ..self
        }
    }

    /// The segment seen from an origin `y` units further down.
    pub open spec fn moved_y(self, y: i32) -> Segment {
        let y_min = if self.y_min - y > 0 { self.y_min - y } else { 0 };
        Segment {
            y_min: y_min as i32,
            y_max: (self.y_max - y) as i32,
            c: (self.c - self.b * y) as i64,
            flags: if y_min == 0 && self.flags.exact_top && self.flags.ul_dr {
                SegmentFlags { exact_left: false, ..self.flags }
            } else {
                self.flags
            },
            ..self
        }
    }

    /// The two pieces of the segment left and right of the vertical line at
    /// `x`. Both lie on the line of the segment; the right one is seen from
    /// an origin at `x`. The cut is an exact side of both boxes.
    pub open spec fn halves_horz(self, x: i32) -> (Segment, Segment) {
        let left_flags = SegmentFlags { exact_top: false, ..self.flags };
        let right_flags = SegmentFlags { exact_bottom: false, ..self.flags };
        let left = Segment {
            x_max: x,
            flags: SegmentFlags {
                exact_right: true,
                ..(if self.flags.ul_dr {
                    right_flags
                } else {
                    left_flags
                })
            },
            ..self
        };
        let right = Segment {
            c: (self.c - self.a * x) as i64,
            x_min: 0,
            x_max: (self.x_max - x) as i32,
            flags: SegmentFlags {
                exact_left: true,
                ..(if self.flags.ul_dr {
                    left_flags
                } else {
                    right_flags
                })
            },
            ..self
        };
        (left, right)
    }

    /// The two pieces of the segment above and below the horizontal line at
    /// `y`. Both lie on the line of the segment; the lower one is seen from
    /// an origin at `y`. The cut is an exact side of both boxes.
    pub open spec fn halves_vert(self, y: i32) -> (Segment, Segment) {
        let upper_flags = SegmentFlags { exact_left: false, ..self.flags };
        let lower_flags = SegmentFlags { exact_right: false, ..self.flags };
        let upper = Segment {
            y_max: y,
            flags: SegmentFlags {
                exact_bottom: true,
                ..(if self.flags.ul_dr {
                    lower_flags
                } else {
                    upper_flags
                })
            },
            ..self
        };
        let lower = Segment {
            c: (self.c - self.b * y) as i64,
            y_min: 0,
            y_max: (self.y_max - y) as i32,
            flags: SegmentFlags {
                exact_top: true,
                ..(if self.flags.ul_dr {
                    upper_flags
                } else {
                    lower_flags
                })
            },
            ..self
        };
        (upper, lower)
    }

    pub fn move_x(&mut self, x: i32)
        requires
            0 <= x,
            old(self).fits(x as int, 0),
        ensures
            *final(self) == old(self).moved_x(x),
    {
        proof {
            lemma_product_bound(self.a as int, x as int, 0x8000_0000, x as int);
        }
        self.x_min = self.x_min - x;
        self.x_max = self.x_max - x;
        if self.x_min < 0 {
            self.x_min = 0;
        }
        self.c = self.c - i64_mul(self.a, x);
        if self.x_min == 0 && self.flags.exact_left && self.flags.ul_dr {
            self.flags.exact_top = false;
        }
    }

    pub fn move_y(&mut self, y: i32)
        requires
            0 <= y,
            old(self).fits(0, y as int),
        ensures
            *final(self) == old(self).moved_y(y),
    {
        proof {
            lemma_product_bound(self.b as int, y as int, 0x8000_0000, y as int);
        }
        self.y_min = self.y_min - y;
        self.y_max = self.y_max - y;
        if self.y_min < 0 {
            self.y_min = 0;
        }
        self.c = self.c - i64_mul(self.b, y);
        if self.y_min == 0 && self.flags.exact_top && self.flags.ul_dr {
            self.flags.exact_left = false;
        }
    }

    pub fn split_horz(self, x: i32) -> (r: (Self, Self))
        requires
            self.x_min < x < self.x_max,
            0 <= x,
            self.fits(x as int, 0),
        ensures
            r == self.halves_horz(x),
    {
        proof {
            lemma_product_bound(self.a as int, x as int, 0x8000_0000, x as int);
        }
        let mut line: Segment = self;
        let mut next: Segment = self;
        next.c = next.c - i64_mul(self.a, x);
        next.x_min = 0;
        next.x_max = next.x_max - x;
        line.x_max = x;

        line.flags.exact_top = false;
        next.flags.exact_bottom = false;
        if line.flags.ul_dr {
            let tmp: SegmentFlags = line.flags;
            line.flags = next.flags;
            next.flags = tmp;
        }
        line.flags.exact_right = true;
        next.flags.exact_left = true;
        (line, next)
    }

    pub fn split_vert(self, y: i32) -> (r: (Self, Self))
        requires
            self.y_min < y < self.y_max,
            0 <= y,
            self.fits(0, y as int),
        ensures
            r == self.halves_vert(y),
    {
        proof {
            lemma_product_bound(self.b as int, y as int, 0x8000_0000, y as int);
        }
        let mut line: Segment = self;
        let mut next: Segment = self;
        next.c = next.c - i64_mul(self.b, y);
        next.y_min = 0;
        next.y_max = next.y_max - y;
        line.y_max = y;

        line.flags.exact_left = false;
        next.flags.exact_right = false;
        if line.flags.ul_dr {
            let tmp: SegmentFlags = line.flags;
            line.flags = next.flags;
            next.flags = tmp;
        }
        line.flags.exact_bottom = true;
        next.flags.exact_top = true;
        (line, next)
    }

    pub fn check_left(&self, x: i32) -> (r: bool)
        requires
            0 <= x,
            self.fits(x as int, 0),
        ensures
            r == self.spec_check_left(x),
    {
        if self.flags.exact_left {
            return self.x_min >= x;
        }
        let y: i32 = self.cond_uldr(self.y_min, self.y_max);
        proof {
            lemma_product_bound(self.a as int, x as int, 0x8000_0000, x as int);
            lemma_product_bound(self.b as int, y as int, 0x8000_0000, COORD_LIMIT as int);
        }
        let mut cc: i64 = self.c - i64_mul(self.a, x) - i64_mul(self.b, y);
        if self.a < 0 {
            cc = -cc;
        }
        cc >= 0
    }

    pub fn check_right(&self, x: i32) -> (r: bool)
        requires
            0 <= x,
            self.fits(x as int, 0),
        ensures
            r == self.spec_check_right(x),
    {
        if self.flags.exact_right {
            return self.x_max <= x;
        }
        let y: i32 = self.cond_uldr(self.y_max, self.y_min);
        proof {
            lemma_product_bound(self.a as int, x as int, 0x8000_0000, x as int);
            lemma_product_bound(self.b as int, y as int, 0x8000_0000, COORD_LIMIT as int);
        }
        let mut cc: i64 = self.c - i64_mul(self.a, x) - i64_mul(self.b, y);
        if self.a > 0 {
            cc = -cc;
        }
        cc >= 0
    }

    pub fn check_top(&self, y: i32) -> (r: bool)
        requires
            0 <= y,
            self.fits(0, y as int),
        ensures
            r == self.spec_check_top(y),
    {
        if self.flags.exact_top {
            return self.y_min >= y;
        }
        let x: i32 = self.cond_uldr(self.x_min, self.x_max);
        proof {
            lemma_product_bound(self.b as int, y as int, 0x8000_0000, y as int);
            lemma_product_bound(self.a as int, x as int, 0x8000_0000, COORD_LIMIT as int);
        }
        let mut cc: i64 = self.c - i64_mul(self.b, y) - i64_mul(self.a, x);
        if self.b < 0 {
            cc = -cc;
        }
        cc >= 0
    }

    pub fn check_bottom(&self, y: i32) -> (r: bool)
        requires
            0 <= y,
            self.fits(0, y as int),
        ensures
            r == self.spec_check_bottom(y),
    {
        if self.flags.exact_bottom {
            return self.y_max <= y;
        }
        let x: i32 = self.cond_uldr(self.x_max, self.x_min);
        proof {
            lemma_product_bound(self.b as int, y as int, 0x8000_0000, y as int);
            lemma_product_bound(self.a as int, x as int, 0x8000_0000, COORD_LIMIT as int);
        }
        let mut cc: i64 = self.c - i64_mul(self.b, y) - i64_mul(self.a, x);
        if self.b > 0 {
            cc = -cc;
        }
        cc >= 0
    }

    fn cond_uldr(&self, a: i32, b: i32) -> (r: i32)
        ensures
            r == self.pick(a, b),
    {
        if self.flags.ul_dr {
            a
        } else {
            b
        }
    }
}

/// Moving a segment uses up the room it is moved by, and no more.
pub proof fn lemma_moved_x_fits(s: Segment, x: i32, room_x: int, room_y: int)
    requires
        0 <= x <= room_x,
        0 <= room_y,
        room_x <= COORD_LIMIT,
        s.fits(room_x, room_y),
    ensures
        s.moved_x(x).fits(room_x - x, room_y),
        s.halves_horz(x).1.fits(room_x - x, room_y),
        0 <= s.moved_x(x).x_min,
        s.x_min < x ==> s.halves_horz(x).0.fits(room_x, room_y),
{
    lemma_product_bound(s.a as int, x as int, 0x8000_0000, x as int);
}

/// Moving a segment uses up the room it is moved by, and no more.
pub proof fn lemma_moved_y_fits(s: Segment, y: i32, room_x: int, room_y: int)
    requires
        0 <= y <= room_y,
        0 <= room_x,
        room_y <= COORD_LIMIT,
        s.fits(room_x, room_y),
    ensures
        s.moved_y(y).fits(room_x, room_y - y),
        s.halves_vert(y).1.fits(room_x, room_y - y),
        0 <= s.moved_y(y).y_min,
        s.y_min < y ==> s.halves_vert(y).0.fits(room_x, room_y),
{
    lemma_product_bound(s.b as int, y as int, 0x8000_0000, y as int);
}

} // verus!
