//! An engine that paints in software.
//!
//! Coverage is worked out in fixed point. In a tile of order `n` a pixel is
//! `2^(14 - n)` units wide, so that the numbers of a whole tile fit 16 bits.

use vstd::prelude::*;
use vstd::arithmetic::power2::*;
use vstd::arithmetic::div_mod::*;
use crate::bitmap::{BitmapEngine, block_fits, in_block, MAX_ALIGN_ORDER, with_block};
use crate::coverage::lemma_block_index;
use crate::outline::abs_int;
use crate::paint::{paint_block, painted, PixelSource};
use crate::polyline::Segment;
use crate::utils::lemma_product_bound;

verus! {

/// The largest tile order of the software engine: its tiles are at most 32 pixels wide.
pub const MAX_SOFTWARE_TILE_ORDER: i32 = 5;

/// `v`, or the nearer end of `lo ..= hi` where it lies outside.
pub open spec fn clamp_int(v: int, lo: int, hi: int) -> int {
    if v < lo {
        lo
    } else if v > hi {
        hi
    } else {
        v
    }
}

/// The smaller of two numbers.
pub open spec fn min_int(a: int, b: int) -> int {
    if a < b {
        a
    } else {
        b
    }
}

/// `2^k` as a machine number.
pub fn pow2_i64(k: u32) -> (r: i64)
    requires
        k <= 62,
    ensures
        r == pow2(k as nat),
        1 <= r,
{
    let mut r: i64 = 1;
    let mut i: u32 = 0;
    proof {
        lemma2_to64();
    }
    while i < k
        invariant
            i <= k <= 62,
            r == pow2(i as nat),
            1 <= r <= 0x4000_0000_0000_0000,
            i < 62 ==> r <= 0x2000_0000_0000_0000,
        decreases k - i,
    {
        proof {
            lemma2_to64();
            lemma2_to64_rest();
            lemma_pow2_unfold((i + 1) as nat);
            if i + 1 < 62 {
                lemma_pow2_strictly_increases((i + 1) as nat, 62);
            }
            if i < 61 {
                lemma_pow2_strictly_increases(i as nat, 61);
            }
        }
        r = r * 2;
        i = i + 1;
    }
    r
}

/// `v` divided by `d`, rounded down.
pub fn floor_div64(v: i64, d: i64) -> (r: i64)
    requires
        0 < d,
        -0x4000_0000_0000_0000 <= v,
        d <= 0x2000_0000_0000_0000,
    ensures
        r == v as int / d as int,
{
    if v >= 0 {
        v / d
    } else {
        let u: i64 = -v;
        let q: i64 = (u + (d - 1)) / d;
        proof {
            let t = u + (d - 1);
            lemma_fundamental_div_mod(t as int, d as int);
            lemma_mod_bound(t as int, d as int);
            let rem = t as int % d as int;
            assert(d * q == q * d) by (nonlinear_arith);
            assert(d * (-q) == -(d * q)) by (nonlinear_arith);
            lemma_fundamental_div_mod_converse(v as int, d as int, -(q as int), d - 1 - rem);
        }
        -q
    }
}

/// Rounded down, a quotient keeps within the bounds of what is divided.
pub proof fn lemma_floor_div_bound(v: int, d: int, bound: int)
    requires
        0 < d,
        -bound <= v <= bound,
    ensures
        -bound <= v / d <= bound,
        d >= 2 ==> -(bound / d) - 1 <= v / d <= bound / d,
{
    lemma_fundamental_div_mod(v, d);
    lemma_mod_bound(v, d);
    lemma_fundamental_div_mod(bound, d);
    lemma_mod_bound(bound, d);
    let q = v / d;
    let qb = bound / d;
    assert(q <= qb && q >= -qb - 1 && q <= bound && q >= -bound) by (nonlinear_arith)
        requires
            v == d * q + v % d,
            bound == d * qb + bound % d,
            0 <= v % d < d,
            0 <= bound % d < d,
            -bound <= v <= bound,
            d > 0,
    ;
}

fn clamp(v: i64, lo: i64, hi: i64) -> (r: i64)
    ensures
        r == clamp_int(v as int, lo as int, hi as int),
{
    if v < lo {
        lo
    } else if v > hi {
        hi
    } else {
        v
    }
}

/// A line coefficient in the units of a tile of the given order, in which
/// a pixel is `2^(14 - order)` wide: the coefficient times the scale of its
/// line, rounded to the nearest.
pub open spec fn plane_slope(a: i32, scale: i32, order: int) -> int {
    (a * scale + pow2((45 + order) as nat)) / (pow2((46 + order) as nat) as int)
}

/// The offset of a line in the units of a tile of the given order.
pub open spec fn plane_offset(c: i64, scale: i32, order: int) -> int {
    (clamp_int((c as int) / (pow2((7 + order) as nat) as int), i32::MIN as int, i32::MAX as int) * scale
        + pow2(44)) / (pow2(45) as int)
}

/// The coverage of pixel `(x, y)` of a tile by the side of the line
/// `a * x + b * y = c` on which `a * x + b * y` is smaller: how far the line
/// lies behind the middle of the pixel, taken at two points across the
/// pixel, each held within the pixel, and the two added up.
pub open spec fn halfplane_coverage(
    a: i32,
    b: i32,
    c: i64,
    scale: i32,
    order: int,
    x: int,
    y: int,
) -> u8 {
    let aa = plane_slope(a, scale, order);
    let bb = plane_slope(b, scale, order);
    let cc = plane_offset(c, scale, order) + pow2((13 - order) as nat) - (aa + bb) / 2;
    let delta = (min_int(abs_int(aa), abs_int(bb)) + 2) / 4;
    let full = pow2((14 - order) as nat) - 1;
    let v = cc - aa * x - bb * y;
    let res = (clamp_int(v + delta, 0, full) + clamp_int(v - delta, 0, full)) / (pow2(
        (7 - order) as nat,
    ) as int);
    (if res > 255 {
        255
    } else {
        res
    }) as u8
}

fn slope(a: i32, scale: i32, order: u32) -> (r: i64)
    requires
        order <= MAX_SOFTWARE_TILE_ORDER,
    ensures
        r == plane_slope(a, scale, order as int),
        -0x2_0000 <= r <= 0x2_0000,
{
    proof {
        lemma2_to64();
        lemma2_to64_rest();
        lemma_product_bound(a as int, scale as int, 0x8000_0000, 0x8000_0000);
        lemma_pow2_strictly_increases((45 + order) as nat, 51);
        lemma_pow2_strictly_increases(45, (46 + order) as nat);
        lemma_pow2_strictly_increases((46 + order) as nat, 52);
    }
    let round: i64 = pow2_i64(45 + order);
    let div: i64 = pow2_i64(46 + order);
    let sum: i64 = (a as i64) * (scale as i64) + round;
    proof {
        lemma_floor_div_bound(sum as int, div as int, 0x4008_0000_0000_0000);
        lemma_floor_div_bound(sum as int, pow2(46) as int, 0x4008_0000_0000_0000);
        lemma_fundamental_div_mod(sum as int, div as int);
        lemma_mod_bound(sum as int, div as int);
        let q = sum as int / div as int;
        assert(-0x2_0000 <= q <= 0x2_0000) by (nonlinear_arith)
            requires
                sum == div * q + (sum as int) % (div as int),
                0 <= (sum as int) % (div as int) < (div as int),
                div >= 0x4000_0000_0000,
                -0x4008_0000_0000_0000 <= sum <= 0x4008_0000_0000_0000,
        ;
    }
    floor_div64(sum, div)
}

fn offset(c: i64, scale: i32, order: u32) -> (r: i64)
    requires
        order <= MAX_SOFTWARE_TILE_ORDER,
    ensures
        r == plane_offset(c, scale, order as int),
        -0x4_0000 <= r <= 0x4_0000,
{
    proof {
        lemma2_to64();
        lemma2_to64_rest();
        lemma_pow2_strictly_increases((7 + order) as nat, 13);
    }
    let div: i64 = pow2_i64(7 + order);
    let high: i64 = if c < -0x4000_0000_0000_0000 {
        proof {
            lemma_fundamental_div_mod(c as int, div as int);
            lemma_mod_bound(c as int, div as int);
            let q = c as int / div as int;
            assert(q < -0x8000_0000) by (nonlinear_arith)
                requires
                    c == div * q + (c as int) % (div as int),
                    0 <= (c as int) % (div as int) < (div as int),
                    div > 0,
                    div <= 0x1000,
                    c < -0x4000_0000_0000_0000,
            ;
        }
        i32::MIN as i64
    } else {
        clamp(floor_div64(c, div), i32::MIN as i64, i32::MAX as i64)
    };
    proof {
        lemma_product_bound(high as int, scale as int, 0x8000_0000, 0x8000_0000);
    }
    let sum: i64 = high * (scale as i64) + 0x1000_0000_0000;
    proof {
        let d = pow2(45) as int;
        lemma_fundamental_div_mod(sum as int, d);
        lemma_mod_bound(sum as int, d);
        let q = sum as int / d;
        assert(-0x4_0000 <= q <= 0x4_0000) by (nonlinear_arith)
            requires
                sum == d * q + (sum as int) % d,
                0 <= (sum as int) % d < d,
                d == 0x2000_0000_0000,
                -0x4000_1000_0000_0000 <= sum <= 0x4000_1000_0000_0000,
        ;
    }
    floor_div64(sum, 0x2000_0000_0000)
}

/// A tile cut by one line, ready to be asked for its pixels.
struct HalfplaneSource {
    aa: i64,
    bb: i64,
    cc: i64,
    delta: i64,
    full: i64,
    div: i64,
    size: usize,
    a: Ghost<i32>,
    b: Ghost<i32>,
    c: Ghost<i64>,
    scale: Ghost<i32>,
    order: Ghost<int>,
}

impl PixelSource for HalfplaneSource {
    closed spec fn ready(&self) -> bool {
        let order = self.order@;
        let aa = plane_slope(self.a@, self.scale@, order);
        let bb = plane_slope(self.b@, self.scale@, order);
        &&& 0 <= order <= MAX_SOFTWARE_TILE_ORDER
        &&& self.size == pow2(order as nat)
        &&& self.size <= 32
        &&& self.aa == aa
        &&& self.bb == bb
        &&& -0x2_0000 <= self.aa <= 0x2_0000
        &&& -0x2_0000 <= self.bb <= 0x2_0000
        &&& self.cc == plane_offset(self.c@, self.scale@, order) + pow2((13 - order) as nat) - (aa
            + bb) / 2
        &&& -0x10_0000 <= self.cc <= 0x10_0000
        &&& self.delta == (min_int(abs_int(aa), abs_int(bb)) + 2) / 4
        &&& 0 <= self.delta <= 0x2_0000
        &&& self.full == pow2((14 - order) as nat) - 1
        &&& 0 <= self.full <= 0x4000
        &&& self.div == pow2((7 - order) as nat)
        &&& 1 <= self.div <= 128
    }

    closed spec fn width(&self) -> int {
        self.size as int
    }

    closed spec fn height(&self) -> int {
        self.size as int
    }

    closed spec fn pixel(&self, x: int, y: int, prev: u8) -> u8 {
        halfplane_coverage(self.a@, self.b@, self.c@, self.scale@, self.order@, x, y)
    }

    fn compute(&self, x: usize, y: usize, prev: u8) -> (r: u8) {
        proof {
            lemma_product_bound(self.aa as int, x as int, 0x2_0000, 32);
            lemma_product_bound(self.bb as int, y as int, 0x2_0000, 32);
        }
        let v: i64 = self.cc - self.aa * (x as i64) - self.bb * (y as i64);
        let c1: i64 = clamp(v + self.delta, 0, self.full);
        let c2: i64 = clamp(v - self.delta, 0, self.full);
        let res: i64 = (c1 + c2) / self.div;
        if res > 255 {
            255
        } else {
            res as u8
        }
    }
}

/// A tile all of one value.
struct SolidSource {
    value: u8,
}

impl PixelSource for SolidSource {
    closed spec fn ready(&self) -> bool {
        true
    }

    closed spec fn width(&self) -> int {
        usize::MAX as int
    }

    closed spec fn height(&self) -> int {
        usize::MAX as int
    }

    closed spec fn pixel(&self, x: int, y: int, prev: u8) -> u8 {
        self.value
    }

    fn compute(&self, x: usize, y: usize, prev: u8) -> (r: u8) {
        self.value
    }
}

/// How two bitmaps are put together.
#[derive(Debug, Copy, Clone, PartialEq, Eq, Structural)]
pub enum Blend {
    Add,
    Sub,
    Mul,
}

/// A pixel of two bitmaps put together: their sum, held at 255; their
/// difference, held at zero; or their product as shares of 255, rounded up.
pub open spec fn blend_pixel(mode: Blend, dst: u8, src: u8) -> u8 {
    match mode {
        Blend::Add => (if dst + src > 255 {
            255
        } else {
            dst + src
        }) as u8,
        Blend::Sub => (if dst < src {
            0
        } else {
            dst - src
        }) as u8,
        Blend::Mul => ((dst * src + 255) / 256) as u8,
    }
}

/// An image to put together with the one that is painted over.
struct BlendSource<'a> {
    src: &'a [u8],
    stride: usize,
    width: usize,
    height: usize,
    mode: Blend,
}

impl<'a> PixelSource for BlendSource<'a> {
    closed spec fn ready(&self) -> bool {
        block_fits(self.src@.len(), self.stride as int, self.width as int, self.height as int)
    }

    closed spec fn width(&self) -> int {
        self.width as int
    }

    closed spec fn height(&self) -> int {
        self.height as int
    }

    closed spec fn pixel(&self, x: int, y: int, prev: u8) -> u8 {
        blend_pixel(self.mode, prev, self.src@[y * self.stride + x])
    }

    fn compute(&self, x: usize, y: usize, prev: u8) -> (r: u8) {
        let len: usize = self.src.len();
        proof {
            assert(y * self.stride + x <= (self.height - 1) * self.stride + x) by (nonlinear_arith)
                requires
                    y <= self.height - 1,
                    self.stride >= 0,
            ;
            assert(y * self.stride >= 0) by (nonlinear_arith)
                requires
                    y >= 0,
                    self.stride >= 0,
            ;
        }
        let other: u8 = self.src[y * self.stride + x];
        match self.mode {
            Blend::Add => {
                let sum: u16 = prev as u16 + other as u16;
                if sum > 255 {
                    255
                } else {
                    sum as u8
                }
            },
            Blend::Sub => {
                if prev < other {
                    0
                } else {
                    prev - other
                }
            },
            Blend::Mul => {
                proof {
                    lemma_product_bound(prev as int, other as int, 255, 255);
                    assert(prev * other >= 0) by (nonlinear_arith)
                        requires
                            prev >= 0,
                            other >= 0,
                    ;
                }
                ((prev as u32 * other as u32 + 255) / 256) as u8
            },
        }
    }
}

/// What one segment means for the coverage of a tile, in the units of the tile.
pub struct LineShape {
    /// The line coefficients and the offset of the line at the middle of the
    /// left side of a pixel in row zero.
    pub a: int,
    pub b: int,
    pub c: int,
    /// The rows of pixels in which the segment begins and ends.
    pub up: int,
    pub dn: int,
    /// How far below the top of those rows it begins and ends, in 1/64 pixel.
    pub up_pos: int,
    pub dn_pos: int,
    /// What the winding number changes by below the upper and the lower end.
    pub up_delta: int,
    pub dn_delta: int,
    /// The segment is horizontal.
    pub flat: bool,
}

pub open spec fn line_shape(l: Segment, order: int) -> LineShape {
    let plain: int = if l.flags.dn {
        4
    } else {
        0
    };
    let turned: int = if l.x_min == 0 && l.flags.exact_left {
        4 - plain
    } else {
        plain
    };
    let a = plane_slope(l.a, l.scale, order);
    LineShape {
        a,
        b: plane_slope(l.b, l.scale, order),
        c: plane_offset(l.c, l.scale, order) - a / 2,
        up: l.y_min as int / 64,
        dn: l.y_max as int / 64,
        up_pos: l.y_min as int % 64,
        dn_pos: l.y_max as int % 64,
        up_delta: if l.flags.ul_dr {
            turned
        } else {
            plain
        },
        dn_delta: if l.flags.ul_dr {
            plain
        } else {
            turned
        },
        flat: l.y_min == l.y_max,
    }
}

/// What the segment adds to the winding number of row `y`, in 1/256.
pub open spec fn winding_part(s: LineShape, y: int) -> int {
    (if s.up <= y {
        -(64 * s.up_delta - s.up_delta * s.up_pos)
    } else {
        0
    }) + (if s.up + 1 <= y {
        -(s.up_delta * s.up_pos)
    } else {
        0
    }) + (if s.dn <= y {
        64 * s.dn_delta - s.dn_delta * s.dn_pos
    } else {
        0
    }) + (if s.dn + 1 <= y {
        s.dn_delta * s.dn_pos
    } else {
        0
    })
}

/// What the segment adds to pixel `(x, y)` of a row that it crosses from top
/// to bottom.
pub open spec fn interior_part(s: LineShape, order: int, x: int, y: int) -> int {
    let full = pow2((14 - order) as nat) as int;
    let c = s.c - s.b * y - s.a * x;
    let dc = (min_int(abs_int(s.a), abs_int(s.b)) + 2) / 4;
    let base = full / 2 - s.b / 2;
    (clamp_int(c + base + dc, 0, full) + clamp_int(c + base - dc, 0, full)) / (pow2(
        (7 - order) as nat,
    ) as int)
}

/// What the segment adds to pixel `(x, y)` of a row of which it crosses the
/// part from `from` to `to` only, in 1/64 of the height of the row.
pub open spec fn border_part(s: LineShape, order: int, x: int, y: int, from: int, to: int) -> int {
    let full = pow2((14 - order) as nat) as int;
    let div = pow2((21 - 2 * order) as nat) as int;
    let size = to - from;
    let w = min_int(full + size * pow2((8 - order) as nat) - abs_int(s.a), full);
    let dc = (min_int(abs_int(s.a), abs_int(s.b) * size / 64) + 2) / 4;
    let base = s.b * (from + to) / 128;
    let cw = (s.c - s.b * y - s.a * x) * w / div;
    clamp_int(cw + (size - (base + dc) * w / div), 0, 2 * size) + clamp_int(
        cw + (size - (base - dc) * w / div),
        0,
        2 * size,
    )
}

/// What the segment adds to the coverage of pixel `(x, y)`, in 1/256.
pub open spec fn cover_part(s: LineShape, order: int, x: int, y: int) -> int {
    if s.flat {
        0
    } else if y == s.up && s.up_pos != 0 {
        border_part(
            s,
            order,
            x,
            y,
            s.up_pos,
            if s.dn == s.up {
                s.dn_pos
            } else {
                64
            },
        )
    } else if s.up <= y < s.dn {
        interior_part(s, order, x, y)
    } else if y == s.dn && s.dn_pos != 0 {
        border_part(s, order, x, y, 0, s.dn_pos)
    } else {
        0
    }
}

/// What all segments add to pixel `(x, y)`, in 1/256.
pub open spec fn generic_sum(lines: Seq<Segment>, order: int, x: int, y: int) -> int
    decreases lines.len(),
{
    if lines.len() == 0 {
        0
    } else {
        let s = line_shape(lines.last(), order);
        generic_sum(lines.drop_last(), order, x, y) + cover_part(s, order, x, y) + winding_part(
            s,
            y,
        )
    }
}

/// The coverage of pixel `(x, y)` of a tile by the shape whose border
/// within the tile the segments `lines` are, where the winding number at the
/// upper left corner of the tile is `winding`: what the segments add up to
/// and the winding number, without its sign, held at full coverage.
pub open spec fn generic_coverage(
    lines: Seq<Segment>,
    winding: i32,
    order: int,
    x: int,
    y: int,
) -> u8 {
    let v = abs_int(generic_sum(lines, order, x, y) + 256 * winding);
    (if v > 255 {
        255
    } else {
        v
    }) as u8
}

/// A segment with what it means for a tile worked out.
struct PreparedLine {
    a: i64,
    b: i64,
    c: i64,
    up: i64,
    dn: i64,
    up_pos: i64,
    dn_pos: i64,
    up_delta: i64,
    dn_delta: i64,
    flat: bool,
}

impl PreparedLine {
    spec fn shape(self) -> LineShape {
        LineShape {
            a: self.a as int,
            b: self.b as int,
            c: self.c as int,
            up: self.up as int,
            dn: self.dn as int,
            up_pos: self.up_pos as int,
            dn_pos: self.dn_pos as int,
            up_delta: self.up_delta as int,
            dn_delta: self.dn_delta as int,
            flat: self.flat,
        }
    }

    spec fn bounded(self) -> bool {
        &&& -0x2_0000 <= self.a <= 0x2_0000
        &&& -0x2_0000 <= self.b <= 0x2_0000
        &&& -0x8_0000 <= self.c <= 0x8_0000
        &&& -0x200_0000 <= self.up <= 0x200_0000
        &&& -0x200_0000 <= self.dn <= 0x200_0000
        &&& 0 <= self.up_pos < 64
        &&& 0 <= self.dn_pos < 64
        &&& (self.up_delta == 0 || self.up_delta == 4)
        &&& (self.dn_delta == 0 || self.dn_delta == 4)
    }
}

fn prepare(l: &Segment, order: u32) -> (r: PreparedLine)
    requires
        order <= MAX_SOFTWARE_TILE_ORDER,
        l.fits(0, 0),
    ensures
        r.shape() == line_shape(*l, order as int),
        r.bounded(),
{
    let plain: i64 = if l.flags.dn { 4 } else { 0 };
    let turned: i64 = if l.x_min == 0 && l.flags.exact_left { 4 - plain } else { plain };
    let a: i64 = slope(l.a, l.scale, order);
    let b: i64 = slope(l.b, l.scale, order);
    let c: i64 = offset(l.c, l.scale, order) - floor_div64(a, 2);
    let up: i64 = floor_div64(l.y_min as i64, 64);
    let dn: i64 = floor_div64(l.y_max as i64, 64);
    proof {
        lemma_fundamental_div_mod(l.y_min as int, 64);
        lemma_fundamental_div_mod(l.y_max as int, 64);
    }
    PreparedLine {
        a,
        b,
        c,
        up,
        dn,
        up_pos: l.y_min as i64 - 64 * up,
        dn_pos: l.y_max as i64 - 64 * dn,
        up_delta: if l.flags.ul_dr { turned } else { plain },
        dn_delta: if l.flags.ul_dr { plain } else { turned },
        flat: l.y_min == l.y_max,
    }
}

/// The powers of two that go with a tile order.
struct TileUnits {
    order: u32,
    /// `2^(14 - order)`: the width of a pixel.
    full: i64,
    /// `2^(7 - order)`: what turns two pixel widths into 256.
    div: i64,
    /// `2^(8 - order)`: 1/64 of the width of a pixel.
    step: i64,
    /// `2^(21 - 2 * order)`.
    wide: i64,
}

impl TileUnits {
    spec fn wf(self) -> bool {
        &&& self.order <= MAX_SOFTWARE_TILE_ORDER
        &&& self.full == pow2((14 - self.order) as nat)
        &&& self.div == pow2((7 - self.order) as nat)
        &&& self.step == pow2((8 - self.order) as nat)
        &&& self.wide == pow2((21 - 2 * self.order) as nat)
        &&& 0x200 <= self.full <= 0x4000
        &&& 4 <= self.div <= 128
        &&& 8 <= self.step <= 256
        &&& 0x800 <= self.wide <= 0x20_0000
    }

    fn new(order: u32) -> (r: Self)
        requires
            order <= MAX_SOFTWARE_TILE_ORDER,
        ensures
            r.wf(),
            r.order == order,
    {
        proof {
            lemma2_to64();
            if order < 5 {
                lemma_pow2_strictly_increases((14 - 5) as nat, (14 - order) as nat);
                lemma_pow2_strictly_increases((7 - 5) as nat, (7 - order) as nat);
                lemma_pow2_strictly_increases((8 - 5) as nat, (8 - order) as nat);
                lemma_pow2_strictly_increases((21 - 10) as nat, (21 - 2 * order) as nat);
            }
            if order > 0 {
                lemma_pow2_strictly_increases((14 - order) as nat, 14);
                lemma_pow2_strictly_increases((7 - order) as nat, 7);
                lemma_pow2_strictly_increases((8 - order) as nat, 8);
                lemma_pow2_strictly_increases((21 - 2 * order) as nat, 21);
            }
        }
        TileUnits {
            order,
            full: pow2_i64(14 - order),
            div: pow2_i64(7 - order),
            step: pow2_i64(8 - order),
            wide: pow2_i64(21 - 2 * order),
        }
    }
}

fn absolute(v: i64) -> (r: i64)
    requires
        v > i64::MIN,
    ensures
        r == abs_int(v as int),
{
    if v < 0 {
        -v
    } else {
        v
    }
}

fn interior(p: &PreparedLine, units: &TileUnits, x: i64, y: i64) -> (r: i64)
    requires
        p.bounded(),
        units.wf(),
        0 <= x < 32,
        0 <= y < 32,
    ensures
        r == interior_part(p.shape(), units.order as int, x as int, y as int),
        0 <= r <= 256,
{
    proof {
        lemma_product_bound(p.b as int, y as int, 0x2_0000, 32);
        lemma_product_bound(p.a as int, x as int, 0x2_0000, 32);
        lemma2_to64();
        lemma_pow2_unfold((14 - units.order) as nat);
        lemma_pow2_adds((7 - units.order) as nat, 7);
    }
    let c: i64 = p.c - p.b * y - p.a * x;
    let abs_a: i64 = absolute(p.a);
    let abs_b: i64 = absolute(p.b);
    let dc: i64 = ((if abs_a < abs_b { abs_a } else { abs_b }) + 2) / 4;
    let base: i64 = units.full / 2 - floor_div64(p.b, 2);
    let c1: i64 = clamp(c + base + dc, 0, units.full);
    let c2: i64 = clamp(c + base - dc, 0, units.full);
    proof {
        let sum = (c1 + c2) as int;
        let d = units.div as int;
        assert(units.full == d * 128) by {
            assert(pow2((7 - units.order) as nat) * pow2(7) == pow2((14 - units.order) as nat));
        }
        lemma_fundamental_div_mod(sum, d);
        lemma_mod_bound(sum, d);
        let q = sum / d;
        assert(0 <= q <= 256) by (nonlinear_arith)
            requires
                sum == d * q + sum % d,
                0 <= sum % d < d,
                0 <= sum <= 2 * (d * 128),
                d > 0,
        ;
    }
    (c1 + c2) / units.div
}

fn border(p: &PreparedLine, units: &TileUnits, x: i64, y: i64, from: i64, to: i64) -> (r: i64)
    requires
        p.bounded(),
        units.wf(),
        0 <= x < 32,
        0 <= y < 32,
        0 <= from <= 64,
        0 <= to <= 64,
    ensures
        r == border_part(p.shape(), units.order as int, x as int, y as int, from as int, to as int),
        -256 <= r <= 256,
{
    let size: i64 = to - from;
    let abs_a: i64 = absolute(p.a);
    let abs_b: i64 = absolute(p.b);
    proof {
        lemma_product_bound(size as int, units.step as int, 64, 256);
        lemma_product_bound(abs_b as int, size as int, 0x2_0000, 64);
        lemma_product_bound(p.b as int, (from + to) as int, 0x2_0000, 128);
        lemma_product_bound(p.b as int, y as int, 0x2_0000, 32);
        lemma_product_bound(p.a as int, x as int, 0x2_0000, 32);
    }
    let wider: i64 = units.full + size * units.step - abs_a;
    let w: i64 = if wider < units.full { wider } else { units.full };
    let dc_b: i64 = floor_div64(abs_b * size, 64);
    proof {
        lemma_floor_div_bound(abs_b * size, 64, 0x80_0000);
    }
    let dc: i64 = floor_div64((if abs_a < dc_b { abs_a } else { dc_b }) + 2, 4);
    let base: i64 = floor_div64(p.b * (from + to), 128);
    proof {
        lemma_floor_div_bound((if abs_a < dc_b { abs_a } else { dc_b }) + 2, 4, 0x80_0002);
        lemma_floor_div_bound(p.b * (from + to), 128, 0x100_0000);
        lemma_product_bound((base + dc) as int, w as int, 0x200_0000, 0x4_0000);
        lemma_product_bound((base - dc) as int, w as int, 0x200_0000, 0x4_0000);
    }
    let c: i64 = p.c - p.b * y - p.a * x;
    proof {
        lemma_product_bound(c as int, w as int, 0x100_0000, 0x4_0000);
    }
    proof {
        lemma_floor_div_bound(c * w, units.wide as int, 0x400_0000_0000);
        lemma_floor_div_bound((base + dc) * w, units.wide as int, 0x800_0000_0000);
        lemma_floor_div_bound((base - dc) * w, units.wide as int, 0x800_0000_0000);
    }
    let cw: i64 = floor_div64(c * w, units.wide);
    let offs1: i64 = size - floor_div64((base + dc) * w, units.wide);
    let offs2: i64 = size - floor_div64((base - dc) * w, units.wide);
    clamp(cw + offs1, 0, 2 * size) + clamp(cw + offs2, 0, 2 * size)
}

/// What one segment adds to pixel `(x, y)`: to its coverage and to the
/// winding number of its row.
fn line_value(p: &PreparedLine, units: &TileUnits, x: i64, y: i64) -> (r: i64)
    requires
        p.bounded(),
        units.wf(),
        0 <= x < 32,
        0 <= y < 32,
    ensures
        r == cover_part(p.shape(), units.order as int, x as int, y as int) + winding_part(
            p.shape(),
            y as int,
        ),
        -0x1000 <= r <= 0x1000,
{
    let cover: i64 = if p.flat {
        0
    } else if y == p.up && p.up_pos != 0 {
        border(p, units, x, y, p.up_pos, if p.dn == p.up { p.dn_pos } else { 64 })
    } else if p.up <= y && y < p.dn {
        interior(p, units, x, y)
    } else if y == p.dn && p.dn_pos != 0 {
        border(p, units, x, y, 0, p.dn_pos)
    } else {
        0
    };
    proof {
        lemma_product_bound(p.up_delta as int, p.up_pos as int, 4, 64);
        lemma_product_bound(p.dn_delta as int, p.dn_pos as int, 4, 64);
    }
    let mut winding: i64 = 0;
    if p.up <= y {
        winding = winding - (64 * p.up_delta - p.up_delta * p.up_pos);
    }
    if p.up + 1 <= y {
        winding = winding - p.up_delta * p.up_pos;
    }
    if p.dn <= y {
        winding = winding + (64 * p.dn_delta - p.dn_delta * p.dn_pos);
    }
    if p.dn + 1 <= y {
        winding = winding + p.dn_delta * p.dn_pos;
    }
    cover + winding
}

/// A tile crossed by several segments, ready to be asked for its pixels.
struct GenericSource {
    lines: Vec<PreparedLine>,
    units: TileUnits,
    winding: i32,
    size: usize,
    segments: Ghost<Seq<Segment>>,
}

impl PixelSource for GenericSource {
    closed spec fn ready(&self) -> bool {
        &&& self.units.wf()
        &&& self.size == pow2(self.units.order as nat)
        &&& self.size <= 32
        &&& self.lines@.len() == self.segments@.len()
        &&& forall|i: int|
            0 <= i < self.lines@.len() ==> (#[trigger] self.lines@[i]).bounded()
                && self.lines@[i].shape() == line_shape(self.segments@[i], self.units.order as int)
    }

    closed spec fn width(&self) -> int {
        self.size as int
    }

    closed spec fn height(&self) -> int {
        self.size as int
    }

    closed spec fn pixel(&self, x: int, y: int, prev: u8) -> u8 {
        generic_coverage(self.segments@, self.winding, self.units.order as int, x, y)
    }

    fn compute(&self, x: usize, y: usize, prev: u8) -> (r: u8) {
        let n: usize = self.lines.len();
        let mut sum: i128 = 0;
        let mut i: usize = 0;
        proof {
            assert(self.segments@.subrange(0, 0) =~= Seq::<Segment>::empty());
        }
        while i < n
            invariant
                self.ready(),
                n == self.lines@.len(),
                0 <= i <= n,
                x < 32,
                y < 32,
                sum == generic_sum(
                    self.segments@.subrange(0, i as int),
                    self.units.order as int,
                    x as int,
                    y as int,
                ),
                -0x1000 * i <= sum <= 0x1000 * i,
            decreases n - i,
        {
            let part: i64 = line_value(&self.lines[i], &self.units, x as i64, y as i64);
            proof {
                let upto = self.segments@.subrange(0, i + 1);
                assert(upto.drop_last() =~= self.segments@.subrange(0, i as int));
                assert(upto.last() == self.segments@[i as int]);
            }
            sum = sum + part as i128;
            i = i + 1;
        }
        proof {
            assert(self.segments@.subrange(0, n as int) =~= self.segments@);
        }
        let v: i128 = sum + 256 * (self.winding as i128);
        let m: i128 = if v < 0 { -v } else { v };
        if m > 255 {
            255
        } else {
            m as u8
        }
    }
}

/// The pixel in column `x` of row `y` of an image of `w` by `h` pixels, and
/// zero outside the image.
pub open spec fn image_pixel(buf: Seq<u8>, stride: int, w: int, h: int, x: int, y: int) -> int {
    if 0 <= x < w && 0 <= y < h {
        buf[y * stride + x] as int
    } else {
        0
    }
}

/// A pixel and its two neighbours in its row, weighted 1, 2, 1.
pub open spec fn blur_row(buf: Seq<u8>, stride: int, w: int, h: int, x: int, y: int) -> int {
    image_pixel(buf, stride, w, h, x - 1, y) + 2 * image_pixel(buf, stride, w, h, x, y)
        + image_pixel(buf, stride, w, h, x + 1, y)
}

/// A pixel of the blurred image: the weighted rows above, at and below the
/// pixel, weighted 1, 2, 1 again, as a share of the sixteen that the weights add up to.
pub open spec fn blur_pixel(buf: Seq<u8>, stride: int, w: int, h: int, x: int, y: int) -> u8 {
    ((blur_row(buf, stride, w, h, x, y - 1) + 2 * blur_row(buf, stride, w, h, x, y) + blur_row(
        buf,
        stride,
        w,
        h,
        x,
        y + 1,
    )) / 16) as u8
}

/// The buffer after the image of `w` by `h` pixels at its start was blurred.
pub open spec fn box_blurred(buf: Seq<u8>, w: int, h: int, stride: int) -> Seq<u8> {
    with_block(buf, stride, w, h, |x: int, y: int| blur_pixel(buf, stride, w, h, x, y))
}

/// The weighted sum of a pixel and its neighbours in row `y`, which may be
/// the row below the image.
fn row_sum(buf: &[u8], stride: usize, w: usize, h: usize, x: usize, y: usize) -> (r: u16)
    requires
        block_fits(buf@.len(), stride as int, w as int, h as int),
        x < w,
        y <= h,
    ensures
        r == blur_row(buf@, stride as int, w as int, h as int, x as int, y as int),
        r <= 1020,
{
    if y >= h {
        return 0;
    }
    proof {
        assert(y * stride + w <= (h - 1) * stride + w) by (nonlinear_arith)
            requires
                y <= h - 1,
                stride >= 0,
        ;
        assert(y * stride >= 0) by (nonlinear_arith)
            requires
                y >= 0,
                stride >= 0,
        ;
    }
    let len: usize = buf.len();
    let row: usize = y * stride;
    let mid: u16 = buf[row + x] as u16;
    let left: u16 = if x > 0 { buf[row + x - 1] as u16 } else { 0 };
    let right: u16 = if x + 1 < w { buf[row + x + 1] as u16 } else { 0 };
    left + 2 * mid + right
}

/// The rows from `from` on hold in `now` what they held in `before`.
proof fn lemma_blur_row_same(
    before: Seq<u8>,
    now: Seq<u8>,
    stride: int,
    w: int,
    h: int,
    x: int,
    y: int,
)
    requires
        0 < w <= stride,
        0 <= x < w,
        0 <= y,
        before.len() == now.len(),
        forall|i: int| 0 <= i < now.len() && i / stride >= y ==> now[i] == before[i],
        (h - 1) * stride + w <= now.len(),
    ensures
        blur_row(now, stride, w, h, x, y) == blur_row(before, stride, w, h, x, y),
{
    if y < h {
        assert(y * stride + w <= (h - 1) * stride + w) by (nonlinear_arith)
            requires
                y <= h - 1,
                stride >= 0,
        ;
        lemma_block_index(x, y, stride);
        if x > 0 {
            lemma_block_index(x - 1, y, stride);
        }
        if x + 1 < w {
            lemma_block_index(x + 1, y, stride);
        }
    }
}

/// Blurs the image of `w` by `h` pixels at the start of `buf` in place. The
/// first `w` numbers of `tmp` hold the weighted row above the row that is
/// worked on and the next `w` that row itself.
fn box_blur(buf: &mut [u8], w: usize, h: usize, stride: usize, tmp: &mut [u16])
    requires
        block_fits(old(buf)@.len(), stride as int, w as int, h as int),
        old(tmp)@.len() >= 2 * w,
    ensures
        final(buf)@ == box_blurred(old(buf)@, w as int, h as int, stride as int),
        final(tmp)@.len() == old(tmp)@.len(),
{
    let len: usize = buf.len();
    let ghost before = buf@;
    let ghost st = stride as int;
    let mut x: usize = 0;
    while x < w
        invariant
            block_fits(before.len(), st, w as int, h as int),
            buf@ == before,
            st == stride,
            tmp@.len() == old(tmp)@.len(),
            tmp@.len() >= 2 * w,
            0 <= x <= w,
            forall|k: int| 0 <= k < x ==> #[trigger] tmp@[k] == 0,
            forall|k: int|
                0 <= k < x ==> #[trigger] tmp@[w + k] == blur_row(before, st, w as int, h as int, k, 0),
        decreases w - x,
    {
        let first: u16 = row_sum(buf, stride, w, h, x, 0);
        tmp[x] = 0;
        tmp[w + x] = first;
        x = x + 1;
    }
    let mut y: usize = 0;
    let mut row: usize = 0;
    while y < h
        invariant
            block_fits(before.len(), st, w as int, h as int),
            st == stride,
            len == before.len(),
            buf@.len() == len,
            tmp@.len() == old(tmp)@.len(),
            tmp@.len() >= 2 * w,
            0 <= y <= h,
            y < h ==> row == y * stride,
            forall|i: int|
                0 <= i < len ==> #[trigger] buf@[i] == if in_block(i, st, w as int, h as int) && i
                    / st < y {
                    blur_pixel(before, st, w as int, h as int, i % st, i / st)
                } else {
                    before[i]
                },
            forall|k: int|
                0 <= k < w ==> #[trigger] tmp@[k] == blur_row(before, st, w as int, h as int, k, y - 1),
            forall|k: int|
                0 <= k < w ==> #[trigger] tmp@[w + k] == blur_row(
                    before,
                    st,
                    w as int,
                    h as int,
                    k,
                    y as int,
                ),
        decreases h - y,
    {
        proof {
            assert(y * stride + w <= (h - 1) * stride + w) by (nonlinear_arith)
                requires
                    y <= h - 1,
                    stride >= 0,
            ;
        }
        let mut x: usize = 0;
        while x < w
            invariant
                block_fits(before.len(), st, w as int, h as int),
                st == stride,
                len == before.len(),
                buf@.len() == len,
                tmp@.len() == old(tmp)@.len(),
                tmp@.len() >= 2 * w,
                0 <= y < h,
                0 <= x <= w,
                row == y * stride,
                row + w <= len,
                forall|i: int|
                    0 <= i < len ==> #[trigger] buf@[i] == if in_block(i, st, w as int, h as int)
                        && (i / st < y || (i / st == y && i % st < x)) {
                        blur_pixel(before, st, w as int, h as int, i % st, i / st)
                    } else {
                        before[i]
                    },
                forall|k: int|
                    0 <= k < x ==> #[trigger] tmp@[k] == blur_row(
                        before,
                        st,
                        w as int,
                        h as int,
                        k,
                        y as int,
                    ),
                forall|k: int|
                    0 <= k < x ==> #[trigger] tmp@[w + k] == blur_row(
                        before,
                        st,
                        w as int,
                        h as int,
                        k,
                        y + 1,
                    ),
                forall|k: int|
                    x <= k < w ==> #[trigger] tmp@[k] == blur_row(
                        before,
                        st,
                        w as int,
                        h as int,
                        k,
                        y - 1,
                    ),
                forall|k: int|
                    x <= k < w ==> #[trigger] tmp@[w + k] == blur_row(
                        before,
                        st,
                        w as int,
                        h as int,
                        k,
                        y as int,
                    ),
            decreases w - x,
        {
            proof {
                lemma_blur_row_same(before, buf@, st, w as int, h as int, x as int, y + 1);
                lemma_block_index(x as int, y as int, st);
            }
            let below: u16 = row_sum(buf, stride, w, h, x, y + 1);
            let above: u16 = tmp[x];
            let here: u16 = tmp[w + x];
            proof {
                assert(above == blur_row(before, st, w as int, h as int, x as int, y - 1));
                assert(here == blur_row(before, st, w as int, h as int, x as int, y as int));
                assert(above <= 1020 && here <= 1020) by {
                    lemma_blur_row_bound(before, st, w as int, h as int, x as int, y - 1);
                    lemma_blur_row_bound(before, st, w as int, h as int, x as int, y as int);
                }
            }
            let value: u16 = (above + 2 * here + below) / 16;
            let ghost painted = buf@;
            let ghost scratch = tmp@;
            buf[row + x] = value as u8;
            tmp[x] = here;
            tmp[w + x] = below;
            proof {
                assert forall|i: int| 0 <= i < len implies #[trigger] buf@[i] == if in_block(
                    i,
                    st,
                    w as int,
                    h as int,
                ) && (i / st < y || (i / st == y && i % st < x + 1)) {
                    blur_pixel(before, st, w as int, h as int, i % st, i / st)
                } else {
                    before[i]
                } by {
                    lemma_fundamental_div_mod(i, st);
                    assert(st * (i / st) == (i / st) * st) by (nonlinear_arith);
                    if i != row + x {
                        assert(buf@[i] == painted[i]);
                    }
                }
            }
            x = x + 1;
        }
        proof {
            assert forall|i: int| 0 <= i < len implies #[trigger] buf@[i] == if in_block(
                i,
                st,
                w as int,
                h as int,
            ) && i / st < y + 1 {
                blur_pixel(before, st, w as int, h as int, i % st, i / st)
            } else {
                before[i]
            } by {
                lemma_mod_bound(i, st);
            }
        }
        if y + 1 < h {
            proof {
                assert((y + 1) * stride <= (h - 1) * stride) by (nonlinear_arith)
                    requires
                        y + 1 <= h - 1,
                        stride >= 0,
                ;
                assert((y + 1) * stride == y * stride + stride) by (nonlinear_arith);
            }
            row = row + stride;
        }
        y = y + 1;
    }
    proof {
        assert(buf@ =~= box_blurred(before, w as int, h as int, st));
    }
}

/// A weighted row is at most four pixels at full value.
proof fn lemma_blur_row_bound(buf: Seq<u8>, stride: int, w: int, h: int, x: int, y: int)
    ensures
        0 <= blur_row(buf, stride, w, h, x, y) <= 1020,
{
}

/// An engine that paints in software, with tiles of `2^tile_order` pixels.
#[derive(Debug, Copy, Clone)]
pub struct SoftwareEngine {
    tile_order: u32,
    align_order: u32,
}

impl SoftwareEngine {
    #[verifier::type_invariant]
    spec fn inv(self) -> bool {
        self.tile_order <= MAX_SOFTWARE_TILE_ORDER && self.align_order <= MAX_ALIGN_ORDER
    }

    /// The tile order of the engine.
    pub closed spec fn order(&self) -> int {
        self.tile_order as int
    }

    /// The alignment order of the engine.
    pub closed spec fn alignment(&self) -> int {
        self.align_order as int
    }

    /// An engine with the given orders, where it can have them: a tile order
    /// of at most 5 and an alignment order of at most 12.
    pub fn new(tile_order: i32, align_order: i32) -> (r: Option<Self>)
        ensures
            r is Some <==> 0 <= tile_order <= MAX_SOFTWARE_TILE_ORDER && 0 <= align_order
                <= MAX_ALIGN_ORDER,
            r is Some ==> r->0.order() == tile_order && r->0.alignment() == align_order,
    {
        if tile_order < 0 || tile_order > MAX_SOFTWARE_TILE_ORDER || align_order < 0 || align_order
            > MAX_ALIGN_ORDER {
            None
        } else {
            Some(SoftwareEngine { tile_order: tile_order as u32, align_order: align_order as u32 })
        }
    }

    /// The number of pixels a tile is wide.
    fn tile(&self) -> (r: usize)
        ensures
            r == pow2(self.order() as nat),
            1 <= r <= 32,
            0 <= self.order() <= MAX_SOFTWARE_TILE_ORDER,
    {
        proof {
            use_type_invariant(self);
            lemma2_to64();
            if self.tile_order < 5 {
                lemma_pow2_strictly_increases(self.tile_order as nat, 5);
            }
        }
        crate::utils::pow2_usize(self.tile_order)
    }

    fn blend(
        &self,
        dst: &mut [u8],
        dst_stride: isize,
        src: &[u8],
        src_stride: isize,
        height: isize,
        width: isize,
        mode: Blend,
    )
        requires
            block_fits(old(dst)@.len(), dst_stride as int, width as int, height as int),
            block_fits(src@.len(), src_stride as int, width as int, height as int),
        ensures
            final(dst)@ == with_block(
                old(dst)@,
                dst_stride as int,
                width as int,
                height as int,
                |x: int, y: int|
                    blend_pixel(mode, old(dst)@[y * dst_stride + x], src@[y * src_stride + x]),
            ),
    {
        let source = BlendSource {
            src,
            stride: src_stride as usize,
            width: width as usize,
            height: height as usize,
            mode,
        };
        paint_block(dst, dst_stride, width as usize, height as usize, &source);
        proof {
            let goal = with_block(
                old(dst)@,
                dst_stride as int,
                width as int,
                height as int,
                |x: int, y: int|
                    blend_pixel(mode, old(dst)@[y * dst_stride + x], src@[y * src_stride + x]),
            );
            assert forall|i: int| 0 <= i < dst@.len() implies dst@[i] == goal[i] by {
                lemma_fundamental_div_mod(i, dst_stride as int);
                assert((dst_stride as int) * (i / (dst_stride as int)) == (i / (dst_stride as int))
                    * dst_stride) by (nonlinear_arith);
            }
            assert(dst@ =~= goal);
        }
    }
}

impl BitmapEngine for SoftwareEngine {
    open spec fn spec_align_order(&self) -> int {
        self.alignment()
    }

    open spec fn spec_tile_order(&self) -> int {
        self.order()
    }

    /// Full coverage where `set` is not zero, none where it is.
    open spec fn solid_pixel(&self, set: i32) -> u8 {
        if set != 0 {
            255
        } else {
            0
        }
    }

    open spec fn halfplane_pixel(&self, a: i32, b: i32, c: i64, scale: i32, x: int, y: int) -> u8 {
        halfplane_coverage(a, b, c, scale, self.order(), x, y)
    }

    open spec fn generic_pixel(&self, line: Seq<Segment>, winding: i32, x: int, y: int) -> u8 {
        generic_coverage(line, winding, self.order(), x, y)
    }

    open spec fn add_pixel(&self, dst: u8, src: u8) -> u8 {
        blend_pixel(Blend::Add, dst, src)
    }

    open spec fn sub_pixel(&self, dst: u8, src: u8) -> u8 {
        blend_pixel(Blend::Sub, dst, src)
    }

    open spec fn mul_pixel(&self, dst: u8, src: u8) -> u8 {
        blend_pixel(Blend::Mul, dst, src)
    }

    open spec fn blurred(&self, buf: Seq<u8>, w: int, h: int, stride: int) -> Seq<u8> {
        box_blurred(buf, w, h, stride)
    }

    fn align_order(&self) -> (r: i32) {
        proof {
            use_type_invariant(self);
        }
        self.align_order as i32
    }

    fn tile_order(&self) -> (r: i32) {
        proof {
            use_type_invariant(self);
        }
        self.tile_order as i32
    }

    fn fill_solid(&self, buf: &mut [u8], stride: isize, set: i32) {
        let ts: usize = self.tile();
        let source = SolidSource { value: if set != 0 { 255 } else { 0 } };
        paint_block(buf, stride, ts, ts, &source);
        proof {
            assert(buf@ =~= with_block(
                old(buf)@,
                stride as int,
                ts as int,
                ts as int,
                |x: int, y: int| self.solid_pixel(set),
            ));
        }
    }

    fn fill_halfplane(&self, buf: &mut [u8], stride: isize, a: i32, b: i32, c: i64, scale: i32) {
        let ts: usize = self.tile();
        let order: u32 = self.tile_order;
        let units = TileUnits::new(order);
        let aa: i64 = slope(a, scale, order);
        let bb: i64 = slope(b, scale, order);
        proof {
            lemma2_to64();
            lemma_pow2_unfold((14 - order) as nat);
        }
        let cc: i64 = offset(c, scale, order) + units.full / 2 - floor_div64(aa + bb, 2);
        let abs_a: i64 = absolute(aa);
        let abs_b: i64 = absolute(bb);
        let source = HalfplaneSource {
            aa,
            bb,
            cc,
            delta: ((if abs_a < abs_b { abs_a } else { abs_b }) + 2) / 4,
            full: units.full - 1,
            div: units.div,
            size: ts,
            a: Ghost(a),
            b: Ghost(b),
            c: Ghost(c),
            scale: Ghost(scale),
            order: Ghost(order as int),
        };
        paint_block(buf, stride, ts, ts, &source);
        proof {
            assert(buf@ =~= with_block(
                old(buf)@,
                stride as int,
                ts as int,
                ts as int,
                |x: int, y: int| self.halfplane_pixel(a, b, c, scale, x, y),
            ));
        }
    }

    fn fill_generic(&self, buf: &mut [u8], stride: isize, line: &[Segment], winding: i32) {
        let ts: usize = self.tile();
        let order: u32 = self.tile_order;
        let n: usize = line.len();
        let mut lines: Vec<PreparedLine> = Vec::new();
        let mut i: usize = 0;
        while i < n
            invariant
                order <= MAX_SOFTWARE_TILE_ORDER,
                n == line@.len(),
                0 <= i <= n,
                lines@.len() == i,
                forall|k: int| 0 <= k < line@.len() ==> (#[trigger] line@[k]).fits(0, 0),
                forall|k: int|
                    0 <= k < i ==> (#[trigger] lines@[k]).bounded() && lines@[k].shape()
                        == line_shape(line@[k], order as int),
            decreases n - i,
        {
            let p: PreparedLine = prepare(&line[i], order);
            lines.push(p);
            i = i + 1;
        }
        let source = GenericSource {
            lines,
            units: TileUnits::new(order),
            winding,
            size: ts,
            segments: Ghost(line@),
        };
        paint_block(buf, stride, ts, ts, &source);
        proof {
            assert(buf@ =~= with_block(
                old(buf)@,
                stride as int,
                ts as int,
                ts as int,
                |x: int, y: int| self.generic_pixel(line@, winding, x, y),
            ));
        }
    }

    fn add_bitmaps(
        &self,
        dst: &mut [u8],
        dst_stride: isize,
        src: &mut [u8],
        src_stride: isize,
        height: isize,
        width: isize,
    ) {
        self.blend(dst, dst_stride, src, src_stride, height, width, Blend::Add);
    }

    fn sub_bitmaps(
        &self,
        dst: &mut [u8],
        dst_stride: isize,
        src: &mut [u8],
        src_stride: isize,
        height: isize,
        width: isize,
    ) {
        self.blend(dst, dst_stride, src, src_stride, height, width, Blend::Sub);
    }

    fn mul_bitmaps(
        &self,
        dst: &mut [u8],
        dst_stride: isize,
        src: &mut [u8],
        src_stride: isize,
        height: isize,
        width: isize,
    ) {
        self.blend(dst, dst_stride, src, src_stride, height, width, Blend::Mul);
    }

    fn be_blur(&self, buf: &mut [u8], w: isize, h: isize, stride: isize, tmp: &mut [u16]) {
        box_blur(buf, w as usize, h as usize, stride as usize, tmp);
    }
}

} // verus!
