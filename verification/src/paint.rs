//! Painting a block of pixels one by one.

use vstd::prelude::*;
use vstd::arithmetic::div_mod::*;
use crate::bitmap::{block_fits, in_block};
use crate::coverage::lemma_block_index;

verus! {

/// Something that knows the value of each pixel of a block.
pub trait PixelSource {
    /// The source is in a state in which pixels can be asked of it.
    spec fn ready(&self) -> bool;

    /// The columns of which pixels can be asked.
    spec fn width(&self) -> int;

    /// The rows of which pixels can be asked.
    spec fn height(&self) -> int;

    /// The value of the pixel in column `x` of row `y`, which was `prev` before.
    spec fn pixel(&self, x: int, y: int, prev: u8) -> u8;

    fn compute(&self, x: usize, y: usize, prev: u8) -> (r: u8)
        requires
            self.ready(),
            x < self.width(),
            y < self.height(),
        ensures
            r == self.pixel(x as int, y as int, prev),
    ;
}

/// The block at the start of `buf` with each pixel as `src` gives it.
pub open spec fn painted<P: PixelSource>(
    buf: Seq<u8>,
    stride: int,
    width: int,
    height: int,
    src: &P,
) -> Seq<u8> {
    Seq::new(
        buf.len(),
        |i: int|
            if in_block(i, stride, width, height) {
                src.pixel(i % stride, i / stride, buf[i])
            } else {
                buf[i]
            },
    )
}

/// Byte `i` belongs to the part of a block that is painted once the rows
/// above `y` and, of row `y`, the columns left of `x` are.
pub open spec fn painted_so_far(i: int, stride: int, width: int, height: int, x: int, y: int) -> bool {
    in_block(i, stride, width, height) && (i / stride < y || (i / stride == y && i % stride < x))
}

/// Sets each pixel of the block of `width` by `height` pixels at the start
/// of `buf` to what `src` says.
pub fn paint_block<P: PixelSource>(buf: &mut [u8], stride: isize, width: usize, height: usize, src: &P)
    requires
        block_fits(old(buf)@.len(), stride as int, width as int, height as int),
        src.ready(),
        width <= src.width(),
        height <= src.height(),
    ensures
        final(buf)@ == painted(old(buf)@, stride as int, width as int, height as int, src),
{
    let len: usize = buf.len();
    let st: usize = stride as usize;
    let mut y: usize = 0;
    let mut row: usize = 0;
    while y < height
        invariant
            block_fits(old(buf)@.len(), stride as int, width as int, height as int),
            src.ready(),
            width <= src.width(),
            height <= src.height(),
            st == stride,
            len == old(buf)@.len(),
            buf@.len() == len,
            0 <= y <= height,
            y < height ==> row == y * st,
            forall|i: int|
                0 <= i < len ==> #[trigger] buf@[i] == if painted_so_far(
                    i,
                    st as int,
                    width as int,
                    height as int,
                    0,
                    y as int,
                ) {
                    src.pixel(i % (st as int), i / (st as int), old(buf)@[i])
                } else {
                    old(buf)@[i]
                },
        decreases height - y,
    {
        proof {
            assert(y * st + width <= (height - 1) * st + width) by (nonlinear_arith)
                requires
                    y <= height - 1,
                    st >= 0,
            ;
        }
        let mut x: usize = 0;
        while x < width
            invariant
                block_fits(old(buf)@.len(), stride as int, width as int, height as int),
                src.ready(),
                width <= src.width(),
                height <= src.height(),
                st == stride,
                len == old(buf)@.len(),
                buf@.len() == len,
                0 <= y < height,
                0 <= x <= width,
                row == y * st,
                row + width <= len,
                forall|i: int|
                    0 <= i < len ==> #[trigger] buf@[i] == if painted_so_far(
                        i,
                        st as int,
                        width as int,
                        height as int,
                        x as int,
                        y as int,
                    ) {
                        src.pixel(i % (st as int), i / (st as int), old(buf)@[i])
                    } else {
                        old(buf)@[i]
                    },
            decreases width - x,
        {
            let at: usize = row + x;
            proof {
                lemma_block_index(x as int, y as int, st as int);
            }
            let prev: u8 = buf[at];
            let value: u8 = src.compute(x, y, prev);
            let ghost before = buf@;
            buf[at] = value;
            proof {
                assert forall|i: int| 0 <= i < len implies #[trigger] buf@[i] == if painted_so_far(
                    i,
                    st as int,
                    width as int,
                    height as int,
                    x + 1,
                    y as int,
                ) {
                    src.pixel(i % (st as int), i / (st as int), old(buf)@[i])
                } else {
                    old(buf)@[i]
                } by {
                    lemma_fundamental_div_mod(i, st as int);
                    assert((st as int) * (i / (st as int)) == (i / (st as int)) * st)
                        by (nonlinear_arith);
                    if i != at {
                        assert(buf@[i] == before[i]);
                    }
                }
            }
            x = x + 1;
        }
        proof {
            assert forall|i: int| 0 <= i < len implies #[trigger] buf@[i] == if painted_so_far(
                i,
                st as int,
                width as int,
                height as int,
                0,
                y + 1,
            ) {
                src.pixel(i % (st as int), i / (st as int), old(buf)@[i])
            } else {
                old(buf)@[i]
            } by {
                lemma_mod_bound(i, st as int);
            }
            assert((y + 1) * st == y * st + st) by (nonlinear_arith);
            assert((y + 1) * st <= (height - 1) * st + st) by (nonlinear_arith)
                requires
                    y + 1 <= height,
                    st >= 0,
            ;
        }
        if y + 1 < height {
            proof {
                assert((y + 1) * st <= (height - 1) * st) by (nonlinear_arith)
                    requires
                        y + 1 <= height - 1,
                        st >= 0,
                ;
            }
            row = row + st;
        }
        y = y + 1;
    }
    proof {
        assert(buf@ =~= painted(old(buf)@, stride as int, width as int, height as int, src));
    }
}

} // verus!
