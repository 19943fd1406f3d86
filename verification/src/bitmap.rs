//! The engine that a rasterizer paints with, and the bitmap that it paints into.

use vstd::prelude::*;
use vstd::arithmetic::power2::pow2;
use aligned_box::AlignedBox;
use aligned_box::AlignedBoxError;
use crate::error::RasterError;
use crate::polyline::Segment;
use crate::sound::sound;
use crate::utils::{align, aligned_up, pow2_usize};

verus! {

/// The largest tile order an engine may have: tiles are at most 256 pixels wide.
pub const MAX_TILE_ORDER: i32 = 8;

/// The largest alignment order an engine may have.
pub const MAX_ALIGN_ORDER: i32 = 12;

/// Bytes that a bitmap holds after its last row.
pub const BITMAP_PAD: usize = 32;

/// A block of `width` by `height` pixels, rows `stride` bytes apart, lies
/// within the first `len` bytes of a buffer.
pub open spec fn block_fits(len: nat, stride: int, width: int, height: int) -> bool {
    &&& 1 <= width <= stride
    &&& 1 <= height
    &&& (height - 1) * stride + width <= len
}

/// Byte `i` of a buffer belongs to the block of `width` by `height` pixels at its start.
pub open spec fn in_block(i: int, stride: int, width: int, height: int) -> bool {
    0 <= i && i / stride < height && i % stride < width
}

/// The buffer with the block of `width` by `height` pixels at its start
/// replaced: pixel `(x, y)` of the block becomes `pixel(x, y)`, and every byte
/// outside the block stays.
pub open spec fn with_block(
    buf: Seq<u8>,
    stride: int,
    width: int,
    height: int,
    pixel: spec_fn(int, int) -> u8,
) -> Seq<u8> {
    Seq::new(
        buf.len(),
        |i: int|
            if in_block(i, stride, width, height) {
                pixel(i % stride, i / stride)
            } else {
                buf[i]
            },
    )
}

/// The low-level primitives that a rasterizer draws with. An engine fixes the
/// size of a tile and how a solid tile, a tile cut by one line and a tile
/// crossed by several segments are painted.
///
/// The ghost functions say what an engine paints, pixel by pixel; the
/// executable methods promise to paint just that and to leave every byte
/// outside their block alone.
pub trait BitmapEngine {
    /// Buffers are aligned to `2^align_order` bytes.
    spec fn spec_align_order(&self) -> int;

    /// Tiles are `2^tile_order` pixels wide and high.
    spec fn spec_tile_order(&self) -> int;

    /// A pixel of a solid tile.
    spec fn solid_pixel(&self, set: i32) -> u8;

    /// Pixel `(x, y)` of a tile that the line `a * x + b * y = c` cuts.
    spec fn halfplane_pixel(&self, a: i32, b: i32, c: i64, scale: i32, x: int, y: int) -> u8;

    /// Pixel `(x, y)` of a tile that the segments `line` cross, where the
    /// winding number at the upper left corner is `winding`.
    spec fn generic_pixel(&self, line: Seq<Segment>, winding: i32, x: int, y: int) -> u8;

    /// A pixel of the sum of two bitmaps.
    spec fn add_pixel(&self, dst: u8, src: u8) -> u8;

    /// A pixel of the difference of two bitmaps.
    spec fn sub_pixel(&self, dst: u8, src: u8) -> u8;

    /// A pixel of the product of two bitmaps.
    spec fn mul_pixel(&self, dst: u8, src: u8) -> u8;

    /// The buffer after the image of `w` by `h` pixels at its start was blurred.
    spec fn blurred(&self, buf: Seq<u8>, w: int, h: int, stride: int) -> Seq<u8>;

    fn align_order(&self) -> (r: i32)
        ensures
            r == self.spec_align_order(),
            0 <= r <= MAX_ALIGN_ORDER,
    ;

    fn tile_order(&self) -> (r: i32)
        ensures
            r == self.spec_tile_order(),
            0 <= r <= MAX_TILE_ORDER,
    ;

    /// Paints the tile at the start of `buf` solid: full if `set` is not zero, else empty.
    fn fill_solid(&self, buf: &mut [u8], stride: isize, set: i32)
        requires
            0 <= self.spec_tile_order() <= MAX_TILE_ORDER,
            block_fits(
                old(buf)@.len(),
                stride as int,
                pow2(self.spec_tile_order() as nat) as int,
                pow2(self.spec_tile_order() as nat) as int,
            ),
        ensures
            final(buf)@ == with_block(
                old(buf)@,
                stride as int,
                pow2(self.spec_tile_order() as nat) as int,
                pow2(self.spec_tile_order() as nat) as int,
                |x: int, y: int| self.solid_pixel(set),
            ),
    ;

    /// Paints the tile at the start of `buf` as one side of a line, with
    /// anti-aliasing along the line.
    fn fill_halfplane(&self, buf: &mut [u8], stride: isize, a: i32, b: i32, c: i64, scale: i32)
        requires
            0 <= self.spec_tile_order() <= MAX_TILE_ORDER,
            block_fits(
                old(buf)@.len(),
                stride as int,
                pow2(self.spec_tile_order() as nat) as int,
                pow2(self.spec_tile_order() as nat) as int,
            ),
        ensures
            final(buf)@ == with_block(
                old(buf)@,
                stride as int,
                pow2(self.spec_tile_order() as nat) as int,
                pow2(self.spec_tile_order() as nat) as int,
                |x: int, y: int| self.halfplane_pixel(a, b, c, scale, x, y),
            ),
    ;

    /// Paints the tile at the start of `buf` with the coverage of the shape
    /// whose border within the tile the segments of `line` are.
    fn fill_generic(&self, buf: &mut [u8], stride: isize, line: &[Segment], winding: i32)
        requires
            0 <= self.spec_tile_order() <= MAX_TILE_ORDER,
            block_fits(
                old(buf)@.len(),
                stride as int,
                pow2(self.spec_tile_order() as nat) as int,
                pow2(self.spec_tile_order() as nat) as int,
            ),
            forall|i: int| 0 <= i < line@.len() ==> (#[trigger] line@[i]).fits(0, 0),
            forall|i: int| 0 <= i < line@.len() ==> sound(#[trigger] line@[i]),
        ensures
            final(buf)@ == with_block(
                old(buf)@,
                stride as int,
                pow2(self.spec_tile_order() as nat) as int,
                pow2(self.spec_tile_order() as nat) as int,
                |x: int, y: int| self.generic_pixel(line@, winding, x, y),
            ),
    ;

    /// Adds the image at the start of `src` to the one at the start of `dst`.
    fn add_bitmaps(
        &self,
        dst: &mut [u8],
        dst_stride: isize,
        src: &mut [u8],
        src_stride: isize,
        height: isize,
        width: isize,
    )
        requires
            block_fits(old(dst)@.len(), dst_stride as int, width as int, height as int),
            block_fits(old(src)@.len(), src_stride as int, width as int, height as int),
        ensures
            final(src)@ == old(src)@,
            final(dst)@ == with_block(
                old(dst)@,
                dst_stride as int,
                width as int,
                height as int,
                |x: int, y: int|
                    self.add_pixel(old(dst)@[y * dst_stride + x], old(src)@[y * src_stride + x]),
            ),
    ;

    /// Subtracts the image at the start of `src` from the one at the start of `dst`.
    fn sub_bitmaps(
        &self,
        dst: &mut [u8],
        dst_stride: isize,
        src: &mut [u8],
        src_stride: isize,
        height: isize,
        width: isize,
    )
        requires
            block_fits(old(dst)@.len(), dst_stride as int, width as int, height as int),
            block_fits(old(src)@.len(), src_stride as int, width as int, height as int),
        ensures
            final(src)@ == old(src)@,
            final(dst)@ == with_block(
                old(dst)@,
                dst_stride as int,
                width as int,
                height as int,
                |x: int, y: int|
                    self.sub_pixel(old(dst)@[y * dst_stride + x], old(src)@[y * src_stride + x]),
            ),
    ;

    /// Multiplies the image at the start of `dst` by the one at the start of `src`.
    fn mul_bitmaps(
        &self,
        dst: &mut [u8],
        dst_stride: isize,
        src: &mut [u8],
        src_stride: isize,
        height: isize,
        width: isize,
    )
        requires
            block_fits(old(dst)@.len(), dst_stride as int, width as int, height as int),
            block_fits(old(src)@.len(), src_stride as int, width as int, height as int),
        ensures
            final(src)@ == old(src)@,
            final(dst)@ == with_block(
                old(dst)@,
                dst_stride as int,
                width as int,
                height as int,
                |x: int, y: int|
                    self.mul_pixel(old(dst)@[y * dst_stride + x], old(src)@[y * src_stride + x]),
            ),
    ;

    /// Blurs the image of `w` by `h` pixels at the start of `buf`. `tmp` is
    /// scratch space; what it holds afterwards is of no meaning.
    fn be_blur(&self, buf: &mut [u8], w: isize, h: isize, stride: isize, tmp: &mut [u16])
        requires
            block_fits(old(buf)@.len(), stride as int, w as int, h as int),
            old(tmp)@.len() >= 2 * w,
        ensures
            final(buf)@ == self.blurred(old(buf)@, w as int, h as int, stride as int),
            final(buf)@.len() == old(buf)@.len(),
            final(tmp)@.len() == old(tmp)@.len(),
    ;
}

#[verifier::external_type_specification]
#[verifier::external_body]
#[verifier::reject_recursive_types(T)]
pub struct ExAlignedBox<T: ?Sized>(AlignedBox<T>);

#[verifier::external_type_specification]
pub struct ExAlignedBoxError(AlignedBoxError);

/// The bytes that an aligned box of bytes holds.
pub uninterp spec fn boxed_bytes(b: AlignedBox<[u8]>) -> Seq<u8>;

/// `AlignedBox::<[u8]>::slice_from_default`: a box of `n` bytes, each the
/// default byte, zero. It refuses an `n` of zero as `ZeroAlloc` and one beyond
/// `isize::MAX` as `TooManyElements`, and neither error comes otherwise.
/// Whether it succeeds on another `n` is up to the alignment and the allocator.
#[verifier::external_body]
pub(crate) fn zeroed_box(alignment: usize, n: usize) -> (r: Result<AlignedBox<[u8]>, AlignedBoxError>)
    ensures
        r is Ok ==> boxed_bytes(r->Ok_0) == Seq::new(n as nat, |i: int| 0u8),
        n > isize::MAX <==> r matches Err(AlignedBoxError::TooManyElements),
        n == 0 <==> r matches Err(AlignedBoxError::ZeroAlloc),
{
    AlignedBox::<[u8]>::slice_from_default(alignment, n)
}

/// `Deref::deref` of an `AlignedBox<[u8]>`: the bytes it holds, as a slice.
#[verifier::external_body]
pub(crate) fn box_bytes(b: &AlignedBox<[u8]>) -> (r: &[u8])
    ensures
        r@ == boxed_bytes(*b),
{
    &**b
}

/// `DerefMut::deref_mut` of an `AlignedBox<[u8]>`: the bytes it holds, as a
/// slice to write to. The box holds afterwards what the slice was left with.
#[verifier::external_body]
pub(crate) fn box_bytes_mut(b: &mut AlignedBox<[u8]>) -> (r: &mut [u8])
    ensures
        r@ == boxed_bytes(*old(b)),
        boxed_bytes(*final(b)) == final(r)@,
{
    &mut **b
}

/// The error of this library that stands for a failure of `AlignedBox`.
pub open spec fn allocation_error(e: AlignedBoxError) -> RasterError {
    match e {
        AlignedBoxError::TooManyElements => RasterError::AllocationOverflow,
        AlignedBoxError::OutOfMemory => RasterError::AllocationFailed,
        AlignedBoxError::ZeroAlloc => RasterError::AllocationFailed,
        AlignedBoxError::InvalidAlign => RasterError::AllocationFailed,
    }
}

pub(crate) fn map_allocation_error(e: AlignedBoxError) -> (r: RasterError)
    ensures
        r == allocation_error(e),
{
    match e {
        AlignedBoxError::TooManyElements => RasterError::AllocationOverflow,
        AlignedBoxError::OutOfMemory => RasterError::AllocationFailed,
        AlignedBoxError::ZeroAlloc => RasterError::AllocationFailed,
        AlignedBoxError::InvalidAlign => RasterError::AllocationFailed,
    }
}

/// What a bitmap is, as plain values.
pub struct BitmapView {
    pub left: i32,
    pub top: i32,
    pub w: i32,
    pub h: i32,
    pub stride: isize,
    pub bytes: Seq<u8>,
}

/// An owned, aligned buffer of pixels, one byte each, for the images of one engine.
pub struct Bitmap<Engine> {
    left: i32,
    top: i32,
    w: i32,
    h: i32,
    stride: isize,
    buffer: AlignedBox<[u8]>,
    engine: Engine,
}

impl<E> View for Bitmap<E> {
    type V = BitmapView;

    closed spec fn view(&self) -> BitmapView {
        BitmapView {
            left: self.left,
            top: self.top,
            w: self.w,
            h: self.h,
            stride: self.stride,
            bytes: boxed_bytes(self.buffer),
        }
    }
}

/// The width and height are too large for a bitmap whose rows are aligned to `alignment` bytes.
pub open spec fn bitmap_too_large(alignment: usize, w: i32, h: i32) -> bool {
    ||| w < 0
    ||| h < 0
    ||| aligned_up(alignment, w as usize) > (i32::MAX - BITMAP_PAD) / (if h > 1 { h as int } else { 1 })
}

impl<E: BitmapEngine> Bitmap<E> {
    /// The engine that the bitmap was made for.
    pub closed spec fn spec_engine(&self) -> E {
        self.engine
    }

    /// The rows are aligned as the engine asks and the buffer holds them all.
    pub closed spec fn wf(&self) -> bool {
        &&& 0 <= self.w <= self.stride
        &&& 0 <= self.h
        &&& boxed_bytes(self.buffer).len() == self.stride * self.h + BITMAP_PAD
        &&& boxed_bytes(self.buffer).len() <= i32::MAX
    }

    /// What `wf` says of the view.
    pub proof fn lemma_wf(&self)
        requires
            self.wf(),
        ensures
            0 <= self@.w <= self@.stride,
            0 <= self@.h,
            self@.bytes.len() == self@.stride * self@.h + BITMAP_PAD,
            self@.bytes.len() <= i32::MAX,
    {
    }

    /// A bitmap of `w` by `h` pixels with every byte zero. Rows are
    /// `stride` bytes apart, the width rounded up to the alignment of the
    /// engine. Sizes that do not fit are refused.
    pub fn new(engine: E, w: i32, h: i32, zero: bool) -> (r: Result<Self, RasterError>)
        requires
            zero,
        ensures
            bitmap_too_large(pow2(engine.spec_align_order() as nat) as usize, w, h) ==> r == Err::<
                Self,
                RasterError,
            >(RasterError::AllocationOverflow),
            !bitmap_too_large(pow2(engine.spec_align_order() as nat) as usize, w, h) ==> match r {
                Ok(b) => {
                    &&& b.wf()
                    &&& b.spec_engine() == engine
                    &&& b@.left == 0
                    &&& b@.top == 0
                    &&& b@.w == w
                    &&& b@.h == h
                    &&& b@.stride == aligned_up(
                        pow2(engine.spec_align_order() as nat) as usize,
                        w as usize,
                    )
                    &&& b@.bytes == Seq::new(
                        (b@.stride * h + BITMAP_PAD) as nat,
                        |i: int| 0u8,
                    )
                },
                Err(e) => e == RasterError::AllocationFailed,
            },
    {
        let order: i32 = engine.align_order();
        let alignment: usize = pow2_usize(order as u32);
        if w < 0 || h < 0 {
            return Err(RasterError::AllocationOverflow);
        }
        let stride: usize = align(alignment, w as usize);
        let rows: usize = if h > 1 { h as usize } else { 1 };
        let limit: usize = (i32::MAX as usize - BITMAP_PAD) / rows;
        if stride > limit {
            return Err(RasterError::AllocationOverflow);
        }
        assert(stride * h <= i32::MAX - BITMAP_PAD) by (nonlinear_arith)
            requires
                stride <= limit,
                limit == (i32::MAX as usize - BITMAP_PAD) as int / rows as int,
                0 <= h <= rows,
                rows >= 1,
        ;
        let size: usize = stride * (h as usize) + BITMAP_PAD;
        match zeroed_box(alignment, size) {
            Ok(buffer) => Ok(
                Bitmap { left: 0, top: 0, w, h, stride: stride as isize, buffer, engine },
            ),
            Err(e) => Err(map_allocation_error(e)),
        }
    }

    pub fn width(&self) -> (r: i32)
        ensures
            r == self@.w,
    {
        self.w
    }

    pub fn height(&self) -> (r: i32)
        ensures
            r == self@.h,
    {
        self.h
    }

    pub fn stride(&self) -> (r: isize)
        ensures
            r == self@.stride,
    {
        self.stride
    }

    pub fn left(&self) -> (r: i32)
        ensures
            r == self@.left,
    {
        self.left
    }

    pub fn top(&self) -> (r: i32)
        ensures
            r == self@.top,
    {
        self.top
    }

    /// Puts the upper left corner of the bitmap at `(left, top)` on the device.
    pub fn set_origin(&mut self, left: i32, top: i32)
        requires
            old(self).wf(),
        ensures
            final(self).wf(),
            final(self).spec_engine() == old(self).spec_engine(),
            final(self)@ == (BitmapView { left, top, ..old(self)@ }),
    {
        self.left = left;
        self.top = top;
    }

    pub fn engine(&self) -> (r: &E)
        ensures
            *r == self.spec_engine(),
    {
        &self.engine
    }

    /// The bytes of the bitmap, row after row.
    pub fn buffer(&self) -> (r: &[u8])
        ensures
            r@ == self@.bytes,
    {
        box_bytes(&self.buffer)
    }

    /// The bytes of the bitmap, to draw into.
    pub fn buffer_mut(&mut self) -> (r: &mut [u8])
        ensures
            r@ == old(self)@.bytes,
            final(self)@ == (BitmapView { bytes: final(r)@, ..old(self)@ }),
            final(self).spec_engine() == old(self).spec_engine(),
            final(r)@.len() == r@.len() && old(self).wf() ==> final(self).wf(),
    {
        box_bytes_mut(&mut self.buffer)
    }

    /// A bitmap of its own that holds the same pixels, if the buffer for it
    /// can be had: it is a buffer of the same length and alignment, and
    /// `copy_into` fills it.
    pub fn try_clone(&self) -> (r: Result<Self, RasterError>) where E: Clone
        requires
            self.wf(),
        ensures
            match r {
                Ok(b) => b.wf() && b@ == self@ && cloned(self.spec_engine(), b.spec_engine()),
                Err(e) => e == RasterError::AllocationFailed,
            },
    {
        let n: usize = box_bytes(&self.buffer).len();
        let order: i32 = self.engine.align_order();
        let alignment: usize = pow2_usize(order as u32);
        match zeroed_box(alignment, n) {
            Ok(buffer) => Ok(self.copy_into(buffer)),
            Err(e) => Err(map_allocation_error(e)),
        }
    }

    /// The bitmap with the same pixels, origin and size in the given
    /// buffer, which has the length of this bitmap's own, and with a clone
    /// of the engine.
    pub fn copy_into(&self, buffer: AlignedBox<[u8]>) -> (r: Self) where E: Clone
        requires
            self.wf(),
            boxed_bytes(buffer).len() == self@.bytes.len(),
        ensures
            r.wf(),
            r@ == self@,
            cloned(self.spec_engine(), r.spec_engine()),
    {
        let mut buffer = buffer;
        let src: &[u8] = box_bytes(&self.buffer);
        let n: usize = src.len();
        let dst: &mut [u8] = box_bytes_mut(&mut buffer);
        let mut i: usize = 0;
        while i < n
            invariant
                n == src@.len(),
                dst@.len() == n,
                0 <= i <= n,
                forall|j: int| 0 <= j < i ==> dst@[j] == src@[j],
            decreases n - i,
        {
            dst[i] = src[i];
            i += 1;
        }
        assert(dst@ =~= src@);
        let engine = self.engine.clone();
        Bitmap {
            left: self.left,
            top: self.top,
            w: self.w,
            h: self.h,
            stride: self.stride,
            buffer,
            engine,
        }
    }
}

} // verus!
