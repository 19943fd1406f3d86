use outline_raster::bitmap::{Bitmap, BitmapEngine};
use outline_raster::engine::SoftwareEngine;
use outline_raster::error::RasterError;
use outline_raster::utils::{align, i64_mul, pow2_usize, u32_abs};

fn engine(tile_order: i32, align_order: i32) -> SoftwareEngine {
    SoftwareEngine::new(tile_order, align_order).unwrap()
}

#[test]
fn new_bitmap_is_all_zero() {
    let mut b = Bitmap::new(engine(4, 4), 10, 3, true).unwrap();
    assert_eq!(b.width(), 10);
    assert_eq!(b.height(), 3);
    assert_eq!(b.stride(), 16);
    assert_eq!((b.left(), b.top()), (0, 0));
    assert_eq!(b.buffer().len(), 16 * 3 + 32);
    assert!(b.buffer().iter().all(|&p| p == 0));
    assert!(b.buffer_mut().iter().all(|&p| p == 0));
    assert_eq!(b.engine().tile_order(), 4);
}

#[test]
fn stride_is_the_width_rounded_up() {
    assert_eq!(Bitmap::new(engine(4, 5), 1, 1, true).unwrap().stride(), 32);
    assert_eq!(Bitmap::new(engine(4, 5), 32, 1, true).unwrap().stride(), 32);
    assert_eq!(Bitmap::new(engine(4, 5), 33, 1, true).unwrap().stride(), 64);
    assert_eq!(Bitmap::new(engine(4, 0), 33, 7, true).unwrap().stride(), 33);
    let empty = Bitmap::new(engine(4, 5), 0, 0, true).unwrap();
    assert_eq!(empty.stride(), 0);
    assert_eq!(empty.buffer().len(), 32);
}

#[test]
fn sizes_that_do_not_fit_are_refused() {
    let too_large = |w: i32, h: i32| {
        matches!(Bitmap::new(engine(4, 5), w, h, true), Err(RasterError::AllocationOverflow))
    };
    assert!(too_large(-1, 1));
    assert!(too_large(1, -1));
    assert!(too_large(i32::MIN, i32::MIN));
    assert!(too_large(i32::MAX, 1));
    assert!(too_large(i32::MAX - 32, 1));
    assert!(too_large(1 << 16, 1 << 16));
    assert!(too_large(1 << 20, 2048));
    // the largest that fits with rows of 32 bytes: 32 * h + 32 <= i32::MAX
    assert!(too_large(32, 67108863));
    assert!(!too_large(32, 16));
}

#[test]
fn clone_is_a_copy_of_its_own() {
    let mut a = Bitmap::new(engine(2, 2), 4, 2, true).unwrap();
    a.buffer_mut()[5] = 77;
    a.set_origin(-3, 9);
    let mut b = a.try_clone().unwrap();
    assert_eq!(b.buffer(), a.buffer());
    assert_eq!((b.width(), b.height(), b.stride()), (4, 2, 4));
    assert_eq!((b.left(), b.top()), (-3, 9));
    b.buffer_mut()[5] = 1;
    b.buffer_mut()[0] = 2;
    assert_eq!(a.buffer()[5], 77);
    assert_eq!(a.buffer()[0], 0);
    assert_eq!(b.buffer()[5], 1);
}

#[test]
fn copy_into_fills_the_buffer_it_is_given() {
    let mut a = Bitmap::new(engine(2, 2), 4, 2, true).unwrap();
    for (i, byte) in a.buffer_mut().iter_mut().enumerate() {
        *byte = (i * 7 + 1) as u8;
    }
    a.set_origin(5, -6);
    let n = a.buffer().len();
    let mut buffer = aligned_box::AlignedBox::<[u8]>::slice_from_default(4, n).unwrap();
    for byte in buffer.iter_mut() {
        *byte = 0xee;
    }
    let b = a.copy_into(buffer);
    assert_eq!(b.buffer(), a.buffer());
    assert_eq!(b.buffer()[1], 8);
    assert_eq!((b.width(), b.height(), b.stride()), (4, 2, 4));
    assert_eq!((b.left(), b.top()), (5, -6));
    assert_eq!(b.engine().tile_order(), 2);
    assert_eq!(b.engine().align_order(), 2);
}

#[test]
fn align_rounds_up() {
    assert_eq!(align(16, 0), 0);
    assert_eq!(align(16, 1), 16);
    assert_eq!(align(16, 16), 16);
    assert_eq!(align(16, 17), 32);
    assert_eq!(align(1, 17), 17);
    // what cannot be rounded up comes back as it is
    assert_eq!(align(16, usize::MAX - 3), usize::MAX - 3);
    assert_eq!(align(16, usize::MAX - 15), usize::MAX - 15);
}

#[test]
fn small_helpers() {
    assert_eq!(i64_mul(i32::MIN, i32::MIN), 1 << 62);
    assert_eq!(i64_mul(-3, 7), -21);
    assert_eq!(i64_mul(i32::MAX, i32::MIN), -(1i64 << 62) + (1 << 31));
    assert_eq!(u32_abs(i32::MIN), 2147483648);
    assert_eq!(u32_abs(-1), 1);
    assert_eq!(u32_abs(0), 0);
    assert_eq!(u32_abs(i32::MAX), 2147483647);
    assert_eq!(pow2_usize(0), 1);
    assert_eq!(pow2_usize(12), 4096);
    assert_eq!(pow2_usize(30), 1 << 30);
}
