use outline_raster::point::Point;

#[test]
fn point_conversions() {
    let p: Point<i64> = Point::convert_from(Point::new(3i32, -4i32));
    assert_eq!(p, Point::new(3i64, -4i64));
    let q: Point<i64> = Point::new(7u8, 9u8).convert_into();
    assert_eq!(q, Point::new(7, 9));
    let r: Result<Point<u8>, _> = Point::try_convert_from(Point::new(255i32, 0i32));
    assert_eq!(r.unwrap(), Point::new(255u8, 0u8));
    let r: Result<Point<u8>, _> = Point::try_convert_from(Point::new(256i32, 0i32));
    assert!(r.is_err());
    let r: Result<Point<u8>, _> = Point::try_convert_from(Point::new(0i32, -1i32));
    assert!(r.is_err());
    let r: Result<Point<i8>, _> = Point::new(127i64, -128i64).try_convert_into();
    assert_eq!(r.unwrap(), Point::new(127i8, -128i8));
    let r: Result<Point<i8>, _> = Point::new(128i64, 0i64).try_convert_into();
    assert!(r.is_err());
}

#[test]
fn point_map() {
    assert_eq!(Point::new(2, 5).map(|c| c * 10), Point::new(20, 50));
    assert_eq!(Point::new(2, 5).map(|c| c > 3), Point::new(false, true));
    let ok: Result<Point<u8>, String> = Point::new(2, 5).try_map(|c: i32| Ok(c as u8));
    assert_eq!(ok, Ok(Point::new(2, 5)));
    // the first failure decides, and the second coordinate is not looked at
    let seen = std::cell::Cell::new(0);
    let err: Result<Point<i32>, i32> = Point::new(2, 5).try_map(|c: i32| {
        seen.set(seen.get() + 1);
        Err(c)
    });
    assert_eq!(err, Err(2));
    assert_eq!(seen.get(), 1);
    let err: Result<Point<i32>, i32> =
        Point::new(2, 5).try_map(|c: i32| if c == 5 { Err(c) } else { Ok(c) });
    assert_eq!(err, Err(5));
}

#[test]
fn point_to_and_from_pairs() {
    let p: Point<i32> = Point::from((1, 2));
    assert_eq!(p, Point { x: 1, y: 2 });
    let pair: (i32, i32) = p.into();
    assert_eq!(pair, (1, 2));
    let array: [i32; 2] = p.into();
    assert_eq!(array, [1, 2]);
    assert_eq!(p.into_pair(), (1, 2));
    assert_eq!(p.into_array(), [1, 2]);
    assert_eq!(Point::<i32>::default(), Point::new(0, 0));
}

#[test]
fn point_arithmetic() {
    let a = Point::new(10, 20);
    let b = Point::new(3, 4);
    assert_eq!(a + b, Point::new(13, 24));
    assert_eq!(a - b, Point::new(7, 16));
    assert_eq!(a * b, Point::new(30, 80));
    assert_eq!(a / b, Point::new(3, 5));
    assert_eq!(a % b, Point::new(1, 0));
    assert_eq!(a << Point::new(1, 2), Point::new(20, 80));
    assert_eq!(a >> Point::new(1, 2), Point::new(5, 5));
    assert_eq!(a + 1, Point::new(11, 21));
    assert_eq!(a - 1, Point::new(9, 19));
    assert_eq!(a * 2, Point::new(20, 40));
    assert_eq!(a / 3, Point::new(3, 6));
    assert_eq!(a % 3, Point::new(1, 2));
    assert_eq!(a << 1, Point::new(20, 40));
    assert_eq!(a >> 1, Point::new(5, 10));
    assert_eq!(-a, Point::new(-10, -20));
    assert_eq!(Point::new(1.5f32, 2.0) - Point::new(0.5, 4.0), Point::new(1.0, -2.0));
}
