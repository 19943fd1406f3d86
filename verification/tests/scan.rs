use outline_raster::outline::Vector;
use outline_raster::scan::{number_end, Scanner};
use outline_raster::tokens::{DrawingToken, TokenType};

fn coordinate(number: &[u8]) -> Option<i32> {
    let val: f64 = std::str::from_utf8(number).ok()?.parse().ok()?;
    Some((val * 64.0) as i32)
}

fn tokens_of(text: &str) -> Vec<DrawingToken> {
    let text = text.as_bytes();
    let mut scanner = Scanner::new();
    while scanner.pos() < text.len() {
        let before = scanner.pos();
        let value = scanner
            .number_range(text)
            .and_then(|(from, to)| coordinate(&text[from..to]));
        scanner.step(text, value);
        assert!(scanner.pos() > before);
    }
    assert_eq!(scanner.pos(), text.len());
    scanner.into_tokens()
}

fn t(token_type: TokenType, x: i32, y: i32) -> DrawingToken {
    DrawingToken { token_type, point: Vector { x, y } }
}

#[test]
fn number_ends_where_its_bytes_end() {
    assert_eq!(number_end(b"12.5 7", 0), 4);
    assert_eq!(number_end(b"12.5 7", 5), 6);
    assert_eq!(number_end(b"12.5 7", 4), 4);
    assert_eq!(number_end(b"-3-4", 0), 2);
    assert_eq!(number_end(b"-3-4", 2), 4);
    assert_eq!(number_end(b"1.2.3", 0), 3);
    assert_eq!(number_end(b"--1", 0), 1);
    assert_eq!(number_end(b"m 1", 0), 0);
    assert_eq!(number_end(b"", 0), 0);
    assert_eq!(number_end(b".", 0), 1);
}

#[test]
fn the_scanner_says_where_a_number_stands() {
    let text = b"m 10 -2.5";
    let mut scanner = Scanner::new();
    assert_eq!(scanner.number_range(text), None);
    scanner.step(text, None);
    assert_eq!(scanner.pos(), 1);
    // a blank
    assert_eq!(scanner.number_range(text), None);
    scanner.step(text, Some(99));
    assert_eq!(scanner.pos(), 2);
    assert_eq!(scanner.number_range(text), Some((2, 4)));
    scanner.step(text, Some(640));
    assert_eq!(scanner.pos(), 4);
    assert!(scanner.tokens().is_empty());
    scanner.step(text, None);
    assert_eq!(scanner.number_range(text), Some((5, 9)));
    scanner.step(text, Some(-160));
    assert_eq!(scanner.pos(), 9);
    assert_eq!(scanner.tokens(), &[t(TokenType::Move, 640, -160)][..]);
    assert_eq!(scanner.number_range(text), None);
}

#[test]
fn lines_and_moves() {
    assert_eq!(
        tokens_of("m 0 0 l 10 0 10 10.5 n -1 -1"),
        vec![
            t(TokenType::Move, 0, 0),
            t(TokenType::Line, 640, 0),
            t(TokenType::Line, 640, 672),
            t(TokenType::MoveNc, -64, -64),
        ]
    );
    assert_eq!(tokens_of(""), vec![]);
    assert_eq!(tokens_of("   "), vec![]);
    // numbers before any command make no token
    assert_eq!(tokens_of("1 2 3 4 m 5 6"), vec![t(TokenType::Move, 320, 384)]);
}

#[test]
fn an_odd_value_is_dropped() {
    // the letter comes between the two coordinates: the first is forgotten
    assert_eq!(tokens_of("m 1 l 2 3"), vec![t(TokenType::Line, 128, 192)]);
    // a byte that is no number and no command is passed over
    assert_eq!(tokens_of("m 1 x 2 3"), vec![t(TokenType::Move, 128, 192)]);
    // a sign alone is no number
    assert_eq!(tokens_of("m - 1 2"), vec![t(TokenType::Move, 64, 128)]);
}

#[test]
fn curves_keep_their_command() {
    assert_eq!(
        tokens_of("m 0 0 b 1 0 2 1 2 2"),
        vec![
            t(TokenType::Move, 0, 0),
            t(TokenType::CubicBezier, 64, 0),
            t(TokenType::CubicBezier, 128, 64),
            t(TokenType::CubicBezier, 128, 128),
        ]
    );
}

#[test]
fn closing_a_spline_takes_its_first_points_up_again() {
    let open = tokens_of("m 0 0 s 1 0 2 1 2 2");
    assert_eq!(
        open,
        vec![
            t(TokenType::Move, 0, 0),
            t(TokenType::BSpline, 64, 0),
            t(TokenType::BSpline, 128, 64),
            t(TokenType::BSpline, 128, 128),
        ]
    );
    let closed = tokens_of("m 0 0 s 1 0 2 1 2 2 c");
    let mut expected = open.clone();
    expected.push(t(TokenType::BSpline, 64, 0));
    expected.push(t(TokenType::BSpline, 128, 64));
    expected.push(t(TokenType::BSpline, 128, 128));
    assert_eq!(closed, expected);
    // a second time, the spline goes on where it was closed
    let twice = tokens_of("m 0 0 s 1 0 2 1 2 2 c c");
    let mut expected_twice = expected.clone();
    expected_twice.push(t(TokenType::BSpline, 64, 0));
    expected_twice.push(t(TokenType::BSpline, 128, 64));
    expected_twice.push(t(TokenType::BSpline, 128, 128));
    assert_eq!(twice, expected_twice);
    // without a spline a `c` is passed over
    assert_eq!(tokens_of("m 0 0 c l 1 1"), vec![t(TokenType::Move, 0, 0), t(TokenType::Line, 64, 64)]);
    // a spline of one point, followed by a line: nothing is taken up again
    assert_eq!(
        tokens_of("s 1 1 l 2 2 c"),
        vec![t(TokenType::BSpline, 64, 64), t(TokenType::Line, 128, 128)]
    );
    // a spline of one point alone is both the token at the start and the one behind it
    assert_eq!(
        tokens_of("s 1 1 c"),
        vec![
            t(TokenType::BSpline, 64, 64),
            t(TokenType::BSpline, 64, 64),
            t(TokenType::BSpline, 64, 64),
            t(TokenType::BSpline, 64, 64),
        ]
    );
}
