//! The text of a drawing, read into tokens step by step. The numbers in it
//! are read by the caller, who is told where they stand.

use vstd::prelude::*;
use crate::outline::Vector;
use crate::tokens::{same_type, DrawingToken, TokenType};

verus! {

/// How much of a point was read since the last token.
#[derive(Debug, Copy, Clone, PartialEq, Eq, Structural)]
pub enum CoordStatus {
    Nothing,
    GotX,
    GotXY,
}

/// Whether `c` is a decimal digit.
pub open spec fn is_digit(c: u8) -> bool {
    0x30 <= c <= 0x39
}

/// How many bytes from `at` on belong to one number: digits, with a minus
/// sign in front of them, where `first` says that `at` is the front, and
/// one point among them, unless `seen_dot` says that it was there already.
pub open spec fn number_len(text: Seq<u8>, at: int, first: bool, seen_dot: bool) -> nat
    decreases text.len() - at,
{
    if at < 0 || at >= text.len() {
        0
    } else if is_digit(text[at]) {
        1 + number_len(text, at + 1, false, seen_dot)
    } else if text[at] == 0x2d && first {
        1 + number_len(text, at + 1, false, seen_dot)
    } else if text[at] == 0x2e && !seen_dot {
        1 + number_len(text, at + 1, false, true)
    } else {
        0
    }
}

/// The number never runs beyond the text.
pub proof fn lemma_number_len(text: Seq<u8>, at: int, first: bool, seen_dot: bool)
    requires
        0 <= at <= text.len(),
    ensures
        at + number_len(text, at, first, seen_dot) <= text.len(),
    decreases text.len() - at,
{
    if at < text.len() {
        if is_digit(text[at]) {
            lemma_number_len(text, at + 1, false, seen_dot);
        } else if text[at] == 0x2d && first {
            lemma_number_len(text, at + 1, false, seen_dot);
        } else if text[at] == 0x2e && !seen_dot {
            lemma_number_len(text, at + 1, false, true);
        }
    }
}

/// Where the number that starts at `from` ends.
pub fn number_end(text: &[u8], from: usize) -> (r: usize)
    requires
        from <= text@.len(),
    ensures
        r == from + number_len(text@, from as int, true, false),
        r <= text@.len(),
{
    let n: usize = text.len();
    let mut i: usize = from;
    let mut seen_dot: bool = false;
    proof {
        lemma_number_len(text@, from as int, true, false);
    }
    let mut ended: bool = false;
    while i < n && !ended
        invariant
            n == text@.len(),
            from <= i <= n,
            from + number_len(text@, from as int, true, false) == i + number_len(
                text@,
                i as int,
                i == from,
                seen_dot,
            ),
            ended ==> number_len(text@, i as int, i == from, seen_dot) == 0,
        decreases n - i + if ended { 0int } else { 1int },
    {
        let c: u8 = text[i];
        if 0x30 <= c && c <= 0x39 {
            i += 1;
        } else if c == 0x2d && i == from {
            i += 1;
        } else if c == 0x2e && !seen_dot {
            i += 1;
            seen_dot = true;
        } else {
            ended = true;
        }
    }
    i
}

/// What a scanner holds, as plain values.
pub struct ScanView {
    /// How many bytes of the text were read.
    pub pos: int,
    /// What the command letter that was read last says, if one was read.
    pub token_type: Option<TokenType>,
    /// How much of a point was read.
    pub is_set: CoordStatus,
    /// The point that is being read.
    pub point: Vector,
    /// The token with which the spline that is being read goes on, if one is.
    pub spline_start: Option<int>,
    /// The tokens that were read.
    pub tokens: Seq<DrawingToken>,
}

/// What the command letter `c` says, or `before` where `c` is none.
pub open spec fn letter(c: u8, before: Option<TokenType>) -> Option<TokenType> {
    if c == 0x6d {
        Some(TokenType::Move)
    } else if c == 0x6e {
        Some(TokenType::MoveNc)
    } else if c == 0x6c {
        Some(TokenType::Line)
    } else if c == 0x62 {
        Some(TokenType::CubicBezier)
    } else if c == 0x73 {
        Some(TokenType::BSpline)
    } else {
        before
    }
}

/// The tokens with one more token of a spline, at the point of the token at `at`.
pub open spec fn repeated(tokens: Seq<DrawingToken>, at: int) -> Seq<DrawingToken> {
    tokens.push(DrawingToken { token_type: TokenType::BSpline, point: tokens[at].point })
}

/// Whether the spline that goes on with the token at `start` is closed by
/// taking its first three points up again: the token at `start` and the one
/// behind it, which is the first token where `start` is the last, are of a spline.
pub open spec fn spline_closes(tokens: Seq<DrawingToken>, start: int) -> bool {
    tokens[start % tokens.len() as int].token_type == TokenType::BSpline && tokens[(start + 1)
        % tokens.len() as int].token_type == TokenType::BSpline
}

/// Whether the step at `s` looks for a number: not at a blank, not where a
/// `c` closes a spline, not with a point that is complete, and only where
/// the bytes at hand can belong to one.
pub open spec fn wants_number(text: Seq<u8>, s: ScanView) -> bool {
    &&& 0 <= s.pos < text.len()
    &&& text[s.pos] != 0x20
    &&& !(text[s.pos] == 0x63 && s.spline_start is Some)
    &&& s.is_set != CoordStatus::GotXY
    &&& number_len(text, s.pos, true, false) > 0
}

/// The scanner before the token is formed: after a `c` that closes a spline,
/// after a number, whose value is `value`, or after any other byte.
pub open spec fn advanced(text: Seq<u8>, s: ScanView, value: Option<i32>) -> ScanView {
    let c = text[s.pos];
    if c == 0x63 && s.spline_start is Some {
        let start = s.spline_start->0;
        if spline_closes(s.tokens, start) {
            ScanView {
                pos: s.pos + 1,
                is_set: CoordStatus::Nothing,
                spline_start: Some(start + 3),
                tokens: repeated(repeated(repeated(s.tokens, start), start + 1), start + 2),
                ..s
            }
        } else {
            ScanView { pos: s.pos + 1, is_set: CoordStatus::Nothing, ..s }
        }
    } else if wants_number(text, s) && value is Some {
        let end = s.pos + number_len(text, s.pos, true, false);
        if s.is_set == CoordStatus::Nothing {
            ScanView {
                pos: end,
                is_set: CoordStatus::GotX,
                point: Vector { x: value->0, y: s.point.y },
                ..s
            }
        } else {
            ScanView {
                pos: end,
                is_set: CoordStatus::GotXY,
                point: Vector { x: s.point.x, y: value->0 },
                ..s
            }
        }
    } else {
        ScanView {
            pos: s.pos + 1,
            is_set: CoordStatus::Nothing,
            token_type: letter(c, s.token_type),
            ..s
        }
    }
}

/// The scanner after one step over `text`. A blank is passed over. Else the
/// scanner advances, and once a command letter and both coordinates of a
/// point were read, they make a token; the first token of a spline is where
/// the spline goes on when it is closed.
pub open spec fn stepped(text: Seq<u8>, s: ScanView, value: Option<i32>) -> ScanView {
    if text[s.pos] == 0x20 {
        ScanView { pos: s.pos + 1, ..s }
    } else {
        let a = advanced(text, s, value);
        if a.token_type is Some && a.is_set == CoordStatus::GotXY {
            ScanView {
                is_set: CoordStatus::Nothing,
                tokens: a.tokens.push(DrawingToken { token_type: a.token_type->0, point: a.point }),
                spline_start: if a.token_type->0 == TokenType::BSpline && a.spline_start is None {
                    Some(a.tokens.len() as int)
                } else {
                    a.spline_start
                },
                ..a
            }
        } else {
            a
        }
    }
}

/// Reads the text of a drawing into tokens.
pub struct Scanner {
    pos: usize,
    token_type: Option<TokenType>,
    is_set: CoordStatus,
    point: Vector,
    spline_start: Option<usize>,
    tokens: Vec<DrawingToken>,
}

impl View for Scanner {
    type V = ScanView;

    closed spec fn view(&self) -> ScanView {
        ScanView {
            pos: self.pos as int,
            token_type: self.token_type,
            is_set: self.is_set,
            point: self.point,
            spline_start: match self.spline_start {
                Some(s) => Some(s as int),
                None => None,
            },
            tokens: self.tokens@,
        }
    }
}

impl Scanner {
    /// The spline goes on with a token that is there.
    pub closed spec fn wf(&self) -> bool {
        self.spline_start is Some ==> self.spline_start->0 < self.tokens@.len()
    }

    /// The scanner at the start of a text.
    pub open spec fn start() -> ScanView {
        ScanView {
            pos: 0,
            token_type: None,
            is_set: CoordStatus::Nothing,
            point: Vector { x: 0, y: 0 },
            spline_start: None,
            tokens: Seq::empty(),
        }
    }

    /// A scanner at the start of a text.
    pub fn new() -> (r: Self)
        ensures
            r.wf(),
            r@ == Self::start(),
    {
        Scanner {
            pos: 0,
            token_type: None,
            is_set: CoordStatus::Nothing,
            point: Vector { x: 0, y: 0 },
            spline_start: None,
            tokens: Vec::new(),
        }
    }

    /// How many bytes of the text were read.
    pub fn pos(&self) -> (r: usize)
        ensures
            r == self@.pos,
    {
        self.pos
    }

    /// The tokens that were read.
    pub fn tokens(&self) -> (r: &[DrawingToken])
        ensures
            r@ == self@.tokens,
    {
        self.tokens.as_slice()
    }

    /// The tokens that were read.
    pub fn into_tokens(self) -> (r: Vec<DrawingToken>)
        ensures
            r@ == self@.tokens,
    {
        self.tokens
    }

    /// Where the number stands that the next step looks for: from the
    /// position of the scanner to the end of the number. `None` where the
    /// step looks for none.
    pub fn number_range(&self, text: &[u8]) -> (r: Option<(usize, usize)>)
        requires
            self@.pos <= text@.len(),
        ensures
            wants_number(text@, self@) ==> (match r {
                Some((from, to)) => from == self@.pos && to == self@.pos + number_len(
                    text@,
                    self@.pos,
                    true,
                    false,
                ),
                None => false,
            }),
            !wants_number(text@, self@) ==> r is None,
            match r {
                Some((from, to)) => from < to <= text@.len(),
                None => true,
            },
    {
        if self.pos >= text.len() {
            return None;
        }
        let c: u8 = text[self.pos];
        if c == 0x20 || (c == 0x63 && self.spline_start.is_some()) {
            return None;
        }
        match self.is_set {
            CoordStatus::GotXY => {
                return None;
            },
            _ => {},
        }
        let end: usize = number_end(text, self.pos);
        if end > self.pos {
            Some((self.pos, end))
        } else {
            None
        }
    }

    /// One step over `text`. Where `number_range` gave the place of a
    /// number and the bytes there are one, `value` is its value, else `None`.
    /// Every step reads at least one byte.
    pub fn step(&mut self, text: &[u8], value: Option<i32>)
        requires
            old(self).wf(),
            old(self)@.pos < text@.len(),
        ensures
            final(self).wf(),
            final(self)@ == stepped(text@, old(self)@, value),
            old(self)@.pos < final(self)@.pos <= text@.len(),
    {
        let c: u8 = text[self.pos];
        if c == 0x20 {
            self.pos = self.pos + 1;
            return ;
        }
        let mut got_coord: bool = false;
        let range: Option<(usize, usize)> = self.number_range(text);
        if c == 0x63 && self.spline_start.is_some() {
            let start: usize = self.spline_start.unwrap();
            let n: usize = self.tokens.len();
            let first: usize = start % n;
            let second: usize = if start + 1 < n {
                start + 1
            } else {
                0
            };
            proof {
                assert(start % n == start) by (nonlinear_arith)
                    requires
                        0 <= start < n,
                ;
                if start + 1 < n {
                    assert((start + 1) % (n as int) == start + 1) by (nonlinear_arith)
                        requires
                            0 <= start + 1 < n,
                    ;
                } else {
                    assert((start + 1) % (n as int) == 0) by (nonlinear_arith)
                        requires
                            start + 1 == n,
                            n > 0,
                    ;
                }
            }
            if same_type(self.tokens[first].token_type, TokenType::BSpline)
                && same_type(self.tokens[second].token_type, TokenType::BSpline) {
                let p0: Vector = self.tokens[start].point;
                self.tokens.push(DrawingToken { token_type: TokenType::BSpline, point: p0 });
                let p1: Vector = self.tokens[start + 1].point;
                self.tokens.push(DrawingToken { token_type: TokenType::BSpline, point: p1 });
                // a vector's length is a machine number, and the indices lie below it
                let two_more: usize = self.tokens.len();
                let p2: Vector = self.tokens[start + 2].point;
                self.tokens.push(DrawingToken { token_type: TokenType::BSpline, point: p2 });
                let three_more: usize = self.tokens.len();
                assert(start + 2 < two_more && start + 3 < three_more);
                self.spline_start = Some(start + 3);
            }
            self.pos = self.pos + 1;
        } else if range.is_some() && value.is_some() {
            let end: usize = match range {
                Some((_, to)) => to,
                None => self.pos,
            };
            let v: i32 = value.unwrap();
            match self.is_set {
                CoordStatus::Nothing => {
                    self.point = Vector { x: v, y: self.point.y };
                    self.is_set = CoordStatus::GotX;
                },
                _ => {
                    self.point = Vector { x: self.point.x, y: v };
                    self.is_set = CoordStatus::GotXY;
                },
            }
            self.pos = end;
            got_coord = true;
        } else {
            if c == 0x6d {
                self.token_type = Some(TokenType::Move);
            } else if c == 0x6e {
                self.token_type = Some(TokenType::MoveNc);
            } else if c == 0x6c {
                self.token_type = Some(TokenType::Line);
            } else if c == 0x62 {
                self.token_type = Some(TokenType::CubicBezier);
            } else if c == 0x73 {
                self.token_type = Some(TokenType::BSpline);
            }
            self.pos = self.pos + 1;
        }
        if !got_coord {
            self.is_set = CoordStatus::Nothing;
        }
        assert(self@ == advanced(text@, old(self)@, value));
        let complete: bool = match self.is_set {
            CoordStatus::GotXY => true,
            _ => false,
        };
        if self.token_type.is_some() && complete {
            let token_type: TokenType = self.token_type.unwrap();
            self.tokens.push(DrawingToken { token_type, point: self.point });
            self.is_set = CoordStatus::Nothing;
            if same_type(token_type, TokenType::BSpline) && self.spline_start.is_none() {
                self.spline_start = Some(self.tokens.len() - 1);
            }
        }
    }
}

} // verus!
