//! A pair of coordinates of any type.

use vstd::prelude::*;
use vstd::std_specs::convert::FromSpec;
use vstd::std_specs::convert::TryFromSpec;
use vstd::std_specs::ops::AddSpec;
use vstd::std_specs::ops::SubSpec;
use vstd::std_specs::ops::MulSpec;
use vstd::std_specs::ops::DivSpec;
use vstd::std_specs::ops::RemSpec;
use vstd::std_specs::ops::ShlSpec;
use vstd::std_specs::ops::ShrSpec;
use vstd::std_specs::ops::NegSpec;
use core::convert::TryFrom;
use core::convert::TryInto;
use core::ops::Neg;

verus! {

/// A pair of coordinates of any one type.
#[derive(Debug, Default, Copy, Clone, PartialEq, Eq)]
pub struct Point<T> {
    pub x: T,
    pub y: T,
}

/// The point made of two conversions in order: the first one that fails decides.
pub open spec fn both_converted<U, E>(x: Result<U, E>, y: Result<U, E>) -> Result<Point<U>, E> {
    match x {
        Err(e) => Err(e),
        Ok(px) => match y {
            Err(e) => Err(e),
            Ok(py) => Ok(Point { x: px, y: py }),
        },
    }
}

impl<T> Point<T> {
    #[inline]
    pub fn new(x: T, y: T) -> (r: Self)
        ensures
            r == (Point { x, y }),
    {
        Point { x, y }
    }

    /// Converts each coordinate through `From`.
    #[inline]
    pub fn convert_from<U>(point: Point<U>) -> (r: Self) where T: From<U>
        ensures
            call_ensures(T::from, (point.x,), r.x),
            call_ensures(T::from, (point.y,), r.y),
            T::obeys_from_spec() ==> r == (Point {
                x: T::from_spec(point.x),
                y: T::from_spec(point.y),
            }),
    {
        let x = T::from(point.x);
        let y = T::from(point.y);
        Point { x, y }
    }

    /// Converts each coordinate through `Into`.
    #[inline]
    pub fn convert_into<U>(self) -> (r: Point<U>) where T: Into<U>
        ensures
            call_ensures(T::into, (self.x,), r.x),
            call_ensures(T::into, (self.y,), r.y),
    {
        let x = self.x.into();
        let y = self.y.into();
        Point { x, y }
    }

    /// Converts each coordinate through `TryFrom`, `x` first. The second
    /// conversion is not made where the first one fails.
    #[inline]
    pub fn try_convert_from<U>(point: Point<U>) -> (r: Result<Self, T::Error>) where T: TryFrom<U>
        ensures
            match r {
                Ok(p) => call_ensures(T::try_from, (point.x,), Ok(p.x)) && call_ensures(
                    T::try_from,
                    (point.y,),
                    Ok(p.y),
                ),
                Err(e) => call_ensures(T::try_from, (point.x,), Err(e)) || (exists|x: T|
                    call_ensures(T::try_from, (point.x,), Ok(x)) && call_ensures(
                        T::try_from,
                        (point.y,),
                        Err(e),
                    )),
            },
            T::obeys_try_from_spec() ==> r == both_converted(
                T::try_from_spec(point.x),
                T::try_from_spec(point.y),
            ),
    {
        let x = match T::try_from(point.x) {
            Ok(v) => v,
            Err(e) => {
                return Err(e);
            },
        };
        let y = match T::try_from(point.y) {
            Ok(v) => v,
            Err(e) => {
                return Err(e);
            },
        };
        Ok(Point { x, y })
    }

    /// Converts each coordinate through `TryInto`, `x` first. The second
    /// conversion is not made where the first one fails.
    #[inline]
    pub fn try_convert_into<U>(self) -> (r: Result<Point<U>, T::Error>) where T: TryInto<U>
        ensures
            match r {
                Ok(p) => call_ensures(T::try_into, (self.x,), Ok(p.x)) && call_ensures(
                    T::try_into,
                    (self.y,),
                    Ok(p.y),
                ),
                Err(e) => call_ensures(T::try_into, (self.x,), Err(e)) || (exists|x: U|
                    call_ensures(T::try_into, (self.x,), Ok(x)) && call_ensures(
                        T::try_into,
                        (self.y,),
                        Err(e),
                    )),
            },
    {
        let x = match self.x.try_into() {
            Ok(v) => v,
            Err(e) => {
                return Err(e);
            },
        };
        let y = match self.y.try_into() {
            Ok(v) => v,
            Err(e) => {
                return Err(e);
            },
        };
        Ok(Point { x, y })
    }

    /// Applies `f` to each coordinate, `x` first.
    #[inline]
    pub fn map<F, U>(self, f: F) -> (r: Point<U>) where F: Fn(T) -> U
        requires
            call_requires(f, (self.x,)),
            call_requires(f, (self.y,)),
        ensures
            call_ensures(f, (self.x,), r.x),
            call_ensures(f, (self.y,), r.y),
    {
        let x = f(self.x);
        let y = f(self.y);
        Point { x, y }
    }

    /// Applies `f` to each coordinate, `x` first, and stops at the first failure.
    #[inline]
    pub fn try_map<F, U, E>(self, f: F) -> (r: Result<Point<U>, E>) where F: Fn(T) -> Result<U, E>
        requires
            call_requires(f, (self.x,)),
            (exists|x: U| call_ensures(f, (self.x,), Ok(x))) ==> call_requires(f, (self.y,)),
        ensures
            match r {
                Ok(p) => call_ensures(f, (self.x,), Ok(p.x)) && call_ensures(
                    f,
                    (self.y,),
                    Ok(p.y),
                ),
                Err(e) => call_ensures(f, (self.x,), Err(e)) || (exists|x: U|
                    call_ensures(f, (self.x,), Ok(x)) && call_ensures(f, (self.y,), Err(e))),
            },
    {
        let x = match f(self.x) {
            Ok(v) => v,
            Err(e) => {
                return Err(e);
            },
        };
        let y = match f(self.y) {
            Ok(v) => v,
            Err(e) => {
                return Err(e);
            },
        };
        Ok(Point { x, y })
    }

    /// The two coordinates as a pair.
    #[inline]
    pub fn into_pair(self) -> (r: (T, T))
        ensures
            r == (self.x, self.y),
    {
        (self.x, self.y)
    }

    /// The two coordinates as an array.
    #[inline]
    pub fn into_array(self) -> (r: [T; 2])
        ensures
            r@ == seq![self.x, self.y],
    {
        [self.x, self.y]
    }
}

impl<T> From<(T, T)> for Point<T> {
    #[inline]
    fn from(pair: (T, T)) -> (r: Self) {
        Point { x: pair.0, y: pair.1 }
    }
}

impl<T> vstd::std_specs::convert::FromSpecImpl<(T, T)> for Point<T> {
    open spec fn obeys_from_spec() -> bool {
        true
    }

    open spec fn from_spec(pair: (T, T)) -> Self {
        Point { x: pair.0, y: pair.1 }
    }
}

impl<T> From<Point<T>> for (T, T) {
    #[inline]
    fn from(point: Point<T>) -> (r: Self) {
        (point.x, point.y)
    }
}

impl<T> vstd::std_specs::convert::FromSpecImpl<Point<T>> for (T, T) {
    open spec fn obeys_from_spec() -> bool {
        true
    }

    open spec fn from_spec(point: Point<T>) -> Self {
        (point.x, point.y)
    }
}

impl<T> From<Point<T>> for [T; 2] {
    #[inline]
    fn from(point: Point<T>) -> (r: Self) {
        [point.x, point.y]
    }
}

impl<T> vstd::std_specs::convert::FromSpecImpl<Point<T>> for [T; 2] {
    open spec fn obeys_from_spec() -> bool {
        true
    }

    open spec fn from_spec(point: Point<T>) -> Self {
        [point.x, point.y]
    }
}

impl<T: core::ops::Neg> core::ops::Neg for Point<T> {
    type Output = Point<T::Output>;

    #[inline]
    fn neg(self) -> (r: Point<T::Output>) {
        Point { x: self.x.neg(), y: self.y.neg() }
    }
}

impl<T: core::ops::Neg> vstd::std_specs::ops::NegSpecImpl for Point<T> {
    open spec fn obeys_neg_spec() -> bool {
        T::obeys_neg_spec()
    }

    open spec fn neg_req(self) -> bool {
        self.x.neg_req() && self.y.neg_req()
    }

    open spec fn neg_spec(self) -> Point<T::Output> {
        Point { x: self.x.neg_spec(), y: self.y.neg_spec() }
    }
}

impl<T: core::ops::Add> core::ops::Add for Point<T> {
    type Output = Point<T::Output>;

    #[inline]
    fn add(self, rhs: Self) -> (r: Point<T::Output>) {
        Point { x: self.x + rhs.x, y: self.y + rhs.y }
    }
}

impl<T: core::ops::Add> vstd::std_specs::ops::AddSpecImpl for Point<T> {
    open spec fn obeys_add_spec() -> bool {
        T::obeys_add_spec()
    }

    open spec fn add_req(self, rhs: Self) -> bool {
        self.x.add_req(rhs.x) && self.y.add_req(rhs.y)
    }

    open spec fn add_spec(self, rhs: Self) -> Point<T::Output> {
        Point { x: self.x.add_spec(rhs.x), y: self.y.add_spec(rhs.y) }
    }
}

impl<T: core::ops::Add + Copy> core::ops::Add<T> for Point<T> {
    type Output = Point<T::Output>;

    #[inline]
    fn add(self, rhs: T) -> (r: Point<T::Output>) {
        Point { x: self.x + rhs, y: self.y + rhs }
    }
}

impl<T: core::ops::Add + Copy> vstd::std_specs::ops::AddSpecImpl<T> for Point<T> {
    open spec fn obeys_add_spec() -> bool {
        T::obeys_add_spec()
    }

    open spec fn add_req(self, rhs: T) -> bool {
        self.x.add_req(rhs) && self.y.add_req(rhs)
    }

    open spec fn add_spec(self, rhs: T) -> Point<T::Output> {
        Point { x: self.x.add_spec(rhs), y: self.y.add_spec(rhs) }
    }
}

impl<T: core::ops::Sub> core::ops::Sub for Point<T> {
    type Output = Point<T::Output>;

    #[inline]
    fn sub(self, rhs: Self) -> (r: Point<T::Output>) {
        Point { x: self.x - rhs.x, y: self.y - rhs.y }
    }
}

impl<T: core::ops::Sub> vstd::std_specs::ops::SubSpecImpl for Point<T> {
    open spec fn obeys_sub_spec() -> bool {
        T::obeys_sub_spec()
    }

    open spec fn sub_req(self, rhs: Self) -> bool {
        self.x.sub_req(rhs.x) && self.y.sub_req(rhs.y)
    }

    open spec fn sub_spec(self, rhs: Self) -> Point<T::Output> {
        Point { x: self.x.sub_spec(rhs.x), y: self.y.sub_spec(rhs.y) }
    }
}

impl<T: core::ops::Sub + Copy> core::ops::Sub<T> for Point<T> {
    type Output = Point<T::Output>;

    #[inline]
    fn sub(self, rhs: T) -> (r: Point<T::Output>) {
        Point { x: self.x - rhs, y: self.y - rhs }
    }
}

impl<T: core::ops::Sub + Copy> vstd::std_specs::ops::SubSpecImpl<T> for Point<T> {
    open spec fn obeys_sub_spec() -> bool {
        T::obeys_sub_spec()
    }

    open spec fn sub_req(self, rhs: T) -> bool {
        self.x.sub_req(rhs) && self.y.sub_req(rhs)
    }

    open spec fn sub_spec(self, rhs: T) -> Point<T::Output> {
        Point { x: self.x.sub_spec(rhs), y: self.y.sub_spec(rhs) }
    }
}

impl<T: core::ops::Mul> core::ops::Mul for Point<T> {
    type Output = Point<T::Output>;

    #[inline]
    fn mul(self, rhs: Self) -> (r: Point<T::Output>) {
        Point { x: self.x * rhs.x, y: self.y * rhs.y }
    }
}

impl<T: core::ops::Mul> vstd::std_specs::ops::MulSpecImpl for Point<T> {
    open spec fn obeys_mul_spec() -> bool {
        T::obeys_mul_spec()
    }

    open spec fn mul_req(self, rhs: Self) -> bool {
        self.x.mul_req(rhs.x) && self.y.mul_req(rhs.y)
    }

    open spec fn mul_spec(self, rhs: Self) -> Point<T::Output> {
        Point { x: self.x.mul_spec(rhs.x), y: self.y.mul_spec(rhs.y) }
    }
}

impl<T: core::ops::Mul + Copy> core::ops::Mul<T> for Point<T> {
    type Output = Point<T::Output>;

    #[inline]
    fn mul(self, rhs: T) -> (r: Point<T::Output>) {
        Point { x: self.x * rhs, y: self.y * rhs }
    }
}

impl<T: core::ops::Mul + Copy> vstd::std_specs::ops::MulSpecImpl<T> for Point<T> {
    open spec fn obeys_mul_spec() -> bool {
        T::obeys_mul_spec()
    }

    open spec fn mul_req(self, rhs: T) -> bool {
        self.x.mul_req(rhs) && self.y.mul_req(rhs)
    }

    open spec fn mul_spec(self, rhs: T) -> Point<T::Output> {
        Point { x: self.x.mul_spec(rhs), y: self.y.mul_spec(rhs) }
    }
}

impl<T: core::ops::Div> core::ops::Div for Point<T> {
    type Output = Point<T::Output>;

    #[inline]
    fn div(self, rhs: Self) -> (r: Point<T::Output>) {
        Point { x: self.x / rhs.x, y: self.y / rhs.y }
    }
}

impl<T: core::ops::Div> vstd::std_specs::ops::DivSpecImpl for Point<T> {
    open spec fn obeys_div_spec() -> bool {
        T::obeys_div_spec()
    }

    open spec fn div_req(self, rhs: Self) -> bool {
        self.x.div_req(rhs.x) && self.y.div_req(rhs.y)
    }

    open spec fn div_spec(self, rhs: Self) -> Point<T::Output> {
        Point { x: self.x.div_spec(rhs.x), y: self.y.div_spec(rhs.y) }
    }
}

impl<T: core::ops::Div + Copy> core::ops::Div<T> for Point<T> {
    type Output = Point<T::Output>;

    #[inline]
    fn div(self, rhs: T) -> (r: Point<T::Output>) {
        Point { x: self.x / rhs, y: self.y / rhs }
    }
}

impl<T: core::ops::Div + Copy> vstd::std_specs::ops::DivSpecImpl<T> for Point<T> {
    open spec fn obeys_div_spec() -> bool {
        T::obeys_div_spec()
    }

    open spec fn div_req(self, rhs: T) -> bool {
        self.x.div_req(rhs) && self.y.div_req(rhs)
    }

    open spec fn div_spec(self, rhs: T) -> Point<T::Output> {
        Point { x: self.x.div_spec(rhs), y: self.y.div_spec(rhs) }
    }
}

impl<T: core::ops::Rem> core::ops::Rem for Point<T> {
    type Output = Point<T::Output>;

    #[inline]
    fn rem(self, rhs: Self) -> (r: Point<T::Output>) {
        Point { x: self.x % rhs.x, y: self.y % rhs.y }
    }
}

impl<T: core::ops::Rem> vstd::std_specs::ops::RemSpecImpl for Point<T> {
    open spec fn obeys_rem_spec() -> bool {
        T::obeys_rem_spec()
    }

    open spec fn rem_req(self, rhs: Self) -> bool {
        self.x.rem_req(rhs.x) && self.y.rem_req(rhs.y)
    }

    open spec fn rem_spec(self, rhs: Self) -> Point<T::Output> {
        Point { x: self.x.rem_spec(rhs.x), y: self.y.rem_spec(rhs.y) }
    }
}

impl<T: core::ops::Rem + Copy> core::ops::Rem<T> for Point<T> {
    type Output = Point<T::Output>;

    #[inline]
    fn rem(self, rhs: T) -> (r: Point<T::Output>) {
        Point { x: self.x % rhs, y: self.y % rhs }
    }
}

impl<T: core::ops::Rem + Copy> vstd::std_specs::ops::RemSpecImpl<T> for Point<T> {
    open spec fn obeys_rem_spec() -> bool {
        T::obeys_rem_spec()
    }

    open spec fn rem_req(self, rhs: T) -> bool {
        self.x.rem_req(rhs) && self.y.rem_req(rhs)
    }

    open spec fn rem_spec(self, rhs: T) -> Point<T::Output> {
        Point { x: self.x.rem_spec(rhs), y: self.y.rem_spec(rhs) }
    }
}

impl<T: core::ops::Shl> core::ops::Shl for Point<T> {
    type Output = Point<T::Output>;

    #[inline]
    fn shl(self, rhs: Self) -> (r: Point<T::Output>) {
        Point { x: self.x << rhs.x, y: self.y << rhs.y }
    }
}

impl<T: core::ops::Shl> vstd::std_specs::ops::ShlSpecImpl for Point<T> {
    open spec fn obeys_shl_spec() -> bool {
        T::obeys_shl_spec()
    }

    open spec fn shl_req(self, rhs: Self) -> bool {
        self.x.shl_req(rhs.x) && self.y.shl_req(rhs.y)
    }

    open spec fn shl_spec(self, rhs: Self) -> Point<T::Output> {
        Point { x: self.x.shl_spec(rhs.x), y: self.y.shl_spec(rhs.y) }
    }
}

impl<T: core::ops::Shl + Copy> core::ops::Shl<T> for Point<T> {
    type Output = Point<T::Output>;

    #[inline]
    fn shl(self, rhs: T) -> (r: Point<T::Output>) {
        Point { x: self.x << rhs, y: self.y << rhs }
    }
}

impl<T: core::ops::Shl + Copy> vstd::std_specs::ops::ShlSpecImpl<T> for Point<T> {
    open spec fn obeys_shl_spec() -> bool {
        T::obeys_shl_spec()
    }

    open spec fn shl_req(self, rhs: T) -> bool {
        self.x.shl_req(rhs) && self.y.shl_req(rhs)
    }

    open spec fn shl_spec(self, rhs: T) -> Point<T::Output> {
        Point { x: self.x.shl_spec(rhs), y: self.y.shl_spec(rhs) }
    }
}

impl<T: core::ops::Shr> core::ops::Shr for Point<T> {
    type Output = Point<T::Output>;

    #[inline]
    fn shr(self, rhs: Self) -> (r: Point<T::Output>) {
        Point { x: self.x >> rhs.x, y: self.y >> rhs.y }
    }
}

impl<T: core::ops::Shr> vstd::std_specs::ops::ShrSpecImpl for Point<T> {
    open spec fn obeys_shr_spec() -> bool {
        T::obeys_shr_spec()
    }

    open spec fn shr_req(self, rhs: Self) -> bool {
        self.x.shr_req(rhs.x) && self.y.shr_req(rhs.y)
    }

    open spec fn shr_spec(self, rhs: Self) -> Point<T::Output> {
        Point { x: self.x.shr_spec(rhs.x), y: self.y.shr_spec(rhs.y) }
    }
}

impl<T: core::ops::Shr + Copy> core::ops::Shr<T> for Point<T> {
    type Output = Point<T::Output>;

    #[inline]
    fn shr(self, rhs: T) -> (r: Point<T::Output>) {
        Point { x: self.x >> rhs, y: self.y >> rhs }
    }
}

impl<T: core::ops::Shr + Copy> vstd::std_specs::ops::ShrSpecImpl<T> for Point<T> {
    open spec fn obeys_shr_spec() -> bool {
        T::obeys_shr_spec()
    }

    open spec fn shr_req(self, rhs: T) -> bool {
        self.x.shr_req(rhs) && self.y.shr_req(rhs)
    }

    open spec fn shr_spec(self, rhs: T) -> Point<T::Output> {
        Point { x: self.x.shr_spec(rhs), y: self.y.shr_spec(rhs) }
    }
}

} // verus!
