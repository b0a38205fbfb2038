use vstd::prelude::*;

verus! {

/// An exact fraction `num / den`.
///
/// Every number that a drawing record holds is one of these: a position or a
/// size in normalized device space, a color channel, a layer. The fraction is
/// kept as it was computed, without reducing it, and nothing here ever divides:
/// a denominator of zero stands for a value that has no finite reading (a
/// surface without width, say), which the rendering backend meets when it
/// turns the fraction into the number format of its graphics API.
#[derive(Clone, Copy, Debug, PartialEq, Eq, Structural)]
pub struct Scalar {
    pub num: i128,
    pub den: i128,
}

/// Whether `v` can be stored in one half of a `Scalar`. What the functions
/// of a `Scalar` compute is exact wherever its two halves can be stored, and
/// they ask for no less: a function of this crate that computes with
/// fractions proves first that every result can be stored.
pub open spec fn storable(v: int) -> bool {
    i128::MIN <= v <= i128::MAX
}

impl Scalar {
    /// The whole number `v`, as `v / 1`.
    pub open spec fn spec_whole(v: int) -> Scalar {
        Scalar { num: v as i128, den: 1 }
    }

    /// `self + other`, over the product of the two denominators.
    pub open spec fn spec_plus(self, other: Scalar) -> Scalar {
        Scalar {
            num: (self.num * other.den + other.num * self.den) as i128,
            den: (self.den * other.den) as i128,
        }
    }

    /// `self - other`, over the product of the two denominators.
    pub open spec fn spec_minus(self, other: Scalar) -> Scalar {
        Scalar {
            num: (self.num * other.den - other.num * self.den) as i128,
            den: (self.den * other.den) as i128,
        }
    }

    /// `self * other`.
    pub open spec fn spec_times(self, other: Scalar) -> Scalar {
        Scalar { num: (self.num * other.num) as i128, den: (self.den * other.den) as i128 }
    }

    /// `self / other`: the product of `self` and the inverse of `other`.
    pub open spec fn spec_over(self, other: Scalar) -> Scalar {
        Scalar { num: (self.num * other.den) as i128, den: (self.den * other.num) as i128 }
    }

    /// Whether the numerator lies in `[-n, n]` and the denominator in `[0, d]`.
    pub open spec fn within(self, n: int, d: int) -> bool {
        -n <= self.num <= n && 0 <= self.den <= d
    }

    /// Whether the fraction lies in `[0, 1]` and has a positive denominator.
    pub open spec fn is_unit(self) -> bool {
        0 <= self.num <= self.den && 0 < self.den
    }

    /// Whether the numerator lies in `[-n, n]` and the denominator in
    /// `[0, d]`.
    pub fn is_within(&self, n: i128, d: i128) -> (r: bool)
        requires
            n >= 0,
        ensures
            r == self.within(n as int, d as int),
    {
        -n <= self.num && self.num <= n && 0 <= self.den && self.den <= d
    }

    /// The fraction `num / den`.
    pub fn new(num: i128, den: i128) -> (s: Scalar)
        ensures
            s.num == num,
            s.den == den,
    {
        Scalar { num: num, den: den }
    }

    /// The whole number `v`.
    pub fn whole(v: i128) -> (s: Scalar)
        ensures
            s == Scalar::spec_whole(v as int),
    {
        Scalar { num: v, den: 1 }
    }

    /// The sum of two fractions, exact.
    pub fn plus(self, other: Scalar) -> (s: Scalar)
        requires
            storable(self.num * other.den),
            storable(other.num * self.den),
            storable(self.num * other.den + other.num * self.den),
            storable(self.den * other.den),
        ensures
            s == self.spec_plus(other),
    {
        Scalar { num: self.num * other.den + other.num * self.den, den: self.den * other.den }
    }

    /// The difference of two fractions, exact.
    pub fn minus(self, other: Scalar) -> (s: Scalar)
        requires
            storable(self.num * other.den),
            storable(other.num * self.den),
            storable(self.num * other.den - other.num * self.den),
            storable(self.den * other.den),
        ensures
            s == self.spec_minus(other),
    {
        Scalar { num: self.num * other.den - other.num * self.den, den: self.den * other.den }
    }

    /// The product of two fractions, exact.
    pub fn times(self, other: Scalar) -> (s: Scalar)
        requires
            storable(self.num * other.num),
            storable(self.den * other.den),
        ensures
            s == self.spec_times(other),
    {
        Scalar { num: self.num * other.num, den: self.den * other.den }
    }

    /// The quotient of two fractions, exact. Dividing by a fraction whose
    /// numerator is zero gives a fraction whose denominator is zero.
    pub fn over(self, other: Scalar) -> (s: Scalar)
        requires
            storable(self.num * other.den),
            storable(self.den * other.num),
        ensures
            s == self.spec_over(other),
    {
        Scalar { num: self.num * other.den, den: self.den * other.num }
    }
}

/// The product of two bounded integers is bounded by the product of the bounds.
pub proof fn lemma_product_bound(a: int, b: int, n: int, m: int)
    requires
        -n <= a <= n,
        -m <= b <= m,
    ensures
        -(n * m) <= a * b <= n * m,
{
    assert(-(n * m) <= a * b <= n * m) by (nonlinear_arith)
        requires
            -n <= a <= n,
            -m <= b <= m,
    ;
}

/// A point of the surface, in whole pixels from its origin.
#[derive(Clone, Copy, Debug, PartialEq, Eq, Structural)]
pub struct Vec2 {
    pub x: u32,
    pub y: u32,
}

/// The point `(x, y)`.
pub fn vec2(x: u32, y: u32) -> (v: Vec2)
    ensures
        v.x == x,
        v.y == y,
{
    Vec2 { x: x, y: y }
}

/// A point of the surface, in whole pixels from its origin.
#[derive(Clone, Copy, Debug, PartialEq, Eq, Structural)]
pub struct Pos {
    pub x: u32,
    pub y: u32,
}

/// The point `(x, y)`.
pub fn pos(x: u32, y: u32) -> (p: Pos)
    ensures
        p.x == x,
        p.y == y,
{
    Pos { x: x, y: y }
}

} // verus!
