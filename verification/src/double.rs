//! Real-valued settings, held by their bit pattern.
//!
//! A setting such as a frequency in kilohertz is an IEEE-754 double. The library
//! never computes with one: it stores it, hands it back, and compares it with a
//! limit. All of that can be told from the bits, so that is what it keeps.

use vstd::prelude::*;
use vstd::string::StringExecFns;

verus! {

/// A double by its bit pattern, sign bit on top.
#[derive(Clone, Copy, PartialEq, Eq, Structural, Debug)]
pub struct Double {
    pub bits: u64,
}

/// The sign bit.
pub const SIGN: u64 = 0x8000_0000_0000_0000;

/// The magnitude bits of infinity: anything above is not a number.
pub const INFINITE: u64 = 0x7FF0_0000_0000_0000;

impl Double {
    /// The bits without the sign.
    pub open spec fn magnitude(self) -> int {
        if self.bits >= SIGN {
            self.bits - SIGN
        } else {
            self.bits as int
        }
    }

    pub open spec fn is_nan(self) -> bool {
        self.magnitude() > INFINITE
    }

    /// An integer that orders doubles as the numbers they stand for. The two
    /// zeros share one rank.
    pub open spec fn rank(self) -> int {
        if self.bits >= SIGN {
            -self.magnitude()
        } else {
            self.magnitude()
        }
    }

    /// `self < other`, false where either is not a number.
    pub open spec fn below(self, other: Double) -> bool {
        !self.is_nan() && !other.is_nan() && self.rank() < other.rank()
    }

    /// `self <= other`, false where either is not a number.
    pub open spec fn at_most(self, other: Double) -> bool {
        !self.is_nan() && !other.is_nan() && self.rank() <= other.rank()
    }

    /// `self == other` as numbers, false where either is not a number.
    pub open spec fn equals(self, other: Double) -> bool {
        !self.is_nan() && !other.is_nan() && self.rank() == other.rank()
    }

    fn split(self) -> (r: (bool, i64))
        ensures
            r.0 == self.is_nan(),
            r.1 == self.rank(),
    {
        if self.bits >= SIGN {
            let m: u64 = self.bits - SIGN;
            (m > INFINITE, -(m as i64))
        } else {
            (self.bits > INFINITE, self.bits as i64)
        }
    }

    /// Whether this number is less than the other.
    pub fn lt(self, other: Double) -> (r: bool)
        ensures
            r == self.below(other),
    {
        let (a, x) = self.split();
        let (b, y) = other.split();
        !a && !b && x < y
    }

    /// Whether this number is at most the other.
    pub fn le(self, other: Double) -> (r: bool)
        ensures
            r == self.at_most(other),
    {
        let (a, x) = self.split();
        let (b, y) = other.split();
        !a && !b && x <= y
    }

    /// Whether the two are the same number.
    pub fn same(self, other: Double) -> (r: bool)
        ensures
            r == self.equals(other),
    {
        let (a, x) = self.split();
        let (b, y) = other.split();
        !a && !b && x == y
    }
}

/// How a number is written out.
#[derive(Clone, Copy, PartialEq, Eq, Structural, Debug)]
pub enum Style {
    /// The shortest text that reads back as the same number.
    Plain,
    /// So many digits after the point.
    Fixed(u8),
    /// A digit, so many more after the point, and a power of ten.
    Scientific(u8),
}

/// `number` writes any number in any style.
pub open spec fn can_write<F: Fn(Double, Style) -> String>(number: F) -> bool {
    forall|d: Double, style: Style| call_requires(number, (d, style))
}

/// `t` is what `number` may write for `d` in this style.
pub open spec fn writes<F: Fn(Double, Style) -> String>(
    number: F,
    d: Double,
    style: Style,
    t: Seq<char>,
) -> bool {
    exists|x: String| call_ensures(number, (d, style), x) && #[trigger] x@ == t
}

/// Append what `number` writes for `d`.
pub(crate) fn push_number<F: Fn(Double, Style) -> String>(
    s: &mut String,
    number: &F,
    d: Double,
    style: Style,
) -> (t: Ghost<Seq<char>>)
    requires
        can_write(*number),
    ensures
        writes(*number, d, style, t@),
        final(s)@ == old(s)@ + t@,
{
    let x = number(d, style);
    s.append(x.as_str());
    Ghost(x@)
}

/// The bits of 0.0
pub const ZERO: u64 = 0;

/// The bits of 1.0
pub const ONE: u64 = 0x3FF0_0000_0000_0000;

/// The bits of 100.0
pub const HUNDRED: u64 = 0x4059_0000_0000_0000;

/// The comparison is a strict order on what is a number, and two numbers that
/// are not below one another are equal.
pub proof fn law_order(a: Double, b: Double, c: Double)
    ensures
        !a.below(a),
        a.below(b) && b.below(c) ==> a.below(c),
        !a.is_nan() && !b.is_nan() ==> (a.below(b) || b.below(a) || a.equals(b)),
        a.at_most(b) == (a.below(b) || a.equals(b)),
{
}

/// What is not a number compares with nothing, itself included.
pub proof fn law_nan_compares_with_nothing(a: Double, b: Double)
    requires
        a.is_nan(),
    ensures
        !a.below(b),
        !b.below(a),
        !a.at_most(b),
        !b.at_most(a),
        !a.equals(b),
        !a.equals(a),
{
}

/// The order by the bits: what has all eleven exponent bits and anything below them is not
/// a number; the two zeros are one number; a set sign bit is below every number without
/// one; above zero more bits are more, below zero they are less.
pub proof fn law_the_order_by_the_bits(a: Double, b: Double)
    ensures
        a.is_nan() <==> (0x7FF0_0000_0000_0000 < a.bits < 0x8000_0000_0000_0000 || a.bits
            > 0xFFF0_0000_0000_0000),
        a.bits == 0 && b.bits == 0x8000_0000_0000_0000 ==> a.equals(b) && b.equals(a),
        a.bits <= 0x7FF0_0000_0000_0000 && b.bits <= 0x7FF0_0000_0000_0000 ==> {
            &&& a.below(b) <==> a.bits < b.bits
            &&& a.at_most(b) <==> a.bits <= b.bits
            &&& a.equals(b) <==> a.bits == b.bits
        },
        0x8000_0000_0000_0000 <= a.bits <= 0xFFF0_0000_0000_0000 && 0x8000_0000_0000_0000 <= b.bits
            <= 0xFFF0_0000_0000_0000 ==> {
            &&& a.below(b) <==> a.bits > b.bits
            &&& a.at_most(b) <==> a.bits >= b.bits
            &&& a.equals(b) <==> a.bits == b.bits
        },
        0x8000_0000_0000_0000 < a.bits <= 0xFFF0_0000_0000_0000 && b.bits <= 0x7FF0_0000_0000_0000
            ==> a.below(b) && !b.below(a) && !b.at_most(a) && !a.equals(b),
{
}

} // verus!
