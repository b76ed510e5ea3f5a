//! Measured values as IEEE-754 binary64 bit patterns, with exact comparisons on the bits.
use vstd::prelude::*;

verus! {

/// Magnitudes above this one are not numbers.
pub const INFINITY_MAGNITUDE: u64 = 0x7FF0_0000_0000_0000;

/// The sign bit.
pub const SIGN: u64 = 0x8000_0000_0000_0000;

/// A measured value: the bit pattern of a binary64 number, as `f64::to_bits` gives it.
#[derive(Clone, Copy, Debug, PartialEq, Eq, Structural)]
pub struct Sample {
    pub bits: u64,
}

impl Sample {
    /// Whether the sign bit is set.
    pub open spec fn negative(self) -> bool {
        self.bits >= SIGN
    }

    /// The bits without the sign.
    pub open spec fn magnitude(self) -> int {
        if self.negative() {
            self.bits - SIGN
        } else {
            self.bits as int
        }
    }

    /// Whether the pattern stands for no number.
    pub open spec fn is_nan(self) -> bool {
        self.magnitude() > INFINITY_MAGNITUDE
    }

    /// A number that orders the patterns as the values they stand for; both zeros give 0.
    pub open spec fn key(self) -> int {
        if self.negative() {
            -self.magnitude()
        } else {
            self.magnitude()
        }
    }

    /// A number that orders all patterns: negative before positive zero, and the patterns that
    /// are no numbers outermost.
    pub open spec fn total_key(self) -> int {
        if self.negative() {
            -1 - self.magnitude()
        } else {
            self.magnitude()
        }
    }

    /// `self < other` on the values. False when either is no number.
    pub open spec fn lt(self, other: Sample) -> bool {
        !self.is_nan() && !other.is_nan() && self.key() < other.key()
    }

    /// `self <= other` on the values. False when either is no number.
    pub open spec fn le(self, other: Sample) -> bool {
        !self.is_nan() && !other.is_nan() && self.key() <= other.key()
    }

    /// Whether `self` is above zero.
    pub open spec fn positive(self) -> bool {
        !self.is_nan() && self.key() > 0
    }

    /// The larger of two values; the other one when one of them is no number.
    pub open spec fn larger_of(self, other: Sample) -> Sample {
        if self.is_nan() {
            other
        } else if other.is_nan() {
            self
        } else if self.key() < other.key() {
            other
        } else {
            self
        }
    }

    fn magnitude_bits(self) -> (m: u64)
        ensures
            m == self.magnitude(),
    {
        if self.bits >= SIGN {
            self.bits - SIGN
        } else {
            self.bits
        }
    }

    /// Whether the pattern stands for no number.
    pub fn no_number(self) -> (b: bool)
        ensures
            b == self.is_nan(),
    {
        self.magnitude_bits() > INFINITY_MAGNITUDE
    }

    /// Whether the pattern stands for a finite number.
    pub fn finite_number(self) -> (b: bool)
        ensures
            b == (self.magnitude() < INFINITY_MAGNITUDE),
    {
        self.magnitude_bits() < INFINITY_MAGNITUDE
    }

    /// The ordering key of the value.
    fn order_key(self) -> (k: i64)
        ensures
            k == self.key(),
    {
        let m: i64 = self.magnitude_bits() as i64;
        if self.bits >= SIGN {
            -m
        } else {
            m
        }
    }

    /// `self < other` on the values.
    pub fn below(self, other: Sample) -> (b: bool)
        ensures
            b == self.lt(other),
    {
        !self.no_number() && !other.no_number() && self.order_key() < other.order_key()
    }

    /// `self <= other` on the values.
    pub fn at_most(self, other: Sample) -> (b: bool)
        ensures
            b == self.le(other),
    {
        !self.no_number() && !other.no_number() && self.order_key() <= other.order_key()
    }

    /// Whether the two order alike.
    pub fn same_key(self, other: Sample) -> (b: bool)
        ensures
            b == (self.key() == other.key()),
    {
        self.order_key() == other.order_key()
    }

    /// Whether `self` is above zero.
    pub fn above_zero(self) -> (b: bool)
        ensures
            b == self.positive(),
    {
        !self.no_number() && self.order_key() > 0
    }

    /// The larger of two values.
    pub fn larger(self, other: Sample) -> (m: Sample)
        ensures
            m == self.larger_of(other),
    {
        if self.no_number() {
            other
        } else if other.no_number() {
            self
        } else if self.order_key() < other.order_key() {
            other
        } else {
            self
        }
    }

    /// `self < other` in the order of all patterns.
    pub fn total_below(self, other: Sample) -> (b: bool)
        ensures
            b == (self.total_key() < other.total_key()),
    {
        let a: i64 = if self.bits >= SIGN {
            -1 - self.magnitude_bits() as i64
        } else {
            self.bits as i64
        };
        let b: i64 = if other.bits >= SIGN {
            -1 - other.magnitude_bits() as i64
        } else {
            other.bits as i64
        };
        a < b
    }
}

// ---------------------------------------------------------------------------------------------
// Order statistics

/// Whether the samples ascend in the order of all patterns.
pub open spec fn ascending(s: Seq<Sample>) -> bool {
    forall|i: int, j: int| 0 <= i <= j < s.len() ==> s[i].total_key() <= s[j].total_key()
}

/// The samples in ascending order (`f64::total_cmp`).
pub fn sorted(values: &Vec<Sample>) -> (out: Vec<Sample>)
    ensures
        ascending(out@),
        out@.to_multiset() == values@.to_multiset(),
        out@.len() == values@.len(),
{
    let mut out: Vec<Sample> = Vec::new();
    let mut i: usize = 0;
    assert(out@ == values@.take(0));
    while i < values.len()
        invariant
            i <= values@.len(),
            ascending(out@),
            out@.len() == i,
            out@.to_multiset() == values@.take(i as int).to_multiset(),
        decreases values@.len() - i,
    {
        let v = values[i];
        let mut at: usize = 0;
        while at < out.len() && !v.total_below(out[at])
            invariant
                at <= out@.len(),
                forall|j: int| 0 <= j < at ==> out@[j].total_key() <= v.total_key(),
            decreases out@.len() - at,
        {
            at += 1;
        }
        let ghost before = out@;
        assert(ascending(before));
        assert(at < before.len() ==> v.total_key() < before[at as int].total_key());
        out.insert(at, v);
        proof {
            assert(out@ == before.insert(at as int, v));
            vstd::seq_lib::to_multiset_insert(before, at as int, v);
            assert(values@.take(i + 1) == values@.take(i as int).push(v));
            values@.take(i as int).to_multiset_ensures();
            assert(values@.take(i as int).push(v).to_multiset() == values@.take(
                i as int,
            ).to_multiset().insert(v));
            assert forall|a: int, b: int| 0 <= a <= b < out@.len() implies out@[a].total_key()
                <= out@[b].total_key() by {
                let pa = if a < at {
                    a
                } else {
                    a - 1
                };
                let pb = if b < at {
                    b
                } else {
                    b - 1
                };
                if a != at && b != at {
                    assert(before[pa].total_key() <= before[pb].total_key());
                } else if a == at && b > at {
                    assert(before[at as int].total_key() <= before[pb].total_key());
                }
            }
        }
        i += 1;
    }
    assert(values@.take(values@.len() as int) == values@);
    out
}

// ---------------------------------------------------------------------------------------------
// Laws

/// Patterns above infinity are no numbers, with either sign; nothing is below or above them.
pub proof fn law_no_number_compares(a: Sample, b: Sample)
    ensures
        a.is_nan() <==> 0x7FF0_0000_0000_0000 < a.bits < 0x8000_0000_0000_0000 || a.bits
            > 0xFFF0_0000_0000_0000,
        a.is_nan() || b.is_nan() ==> !a.lt(b) && !a.le(b) && !b.lt(a) && !b.le(a),
        a.is_nan() ==> !a.positive(),
{
}

/// The values are ordered as numbers: by their bits where both are positive, the other way round
/// where both are negative, a negative one below a positive one, and both zeros alike.
pub proof fn law_values_are_ordered(a: Sample, b: Sample)
    requires
        !a.is_nan(),
        !b.is_nan(),
    ensures
        a.bits < 0x8000_0000_0000_0000 && b.bits < 0x8000_0000_0000_0000 ==> (a.lt(b) <==> a.bits
            < b.bits),
        a.bits >= 0x8000_0000_0000_0000 && b.bits >= 0x8000_0000_0000_0000 ==> (a.lt(b) <==> a.bits
            > b.bits),
        a.bits > 0x8000_0000_0000_0000 && b.bits < 0x8000_0000_0000_0000 ==> a.lt(b),
        a.bits == 0x8000_0000_0000_0000 && b.bits == 0 ==> a.le(b) && b.le(a),
        a.bits == 0x8000_0000_0000_0000 && 0 < b.bits < 0x8000_0000_0000_0000 ==> a.lt(b),
        a.le(b) <==> !b.lt(a),
        a.positive() <==> (Sample { bits: 0 }).lt(a),
{
}

/// The larger of two values is one of them, and not below the other; a pattern that is no number
/// gives way to the other one.
pub proof fn law_larger_value(a: Sample, b: Sample)
    ensures
        a.larger_of(b) == a || a.larger_of(b) == b,
        !a.is_nan() && !b.is_nan() ==> a.le(a.larger_of(b)) && b.le(a.larger_of(b)),
        a.is_nan() ==> a.larger_of(b) == b,
        b.is_nan() && !a.is_nan() ==> a.larger_of(b) == a,
{
}

/// Numbers in ascending order ascend as values, negative zero standing before positive zero.
pub proof fn law_ascending_numbers_ascend(s: Seq<Sample>, i: int, j: int)
    requires
        ascending(s),
        0 <= i < j < s.len(),
        !s[i].is_nan(),
        !s[j].is_nan(),
    ensures
        s[i].le(s[j]),
        s[j].bits == 0x8000_0000_0000_0000 ==> s[i].bits != 0,
{
    assert(s[i].total_key() <= s[j].total_key());
}

} // verus!
