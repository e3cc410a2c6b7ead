//! Floating-point measurements, held by their IEEE 754 binary64 encoding.
//!
//! The library orders and classifies measurements; it does no floating-point
//! arithmetic on them.
use vstd::prelude::*;

verus! {

/// A double-precision number, by its encoding.
#[derive(Clone, Copy, Debug, PartialEq, Eq, Structural)]
pub struct Real {
    pub bits: u64,
}

/// The sign bit.
pub const SIGN: u64 = 0x8000_0000_0000_0000;

/// The encoding of positive infinity.
pub const INFINITE: u64 = 0x7ff0_0000_0000_0000;

impl Real {
    /// The encoding without its sign.
    pub open spec fn magnitude(self) -> int {
        self.bits as int % SIGN as int
    }

    /// An integer that orders the numbers: both zeros are 0.
    pub open spec fn rank(self) -> int {
        if self.bits >= SIGN {
            -self.magnitude()
        } else {
            self.magnitude()
        }
    }

    pub open spec fn nan(self) -> bool {
        self.magnitude() > INFINITE
    }

    pub open spec fn finite(self) -> bool {
        self.magnitude() < INFINITE
    }

    /// `self < other`: false where either is not a number.
    pub open spec fn less(self, other: Real) -> bool {
        !self.nan() && !other.nan() && self.rank() < other.rank()
    }

    /// `self <= other`: false where either is not a number.
    pub open spec fn at_most(self, other: Real) -> bool {
        !self.nan() && !other.nan() && self.rank() <= other.rank()
    }

    /// `self > 0`.
    pub open spec fn positive(self) -> bool {
        !self.nan() && self.rank() > 0
    }

    /// Positive zero.
    pub fn zero() -> (r: Real)
        ensures
            r.bits == 0,
    {
        Real { bits: 0 }
    }

    fn size(self) -> (r: u64)
        ensures
            r == self.magnitude(),
    {
        self.bits % SIGN
    }

    /// Whether this is not a number.
    pub fn is_nan(self) -> (r: bool)
        ensures
            r == self.nan(),
    {
        self.size() > INFINITE
    }

    /// Whether this is neither infinite nor not a number.
    pub fn is_finite(self) -> (r: bool)
        ensures
            r == self.finite(),
    {
        self.size() < INFINITE
    }

    fn order(self) -> (r: i64)
        ensures
            r == self.rank(),
    {
        let size = self.size();
        if self.bits >= SIGN {
            -(size as i64)
        } else {
            size as i64
        }
    }

    /// Whether `self < other`.
    pub fn is_less(self, other: Real) -> (r: bool)
        ensures
            r == self.less(other),
    {
        !self.is_nan() && !other.is_nan() && self.order() < other.order()
    }

    /// Whether `self <= other`.
    pub fn is_at_most(self, other: Real) -> (r: bool)
        ensures
            r == self.at_most(other),
    {
        !self.is_nan() && !other.is_nan() && self.order() <= other.order()
    }

    /// Whether `self > 0`.
    pub fn is_positive(self) -> (r: bool)
        ensures
            r == self.positive(),
    {
        !self.is_nan() && self.order() > 0
    }
}

/// The power of two with exponent `k`.
pub open spec fn two_to(k: nat) -> nat
    decreases k,
{
    if k == 0 {
        1
    } else {
        2 * two_to((k - 1) as nat)
    }
}

/// The position of the highest set bit of `m > 0`.
pub open spec fn top_bit(m: nat) -> nat
    decreases m,
{
    if m < 2 {
        0
    } else {
        1 + top_bit(m / 2)
    }
}

/// The binary64 encoding of the number that the binary32 encoding `bits`
/// stands for. The exponent bias grows from 127 to 1023 and the fraction from
/// 23 bits to 52; a subnormal number, a multiple of `2^-149`, becomes a normal
/// one; a number that is no number stays one, and becomes quiet.
pub open spec fn widened(bits: u32) -> int {
    let sign = if bits >= 0x8000_0000 {
        SIGN as int
    } else {
        0
    };
    let exponent = (bits as int / 0x80_0000) % 0x100;
    let fraction = bits as int % 0x80_0000;
    let k = top_bit(fraction as nat);
    sign + if exponent == 0xff && fraction >= 0x40_0000 {
        INFINITE + fraction * 0x2000_0000
    } else if exponent == 0xff && fraction > 0 {
        INFINITE + 0x8_0000_0000_0000 + fraction * 0x2000_0000
    } else if exponent == 0xff {
        INFINITE as int
    } else if exponent > 0 {
        (exponent + 896) * 0x10_0000_0000_0000 + fraction * 0x2000_0000
    } else if fraction == 0 {
        0
    } else {
        (k + 874) * 0x10_0000_0000_0000 + (fraction - two_to(k)) * two_to((52 - k) as nat)
    }
}

proof fn top_bit_is(m: nat, k: nat)
    requires
        two_to(k) <= m < 2 * two_to(k),
    ensures
        top_bit(m) == k,
    decreases k,
{
    if k > 0 {
        top_bit_is(m / 2, (k - 1) as nat);
    }
}

/// The double-precision number equal to the single-precision number with the
/// encoding `bits`.
pub fn widen(bits: u32) -> (r: Real)
    ensures
        r.bits == widened(bits),
{
    let sign: u64 = if bits >= 0x8000_0000 {
        SIGN
    } else {
        0
    };
    let exponent: u64 = ((bits / 0x80_0000) % 0x100) as u64;
    let fraction: u64 = (bits % 0x80_0000) as u64;
    if exponent == 0xff {
        let quiet: u64 = if fraction > 0 && fraction < 0x40_0000 {
            0x8_0000_0000_0000
        } else {
            0
        };
        return Real { bits: sign + INFINITE + quiet + fraction * 0x2000_0000 };
    }
    if exponent > 0 {
        return Real { bits: sign + (exponent + 896) * 0x10_0000_0000_0000 + fraction * 0x2000_0000 };
    }
    if fraction == 0 {
        return Real { bits: sign };
    }
    let mut k: u64 = 0;
    let mut low: u64 = 1;
    let mut high: u64 = 0x10_0000_0000_0000;
    proof {
        assert(two_to(0) == 1);
        assert(two_to(22) == 0x40_0000) by {
            reveal_with_fuel(two_to, 23);
        }
        assert(two_to(52) == 0x10_0000_0000_0000) by {
            reveal_with_fuel(two_to, 53);
        }
    }
    while 2 * low <= fraction
        invariant
            0 < fraction < 0x80_0000,
            k <= 22,
            two_to(22) == 0x40_0000,
            1 <= low <= fraction,
            low == two_to(k as nat),
            high == two_to((52 - k) as nat),
            low * high == 0x10_0000_0000_0000,
        decreases fraction - low,
    {
        proof {
            assert(two_to((k + 1) as nat) == 2 * low);
            assert(high == 2 * two_to((51 - k) as nat));
            assert(low * high == (2 * low) * (high / 2)) by (nonlinear_arith)
                requires
                    high % 2 == 0,
            ;
            if k >= 22 {
                two_to_bound(22, k as nat);
            }
        }
        k = k + 1;
        low = 2 * low;
        high = high / 2;
    }
    proof {
        top_bit_is(fraction as nat, k as nat);
        two_to_positive((52 - k) as nat);
        assert((fraction - low) * high < 0x10_0000_0000_0000) by (nonlinear_arith)
            requires
                low * high == 0x10_0000_0000_0000,
                low <= fraction < 2 * low,
                high > 0,
        ;
        assert((fraction - low) * high >= 0) by (nonlinear_arith)
            requires
                low <= fraction,
                high >= 0,
        ;
    }
    Real { bits: sign + (k + 874) * 0x10_0000_0000_0000 + (fraction - low) * high }
}

proof fn two_to_positive(k: nat)
    ensures
        two_to(k) > 0,
    decreases k,
{
    if k > 0 {
        two_to_positive((k - 1) as nat);
    }
}

proof fn two_to_bound(a: nat, b: nat)
    requires
        a <= b,
    ensures
        two_to(a) <= two_to(b),
    decreases b,
{
    if a < b {
        two_to_bound(a, (b - 1) as nat);
    }
}

/// The index that a left-to-right search for the greatest entry ends on: a
/// later entry replaces the one held unless it is less.
pub open spec fn last_best(s: Seq<Real>) -> int
    decreases s.len(),
{
    if s.len() <= 1 {
        0
    } else {
        let held = last_best(s.drop_last());
        if s.last().less(s[held]) {
            held
        } else {
            s.len() - 1
        }
    }
}

/// The search ends on an entry of the list, and where every entry is a number,
/// on the last of the greatest.
pub proof fn last_best_is_greatest(s: Seq<Real>)
    requires
        s.len() > 0,
    ensures
        0 <= last_best(s) < s.len(),
        (forall|i: int| 0 <= i < s.len() ==> !(#[trigger] s[i]).nan()) ==> {
            &&& forall|i: int| 0 <= i < s.len() ==> !s[last_best(s)].less(#[trigger] s[i])
            &&& forall|i: int| last_best(s) < i < s.len() ==> (#[trigger] s[i]).less(s[last_best(s)])
        },
    decreases s.len(),
{
    if s.len() > 1 {
        let t = s.drop_last();
        last_best_is_greatest(t);
        assert(forall|i: int| 0 <= i < t.len() ==> t[i] == s[i]);
        if forall|i: int| 0 <= i < s.len() ==> !(#[trigger] s[i]).nan() {
            assert(forall|i: int| 0 <= i < t.len() ==> !(#[trigger] t[i]).nan());
            let held = last_best(t);
            assert(t[held] == s[held]);
            assert forall|i: int| 0 <= i < s.len() implies !s[last_best(s)].less(#[trigger] s[i]) by {
                if i < t.len() {
                    assert(t[i] == s[i]);
                    assert(!t[held].less(t[i]));
                }
            }
            assert forall|i: int| last_best(s) < i < s.len() implies (#[trigger] s[i]).less(
                s[last_best(s)],
            ) by {
                if i < t.len() {
                    assert(t[i].less(t[held]));
                }
            }
        }
    }
}

/// The index of the greatest score: the last one among equals.
pub fn best_index(scores: &Vec<Real>) -> (r: usize)
    requires
        scores@.len() > 0,
    ensures
        r == last_best(scores@),
        r < scores@.len(),
{
    let mut held: usize = 0;
    let mut i: usize = 1;
    proof {
        assert(last_best(scores@.take(1)) == 0);
    }
    while i < scores.len()
        invariant
            1 <= i <= scores@.len(),
            held < i,
            held == last_best(scores@.take(i as int)),
        decreases scores@.len() - i,
    {
        proof {
            assert(scores@.take(i + 1).drop_last() =~= scores@.take(i as int));
        }
        if !scores[i].is_less(scores[held]) {
            held = i;
        }
        i += 1;
    }
    proof {
        assert(scores@.take(scores@.len() as int) =~= scores@);
    }
    held
}

/// Where entry `i` goes in a list of entries by falling score: behind those
/// that are not less.
pub open spec fn falling_place(scores: Seq<Real>, list: Seq<int>, i: int) -> nat
    decreases list.len(),
{
    if list.len() > 0 && scores[list.last()].less(scores[i]) {
        falling_place(scores, list.drop_last(), i)
    } else {
        list.len()
    }
}

/// The first `n` entries by falling score, equal ones in their own order.
pub open spec fn falling(scores: Seq<Real>, n: nat) -> Seq<int>
    decreases n,
{
    if n == 0 {
        seq![]
    } else {
        let before = falling(scores, (n - 1) as nat);
        before.insert(falling_place(scores, before, n - 1) as int, n - 1)
    }
}

proof fn falling_place_bound(scores: Seq<Real>, list: Seq<int>, i: int)
    ensures
        falling_place(scores, list, i) <= list.len(),
        forall|j: int|
            falling_place(scores, list, i) <= j < list.len() ==> scores[#[trigger] list[j]].less(
                scores[i],
            ),
        falling_place(scores, list, i) > 0 ==> !scores[list[falling_place(scores, list, i)
            - 1]].less(scores[i]),
    decreases list.len(),
{
    if list.len() > 0 && scores[list.last()].less(scores[i]) {
        falling_place_bound(scores, list.drop_last(), i);
        assert forall|j: int| falling_place(scores, list, i) <= j < list.len() implies scores[
        #[trigger] list[j]].less(scores[i]) by {
            if j < list.len() - 1 {
                assert(list.drop_last()[j] == list[j]);
            }
        }
    }
}

/// The order by falling score holds every entry once, and where every score
/// is a number, no entry stands before one with a greater score.
pub proof fn falling_is_an_order(scores: Seq<Real>, n: nat)
    requires
        n <= scores.len(),
    ensures
        falling(scores, n).len() == n,
        forall|j: int| 0 <= j < n ==> 0 <= #[trigger] falling(scores, n)[j] < n,
        forall|i: int, j: int|
            0 <= i < j < n ==> #[trigger] falling(scores, n)[i] != #[trigger] falling(scores, n)[j],
        (forall|i: int| 0 <= i < scores.len() ==> !(#[trigger] scores[i]).nan()) ==> forall|
            i: int,
            j: int,
        |
            0 <= i < j < n ==> !scores[#[trigger] falling(scores, n)[i]].less(
                scores[#[trigger] falling(scores, n)[j]],
            ),
    decreases n,
{
    if n > 0 {
        falling_is_an_order(scores, (n - 1) as nat);
        let before = falling(scores, (n - 1) as nat);
        let at = falling_place(scores, before, n - 1) as int;
        falling_place_bound(scores, before, n - 1);
        let all = falling(scores, n);
        assert forall|j: int| 0 <= j < n implies 0 <= #[trigger] all[j] < n by {
            if j != at {
                let k = if j < at { j } else { j - 1 };
                assert(all[j] == before[k]);
            }
        }
        assert forall|i: int, j: int| 0 <= i < j < n implies #[trigger] all[i] != #[trigger] all[j] by {
            let a = if i < at { i } else { i - 1 };
            let b = if j < at { j } else { j - 1 };
            if i != at {
                assert(all[i] == before[a]);
            }
            if j != at {
                assert(all[j] == before[b]);
            }
            if i != at && j != at {
                assert(before[a] != before[b]);
            }
        }
        if forall|i: int| 0 <= i < scores.len() ==> !(#[trigger] scores[i]).nan() {
            assert forall|i: int, j: int| 0 <= i < j < n implies !scores[#[trigger] all[i]].less(
                scores[#[trigger] all[j]],
            ) by {
                let a = if i < at { i } else { i - 1 };
                let b = if j < at { j } else { j - 1 };
                if i != at && j != at {
                    assert(all[i] == before[a] && all[j] == before[b]);
                    assert(!scores[before[a]].less(scores[before[b]]));
                } else if i == at {
                    assert(all[j] == before[b]);
                    assert(scores[before[b]].less(scores[n - 1]));
                } else {
                    assert(all[i] == before[a]);
                    assert(!scores[before[at - 1]].less(scores[n - 1]));
                    if a < at - 1 {
                        assert(!scores[before[a]].less(scores[before[at - 1]]));
                        assert(!scores[before[a]].nan() && !scores[before[at - 1]].nan());
                    }
                }
            }
        }
    }
}

/// The entries by falling score, equal ones in their own order.
pub fn order_falling(scores: &Vec<Real>) -> (r: Vec<usize>)
    ensures
        r@.len() == scores@.len(),
        forall|j: int|
            0 <= j < r@.len() ==> #[trigger] r@[j] == falling(scores@, scores@.len())[j] && r@[j]
                < scores@.len(),
{
    let mut r: Vec<usize> = Vec::new();
    for i in 0..scores.len()
        invariant
            r@.len() == i,
            falling(scores@, i as nat).len() == i,
            forall|j: int| 0 <= j < i ==> (#[trigger] r@[j]) == falling(scores@, i as nat)[j],
            forall|j: int| 0 <= j < i ==> (#[trigger] r@[j]) < i,
    {
        let ghost before = falling(scores@, i as nat);
        let ghost old_r = r@;
        let mut at: usize = r.len();
        proof {
            assert(before.take(at as int) =~= before);
        }
        while at > 0 && scores[r[at - 1]].is_less(scores[i])
            invariant
                i < scores@.len(),
                r@ == old_r,
                r@.len() == i,
                at <= r@.len(),
                before.len() == i,
                forall|j: int| 0 <= j < i ==> (#[trigger] r@[j]) == before[j],
                forall|j: int| 0 <= j < i ==> (#[trigger] r@[j]) < i,
                falling_place(scores@, before.take(at as int), i as int) == falling_place(
                    scores@,
                    before,
                    i as int,
                ),
            decreases at,
        {
            proof {
                assert(before.take(at as int).drop_last() =~= before.take(at - 1));
                assert(before.take(at as int).last() == r@[at - 1]);
            }
            at -= 1;
        }
        proof {
            if at > 0 {
                assert(before.take(at as int).last() == r@[at - 1]);
            }
            assert(falling_place(scores@, before, i as int) == at);
        }
        r.insert(at, i);
        proof {
            let after = falling(scores@, (i + 1) as nat);
            assert(after == before.insert(at as int, i as int));
            assert forall|j: int| 0 <= j < i + 1 implies (#[trigger] r@[j]) == after[j] && r@[j] < i
                + 1 by {
                if j < at {
                    assert(r@[j] == old_r[j]);
                } else if j > at {
                    assert(r@[j] == old_r[j - 1]);
                }
            }
        }
    }
    r
}

} // verus!
