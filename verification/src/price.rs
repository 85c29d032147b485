//! What a level of a blessing costs.
//!
//! The cost of level `n` is the base cost of the blessing raised to the power
//! `1.3 + n / 12`, rounded down. The exponent is `(78 + 5 n) / 60`, so the
//! cost is the integer 60th root of a whole power of the base cost, which is
//! computed here exactly, on numbers of any length.

use vstd::prelude::*;
use crate::params::Blessing;

verus! {

/// `b` raised to the power `e`.
pub open spec fn power(b: int, e: nat) -> int
    decreases e,
{
    if e == 0 {
        1
    } else {
        b * power(b, (e - 1) as nat)
    }
}

/// Raising to a power keeps the order of non-negative integers.
pub proof fn lemma_power_monotone(a: int, b: int, e: nat)
    requires
        0 <= a <= b,
    ensures
        0 <= power(a, e) <= power(b, e),
    decreases e,
{
    if e > 0 {
        lemma_power_monotone(a, b, (e - 1) as nat);
        let pa = power(a, (e - 1) as nat);
        let pb = power(b, (e - 1) as nat);
        assert(0 <= a * pa <= b * pb) by (nonlinear_arith)
            requires
                0 <= a <= b,
                0 <= pa <= pb,
        ;
    }
}

/// A power of a positive integer is positive.
pub proof fn lemma_power_positive(b: int, e: nat)
    requires
        0 < b,
    ensures
        0 < power(b, e),
    decreases e,
{
    if e > 0 {
        lemma_power_positive(b, (e - 1) as nat);
        let p = power(b, (e - 1) as nat);
        assert(0 < b * p) by (nonlinear_arith)
            requires
                0 < b,
                0 < p,
        ;
    }
}

/// Raising to a power other than the zeroth keeps the strict order of
/// non-negative integers.
pub proof fn lemma_power_strict(a: int, b: int, e: nat)
    requires
        0 <= a < b,
        0 < e,
    ensures
        power(a, e) < power(b, e),
{
    lemma_power_monotone(a, b, (e - 1) as nat);
    lemma_power_positive(b, (e - 1) as nat);
    let pa = power(a, (e - 1) as nat);
    let pb = power(b, (e - 1) as nat);
    assert(a * pa < b * pb) by (nonlinear_arith)
        requires
            0 <= a < b,
            0 <= pa <= pb,
            0 < pb,
    ;
}

/// `root` is the integer root of `x` of the given degree: the largest
/// integer whose power of that degree does not exceed `x`.
pub open spec fn is_root_floor(x: int, degree: nat, root: int) -> bool {
    0 <= root && power(root, degree) <= x < power(root + 1, degree)
}

/// The integer root of `x` of the given degree, for `x >= 0` and a degree
/// other than zero.
pub open spec fn root_floor(x: int, degree: nat) -> int {
    choose|root: int| is_root_floor(x, degree, root)
}

/// A number has at most one integer root of a degree.
pub proof fn lemma_root_unique(x: int, degree: nat, a: int, b: int)
    requires
        is_root_floor(x, degree, a),
        is_root_floor(x, degree, b),
    ensures
        a == b,
{
    if a < b {
        lemma_power_monotone(a + 1, b, degree);
    } else if b < a {
        lemma_power_monotone(b + 1, a, degree);
    }
}

/// Every non-negative integer has an integer root of every degree but the
/// zeroth.
pub proof fn lemma_root_exists(x: int, degree: nat)
    requires
        0 <= x,
        0 < degree,
    ensures
        is_root_floor(x, degree, root_floor(x, degree)),
    decreases x,
{
    if x == 0 {
        lemma_power_strict(0, 1, degree);
        assert(power(0, degree) == 0);
        assert(is_root_floor(0, degree, 0));
    } else {
        lemma_root_exists(x - 1, degree);
        let r = root_floor(x - 1, degree);
        if power(r + 1, degree) <= x {
            lemma_power_strict(r + 1, r + 2, degree);
            assert(is_root_floor(x, degree, r + 1));
        } else {
            assert(is_root_floor(x, degree, r));
        }
    }
}

/// Limbs are digits to this base.
pub const LIMB_BASE: u128 = 0x1_0000_0000_0000_0000;

/// The limb at place `k` of a number, which is zero beyond the limbs written
/// down.
pub open spec fn limb_at(limbs: Seq<u64>, k: int) -> int {
    if 0 <= k < limbs.len() {
        limbs[k] as int
    } else {
        0
    }
}

/// The number that the first `k` limbs write, the least significant limb
/// standing first.
pub open spec fn big_upto(limbs: Seq<u64>, k: nat) -> int
    decreases k,
{
    if k == 0 {
        0
    } else {
        big_upto(limbs, (k - 1) as nat) + limb_at(limbs, k - 1) * power(
            LIMB_BASE as int,
            (k - 1) as nat,
        )
    }
}

/// The number that the limbs write.
pub open spec fn big_value(limbs: Seq<u64>) -> int {
    big_upto(limbs, limbs.len())
}

/// `k` limbs write a number below the `k`th power of the base.
proof fn lemma_big_bound(limbs: Seq<u64>, k: nat)
    ensures
        0 <= big_upto(limbs, k) < power(LIMB_BASE as int, k),
    decreases k,
{
    if k > 0 {
        lemma_big_bound(limbs, (k - 1) as nat);
        let p = power(LIMB_BASE as int, (k - 1) as nat);
        let limb = limb_at(limbs, k - 1);
        assert(0 <= limb * p <= (LIMB_BASE - 1) * p) by (nonlinear_arith)
            requires
                0 <= limb <= LIMB_BASE - 1,
                0 <= p,
        ;
        assert((LIMB_BASE - 1) * p + p == LIMB_BASE * p) by (nonlinear_arith);
    }
}

/// Places beyond the limbs written down add nothing.
proof fn lemma_big_padding(limbs: Seq<u64>, k: nat)
    requires
        limbs.len() <= k,
    ensures
        big_upto(limbs, k) == big_value(limbs),
    decreases k,
{
    if k > limbs.len() {
        lemma_big_padding(limbs, (k - 1) as nat);
        let p = power(LIMB_BASE as int, (k - 1) as nat);
        assert(0 * p == 0);
    }
}

/// Numbers that agree on their first `k` limbs agree on what those write.
proof fn lemma_big_prefix(a: Seq<u64>, b: Seq<u64>, k: nat)
    requires
        forall|j: int| 0 <= j < k ==> limb_at(a, j) == limb_at(b, j),
    ensures
        big_upto(a, k) == big_upto(b, k),
    decreases k,
{
    if k > 0 {
        lemma_big_prefix(a, b, (k - 1) as nat);
    }
}

/// Numbers that agree on their limbs from place `low` up to place `high`
/// differ by what they differ in below `low`.
proof fn lemma_big_high_limbs(a: Seq<u64>, b: Seq<u64>, low: nat, high: nat)
    requires
        low <= high,
        forall|j: int| low <= j < high ==> limb_at(a, j) == limb_at(b, j),
    ensures
        big_upto(a, high) - big_upto(a, low) == big_upto(b, high) - big_upto(b, low),
    decreases high,
{
    if high > low {
        lemma_big_high_limbs(a, b, low, (high - 1) as nat);
    }
}

/// The product of a number and one limb.
fn big_times(a: &Vec<u64>, m: u64) -> (product: Vec<u64>)
    ensures
        big_value(product@) == big_value(a@) * m,
{
    let mut product: Vec<u64> = Vec::new();
    let mut carry: u64 = 0;
    let mut i: usize = 0;
    while i < a.len()
        invariant
            i <= a.len(),
            product.len() == i,
            big_upto(product@, i as nat) + carry * power(LIMB_BASE as int, i as nat) == big_upto(
                a@,
                i as nat,
            ) * m,
        decreases a.len() - i,
    {
        let limb = a[i];
        assert(limb * m + carry <= 0xffff_ffff_ffff_ffff * 0xffff_ffff_ffff_ffff
            + 0xffff_ffff_ffff_ffff) by (nonlinear_arith)
            requires
                0 <= limb <= 0xffff_ffff_ffff_ffff,
                0 <= m <= 0xffff_ffff_ffff_ffff,
                0 <= carry <= 0xffff_ffff_ffff_ffff,
        ;
        let t: u128 = (limb as u128) * (m as u128) + (carry as u128);
        let low: u64 = (t % LIMB_BASE) as u64;
        let high: u64 = (t / LIMB_BASE) as u64;
        let ghost before = product@;
        let ghost old_carry = carry;
        product.push(low);
        carry = high;
        proof {
            let p = power(LIMB_BASE as int, i as nat);
            lemma_big_prefix(before, product@, i as nat);
            assert(limb_at(product@, i as int) == low);
            assert(limb_at(a@, i as int) == limb);
            assert(power(LIMB_BASE as int, (i + 1) as nat) == LIMB_BASE * p);
            let done = big_upto(before, i as nat);
            let source = big_upto(a@, i as nat);
            assert(t == low + high * LIMB_BASE);
            assert(done + low * p + high * (LIMB_BASE * p) == (source + limb * p) * m)
                by (nonlinear_arith)
                requires
                    done + old_carry * p == source * m,
                    limb * m + old_carry == low + high * LIMB_BASE,
            ;
        }
        i += 1;
    }
    if carry != 0 {
        let ghost before = product@;
        product.push(carry);
        proof {
            lemma_big_prefix(before, product@, i as nat);
            assert(limb_at(product@, i as int) == carry);
        }
    } else {
        assert(0 * power(LIMB_BASE as int, i as nat) == 0);
    }
    product
}

/// Whether one number is at most another.
fn big_le(a: &Vec<u64>, b: &Vec<u64>) -> (le: bool)
    ensures
        le == (big_value(a@) <= big_value(b@)),
{
    let places = if a.len() >= b.len() {
        a.len()
    } else {
        b.len()
    };
    proof {
        lemma_big_padding(a@, places as nat);
        lemma_big_padding(b@, places as nat);
    }
    let mut i: usize = places;
    while i > 0
        invariant
            i <= places,
            big_upto(a@, places as nat) == big_value(a@),
            big_upto(b@, places as nat) == big_value(b@),
            forall|j: int| i <= j < places ==> limb_at(a@, j) == limb_at(b@, j),
        decreases i,
    {
        let la: u64 = if i - 1 < a.len() {
            a[i - 1]
        } else {
            0
        };
        let lb: u64 = if i - 1 < b.len() {
            b[i - 1]
        } else {
            0
        };
        if la != lb {
            proof {
                lemma_big_high_limbs(a@, b@, i as nat, places as nat);
                lemma_big_bound(a@, (i - 1) as nat);
                lemma_big_bound(b@, (i - 1) as nat);
                let p = power(LIMB_BASE as int, (i - 1) as nat);
                assert(limb_at(a@, i - 1) == la);
                assert(limb_at(b@, i - 1) == lb);
                assert(big_upto(a@, i as nat) == big_upto(a@, (i - 1) as nat) + la * p);
                assert(big_upto(b@, i as nat) == big_upto(b@, (i - 1) as nat) + lb * p);
                if la < lb {
                    assert(la * p + p <= lb * p) by (nonlinear_arith)
                        requires
                            la + 1 <= lb,
                            0 <= p,
                    ;
                } else {
                    assert(lb * p + p <= la * p) by (nonlinear_arith)
                        requires
                            lb + 1 <= la,
                            0 <= p,
                    ;
                }
            }
            return la < lb;
        }
        i -= 1;
    }
    proof {
        lemma_big_high_limbs(a@, b@, 0, places as nat);
    }
    true
}

/// A whole power of one limb.
fn big_power(base: u64, exponent: u32) -> (result: Vec<u64>)
    ensures
        big_value(result@) == power(base as int, exponent as nat),
{
    let mut result: Vec<u64> = Vec::new();
    result.push(1);
    assert(big_value(result@) == 1) by {
        reveal_with_fuel(big_upto, 2);
        assert(power(LIMB_BASE as int, 0) == 1);
    }
    let mut e: u32 = 0;
    while e < exponent
        invariant
            e <= exponent,
            big_value(result@) == power(base as int, e as nat),
        decreases exponent - e,
    {
        let ghost before = big_value(result@);
        result = big_times(&result, base);
        proof {
            assert(before * base == base * before) by (nonlinear_arith);
        }
        e += 1;
    }
    result
}

/// The exponent of every cost is a whole number of sixtieths.
pub const COST_ROOT: u32 = 60;

impl Blessing {
    /// The cost from which the cost of every level of the blessing grows.
    pub open spec fn base_cost(self) -> int {
        match self {
            Blessing::CircleOfGrace => 10,
            Blessing::KarmaAmplification => 30,
            Blessing::KarmaPersistence => 80,
            Blessing::SpiritualFocus => 150,
            Blessing::AscendantEnergy => 300,
            Blessing::Devotion => 550,
            Blessing::GracefulPause => 1000,
            Blessing::SpiritualGate => 1800,
            Blessing::EternalGrace => 2590,
        }
    }

    /// What `level` of the blessing costs.
    pub fn price(&self, level: u8) -> (price: u64)
        ensures
            price == price_of(*self, level),
    {
        let base: u64 = match self {
            Blessing::CircleOfGrace => 10,
            Blessing::KarmaAmplification => 30,
            Blessing::KarmaPersistence => 80,
            Blessing::SpiritualFocus => 150,
            Blessing::AscendantEnergy => 300,
            Blessing::Devotion => 550,
            Blessing::GracefulPause => 1000,
            Blessing::SpiritualGate => 1800,
            Blessing::EternalGrace => 2590,
        };
        cost(base, level)
    }
}

/// The cost of `level` when the base cost is `base`, before it is fitted
/// into 64 bits: `base` to the power `1.3 + level / 12`, rounded down.
pub open spec fn exact_cost(base: int, level: u8) -> int {
    root_floor(power(base, (78 + 5 * level) as nat), COST_ROOT as nat)
}

/// The cost of `level` when the base cost is `base`. A cost that does not
/// fit into 64 bits counts as the largest that does.
pub open spec fn cost_of(base: int, level: u8) -> int {
    if exact_cost(base, level) >= u64::MAX {
        u64::MAX as int
    } else {
        exact_cost(base, level)
    }
}

/// What `level` of `blessing` costs.
pub open spec fn price_of(blessing: Blessing, level: u8) -> int {
    cost_of(blessing.base_cost(), level)
}

/// No cost is negative, and none is beyond 64 bits.
pub proof fn lemma_cost_in_range(base: int, level: u8)
    requires
        0 <= base,
    ensures
        0 <= cost_of(base, level) <= u64::MAX,
{
    let exponent = (78 + 5 * level) as nat;
    lemma_power_monotone(0, base, exponent);
    lemma_root_exists(power(base, exponent), COST_ROOT as nat);
}

/// No price is negative, and none is beyond 64 bits.
pub proof fn lemma_price_in_range(blessing: Blessing, level: u8)
    ensures
        0 <= price_of(blessing, level) <= u64::MAX,
{
    lemma_cost_in_range(blessing.base_cost(), level);
}

/// Computes `cost_of`.
pub fn cost(base: u64, level: u8) -> (price: u64)
    ensures
        price == cost_of(base as int, level),
{
    let exponent: u32 = 78 + 5 * (level as u32);
    let target = big_power(base, exponent);
    let ghost goal = power(base as int, exponent as nat);
    proof {
        lemma_power_monotone(0, base as int, exponent as nat);
        lemma_root_exists(goal, COST_ROOT as nat);
    }
    let top = big_power(u64::MAX, COST_ROOT);
    if big_le(&top, &target) {
        proof {
            let r = root_floor(goal, COST_ROOT as nat);
            if r < u64::MAX {
                lemma_power_monotone(r + 1, u64::MAX as int, COST_ROOT as nat);
            }
        }
        return u64::MAX;
    }
    let mut low: u64 = 0;
    let mut high: u64 = u64::MAX;
    proof {
        lemma_power_strict(0, 1, COST_ROOT as nat);
        assert(power(0, COST_ROOT as nat) == 0);
    }
    while high - low > 1
        invariant
            low < high,
            power(low as int, COST_ROOT as nat) <= goal < power(high as int, COST_ROOT as nat),
            big_value(target@) == goal,
        decreases high - low,
    {
        let mid: u64 = low + (high - low) / 2;
        let trial = big_power(mid, COST_ROOT);
        if big_le(&trial, &target) {
            low = mid;
        } else {
            high = mid;
        }
    }
    proof {
        assert(is_root_floor(goal, COST_ROOT as nat, low as int));
        lemma_root_unique(goal, COST_ROOT as nat, low as int, root_floor(goal, COST_ROOT as nat));
    }
    low
}

} // verus!
