//! How many bits a filter gets for the items it is to hold.
//!
//! At a false-positive rate of 0.01 an item takes `-ln(0.01) / ln(2)^2` bits,
//! which is
//!
//! ```text
//! 9 . 585058377367439072 381994456019696924 055406686141390584 84047365...
//! ```
//!
//! The bit count is the capacity times this number, rounded up. The number
//! is held to 54 decimal places, as the whole 9 and three groups of eighteen
//! digits. `lemma_bit_count_is_exact` shows that the digits left out make no
//! difference for any capacity below `EXACT_BELOW`, which is more than
//! thirty-six million times what fits 64 bits.

use vstd::arithmetic::div_mod::{
    lemma_fundamental_div_mod, lemma_fundamental_div_mod_converse, lemma_mod_bound,
};
use vstd::prelude::*;

verus! {

/// The whole part of the bits per item.
pub const BITS_PER_ITEM_WHOLE: u128 = 9;

/// The first eighteen decimal places of the bits per item.
pub const BITS_PER_ITEM_PLACES_1: u128 = 585_058_377_367_439_072;

/// The decimal places 19 to 36 of the bits per item.
pub const BITS_PER_ITEM_PLACES_2: u128 = 381_994_456_019_696_924;

/// The decimal places 37 to 54 of the bits per item.
pub const BITS_PER_ITEM_PLACES_3: u128 = 55_406_686_141_390_584;

/// Ten to the eighteenth: what one group of eighteen places counts in.
pub const GROUP: u128 = 1_000_000_000_000_000_000;

/// The bits per item cut after 54 places, as a whole number of units of
/// ten to the minus 54: the whole part and the three groups of places, one
/// after the other.
pub open spec fn bits_per_item_numerator() -> int {
    9_585058377367439072_381994456019696924_055406686141390584int
}

/// Ten to the 54th.
pub open spec fn bits_per_item_denominator() -> int {
    1_000000000000000000_000000000000000000_000000000000000000int
}

/// The whole part and the three groups of places make up the numerator.
pub proof fn lemma_numerator_in_groups()
    ensures
        bits_per_item_numerator() == ((BITS_PER_ITEM_WHOLE * GROUP + BITS_PER_ITEM_PLACES_1)
            * GROUP + BITS_PER_ITEM_PLACES_2) * GROUP + BITS_PER_ITEM_PLACES_3,
        bits_per_item_denominator() == GROUP * GROUP * GROUP,
{
}

/// `capacity` times `numerator / 10^54`, rounded up.
pub open spec fn rounded_up(capacity: nat, numerator: int) -> int {
    (capacity * numerator + bits_per_item_denominator() - 1) / bits_per_item_denominator()
}

/// The least capacity at which the digits of the bits per item beyond the
/// 54th place could change a bit count: about 6.8 times ten to the 26th.
pub open spec fn exact_below() -> int {
    676_705_082_027_489_677_633_056_873int
}

/// The number of bits of a filter made for `capacity` items: the capacity
/// times the bits per item, rounded up. The bits per item are held to 54
/// places. For every capacity below `exact_below()`, and so for every
/// capacity that fits 64 bits, this is `-capacity * ln(0.01) / ln(2)^2`
/// rounded up, whatever the digits of that number beyond the 54th (see
/// `lemma_bit_count_is_exact`).
pub open spec fn bit_count_for(capacity: nat) -> nat {
    rounded_up(capacity, bits_per_item_numerator()) as nat
}

/// What lies between `(m - 1) * d` (left out) and `m * d`, rounded up to a
/// multiple of `d`, is `m * d`.
proof fn lemma_rounding_up(x: int, d: int, m: int)
    requires
        d > 0,
        (m - 1) * d < x <= m * d,
    ensures
        (x + d - 1) / d == m,
{
    assert((m - 1) * d == m * d - d) by (nonlinear_arith);
    lemma_fundamental_div_mod_converse(x + d - 1, d, m, x + d - 1 - m * d);
}

/// A number rounded up to a multiple of `d` is the least multiple that is
/// not below it.
proof fn lemma_rounded_up(x: int, d: int)
    requires
        d > 0,
    ensures
        ((x + d - 1) / d - 1) * d < x <= ((x + d - 1) / d) * d,
{
    let m = (x + d - 1) / d;
    lemma_fundamental_div_mod(x + d - 1, d);
    assert(0 <= (x + d - 1) % d < d) by (nonlinear_arith)
        requires
            d > 0,
    ;
    assert((m - 1) * d == m * d - d && m * d == d * m) by (nonlinear_arith);
}

/// Between two fractions `p1 / q1 < p2 / q2` with `p2 * q1 - p1 * q2 == 1`
/// lies no fraction with a denominator below `q1 + q2`.
proof fn lemma_between_neighbours(p1: int, q1: int, p2: int, q2: int, m: int, n: int)
    by (nonlinear_arith)
    requires
        q1 > 0,
        q2 > 0,
        p2 * q1 - p1 * q2 == 1,
        p1 * n < m * q1,
        m * q2 < p2 * n,
    ensures
        n >= q1 + q2,
{
    assert(n == q1 * (p2 * n - m * q2) + q2 * (m * q1 - p1 * n));
    assert(p2 * n - m * q2 >= 1);
    assert(m * q1 - p1 * n >= 1);
}

/// If `p / q < a / d` and `a / d <= m / n`, then `p / q < m / n`.
proof fn lemma_below(p: int, q: int, a: int, d: int, m: int, n: int)
    by (nonlinear_arith)
    requires
        q > 0,
        d > 0,
        n > 0,
        p * d < a * q,
        a * n <= m * d,
    ensures
        p * n < m * q,
{
    assert(p * d * n < a * q * n);
    assert(a * n * q <= m * d * q);
    assert(d * (p * n) < d * (m * q));
}

/// If `m / n < b / d` and `b / d <= p / q`, then `m / n < p / q`.
proof fn lemma_above(p: int, q: int, b: int, d: int, m: int, n: int)
    by (nonlinear_arith)
    requires
        q > 0,
        d > 0,
        n > 0,
        m * d < n * b,
        b * q <= p * d,
    ensures
        m * q < p * n,
{
    assert(m * d * q < n * b * q);
    assert(b * q * n <= p * d * n);
    assert(d * (m * q) < d * (p * n));
}

/// The bits per item with its last place raised by one: an upper bound of
/// `-ln(0.01) / ln(2)^2`, of which `bits_per_item_numerator` is a lower one.
pub open spec fn bits_per_item_numerator_above() -> int {
    bits_per_item_numerator() + 1
}

/// The digits of the bits per item beyond the 54th place make no difference:
/// for every capacity below `exact_below()`, the capacity times the 54-place
/// value and the capacity times that value with its last place raised by
/// one round up to the same bit count, and so does the capacity times any
/// number between the two. `-ln(0.01) / ln(2)^2` is such a number, so
/// `bit_count_for` is the capacity times it, rounded up.
pub proof fn lemma_bit_count_is_exact(capacity: nat)
    requires
        capacity < exact_below(),
    ensures
        rounded_up(capacity, bits_per_item_numerator_above()) == bit_count_for(capacity),
        u64::MAX < exact_below(),
{
    let a = bits_per_item_numerator();
    let d = bits_per_item_denominator();
    let n = capacity as int;
    let m = rounded_up(capacity, a);
    // two neighbouring fractions that enclose the 54-place value and the
    // value above it
    let p1 = 529954058106568020598525135int;
    let q1 = 55289601507061584034878362int;
    let p2 = 5956303657388141945895598453int;
    let q2 = 621415480520428093598178511int;
    assert(p2 * q1 - p1 * q2 == 1);
    assert(p1 * d < a * q1);
    assert((a + 1) * q2 <= p2 * d);
    lemma_rounded_up(n * a, d);
    assert(m >= 0) by (nonlinear_arith)
        requires
            (m - 1) * d < n * a,
            n >= 0,
            a > 0,
            d > 0,
            n * a <= m * d,
    ;
    if m * d < n * (a + 1) {
        // then `m / n` would lie between the two neighbours, and `n` would
        // be `q1 + q2` at least, which is `exact_below()`
        lemma_below(p1, q1, a, d, m, n);
        lemma_above(p2, q2, a + 1, d, m, n);
        lemma_between_neighbours(p1, q1, p2, q2, m, n);
    }
    assert(n * a <= n * (a + 1)) by (nonlinear_arith)
        requires
            n >= 0,
    ;
    lemma_rounding_up(n * (a + 1), d, m);
}

/// A capacity of one item or more asks for one bit or more.
pub proof fn lemma_bit_count_is_positive(capacity: nat)
    requires
        capacity > 0,
    ensures
        bit_count_for(capacity) > 0,
{
    let a = bits_per_item_numerator();
    let d = bits_per_item_denominator();
    lemma_rounded_up(capacity * a, d);
    assert(capacity * a > 0) by (nonlinear_arith)
        requires
            capacity > 0,
            a > 0,
    ;
    assert(rounded_up(capacity, a) > 0) by (nonlinear_arith)
        requires
            capacity * a <= rounded_up(capacity, a) * d,
            capacity * a > 0,
            d > 0,
    ;
}

/// The sum of the three products of a capacity with the groups of places,
/// each written as a multiple of ten to the eighteenth and a rest, less
/// what the group below handed up.
proof fn lemma_groups_sum(n: int, c1: int, c2: int, c3: int, r1: int, r2: int, r3: int)
    requires
        n * 55406686141390584 == 1000000000000000000 * c3 + r3,
        n * 381994456019696924 == 1000000000000000000 * c2 + r2 - c3,
        n * 585058377367439072 == 1000000000000000000 * c1 + r1 - c2,
    ensures
        n * 9585058377367439072381994456019696924055406686141390584int == (n * 9 + c1)
            * 1000000000000000000000000000000000000000000000000000000int + (r1
            * 1000000000000000000 + r2) * 1000000000000000000 + r3,
{
}

/// The product of a capacity and the 54-place value, worked out group by
/// group: `t3`, `t2` and `t1` are the products with the three groups of
/// places, each with what the group below it hands up.
proof fn lemma_groups(n: int, t1: int, t2: int, t3: int)
    requires
        n >= 0,
        t3 == n * BITS_PER_ITEM_PLACES_3,
        t2 == n * BITS_PER_ITEM_PLACES_2 + t3 / (GROUP as int),
        t1 == n * BITS_PER_ITEM_PLACES_1 + t2 / (GROUP as int),
    ensures
        rounded_up(n as nat, bits_per_item_numerator()) == n * BITS_PER_ITEM_WHOLE + t1 / (
        GROUP as int) + if t1 % (GROUP as int) != 0 || t2 % (GROUP as int) != 0 || t3 % (
        GROUP as int) != 0 {
            1int
        } else {
            0int
        },
{
    let g = GROUP as int;
    let d = bits_per_item_denominator();
    let x = n * bits_per_item_numerator();
    let (c1, c2, c3) = (t1 / g, t2 / g, t3 / g);
    let (r1, r2, r3) = (t1 % g, t2 % g, t3 % g);
    let q = n * 9 + c1;
    let r = (r1 * g + r2) * g + r3;
    lemma_fundamental_div_mod(t1, g);
    lemma_fundamental_div_mod(t2, g);
    lemma_fundamental_div_mod(t3, g);
    lemma_mod_bound(t1, g);
    lemma_mod_bound(t2, g);
    lemma_mod_bound(t3, g);
    lemma_groups_sum(n, c1, c2, c3, r1, r2, r3);
    assert(x == q * d + r);
    assert(0 <= r < d);
    if r == 0 {
        lemma_fundamental_div_mod_converse(x + d - 1, d, q, d - 1);
    } else {
        lemma_fundamental_div_mod_converse(x + d - 1, d, q + 1, r - 1);
    }
}

/// The number of bits of a filter made for `capacity` items, or `None`
/// where they are more than can be addressed. The digits of the bits per
/// item beyond the 54th place would not change it.
pub fn bit_count(capacity: usize) -> (count: Option<usize>)
    ensures
        match count {
            Some(bits) => bits == bit_count_for(capacity as nat),
            None => bit_count_for(capacity as nat) > usize::MAX,
        },
        bit_count_for(capacity as nat) == rounded_up(
            capacity as nat,
            bits_per_item_numerator_above(),
        ),
{
    let n: u128 = capacity as u128;
    let t3: u128 = n * BITS_PER_ITEM_PLACES_3;
    let t2: u128 = n * BITS_PER_ITEM_PLACES_2 + t3 / GROUP;
    let t1: u128 = n * BITS_PER_ITEM_PLACES_1 + t2 / GROUP;
    let carried: u128 = n * BITS_PER_ITEM_WHOLE + t1 / GROUP;
    let bits: u128 = if t1 % GROUP != 0 || t2 % GROUP != 0 || t3 % GROUP != 0 {
        carried + 1
    } else {
        carried
    };
    proof {
        lemma_groups(n as int, t1 as int, t2 as int, t3 as int);
        lemma_bit_count_is_exact(capacity as nat);
    }
    if bits > usize::MAX as u128 {
        None
    } else {
        Some(bits as usize)
    }
}

} // verus!
