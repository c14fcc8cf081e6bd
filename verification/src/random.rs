use rand::Rng;
use vstd::prelude::*;

verus! {

/// Draws an integer from the thread-local generator of `rand`
/// (`rand::thread_rng().gen_range(lo..=hi)`).
///
/// Trusted: `gen_range` panics on an empty range, so `lo <= hi` is
/// required; for an inclusive integer range `rand` returns `lo` plus an
/// offset below `hi - lo + 1`, so the result lies in `lo..=hi`. Which value
/// comes back depends on the generator's state and is not stated.
#[verifier::external_body]
fn thread_rng_int_inclusive(lo: i32, hi: i32) -> (r: i32)
    requires
        lo <= hi,
    ensures
        lo <= r <= hi,
{
    rand::thread_rng().gen_range(lo..=hi)
}

/// Lowest integer that truncation toward zero gives of a real number
/// strictly above the integer `lo`.
pub open spec fn trunc_above(lo: int) -> int {
    if lo < 0 { lo + 1 } else { lo }
}

/// Highest integer that truncation toward zero gives of a real number
/// strictly below the integer `hi`.
pub open spec fn trunc_below(hi: int) -> int {
    if hi > 0 { hi - 1 } else { hi }
}

/// The integer that `random_int_range(min, max)` gives for the raw
/// uniform draw `k` (see [`int_from_draw`]).
pub open spec fn spec_int_from_draw(min: int, max: int, k: int) -> int {
    if min <= max {
        if k < 0 { k + 1 } else { k }
    } else if max + 1 < min {
        if k > 0 { k - 1 } else { k }
    } else {
        min
    }
}

/// Lowest value of the raw uniform draw that `random_int_range(min, max)`
/// makes.
pub open spec fn draw_low(min: int, max: int) -> int {
    if min <= max { min } else if max + 1 < min { max + 2 } else { min }
}

/// Highest value of the raw uniform draw that `random_int_range(min, max)`
/// makes.
pub open spec fn draw_high(min: int, max: int) -> int {
    if min <= max { max } else { min }
}

/// Turns a raw uniform integer draw `k` into the value of
/// [`random_int_range`]. With `min <= max`, `k` is drawn from `min..=max`
/// and is the real draw rounded down; truncating toward zero instead adds
/// one to a negative `k`. With `max + 1 < min`, `k` is drawn from
/// `max + 2..=min` and is the real draw rounded up; truncating toward zero
/// instead takes one from a positive `k`. With `max + 1 == min` the real
/// draw is `min` itself.
pub fn int_from_draw(min: i32, max: i32, k: i32) -> (r: i32)
    requires
        max < i32::MAX,
    ensures
        r == spec_int_from_draw(min as int, max as int, k as int),
{
    if min <= max {
        if k < 0 {
            k + 1
        } else {
            k
        }
    } else if max + 1 < min {
        if k > 0 {
            k - 1
        } else {
            k
        }
    } else {
        min
    }
}

/// Every value in the range that `random_int_range(min, max)` promises
/// comes from some raw draw: the mapping of [`int_from_draw`] leaves no
/// value of that range out.
pub proof fn lemma_every_value_has_a_draw(min: int, max: int, v: int)
    requires
        min <= max ==> trunc_above(min) <= v <= trunc_below(max + 1),
        max + 1 < min ==> trunc_above(max + 1) <= v <= trunc_below(min),
        max + 1 == min ==> v == min,
    ensures
        exists|k: int|
            draw_low(min, max) <= k <= draw_high(min, max) && #[trigger] spec_int_from_draw(
                min,
                max,
                k,
            ) == v,
{
    if min <= max {
        if v > 0 {
            assert(spec_int_from_draw(min, max, v) == v);
        } else if v == 0 && min >= 0 {
            assert(spec_int_from_draw(min, max, 0) == v);
        } else {
            assert(spec_int_from_draw(min, max, v - 1) == v);
        }
    } else if max + 1 < min {
        if v < 0 {
            assert(spec_int_from_draw(min, max, v) == v);
        } else if v == 0 && min <= 0 {
            assert(spec_int_from_draw(min, max, 0) == v);
        } else {
            assert(spec_int_from_draw(min, max, v + 1) == v);
        }
    } else {
        assert(spec_int_from_draw(min, max, min) == v);
    }
}

/// A random integer: a real number drawn uniformly between `min` and
/// `max + 1`, truncated toward zero.
///
/// For `0 <= min <= max` this is a uniform draw from `min..=max`. A range
/// below zero is shifted up by one (for `(-5, -1)` the values are `-4..=0`),
/// and with `max < min` the real number is drawn between `max + 1` and
/// `min`. The real number is drawn from the open interval: its two end
/// points, which a draw from the closed unit interval reaches with
/// probability about 2^-53 each (giving `max + 1` for `min = 0`), are
/// deliberately left out, as they would take the permutation and hierarchy
/// builders out of range.
pub fn random_int_range(min: i32, max: i32) -> (r: i32)
    requires
        max < i32::MAX,
    ensures
        exists|k: int|
            draw_low(min as int, max as int) <= k <= draw_high(min as int, max as int) && r
                == #[trigger] spec_int_from_draw(min as int, max as int, k),
        min <= max ==> trunc_above(min as int) <= r <= trunc_below(max + 1),
        max + 1 < min ==> trunc_above(max + 1) <= r <= trunc_below(min as int),
        max + 1 == min ==> r == min,
{
    let k = if min <= max {
        thread_rng_int_inclusive(min, max)
    } else if max + 1 < min {
        thread_rng_int_inclusive(max + 2, min)
    } else {
        min
    };
    let r = int_from_draw(min, max, k);
    assert(r == spec_int_from_draw(min as int, max as int, k as int));
    r
}

} // verus!
