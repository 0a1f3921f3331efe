use vstd::prelude::*;

use crate::primitive::{
    add_bits, bits_of_seq, ceil_bits, div_bits, float_add, float_ceil, float_div, float_floor,
    float_is_nan, float_le, float_lt, float_mul, float_neg, float_of_usize, float_sqrt, float_sub,
    floor_bits, from_usize_bits, is_nan_bits, le_bits, ln_bits, lt_bits, mul_bits, neg_bits,
    powi_bits, sorted_bits, sorted_floats, sqrt_bits, sub_bits, float_powi, float_ln, as_usize_bits,
    float_as_usize, Float, BITS_HALF, BITS_ONE, BITS_ZERO,
};

verus! {

/// Whether any entry of the sequence is a NaN bit pattern.
pub open spec fn has_nan_bits(s: Seq<u64>) -> bool {
    exists|i: int| 0 <= i < s.len() && is_nan_bits(s[i])
}

/// Whether a size is a power of two.
pub open spec fn is_pow2(n: nat) -> bool
    decreases n,
{
    if n == 0 {
        false
    } else if n == 1 {
        true
    } else {
        n % 2 == 0 && is_pow2(n / 2)
    }
}

/// The doubling chain from `acc` up to the first power at least `x`.
pub open spec fn next_pow2_from(x: nat, acc: nat) -> nat
    decreases (if 1 <= acc < x {
        x - acc
    } else {
        0
    }),
{
    if acc < 1 {
        1
    } else if acc >= x {
        acc
    } else {
        next_pow2_from(x, acc * 2)
    }
}

/// The smallest power of two that is at least `x` (and at least 1).
pub open spec fn next_pow2_spec(x: nat) -> nat {
    next_pow2_from(x, 1)
}

pub proof fn lemma_next_pow2_ge(x: nat, acc: nat)
    requires
        acc >= 1,
    ensures
        next_pow2_from(x, acc) >= acc,
    decreases (if acc < x {
        x - acc
    } else {
        0
    }),
{
    if acc < x {
        lemma_next_pow2_ge(x, acc * 2);
    }
}

pub proof fn lemma_next_pow2_ge_x(x: nat, acc: nat)
    requires
        acc >= 1,
    ensures
        next_pow2_from(x, acc) >= x,
    decreases (if acc < x {
        x - acc
    } else {
        0
    }),
{
    if acc < x {
        lemma_next_pow2_ge_x(x, acc * 2);
    }
}

/// The smallest power of two that is at least `x` (and at least 1), or `None`
/// when that power does not fit in a `usize`.
pub fn nextpow2(x: usize) -> (r: Option<usize>)
    ensures
        r matches Some(y) ==> y == next_pow2_spec(x as nat) && y >= x && is_pow2(y as nat),
        r is None ==> next_pow2_spec(x as nat) > usize::MAX,
{
    let mut y: usize = 1;
    while y < x
        invariant
            y >= 1,
            is_pow2(y as nat),
            next_pow2_from(x as nat, y as nat) == next_pow2_spec(x as nat),
        decreases (if y < x { x - y } else { 0int }),
    {
        y = match y.checked_mul(2) {
            Some(v) => v,
            None => {
                proof {
                    lemma_next_pow2_ge(x as nat, (y * 2) as nat);
                }
                return None;
            },
        };
    }
    Some(y)
}

/// Whether any sample of the series is NaN.
pub fn any_nan(x: &[Float]) -> (r: bool)
    ensures
        r == has_nan_bits(bits_of_seq(x@)),
{
    let mut i: usize = 0;
    while i < x.len()
        invariant
            0 <= i <= x@.len(),
            forall|j: int| 0 <= j < i ==> !is_nan_bits(bits_of_seq(x@)[j]),
        decreases x@.len() - i,
    {
        if float_is_nan(x[i]) {
            assert(is_nan_bits(bits_of_seq(x@)[i as int]));
            return true;
        }
        i += 1;
    }
    false
}

/// The left-to-right sum of the doubles, starting from positive zero, in the
/// order the running sums accumulate it.
pub open spec fn sum_bits_seq(s: Seq<u64>) -> u64
    decreases s.len(),
{
    if s.len() == 0 {
        BITS_ZERO
    } else {
        add_bits(sum_bits_seq(s.drop_last()), s.last())
    }
}

/// The sample mean: the sum divided by the length.
pub open spec fn mean_bits(s: Seq<u64>) -> u64 {
    div_bits(sum_bits_seq(s), from_usize_bits(s.len() as usize))
}

/// The sample mean of the series; `None` exactly on an empty series.
pub fn mean(x: &[Float]) -> (r: Option<Float>)
    ensures
        r is Some <==> x@.len() > 0,
        r matches Some(m) ==> m.bits == mean_bits(bits_of_seq(x@)),
{
    if x.len() == 0 {
        return None;
    }
    let acc = sum_floats(x);
    Some(float_div(acc, float_of_usize(x.len())))
}

/// The running left-to-right sum of the samples.
pub fn sum_floats(x: &[Float]) -> (r: Float)
    ensures
        r.bits == sum_bits_seq(bits_of_seq(x@)),
{
    let ghost s = bits_of_seq(x@);
    let mut acc = Float { bits: BITS_ZERO };
    let mut i: usize = 0;
    while i < x.len()
        invariant
            0 <= i <= x@.len(),
            s == bits_of_seq(x@),
            acc.bits == sum_bits_seq(s.take(i as int)),
        decreases x@.len() - i,
    {
        acc = float_add(acc, x[i]);
        proof {
            assert(s.take(i + 1).drop_last() =~= s.take(i as int));
            assert(s.take(i + 1).last() == s[i as int]);
        }
        i += 1;
    }
    proof {
        assert(s.take(x@.len() as int) =~= s);
    }
    acc
}

/// The sample mean computed with a running sum and count, the streaming
/// variant; `None` exactly on an empty series.
pub fn mean_iter(values: &[Float]) -> (r: Option<Float>)
    ensures
        r is Some <==> values@.len() > 0,
        r matches Some(m) ==> m.bits == mean_bits(bits_of_seq(values@)),
{
    let acc = sum_floats(values);
    if values.len() == 0 {
        None
    } else {
        Some(float_div(acc, float_of_usize(values.len())))
    }
}

/// The left-to-right sum of the squared deviations from `m`.
pub open spec fn sq_dev_sum_bits(s: Seq<u64>, m: u64) -> u64
    decreases s.len(),
{
    if s.len() == 0 {
        BITS_ZERO
    } else {
        add_bits(sq_dev_sum_bits(s.drop_last(), m), powi_bits(sub_bits(s.last(), m), 2))
    }
}

/// The sample standard deviation: the square root of the squared deviations
/// from the mean divided by `len - 1`.
pub open spec fn stddev_bits(s: Seq<u64>) -> u64 {
    sqrt_bits(
        div_bits(
            sq_dev_sum_bits(s, mean_bits(s)),
            from_usize_bits((s.len() - 1) as usize),
        ),
    )
}

/// The sample standard deviation; `None` exactly when fewer than two samples.
pub fn stddev(values: &[Float]) -> (r: Option<Float>)
    ensures
        r is Some <==> values@.len() >= 2,
        r matches Some(d) ==> d.bits == stddev_bits(bits_of_seq(values@)),
{
    if values.len() < 2 {
        return None;
    }
    let ghost s = bits_of_seq(values@);
    let m = mean(values).unwrap();
    let mut acc = Float { bits: BITS_ZERO };
    let mut i: usize = 0;
    while i < values.len()
        invariant
            0 <= i <= values@.len(),
            s == bits_of_seq(values@),
            m.bits == mean_bits(s),
            acc.bits == sq_dev_sum_bits(s.take(i as int), m.bits),
        decreases values@.len() - i,
    {
        acc = float_add(acc, float_powi(float_sub(values[i], m), 2));
        proof {
            assert(s.take(i + 1).drop_last() =~= s.take(i as int));
            assert(s.take(i + 1).last() == s[i as int]);
        }
        i += 1;
    }
    proof {
        assert(s.take(values@.len() as int) =~= s);
    }
    Some(float_sqrt(float_div(acc, float_of_usize(values.len() - 1))))
}

/// The common step of a linear spacing of `n` points from `start` to `end`.
pub open spec fn linspace_step_bits(start: u64, end: u64, n: usize) -> u64 {
    div_bits(sub_bits(end, start), sub_bits(from_usize_bits(n), BITS_ONE))
}

/// The `i`-th point of a linear spacing of `n` points from `start` to `end`.
pub open spec fn linspace_at_bits(start: u64, end: u64, n: usize, i: int) -> u64 {
    add_bits(start, mul_bits(linspace_step_bits(start, end, n), from_usize_bits(i as usize)))
}

/// `num_groups` evenly spaced doubles from `start` to `end`.
pub fn linspace(start: Float, end: Float, num_groups: usize) -> (r: Vec<Float>)
    ensures
        r@.len() == num_groups,
        forall|i: int|
            0 <= i < num_groups ==> r@[i].bits == linspace_at_bits(
                start.bits,
                end.bits,
                num_groups,
                i,
            ),
{
    let step = float_div(
        float_sub(end, start),
        float_sub(float_of_usize(num_groups), Float { bits: BITS_ONE }),
    );
    let mut r: Vec<Float> = Vec::new();
    let mut i: usize = 0;
    while i < num_groups
        invariant
            0 <= i <= num_groups,
            step.bits == linspace_step_bits(start.bits, end.bits, num_groups),
            r@.len() == i,
            forall|j: int|
                0 <= j < i ==> r@[j].bits == linspace_at_bits(
                    start.bits,
                    end.bits,
                    num_groups,
                    j,
                ),
        decreases num_groups - i,
    {
        r.push(float_add(start, float_mul(step, float_of_usize(i))));
        i += 1;
    }
    r
}

/// The quantile estimate at probability `q` over the sorted copy of `s`:
/// clamped to the extremes near 0 and 1, linear interpolation between order
/// statistics otherwise.  Interpolation indices are clamped into range, as
/// the executable code keeps them.
pub open spec fn quantile_bits(s: Seq<u64>, q: u64) -> u64 {
    let t = sorted_bits(s);
    let qt = div_bits(BITS_HALF, from_usize_bits(s.len() as usize));
    if lt_bits(q, qt) {
        t[0]
    } else if lt_bits(sub_bits(BITS_ONE, qt), q) {
        t[s.len() - 1]
    } else {
        let qi = sub_bits(mul_bits(from_usize_bits(s.len() as usize), q), BITS_HALF);
        let l = clamp_index(as_usize_bits(floor_bits(qi)), s.len() as usize);
        let r = clamp_low(clamp_index(as_usize_bits(ceil_bits(qi)), s.len() as usize), l);
        add_bits(
            t[l as int],
            div_bits(
                mul_bits(sub_bits(qi, from_usize_bits(l)), sub_bits(t[r as int], t[l as int])),
                from_usize_bits((r - l) as usize),
            ),
        )
    }
}

/// An index clamped to stay below `len`.
pub open spec fn clamp_index(i: usize, len: usize) -> usize {
    if i >= len {
        (len - 1) as usize
    } else {
        i
    }
}

/// An index clamped to stay at least `lo`.
pub open spec fn clamp_low(i: usize, lo: usize) -> usize {
    if i < lo {
        lo
    } else {
        i
    }
}

/// The quantile estimate of the series at probability `quant`.
pub fn quantile(values: Vec<Float>, quant: Float) -> (r: Float)
    requires
        values@.len() >= 1,
        !has_nan_bits(bits_of_seq(values@)),
    ensures
        r.bits == quantile_bits(bits_of_seq(values@), quant.bits),
{
    let size = values.len();
    proof {
        assert forall|i: int| 0 <= i < values@.len() implies !is_nan_bits(values@[i].bits) by {
            assert(bits_of_seq(values@)[i] == values@[i].bits);
        }
    }
    let sorted = sorted_floats(&values);
    let qt = float_div(Float { bits: BITS_HALF }, float_of_usize(size));
    if float_lt(quant, qt) {
        return sorted[0];
    }
    if float_lt(float_sub(Float { bits: BITS_ONE }, qt), quant) {
        return sorted[size - 1];
    }
    let qi = float_sub(float_mul(float_of_usize(size), quant), Float { bits: BITS_HALF });
    let mut idx_left = float_as_usize(float_floor(qi));
    if idx_left >= size {
        idx_left = size - 1;
    }
    let mut idx_right = float_as_usize(float_ceil(qi));
    if idx_right >= size {
        idx_right = size - 1;
    }
    if idx_right < idx_left {
        idx_right = idx_left;
    }
    float_add(
        sorted[idx_left],
        float_div(
            float_mul(
                float_sub(qi, float_of_usize(idx_left)),
                float_sub(sorted[idx_right], sorted[idx_left]),
            ),
            float_of_usize(idx_right - idx_left),
        ),
    )
}

/// One of `k` ordered symbols, counted from zero.
#[derive(Debug, Clone, Copy, PartialEq, Eq, Structural)]
pub struct Alphabet(usize);

impl Alphabet {
    /// The zero-based rank of the symbol.
    pub closed spec fn value(self) -> usize {
        self.0
    }

    pub fn from_zero_indexed(value: usize) -> (r: Self)
        ensures
            r.value() == value,
    {
        Self(value)
    }

    pub fn from_one_indexed(value: usize) -> (r: Self)
        requires
            value > 0,
        ensures
            r.value() == value - 1,
    {
        Self(value - 1)
    }
}

/// Two symbols are the same exactly when their zero-based ranks agree.
pub proof fn lemma_alphabet_value(a: Alphabet, b: Alphabet)
    ensures
        (a == b) <==> (a.value() == b.value()),
{
}

/// The coarse-graining thresholds: `k + 1` quantiles at evenly spaced
/// probabilities, the lowest nudged down by one.
pub open spec fn threshold_bits(s: Seq<u64>, k: usize) -> Seq<u64> {
    Seq::new(
        (k + 1) as nat,
        |i: int|
            if i == 0 {
                sub_bits(
                    quantile_bits(s, linspace_at_bits(BITS_ZERO, BITS_ONE, (k + 1) as usize, 0)),
                    BITS_ONE,
                )
            } else {
                quantile_bits(s, linspace_at_bits(BITS_ZERO, BITS_ONE, (k + 1) as usize, i))
            },
    )
}

/// The symbol of value `v` against thresholds `th`, scanning from window `i`:
/// the first half-open interval `(th[j], th[j+1]]` that contains `v`, or the
/// last symbol when none does.
pub open spec fn symbol_from_bits(th: Seq<u64>, v: u64, i: int) -> usize
    decreases th.len() - i,
{
    if i < 0 || i + 1 >= th.len() {
        (th.len() - 2) as usize
    } else if lt_bits(th[i], v) && le_bits(v, th[i + 1]) {
        i as usize
    } else {
        symbol_from_bits(th, v, i + 1)
    }
}

proof fn lemma_symbol_skip(th: Seq<u64>, v: u64, i: int)
    requires
        0 <= i,
        i + 1 < th.len(),
        forall|j: int| 0 <= j < i ==> !(lt_bits(th[j], v) && le_bits(v, th[j + 1])),
    ensures
        symbol_from_bits(th, v, 0) == symbol_from_bits(th, v, i),
    decreases i,
{
    if i > 0 {
        lemma_symbol_skip(th, v, i - 1);
    }
}

/// Maps every sample to one of `num_groups` symbols by equal-probability
/// (quantile) binning.  Every sample receives exactly one symbol, always
/// below `num_groups`.
pub fn sb_coarsegrain(values: &[Float], num_groups: usize) -> (r: Vec<Alphabet>)
    requires
        values@.len() >= 1,
        !has_nan_bits(bits_of_seq(values@)),
        1 <= num_groups < usize::MAX,
    ensures
        r@.len() == values@.len(),
        forall|j: int|
            0 <= j < r@.len() ==> r@[j].value() == symbol_from_bits(
                threshold_bits(bits_of_seq(values@), num_groups),
                values@[j].bits,
                0,
            ),
        forall|j: int| 0 <= j < r@.len() ==> r@[j].value() < num_groups,
{
    let ghost s = bits_of_seq(values@);
    let groups_edge = num_groups + 1;
    let zero = Float { bits: BITS_ZERO };
    let one = Float { bits: BITS_ONE };
    let lin = linspace(zero, one, groups_edge);
    proof {
        assert forall|j: int|
            0 <= j < lin@.len() implies lin@[j].bits == linspace_at_bits(
            BITS_ZERO,
            BITS_ONE,
            groups_edge,
            j,
        ) by {
            assert(lin@[j].bits == linspace_at_bits(zero.bits, one.bits, groups_edge, j));
        }
    }
    let mut th: Vec<Float> = Vec::new();
    let mut i: usize = 0;
    while i < groups_edge
        invariant
            0 <= i <= groups_edge,
            groups_edge == num_groups + 1,
            s == bits_of_seq(values@),
            values@.len() >= 1,
            !has_nan_bits(s),
            lin@.len() == groups_edge,
            forall|j: int|
                0 <= j < lin@.len() ==> lin@[j].bits == linspace_at_bits(
                    BITS_ZERO,
                    BITS_ONE,
                    groups_edge,
                    j,
                ),
            th@.len() == i,
            forall|j: int| 0 <= j < i ==> th@[j].bits == threshold_bits(s, num_groups)[j],
        decreases groups_edge - i,
    {
        let copy = vstd::slice::slice_to_vec(values);
        proof {
            assert(copy@ == values@);
        }
        let q = quantile(copy, lin[i]);
        if i == 0 {
            th.push(float_sub(q, Float { bits: BITS_ONE }));
        } else {
            th.push(q);
        }
        i += 1;
    }
    let ghost ths = threshold_bits(s, num_groups);
    proof {
        assert(bits_of_seq(th@) =~= ths);
    }
    let mut r: Vec<Alphabet> = Vec::new();
    let mut j: usize = 0;
    while j < values.len()
        invariant
            0 <= j <= values@.len(),
            s == bits_of_seq(values@),
            th@.len() == num_groups + 1,
            num_groups >= 1,
            bits_of_seq(th@) =~= ths,
            ths == threshold_bits(s, num_groups),
            r@.len() == j,
            forall|w: int|
                0 <= w < j ==> r@[w].value() == symbol_from_bits(ths, values@[w].bits, 0),
            forall|w: int| 0 <= w < j ==> r@[w].value() < num_groups,
        decreases values@.len() - j,
    {
        let v = values[j];
        let mut i2: usize = 0;
        let mut found = false;
        let mut sym: usize = num_groups - 1;
        while i2 < num_groups && !found
            invariant
                0 <= i2 <= num_groups,
                num_groups >= 1,
                0 <= j < values@.len(),
                th@.len() == num_groups + 1,
                bits_of_seq(th@) =~= ths,
                v == values@[j as int],
                !found ==> sym == num_groups - 1,
                !found ==> forall|w: int|
                    0 <= w < i2 ==> !(lt_bits(ths[w], v.bits) && le_bits(v.bits, ths[w + 1])),
                found ==> sym == symbol_from_bits(ths, v.bits, 0) && sym < num_groups,
            decreases num_groups - i2, (if found { 0int } else { 1int }),
    {
            proof {
                assert(th@[i2 as int].bits == ths[i2 as int]);
                assert(th@[i2 + 1].bits == ths[i2 + 1]);
            }
            if float_lt(th[i2], v) && float_le(v, th[i2 + 1]) {
                proof {
                    lemma_symbol_skip(ths, v.bits, i2 as int);
                }
                sym = i2;
                found = true;
            } else {
                i2 += 1;
            }
        }
        if !found {
            proof {
                lemma_symbol_skip(ths, v.bits, (num_groups - 1) as int);
                assert(symbol_from_bits(ths, v.bits, num_groups as int) == (num_groups
                    - 1) as usize);
                assert(symbol_from_bits(ths, v.bits, (num_groups - 1) as int) == (num_groups
                    - 1) as usize);
            }
        }
        let a = Alphabet::from_zero_indexed(sym);
        r.push(a);
        proof {
            assert(r@[j as int] == a);
        }
        j += 1;
    }
    r
}

/// The left-to-right sum of `p * ln(p)` over the entries that exceed zero.
pub open spec fn entropy_sum_bits(s: Seq<u64>) -> u64
    decreases s.len(),
{
    if s.len() == 0 {
        BITS_ZERO
    } else {
        let prev = entropy_sum_bits(s.drop_last());
        if lt_bits(BITS_ZERO, s.last()) {
            add_bits(prev, mul_bits(s.last(), ln_bits(s.last())))
        } else {
            prev
        }
    }
}

/// The Shannon entropy of the values read as probabilities: the negated sum
/// of `p * ln(p)` over positive entries, with `0 * ln 0` counted as zero.
pub fn entropy(values: &[Float]) -> (r: Float)
    ensures
        r.bits == neg_bits(entropy_sum_bits(bits_of_seq(values@))),
{
    let ghost s = bits_of_seq(values@);
    let mut acc = Float { bits: BITS_ZERO };
    let mut i: usize = 0;
    while i < values.len()
        invariant
            0 <= i <= values@.len(),
            s == bits_of_seq(values@),
            acc.bits == entropy_sum_bits(s.take(i as int)),
        decreases values@.len() - i,
    {
        let x = values[i];
        if float_lt(Float { bits: BITS_ZERO }, x) {
            acc = float_add(acc, float_mul(x, float_ln(x)));
        }
        proof {
            assert(s.take(i + 1).drop_last() =~= s.take(i as int));
            assert(s.take(i + 1).last() == s[i as int]);
        }
        i += 1;
    }
    proof {
        assert(s.take(values@.len() as int) =~= s);
    }
    float_neg(acc)
}

} // verus!
