use vstd::prelude::*;

use crate::primitive::{
    cexp_im_bits, cexp_re_bits, complex_add, complex_add_spec, complex_exp, complex_mul,
    complex_mul_spec, complex_sub, complex_sub_spec, div_bits, float_div, float_mul, float_neg,
    float_of_usize, from_usize_bits, mul_bits, neg_bits, Complex, Float, BITS_PI, BITS_ZERO,
};
use crate::utility::is_pow2;

verus! {

/// The angle of the `k`-th twiddle factor for transform size `size`:
/// `-pi * (k / size)`.
pub open spec fn twiddle_angle_bits(k: int, size: usize) -> u64 {
    mul_bits(neg_bits(BITS_PI), div_bits(from_usize_bits(k as usize), from_usize_bits(size)))
}

/// The twiddle table as a sequence of the named complex exponentials.
pub open spec fn twiddles_seq(size: usize) -> Seq<Complex> {
    Seq::new(
        size as nat,
        |k: int|
            Complex {
                re: Float { bits: cexp_re_bits(BITS_ZERO, twiddle_angle_bits(k, size)) },
                im: Float { bits: cexp_im_bits(BITS_ZERO, twiddle_angle_bits(k, size)) },
            },
    )
}

/// The twiddle table: `exp(-i*pi*k/size)` for `k` in `[0, size)`.
pub fn twiddles(size: usize) -> (r: Vec<Complex>)
    ensures
        r@.len() == size,
        r@ == twiddles_seq(size),
        forall|k: int|
            0 <= k < size ==> r@[k].re.bits == cexp_re_bits(BITS_ZERO, twiddle_angle_bits(k, size))
                && r@[k].im.bits == cexp_im_bits(BITS_ZERO, twiddle_angle_bits(k, size)),
{
    let mut r: Vec<Complex> = Vec::new();
    let mut k: usize = 0;
    while k < size
        invariant
            0 <= k <= size,
            r@.len() == k,
            forall|j: int|
                0 <= j < k ==> r@[j].re.bits == cexp_re_bits(
                    BITS_ZERO,
                    twiddle_angle_bits(j, size),
                ) && r@[j].im.bits == cexp_im_bits(BITS_ZERO, twiddle_angle_bits(j, size)),
        decreases size - k,
    {
        let angle = float_mul(
            float_neg(Float { bits: BITS_PI }),
            float_div(float_of_usize(k), float_of_usize(size)),
        );
        r.push(complex_exp(Complex { re: Float { bits: BITS_ZERO }, im: angle }));
        k += 1;
    }
    proof {
        assert(r@ =~= twiddles_seq(size));
    }
    r
}

proof fn lemma_pow2_divides(a: nat, b: nat)
    requires
        is_pow2(a),
        is_pow2(b),
        a <= b,
    ensures
        b % a == 0,
    decreases a,
{
    if a == 1 {
        assert(b % 1 == 0) by (nonlinear_arith);
    } else {
        assert(a % 2 == 0 && is_pow2(a / 2));
        assert(b % 2 == 0 && is_pow2(b / 2)) by {
            assert(b > 1);
        }
        lemma_pow2_divides(a / 2, b / 2);
        let a2 = a as int / 2;
        let b2 = b as int / 2;
        let k = b2 / a2;
        vstd::arithmetic::div_mod::lemma_fundamental_div_mod(b2, a2);
        vstd::arithmetic::div_mod::lemma_fundamental_div_mod(b as int, 2);
        vstd::arithmetic::div_mod::lemma_fundamental_div_mod(a as int, 2);
        assert(b2 == a2 * k);
        assert(b as int == 2 * b2 && a as int == 2 * a2);
        assert(b as int == k * (a as int)) by (nonlinear_arith)
            requires
                b as int == 2 * b2,
                a as int == 2 * a2,
                b2 == a2 * k,
        ;
        vstd::arithmetic::div_mod::lemma_mod_multiples_basic(k, a as int);
    }
}

proof fn lemma_pow2_double(a: nat, b: nat)
    requires
        is_pow2(a),
        is_pow2(b),
        a < b,
    ensures
        2 * a <= b,
{
    lemma_pow2_divides(a, b);
    let k = b / a;
    assert(2 * a <= b) by (nonlinear_arith)
        requires
            b % a == 0,
            a < b,
            a >= 1,
            k == b / a,
    {
        vstd::arithmetic::div_mod::lemma_fundamental_div_mod(b as int, a as int);
        assert(b == a * k);
        assert(k >= 2);
    }
}

proof fn lemma_multiple_bound(i: int, m: int, size: int)
    requires
        m >= 1,
        i >= 0,
        size >= 0,
        i % m == 0,
        size % m == 0,
        i < size,
    ensures
        i + m <= size,
{
    let q = i / m;
    let p = size / m;
    vstd::arithmetic::div_mod::lemma_fundamental_div_mod(i, m);
    vstd::arithmetic::div_mod::lemma_fundamental_div_mod(size, m);
    assert(i + m <= size) by (nonlinear_arith)
        requires
            i == m * q,
            size == m * p,
            i < size,
            m >= 1,
    {
        assert(q < p);
        assert((q + 1) * m <= p * m);
    }
}

/// The first `k` butterfly writes of one combine pass at stride `step`: the
/// `k`-th pair is read from the scratch buffer `w` at `off + i` and
/// `off + i + step` for `i = k * 2 * step`, and the sum and difference of the
/// twiddled pair are written into the first and second half of the span.
pub open spec fn butterfly_upto(
    v: Seq<Complex>,
    w: Seq<Complex>,
    off: int,
    size: int,
    step: int,
    tw: Seq<Complex>,
    k: int,
) -> Seq<Complex>
    decreases k,
{
    if k <= 0 {
        v
    } else {
        let prev = butterfly_upto(v, w, off, size, step, tw, k - 1);
        let i = (k - 1) * (2 * step);
        let temp = complex_mul_spec(tw[i], w[off + i + step]);
        prev.update(off + i / 2, complex_add_spec(w[off + i], temp)).update(
            off + i / 2 + size / 2,
            complex_sub_spec(w[off + i], temp),
        )
    }
}

/// The two ping-pong buffers after one level of the decimation-in-time
/// recursion: while the stride is short of the remaining span, the two
/// interleaved halves are transformed with the stride doubled and the buffers
/// swapped, and a combine pass writes all `size / (2 * step)` butterflies
/// into the result buffer; once the stride reaches the span, both buffers are
/// left exactly as they came.
pub open spec fn fft_rec_spec(
    values: Seq<Complex>,
    working: Seq<Complex>,
    off: int,
    size: int,
    step: int,
    tw: Seq<Complex>,
) -> (Seq<Complex>, Seq<Complex>)
    decreases (if step < size - off {
        size - off - step
    } else {
        0int
    }),
{
    if 0 < step < size - off {
        let p1 = fft_rec_spec(working, values, off, size, 2 * step, tw);
        let p2 = fft_rec_spec(p1.0, p1.1, off + step, size, 2 * step, tw);
        (butterfly_upto(p2.1, p2.0, off, size, step, tw, size / (2 * step)), p2.0)
    } else {
        (values, working)
    }
}

/// The whole engine: the recursion run on the input and a fresh scratch copy
/// of it, keeping the result buffer.
pub open spec fn fft_spec(values: Seq<Complex>, step: int, tw: Seq<Complex>) -> Seq<Complex> {
    fft_rec_spec(values, values, 0, values.len() as int, step, tw).0
}

/// One level of the radix-2 decimation-in-time recursion.  `values` and
/// `working` are the two ping-pong buffers, both of the full transform length
/// `size`; `off` marks the interleaved half being worked on.  The buffers end
/// exactly as `fft_rec_spec` says: transformed below the stop condition,
/// untouched at it.
fn fft_rec(
    values: &mut Vec<Complex>,
    working: &mut Vec<Complex>,
    off: usize,
    size: usize,
    step: usize,
    tw: &Vec<Complex>,
)
    requires
        old(values)@.len() == size,
        old(working)@.len() == size,
        tw@.len() >= size,
        step >= 1,
        off < step,
        off <= size,
        is_pow2(step as nat),
        size == 0 || is_pow2(size as nat),
    ensures
        final(values)@.len() == size,
        final(working)@.len() == size,
        final(values)@ == fft_rec_spec(
            old(values)@,
            old(working)@,
            off as int,
            size as int,
            step as int,
            tw@,
        ).0,
        final(working)@ == fft_rec_spec(
            old(values)@,
            old(working)@,
            off as int,
            size as int,
            step as int,
            tw@,
        ).1,
        step >= size - off ==> final(values)@ == old(values)@ && final(working)@ == old(working)@,
    decreases (if step < size - off {
        size - off - step
    } else {
        0int
    }),
{
    let ghost v0 = values@;
    let ghost w0 = working@;
    if step < size - off {
        proof {
            assert(is_pow2(size as nat));
            lemma_pow2_double(step as nat, size as nat);
            assert(is_pow2((2 * step) as nat)) by {
                assert(((2 * step) as nat) % 2 == 0 && ((2 * step) as nat) / 2 == step as nat);
            }
            lemma_pow2_divides((2 * step) as nat, size as nat);
        }
        let step2 = step * 2;
        fft_rec(working, values, off, size, step2, tw);
        let ghost p1 = fft_rec_spec(w0, v0, off as int, size as int, step2 as int, tw@);
        proof {
            assert(working@ == p1.0 && values@ == p1.1);
        }
        fft_rec(working, values, off + step, size, step2, tw);
        let ghost p2 = fft_rec_spec(p1.0, p1.1, off + step, size as int, step2 as int, tw@);
        proof {
            assert(working@ == p2.0 && values@ == p2.1);
        }
        let ghost v2 = values@;
        let ghost w2 = working@;

        let mut i: usize = 0;
        let ghost mut k: int = 0;
        while i < size
            invariant
                values@.len() == size,
                working@.len() == size,
                tw@.len() >= size,
                step >= 1,
                off < step,
                step2 == 2 * step,
                step2 <= size,
                step < size - off,
                size as nat % step2 as nat == 0,
                0 <= i <= size,
                i % step2 == 0,
                k >= 0,
                i as int == k * (2 * step as int),
                working@ == w2,
                values@ == butterfly_upto(
                    v2,
                    w2,
                    off as int,
                    size as int,
                    step as int,
                    tw@,
                    k,
                ),
            decreases size - i,
        {
            proof {
                lemma_multiple_bound(i as int, step2 as int, size as int);
                assert(i + step2 <= size);
                let ghost ii = i as int;
                let ghost st = step as int;
                let ghost sz = size as int;
                assert(ii % 2 == 0 && (ii + sz) % 2 == 0) by (nonlinear_arith)
                    requires
                        ii % (2 * st) == 0,
                        sz % (2 * st) == 0,
                        st >= 1,
                        ii >= 0,
                        sz >= 0,
                {
                    let q = ii / (2 * st);
                    vstd::arithmetic::div_mod::lemma_fundamental_div_mod(ii, 2 * st);
                    let p = sz / (2 * st);
                    vstd::arithmetic::div_mod::lemma_fundamental_div_mod(sz, 2 * st);
                    assert(ii == 2 * (st * q));
                    assert(sz == 2 * (st * p));
                }
                let ghost of = off as int;
                assert(sz % 2 == 0 && of + ii / 2 + sz / 2 < sz && ii / 2 + sz / 2 == (ii + sz)
                    / 2 && of + ii + st < sz) by (nonlinear_arith)
                    requires
                        ii + 2 * st <= sz,
                        ii % 2 == 0,
                        (ii + sz) % 2 == 0,
                        of < st,
                        st >= 1,
                        ii >= 0,
                        sz >= 0,
                        of >= 0,
                {
                    vstd::arithmetic::div_mod::lemma_fundamental_div_mod(ii, 2);
                    vstd::arithmetic::div_mod::lemma_fundamental_div_mod(ii + sz, 2);
                    vstd::arithmetic::div_mod::lemma_fundamental_div_mod(sz, 2);
                }
                assert(off + i / 2 + size / 2 < size && off + i + step < size);
            }
            let temp = complex_mul(tw[i], working[off + i + step]);
            let a = complex_add(working[off + i], temp);
            let b = complex_sub(working[off + i], temp);
            values[off + i / 2] = a;
            values[off + i / 2 + size / 2] = b;
            proof {
                assert(((k + 1) - 1) * (2 * step as int) == i as int);
                assert(values@ == butterfly_upto(
                    v2,
                    w2,
                    off as int,
                    size as int,
                    step as int,
                    tw@,
                    k + 1,
                ));
                assert((k + 1) * (2 * step as int) == i as int + step2 as int)
                    by (nonlinear_arith)
                    requires
                        i as int == k * (2 * step as int),
                        step2 == 2 * step,
                ;
                k = k + 1;
                vstd::arithmetic::div_mod::lemma_mod_multiples_basic(
                    i as int / step2 as int + 1,
                    step2 as int,
                );
                vstd::arithmetic::div_mod::lemma_fundamental_div_mod(i as int, step2 as int);
                assert((i as int / step2 as int + 1) * step2 as int == i + step2)
                    by (nonlinear_arith)
                    requires
                        i as int == step2 as int * (i as int / step2 as int),
                ;
            }
            i += step2;
        }
        proof {
            vstd::arithmetic::div_mod::lemma_fundamental_div_mod_converse(
                size as int,
                2 * step as int,
                k,
                0,
            );
            assert(k == size as int / (2 * step as int));
            assert(values@ == fft_rec_spec(
                v0,
                w0,
                off as int,
                size as int,
                step as int,
                tw@,
            ).0);
            assert(working@ == fft_rec_spec(
                v0,
                w0,
                off as int,
                size as int,
                step as int,
                tw@,
            ).1);
        }
    }
}

/// Transforms the complex sequence in place, radix-2 decimation in time,
/// starting at stride `step` with the twiddle table `tw`.  The length must be
/// a power of two (or zero) and the table at least as long.  The result is
/// exactly the transcript `fft_spec` of the recursion; in particular, once
/// `step` reaches the length the sequence is left exactly as it came.
pub fn fft(values: &mut Vec<Complex>, step: usize, tw: &Vec<Complex>)
    requires
        step >= 1,
        is_pow2(step as nat),
        old(values)@.len() == 0 || is_pow2(old(values)@.len() as nat),
        tw@.len() >= old(values)@.len(),
    ensures
        final(values)@.len() == old(values)@.len(),
        final(values)@ == fft_spec(old(values)@, step as int, tw@),
        step >= old(values)@.len() ==> final(values)@ == old(values)@,
{
    let mut working: Vec<Complex> = Vec::new();
    let mut i: usize = 0;
    while i < values.len()
        invariant
            0 <= i <= values@.len(),
            values@ == old(values)@,
            working@.len() == i,
            working@ =~= old(values)@.take(i as int),
        decreases values@.len() - i,
    {
        working.push(values[i]);
        i += 1;
    }
    proof {
        assert(working@ =~= old(values)@);
    }
    let size = values.len();
    fft_rec(values, &mut working, 0, size, step, tw);
}

} // verus!
