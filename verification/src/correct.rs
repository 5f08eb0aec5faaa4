//! Sensor-correction engine.
//!
//! Pixel samples are exact rationals: a `Pixel` holds a numerator and a
//! positive denominator, and every stage computes the mathematical value of
//! the correction formula without rounding.  Normalization turns 16-bit
//! little-endian samples into `sample / 65535`; dual-black subtraction and
//! white flat-fielding are pointwise rational arithmetic; only the final
//! rescale to 16-bit output rounds, once, to the nearest integer.

use vstd::prelude::*;
use vstd::arithmetic::div_mod::{
    lemma_div_is_ordered, lemma_div_multiples_vanish, lemma_fundamental_div_mod,
    lemma_fundamental_div_mod_converse,
};
use vstd::arithmetic::mul::{lemma_mul_inequality, lemma_mul_strictly_positive};
use crate::IaError;
use crate::pwad::{read_u16_at, spec_le_u16_at};

verus! {

/// Largest numerator magnitude the correction engine works with.
pub const RAT_NUM_LIMIT: i64 = 0x10_0000_0000;

/// Largest denominator the correction engine works with.
pub const RAT_DEN_LIMIT: i64 = 0x10_0000_0000;

/// One sample as an exact rational `num / den` with `den >= 1`.
#[derive(Debug, Clone, Copy, PartialEq, Eq, Structural)]
pub struct Pixel {
    pub num: i64,
    pub den: i64,
}

/// The two rationals are equal.
pub open spec fn rat_eq(a: Pixel, b: Pixel) -> bool {
    a.num * b.den == b.num * a.den
}

/// `a <= b` as rationals (meaningful when both denominators are positive).
pub open spec fn rat_le(a: Pixel, b: Pixel) -> bool {
    a.num * b.den <= b.num * a.den
}

/// `a < b` as rationals (meaningful when both denominators are positive).
pub open spec fn rat_lt(a: Pixel, b: Pixel) -> bool {
    a.num * b.den < b.num * a.den
}

/// The pixel's denominator is positive and both parts are within the
/// engine's working range.
pub open spec fn pixel_ok(p: Pixel) -> bool {
    &&& 1 <= p.den <= RAT_DEN_LIMIT
    &&& -RAT_NUM_LIMIT <= p.num <= RAT_NUM_LIMIT
}

/// Every pixel of the buffer is within the working range.
pub open spec fn buf_ok(s: Seq<Pixel>) -> bool {
    forall|i: int| 0 <= i < s.len() ==> pixel_ok(#[trigger] s[i])
}

/// A tighter range under which two pixel parts can be multiplied without
/// leaving `i64`; white flat-fielding forms such products.
pub open spec fn pixel_mid(p: Pixel) -> bool {
    &&& 1 <= p.den <= 0x4000_0000
    &&& -0x4000_0000 <= p.num <= 0x4000_0000
}

/// Every pixel of the buffer is within the multiplicable range.
pub open spec fn buf_mid(s: Seq<Pixel>) -> bool {
    forall|i: int| 0 <= i < s.len() ==> pixel_mid(#[trigger] s[i])
}

/// `a * b` for two in-range `i64` factors, exactly, in an `i128`.
fn mul_pix(a: i64, b: i64) -> (r: i128)
    requires
        -0x10_0000_0000 <= a <= 0x10_0000_0000,
        -0x10_0000_0000 <= b <= 0x10_0000_0000,
    ensures
        r == a * b,
        -0x100_0000_0000_0000_0000 <= r <= 0x100_0000_0000_0000_0000,
{
    proof {
        assert((a as int) * (b as int) <= 0x100_0000_0000_0000_0000
            && -0x100_0000_0000_0000_0000 <= (a as int) * (b as int)) by (nonlinear_arith)
            requires
                -0x10_0000_0000 <= a <= 0x10_0000_0000,
                -0x10_0000_0000 <= b <= 0x10_0000_0000,
        ;
    }
    (a as i128) * (b as i128)
}

/// `a < b` as rationals, decided exactly by cross-multiplication.
fn rat_lt_exec(a: Pixel, b: Pixel) -> (r: bool)
    requires
        pixel_ok(a),
        pixel_ok(b),
    ensures
        r == rat_lt(a, b),
{
    let x = mul_pix(a.num, b.den);
    let y = mul_pix(b.num, a.den);
    x < y
}

/// Converts interleaved 16-bit little-endian samples to normalized
/// rationals `sample / 65535`.  Fails with `SizeMismatch` unless the byte
/// count is exactly `width * height * 2`.
pub fn normalize(bytes: &Vec<u8>, width: u32, height: u32) -> (r: Result<Vec<Pixel>, IaError>)
    ensures
        r is Ok <==> bytes@.len() == 2 * (width as int) * (height as int),
        r is Err ==> r.unwrap_err() == IaError::SizeMismatch,
        r is Ok ==> {
            let b = r.unwrap()@;
            &&& b.len() == (width as int) * (height as int)
            &&& forall|i: int|
                0 <= i < b.len() ==> #[trigger] b[i] == (Pixel {
                    num: spec_le_u16_at(bytes@, 2 * i) as i64,
                    den: 65535i64,
                })
            &&& buf_ok(b)
        },
{
    proof {
        assert((width as int) * (height as int) <= 0xFFFF_FFFF * 0xFFFF_FFFF && 0 <= (width as int)
            * (height as int)) by (nonlinear_arith)
            requires
                width <= 0xFFFF_FFFFu32,
                height <= 0xFFFF_FFFFu32,
        ;
    }
    let wh: u64 = (width as u64) * (height as u64);
    let len: usize = bytes.len();
    if (len as u64) % 2 != 0 || (len as u64) / 2 != wh {
        proof {
            if bytes@.len() == 2 * (width as int) * (height as int) {
                assert(2 * (width as int) * (height as int) == 2 * ((width as int) * (
                height as int))) by (nonlinear_arith);
                assert((len as int) % 2 == 0 && (len as int) / 2 == wh as int);
            }
        }
        return Err(IaError::SizeMismatch);
    }
    proof {
        assert((len as int) == 2 * ((len as int) / 2));
        assert(2 * (width as int) * (height as int) == 2 * ((width as int) * (height as int)))
            by (nonlinear_arith);
    }
    let npix: usize = len / 2;
    let mut out: Vec<Pixel> = Vec::new();
    let mut i: usize = 0;
    while i < npix
        invariant
            npix == (width as int) * (height as int),
            len == bytes@.len(),
            bytes@.len() == 2 * npix,
            i <= npix,
            out@.len() == i,
            forall|j: int|
                0 <= j < i ==> #[trigger] out@[j] == (Pixel {
                    num: spec_le_u16_at(bytes@, 2 * j) as i64,
                    den: 65535i64,
                }),
        decreases npix - i,
    {
        let sample = read_u16_at(bytes, 2 * i);
        out.push(Pixel { num: sample as i64, den: 65535 });
        i += 1;
    }
    proof {
        assert forall|j: int| 0 <= j < out@.len() implies pixel_ok(#[trigger] out@[j]) by {
            assert(out@[j].den == 65535);
        }
    }
    Ok(out)
}

/// Pointwise dual-black correction: each sample becomes
/// `(sample - black0) - (black1 - black0)`, removing the fixed-pattern bias
/// and de-trending the drift between the two black references.
///
/// All three buffers must have the same length and, pointwise, the same
/// denominator (the normalized form); otherwise nothing changes and the
/// call fails with `SizeMismatch`.
pub fn subtract_dual_black(image: &mut Vec<Pixel>, black0: &Vec<Pixel>, black1: &Vec<Pixel>) -> (r:
    Result<(), IaError>)
    requires
        buf_ok(old(image)@),
        buf_ok(black0@),
        buf_ok(black1@),
    ensures
        r is Ok <==> (old(image)@.len() == black0@.len() && old(image)@.len() == black1@.len()
            && (forall|i: int|
            0 <= i < old(image)@.len() ==> (#[trigger] old(image)@[i]).den == black0@[i].den
                && old(image)@[i].den == black1@[i].den)),
        r is Err ==> r.unwrap_err() == IaError::SizeMismatch && final(image)@ == old(image)@,
        r is Ok ==> {
            &&& final(image)@.len() == old(image)@.len()
            &&& forall|i: int|
                0 <= i < old(image)@.len() ==> #[trigger] final(image)@[i] == (Pixel {
                    num: ((old(image)@[i].num - black0@[i].num) - (black1@[i].num
                        - black0@[i].num)) as i64,
                    den: old(image)@[i].den,
                })
        },
{
    let n = image.len();
    if black0.len() != n || black1.len() != n {
        return Err(IaError::SizeMismatch);
    }
    let mut i: usize = 0;
    while i < n
        invariant
            n == image@.len() == black0@.len() == black1@.len(),
            i <= n,
            forall|j: int|
                0 <= j < i ==> (#[trigger] image@[j]).den == black0@[j].den && image@[j].den
                    == black1@[j].den,
        decreases n - i,
    {
        if image[i].den != black0[i].den || image[i].den != black1[i].den {
            return Err(IaError::SizeMismatch);
        }
        i += 1;
    }
    let ghost orig = image@;
    let mut out: Vec<Pixel> = Vec::new();
    let mut i: usize = 0;
    while i < n
        invariant
            n == orig.len() == black0@.len() == black1@.len(),
            image@ == orig,
            buf_ok(orig),
            buf_ok(black0@),
            buf_ok(black1@),
            i <= n,
            out@.len() == i,
            forall|j: int|
                0 <= j < i ==> #[trigger] out@[j] == (Pixel {
                    num: ((orig[j].num - black0@[j].num) - (black1@[j].num - black0@[j].num)) as i64,
                    den: orig[j].den,
                }),
        decreases n - i,
    {
        let a = image[i];
        let b0 = black0[i];
        let b1 = black1[i];
        let stage1: i64 = a.num - b0.num;
        let drift: i64 = b1.num - b0.num;
        out.push(Pixel { num: stage1 - drift, den: a.den });
        i += 1;
    }
    *image = out;
    Ok(())
}

/// Pointwise white flat-fielding: each sample is divided by the co-located
/// white-reference sample, exactly.  A white sample equal to zero cannot
/// divide; that pixel becomes exactly zero (an explicit guard; normalized
/// white references are non-negative, and a dead white sample carries no
/// sensitivity information).  Fails with `SizeMismatch`, changing nothing,
/// unless the lengths agree.
pub fn apply_white(image: &mut Vec<Pixel>, white: &Vec<Pixel>) -> (r: Result<(), IaError>)
    requires
        buf_mid(old(image)@),
        buf_mid(white@),
    ensures
        r is Ok <==> old(image)@.len() == white@.len(),
        r is Err ==> r.unwrap_err() == IaError::SizeMismatch && final(image)@ == old(image)@,
        r is Ok ==> {
            &&& final(image)@.len() == old(image)@.len()
            &&& forall|i: int|
                0 <= i < old(image)@.len() ==> {
                    let a = old(image)@[i];
                    let w = white@[i];
                    let p = #[trigger] final(image)@[i];
                    &&& (w.num > 0 ==> p.num == a.num * w.den && p.den == a.den * w.num)
                    &&& (w.num < 0 ==> p.num == -(a.num * w.den) && p.den == a.den * (-w.num))
                    &&& (w.num == 0 ==> p == (Pixel { num: 0i64, den: 1i64 }))
                    &&& (w.num != 0 ==> p.num * (a.den * w.num) == (a.num * w.den) * p.den)
                    &&& p.den >= 1
                }
        },
{
    let n = image.len();
    if white.len() != n {
        return Err(IaError::SizeMismatch);
    }
    let ghost orig = image@;
    let mut out: Vec<Pixel> = Vec::new();
    let mut i: usize = 0;
    while i < n
        invariant
            n == orig.len() == white@.len(),
            image@ == orig,
            buf_mid(orig),
            buf_mid(white@),
            i <= n,
            out@.len() == i,
            forall|j: int|
                0 <= j < i ==> {
                    let a = orig[j];
                    let w = white@[j];
                    let p = #[trigger] out@[j];
                    &&& (w.num > 0 ==> p.num == a.num * w.den && p.den == a.den * w.num)
                    &&& (w.num < 0 ==> p.num == -(a.num * w.den) && p.den == a.den * (-w.num))
                    &&& (w.num == 0 ==> p == (Pixel { num: 0i64, den: 1i64 }))
                    &&& (w.num != 0 ==> p.num * (a.den * w.num) == (a.num * w.den) * p.den)
                    &&& p.den >= 1
                },
        decreases n - i,
    {
        let a = image[i];
        let w = white[i];
        let p: Pixel;
        if w.num == 0 {
            p = Pixel { num: 0, den: 1 };
        } else {
            proof {
                assert(a.num * w.den <= 0x1000_0000_0000_0000 && a.num * w.den
                    >= -0x1000_0000_0000_0000 && a.den * w.num <= 0x1000_0000_0000_0000 && a.den
                    * w.num >= -0x1000_0000_0000_0000) by (nonlinear_arith)
                    requires
                        pixel_mid(a),
                        pixel_mid(w),
                ;
            }
            let wide_num: i128 = (a.num as i128) * (w.den as i128);
            let wide_den: i128 = (a.den as i128) * (w.num as i128);
            proof {
                assert(wide_num == a.num * w.den);
                assert(wide_den == a.den * w.num);
            }
            if w.num > 0 {
                proof {
                    lemma_mul_strictly_positive(a.den as int, w.num as int);
                }
                p = Pixel { num: wide_num as i64, den: wide_den as i64 };
            } else {
                proof {
                    lemma_mul_strictly_positive(a.den as int, -(w.num as int));
                    assert(a.den * (-(w.num as int)) == -(a.den * w.num)) by (nonlinear_arith);
                }
                p = Pixel { num: (-wide_num) as i64, den: (-wide_den) as i64 };
            }
            proof {
                assert(p.num * (a.den * w.num) == (a.num * w.den) * p.den) by (nonlinear_arith)
                    requires
                        (p.num == a.num * w.den && p.den == a.den * w.num) || (p.num == -(a.num
                            * w.den) && p.den == -(a.den * w.num)),
                ;
            }
        }
        out.push(p);
        i += 1;
    }
    *image = out;
    Ok(())
}

/// The rational minimum of the buffer, folded left to right; the first of
/// several equal minima is kept.  `0/1` for an empty buffer.
pub open spec fn spec_rat_min(s: Seq<Pixel>) -> Pixel
    decreases s.len(),
{
    if s.len() == 0 {
        Pixel { num: 0i64, den: 1i64 }
    } else if s.len() == 1 {
        s[0]
    } else {
        let m = spec_rat_min(s.drop_last());
        if rat_lt(s.last(), m) {
            s.last()
        } else {
            m
        }
    }
}

/// The rational maximum of the buffer, folded left to right; the first of
/// several equal maxima is kept.  `0/1` for an empty buffer.
pub open spec fn spec_rat_max(s: Seq<Pixel>) -> Pixel
    decreases s.len(),
{
    if s.len() == 0 {
        Pixel { num: 0i64, den: 1i64 }
    } else if s.len() == 1 {
        s[0]
    } else {
        let m = spec_rat_max(s.drop_last());
        if rat_lt(m, s.last()) {
            s.last()
        } else {
            m
        }
    }
}

/// Transitivity of the rational order under positive denominators.
proof fn lemma_rat_trans(a: Pixel, b: Pixel, c: Pixel)
    requires
        a.den >= 1,
        b.den >= 1,
        c.den >= 1,
        rat_le(a, b),
        rat_le(b, c),
    ensures
        rat_le(a, c),
{
    assert(a.num * c.den <= c.num * a.den) by (nonlinear_arith)
        requires
            a.den >= 1,
            b.den >= 1,
            c.den >= 1,
            a.num * b.den <= b.num * a.den,
            b.num * c.den <= c.num * b.den,
    ;
}

/// The folded minimum is an element of the buffer and a lower bound of it.
proof fn lemma_min_le_all(s: Seq<Pixel>)
    requires
        s.len() > 0,
        forall|i: int| 0 <= i < s.len() ==> (#[trigger] s[i]).den >= 1,
    ensures
        exists|k: int| 0 <= k < s.len() && spec_rat_min(s) == s[k],
        forall|i: int| 0 <= i < s.len() ==> rat_le(spec_rat_min(s), #[trigger] s[i]),
    decreases s.len(),
{
    if s.len() == 1 {
        assert(spec_rat_min(s) == s[0]);
    } else {
        let t = s.drop_last();
        assert(forall|i: int| 0 <= i < t.len() ==> #[trigger] t[i] == s[i]);
        lemma_min_le_all(t);
        let m = spec_rat_min(t);
        let l = s.last();
        let k = choose|k: int| 0 <= k < t.len() && m == t[k];
        if rat_lt(l, m) {
            assert(spec_rat_min(s) == l);
            assert(l == s[s.len() - 1]);
            assert(m.den >= 1);
            assert forall|i: int| 0 <= i < s.len() implies rat_le(l, #[trigger] s[i]) by {
                if i < s.len() - 1 {
                    assert(t[i] == s[i]);
                    assert(rat_le(m, t[i]));
                    assert(rat_le(l, m));
                    lemma_rat_trans(l, m, s[i]);
                }
            }
        } else {
            assert(spec_rat_min(s) == m);
            assert(m == s[k]);
            assert forall|i: int| 0 <= i < s.len() implies rat_le(m, #[trigger] s[i]) by {
                if i < s.len() - 1 {
                    assert(t[i] == s[i]);
                    assert(rat_le(m, t[i]));
                } else {
                    assert(s[i] == l);
                    assert(rat_le(m, l));
                }
            }
        }
    }
}

/// The folded maximum is an element of the buffer and an upper bound of it.
proof fn lemma_max_ge_all(s: Seq<Pixel>)
    requires
        s.len() > 0,
        forall|i: int| 0 <= i < s.len() ==> (#[trigger] s[i]).den >= 1,
    ensures
        exists|k: int| 0 <= k < s.len() && spec_rat_max(s) == s[k],
        forall|i: int| 0 <= i < s.len() ==> rat_le(#[trigger] s[i], spec_rat_max(s)),
    decreases s.len(),
{
    if s.len() == 1 {
        assert(spec_rat_max(s) == s[0]);
    } else {
        let t = s.drop_last();
        assert(forall|i: int| 0 <= i < t.len() ==> #[trigger] t[i] == s[i]);
        lemma_max_ge_all(t);
        let m = spec_rat_max(t);
        let l = s.last();
        let k = choose|k: int| 0 <= k < t.len() && m == t[k];
        if rat_lt(m, l) {
            assert(spec_rat_max(s) == l);
            assert(l == s[s.len() - 1]);
            assert(m.den >= 1);
            assert forall|i: int| 0 <= i < s.len() implies rat_le(#[trigger] s[i], l) by {
                if i < s.len() - 1 {
                    assert(t[i] == s[i]);
                    assert(rat_le(t[i], m));
                    assert(rat_le(m, l));
                    lemma_rat_trans(s[i], m, l);
                }
            }
        } else {
            assert(spec_rat_max(s) == m);
            assert(m == s[k]);
            assert forall|i: int| 0 <= i < s.len() implies rat_le(#[trigger] s[i], m) by {
                if i < s.len() - 1 {
                    assert(t[i] == s[i]);
                    assert(rat_le(t[i], m));
                } else {
                    assert(s[i] == l);
                    assert(rat_le(l, m));
                }
            }
        }
    }
}

/// Numerator of the affine map of `x` from `[lo, hi]` onto `[0, 65535]`.
pub open spec fn spec_rescale_num(x: Pixel, lo: Pixel, hi: Pixel) -> int {
    65535 * ((x.num * lo.den - lo.num * x.den) * hi.den)
}

/// Denominator of the affine map of `x` from `[lo, hi]` onto `[0, 65535]`.
pub open spec fn spec_rescale_den(x: Pixel, lo: Pixel, hi: Pixel) -> int {
    x.den * (hi.num * lo.den - lo.num * hi.den)
}

/// `(x - lo) * 65535 / (hi - lo)` rounded to the nearest integer
/// (halves up): the 16-bit output sample for `x`.
pub open spec fn spec_rescale_val(x: Pixel, lo: Pixel, hi: Pixel) -> int {
    (2 * spec_rescale_num(x, lo, hi) + spec_rescale_den(x, lo, hi)) / (2 * spec_rescale_den(
        x,
        lo,
        hi,
    ))
}

/// For `lo <= x <= hi` and `lo < hi` the affine map stays within its range:
/// the numerator is between `0` and `65535` times the positive denominator.
proof fn lemma_rescale_range(x: Pixel, lo: Pixel, hi: Pixel)
    requires
        x.den >= 1,
        lo.den >= 1,
        hi.den >= 1,
        rat_le(lo, x),
        rat_le(x, hi),
        rat_lt(lo, hi),
    ensures
        spec_rescale_den(x, lo, hi) > 0,
        0 <= spec_rescale_num(x, lo, hi),
        spec_rescale_num(x, lo, hi) <= 65535 * spec_rescale_den(x, lo, hi),
{
    assert(x.den * (hi.num * lo.den - lo.num * hi.den) > 0) by (nonlinear_arith)
        requires
            x.den >= 1,
            lo.num * hi.den < hi.num * lo.den,
    ;
    assert(65535 * ((x.num * lo.den - lo.num * x.den) * hi.den) >= 0) by (nonlinear_arith)
        requires
            hi.den >= 1,
            lo.num * x.den <= x.num * lo.den,
    ;
    assert(65535 * ((x.num * lo.den - lo.num * x.den) * hi.den) <= 65535 * (x.den * (hi.num
        * lo.den - lo.num * hi.den))) by (nonlinear_arith)
        requires
            x.den >= 1,
            lo.den >= 1,
            hi.den >= 1,
            x.num * hi.den <= hi.num * x.den,
            lo.num * x.den <= x.num * lo.den,
    ;
}

/// Maps one pixel of a non-constant buffer onto the 16-bit output range.
fn rescale_one(x: Pixel, lo: Pixel, hi: Pixel) -> (r: u16)
    requires
        pixel_ok(x),
        pixel_ok(lo),
        pixel_ok(hi),
        rat_le(lo, x),
        rat_le(x, hi),
        rat_lt(lo, hi),
    ensures
        r == spec_rescale_val(x, lo, hi),
{
    proof {
        lemma_rescale_range(x, lo, hi);
    }
    let t1 = mul_pix(x.num, lo.den);
    let t2 = mul_pix(lo.num, x.den);
    let d: i128 = t1 - t2;
    let k1 = mul_pix(hi.num, lo.den);
    let k2 = mul_pix(lo.num, hi.den);
    let kk: i128 = k1 - k2;
    proof {
        assert(d * 65535 <= 0x200_0000_0000_0000_0000_0000 && d * 65535 >= 0) by (nonlinear_arith)
            requires
                0 <= d <= 0x200_0000_0000_0000_0000,
        ;
    }
    let d65: i128 = d * 65535;
    proof {
        assert(d65 * (hi.den as i128) <= 0x2000_0000_0000_0000_0000_0000_0000_0000 && d65 * (
        hi.den as i128) >= 0) by (nonlinear_arith)
            requires
                0 <= d65 <= 0x200_0000_0000_0000_0000_0000,
                1 <= hi.den <= 0x10_0000_0000,
        ;
    }
    let nn: i128 = d65 * (hi.den as i128);
    proof {
        assert(kk * (x.den as i128) <= 0x2000_0000_0000_0000_0000_0000_0000 && kk * (x.den as i128)
            > 0) by (nonlinear_arith)
            requires
                0 < kk <= 0x200_0000_0000_0000_0000,
                1 <= x.den <= 0x10_0000_0000,
        ;
    }
    let dd: i128 = kk * (x.den as i128);
    proof {
        assert(nn == spec_rescale_num(x, lo, hi)) by (nonlinear_arith)
            requires
                nn == (d * 65535) * hi.den,
                d == x.num * lo.den - lo.num * x.den,
        ;
        assert(dd == spec_rescale_den(x, lo, hi)) by (nonlinear_arith)
            requires
                dd == (hi.num * lo.den - lo.num * hi.den) * x.den,
        ;
    }
    let numer: i128 = 2 * nn + dd;
    let denom: i128 = 2 * dd;
    let q: u128 = (numer as u128) / (denom as u128);
    proof {
        // round((x - lo) * 65535 / (hi - lo)) never exceeds 65535
        assert(numer < 65536 * denom) by (nonlinear_arith)
            requires
                numer == 2 * nn + dd,
                denom == 2 * dd,
                nn <= 65535 * dd,
                dd > 0,
        ;
        lemma_fundamental_div_mod(numer as int, denom as int);
        let qq = (numer as int) / (denom as int);
        assert(denom * qq <= numer);
        assert(qq < 65536) by (nonlinear_arith)
            requires
                denom * qq <= numer,
                numer < 65536 * denom,
                denom > 0,
        ;
        assert(qq >= 0) by (nonlinear_arith)
            requires
                qq == (numer as int) / (denom as int),
                numer >= 0,
                denom > 0,
        ;
        assert(q == qq);
    }
    q as u16
}

/// Rescales the buffer onto the full 16-bit range: the true rational
/// minimum maps to 0, the true maximum to 65535, every other sample to the
/// nearest integer of its affine image.  A constant (or empty) buffer has
/// no range to stretch; every output sample is then 0, an explicit guard
/// in place of a division by zero.
pub fn rescale_to_u16(image: &Vec<Pixel>) -> (r: Vec<u16>)
    requires
        buf_ok(image@),
    ensures
        r@.len() == image@.len(),
        rat_lt(spec_rat_min(image@), spec_rat_max(image@)) ==> forall|i: int|
            0 <= i < image@.len() ==> r@[i] == spec_rescale_val(
                image@[i],
                spec_rat_min(image@),
                spec_rat_max(image@),
            ),
        !rat_lt(spec_rat_min(image@), spec_rat_max(image@)) ==> forall|i: int|
            0 <= i < image@.len() ==> r@[i] == 0,
{
    let n = image.len();
    let mut out: Vec<u16> = Vec::new();
    if n == 0 {
        return out;
    }
    let mut lo: Pixel = image[0];
    let mut hi: Pixel = image[0];
    let mut i: usize = 1;
    proof {
        assert(image@.take(1).len() == 1 && image@.take(1)[0] == image@[0]);
    }
    while i < n
        invariant
            buf_ok(image@),
            n == image@.len(),
            1 <= i <= n,
            pixel_ok(lo),
            pixel_ok(hi),
            lo == spec_rat_min(image@.take(i as int)),
            hi == spec_rat_max(image@.take(i as int)),
        decreases n - i,
    {
        let x = image[i];
        proof {
            let t = image@.take(i + 1);
            assert(t.drop_last() =~= image@.take(i as int));
            assert(t.last() == image@[i as int]);
        }
        if rat_lt_exec(x, lo) {
            lo = x;
        }
        if rat_lt_exec(hi, x) {
            hi = x;
        }
        i += 1;
    }
    proof {
        assert(image@.take(n as int) =~= image@);
    }
    if !rat_lt_exec(lo, hi) {
        let mut j: usize = 0;
        while j < n
            invariant
                j <= n,
                out@.len() == j,
                forall|k: int| 0 <= k < j ==> out@[k] == 0u16,
            decreases n - j,
        {
            out.push(0u16);
            j += 1;
        }
        return out;
    }
    proof {
        lemma_min_le_all(image@);
        lemma_max_ge_all(image@);
    }
    let mut j: usize = 0;
    while j < n
        invariant
            buf_ok(image@),
            n == image@.len(),
            lo == spec_rat_min(image@),
            hi == spec_rat_max(image@),
            rat_lt(lo, hi),
            pixel_ok(lo),
            pixel_ok(hi),
            forall|k: int| 0 <= k < n ==> rat_le(lo, #[trigger] image@[k]),
            forall|k: int| 0 <= k < n ==> rat_le(#[trigger] image@[k], hi),
            j <= n,
            out@.len() == j,
            forall|k: int| 0 <= k < j ==> out@[k] == spec_rescale_val(#[trigger] image@[k], lo, hi),
        decreases n - j,
    {
        let v = rescale_one(image[j], lo, hi);
        out.push(v);
        j += 1;
    }
    out
}

/// Division by positive divisors respects cross-multiplied order:
/// `a/b <= c/d` whenever `a*d <= c*b`.
proof fn lemma_div_cross_monotone(a: int, b: int, c: int, d: int)
    requires
        b > 0,
        d > 0,
        a * d <= c * b,
    ensures
        a / b <= c / d,
{
    let q = a / b;
    lemma_fundamental_div_mod(a, b);
    assert(b * q <= a);
    assert(q * d <= c) by (nonlinear_arith)
        requires
            b * q <= a,
            a * d <= c * b,
            b > 0,
            d > 0,
    ;
    lemma_div_is_ordered(q * d, c, d);
    lemma_div_multiples_vanish(q, d);
    assert((d * q) / d == q);
    assert(q * d == d * q) by (nonlinear_arith);
}

/// Monotonicity of the output map: of two samples lying in the buffer's
/// range `[lo, hi]` with `lo < hi`, the rationally smaller one never
/// rescales above the larger one.
pub proof fn lemma_rescale_monotonic(x: Pixel, y: Pixel, lo: Pixel, hi: Pixel)
    requires
        x.den >= 1,
        y.den >= 1,
        lo.den >= 1,
        hi.den >= 1,
        rat_lt(lo, hi),
        rat_le(lo, x),
        rat_le(x, hi),
        rat_le(lo, y),
        rat_le(y, hi),
        rat_le(x, y),
    ensures
        spec_rescale_val(x, lo, hi) <= spec_rescale_val(y, lo, hi),
{
    lemma_rescale_range(x, lo, hi);
    lemma_rescale_range(y, lo, hi);
    let nx = spec_rescale_num(x, lo, hi);
    let dx = spec_rescale_den(x, lo, hi);
    let ny = spec_rescale_num(y, lo, hi);
    let dy = spec_rescale_den(y, lo, hi);
    let u = x.num * lo.den - lo.num * x.den;
    let v = y.num * lo.den - lo.num * y.den;
    let kk = hi.num * lo.den - lo.num * hi.den;
    let hd = hi.den as int;
    assert(u * y.den <= v * x.den) by (nonlinear_arith)
        requires
            u == x.num * lo.den - lo.num * x.den,
            v == y.num * lo.den - lo.num * y.den,
            x.num * y.den <= y.num * x.den,
            lo.den >= 1,
    ;
    lemma_mul_strictly_positive(hd, kk);
    lemma_mul_inequality(u * y.den, v * x.den, hd * kk);
    assert(nx * dy == 65535 * ((u * y.den) * (hd * kk))) by (nonlinear_arith)
        requires
            nx == 65535 * (u * hd),
            dy == y.den * kk,
    ;
    assert(ny * dx == 65535 * ((v * x.den) * (hd * kk))) by (nonlinear_arith)
        requires
            ny == 65535 * (v * hd),
            dx == x.den * kk,
    ;
    assert(nx * dy <= ny * dx);
    assert((2 * nx + dx) * (2 * dy) <= (2 * ny + dy) * (2 * dx)) by (nonlinear_arith)
        requires
            nx * dy <= ny * dx,
            dx > 0,
            dy > 0,
    ;
    lemma_div_cross_monotone(2 * nx + dx, 2 * dx, 2 * ny + dy, 2 * dy);
}

/// The range's endpoints map to the ends of the output scale: a sample
/// equal to the minimum rescales to 0, one equal to the maximum to 65535.
pub proof fn lemma_rescale_endpoints(x: Pixel, lo: Pixel, hi: Pixel)
    requires
        x.den >= 1,
        lo.den >= 1,
        hi.den >= 1,
        rat_lt(lo, hi),
        rat_le(lo, x),
        rat_le(x, hi),
    ensures
        rat_eq(x, lo) ==> spec_rescale_val(x, lo, hi) == 0,
        rat_eq(x, hi) ==> spec_rescale_val(x, lo, hi) == 65535,
{
    lemma_rescale_range(x, lo, hi);
    let nx = spec_rescale_num(x, lo, hi);
    let dx = spec_rescale_den(x, lo, hi);
    if rat_eq(x, lo) {
        assert(nx == 0) by (nonlinear_arith)
            requires
                nx == 65535 * ((x.num * lo.den - lo.num * x.den) * hi.den),
                x.num * lo.den == lo.num * x.den,
        ;
        lemma_fundamental_div_mod_converse(2 * nx + dx, 2 * dx, 0, dx);
    }
    if rat_eq(x, hi) {
        assert(nx == 65535 * dx) by (nonlinear_arith)
            requires
                nx == 65535 * ((x.num * lo.den - lo.num * x.den) * hi.den),
                dx == x.den * (hi.num * lo.den - lo.num * hi.den),
                x.num * hi.den == hi.num * x.den,
        ;
        assert(2 * nx + dx == 65535 * (2 * dx) + dx) by (nonlinear_arith)
            requires
                nx == 65535 * dx,
        ;
        lemma_fundamental_div_mod_converse(2 * nx + dx, 2 * dx, 65535, dx);
    }
}

/// Monotonicity over a whole plane: wherever the plane has a real range,
/// a rationally smaller sample never rescales above a larger one; a sample
/// equal to the plane's minimum rescales to 0, one equal to its maximum to
/// 65535.
pub proof fn lemma_rescale_buffer_monotonic(s: Seq<Pixel>, i: int, j: int)
    requires
        forall|k: int| 0 <= k < s.len() ==> (#[trigger] s[k]).den >= 1,
        0 <= i < s.len(),
        0 <= j < s.len(),
        rat_lt(spec_rat_min(s), spec_rat_max(s)),
        rat_le(s[i], s[j]),
    ensures
        spec_rescale_val(s[i], spec_rat_min(s), spec_rat_max(s)) <= spec_rescale_val(
            s[j],
            spec_rat_min(s),
            spec_rat_max(s),
        ),
        rat_eq(s[i], spec_rat_min(s)) ==> spec_rescale_val(
            s[i],
            spec_rat_min(s),
            spec_rat_max(s),
        ) == 0,
        rat_eq(s[i], spec_rat_max(s)) ==> spec_rescale_val(
            s[i],
            spec_rat_min(s),
            spec_rat_max(s),
        ) == 65535,
{
    lemma_min_le_all(s);
    lemma_max_ge_all(s);
    let lo = spec_rat_min(s);
    let hi = spec_rat_max(s);
    let kl = choose|k: int| 0 <= k < s.len() && lo == s[k];
    let kh = choose|k: int| 0 <= k < s.len() && hi == s[k];
    assert(lo.den >= 1);
    assert(hi.den >= 1);
    lemma_rescale_monotonic(s[i], s[j], lo, hi);
    lemma_rescale_endpoints(s[i], lo, hi);
}

/// With the two black references identical, the dual-black correction
/// removes the black level exactly once: each corrected sample is the raw
/// sample minus its co-located black sample.  And when that level is one
/// uniform rational across the plane, every pairwise sample difference
/// (numerator of the rational difference over the common denominators) is
/// unchanged by the correction.
pub proof fn lemma_dual_black_identical_refs(
    before: Seq<Pixel>,
    after: Seq<Pixel>,
    black: Seq<Pixel>,
)
    requires
        before.len() == after.len(),
        before.len() == black.len(),
        forall|i: int|
            0 <= i < before.len() ==> (#[trigger] before[i]).den == black[i].den
                && before[i].den >= 1,
        forall|i: int|
            0 <= i < before.len() ==> #[trigger] after[i] == (Pixel {
                num: ((before[i].num - black[i].num) - (black[i].num - black[i].num)) as i64,
                den: before[i].den,
            }),
        forall|i: int|
            0 <= i < before.len() ==> -0x10_0000_0000 <= (#[trigger] before[i]).num
                - black[i].num <= 0x10_0000_0000,
    ensures
        forall|i: int|
            0 <= i < before.len() ==> (#[trigger] after[i]).num == before[i].num - black[i].num,
        (forall|i: int, j: int|
            0 <= i < before.len() && 0 <= j < before.len() ==> rat_eq(
                #[trigger] black[i],
                #[trigger] black[j],
            )) ==> (forall|i: int, j: int|
            0 <= i < before.len() && 0 <= j < before.len() ==> (#[trigger] after[i]).num
                * (#[trigger] after[j]).den - after[j].num * after[i].den == before[i].num
                * before[j].den - before[j].num * before[i].den),
{
    assert forall|i: int|
        0 <= i < before.len() implies (#[trigger] after[i]).num == before[i].num
        - black[i].num by {}
    if forall|i: int, j: int|
        0 <= i < before.len() && 0 <= j < before.len() ==> rat_eq(
            #[trigger] black[i],
            #[trigger] black[j],
        ) {
        assert forall|i: int, j: int|
            0 <= i < before.len() && 0 <= j < before.len() implies (#[trigger] after[i]).num
            * (#[trigger] after[j]).den - after[j].num * after[i].den == before[i].num
                * before[j].den - before[j].num * before[i].den by {
            assert(rat_eq(black[i], black[j]));
            assert((before[i].num - black[i].num) * before[j].den - (before[j].num - black[j].num)
                * before[i].den == before[i].num * before[j].den - before[j].num
                * before[i].den) by (nonlinear_arith)
                requires
                    black[i].num * black[j].den == black[j].num * black[i].den,
                    black[i].den == before[i].den,
                    black[j].den == before[j].den,
            ;
        }
    }
}

} // verus!
