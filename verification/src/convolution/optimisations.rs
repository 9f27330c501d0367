//! Bringing the weights of an axis to the precision of a pixel depth.
//!
//! The weights are rounded to `precision` fractional bits. Rounding moves
//! the sum of a window away from 1, so the difference is spread over the
//! window, one unit per weight from the first weight on, until the sum is
//! exactly `1 << precision`. The precision chosen is the largest at which
//! every weight fits its integer type and no window can overflow the
//! accumulator of the pass.

use crate::alpha::common::round_div;
use crate::convolution::{lemma_sum_step, sum, sum_abs, Bound, Coefficients, WEIGHT_BITS};
use vstd::arithmetic::div_mod::{
    lemma_div_denominator,
    lemma_fundamental_div_mod,
    lemma_fundamental_div_mod_converse,
};
use vstd::arithmetic::power2::{
    lemma2_to64,
    lemma2_to64_rest,
    lemma_pow2_strictly_increases,
    lemma_pow2_unfold,
    pow2,
};
use vstd::prelude::*;

verus! {

/// A fixed-point weight rounded to the nearest multiple of `2^shift`,
/// halves away from zero, in units of `2^shift`.
pub open spec fn rounded_weight(w: int, shift: nat) -> int {
    if w >= 0 {
        round_div(w, pow2(shift) as int)
    } else {
        -round_div(-w, pow2(shift) as int)
    }
}

/// `row` with the difference between `target` and its sum spread over it:
/// every weight gets the same share, and the first few one unit more, so
/// that the sum becomes `target`. Where the difference is no more than the
/// length of the row, no weight moves by more than one unit.
pub open spec fn diffused(row: Seq<int>, target: int) -> Seq<int> {
    let n = row.len() as int;
    let err = target - sum(row);
    Seq::new(
        row.len(),
        |k: int|
            row[k] + err / n + if k < err % n {
                1int
            } else {
                0int
            },
    )
}

/// The smaller of two numbers.
pub open spec fn min(a: int, b: int) -> int {
    if a < b {
        a
    } else {
        b
    }
}

proof fn lemma_diffused_prefix(row: Seq<int>, target: int, m: int)
    requires
        0 < row.len(),
        0 <= m <= row.len(),
    ensures
        ({
            let n = row.len() as int;
            let err = target - sum(row);
            sum(diffused(row, target).subrange(0, m)) == sum(row.subrange(0, m)) + (err / n) * m
                + min(m, err % n)
        }),
    decreases m,
{
    let n = row.len() as int;
    let err = target - sum(row);
    lemma_fundamental_div_mod(err, n);
    if m == 0 {
        assert((err / n) * 0 == 0);
    } else {
        lemma_diffused_prefix(row, target, m - 1);
        lemma_sum_step(diffused(row, target), m - 1);
        lemma_sum_step(row, m - 1);
        assert((err / n) * m == (err / n) * (m - 1) + err / n) by (nonlinear_arith);
    }
}

/// Spreading makes the sum of a window the target.
pub proof fn lemma_diffused_sum(row: Seq<int>, target: int)
    requires
        0 < row.len(),
    ensures
        diffused(row, target).len() == row.len(),
        sum(diffused(row, target)) == target,
{
    let n = row.len() as int;
    let err = target - sum(row);
    lemma_diffused_prefix(row, target, n);
    lemma_fundamental_div_mod(err, n);
    assert(diffused(row, target).subrange(0, n) =~= diffused(row, target));
    assert(row.subrange(0, n) =~= row);
    assert(n * (err / n) == (err / n) * n) by (nonlinear_arith);
}

impl Coefficients {
    /// Every destination position has a window of at least one weight and
    /// of no more than `window_size`, and `values` holds `window_size`
    /// entries for each position.
    pub open spec fn wf(&self) -> bool {
        &&& self.window_size > 0
        &&& self.values@.len() == self.window_size * self.bounds@.len()
        &&& forall|i: int|
            0 <= i < self.bounds@.len() ==> 1 <= (#[trigger] self.bounds@[i]).size
                <= self.window_size
    }

    /// Checks that the bundle is well formed.
    pub fn is_wf(&self) -> (ok: bool)
        ensures
            ok == self.wf(),
    {
        if self.window_size == 0 {
            return false;
        }
        let rows: usize = self.bounds.len();
        let len: usize = self.values.len();
        match self.window_size.checked_mul(rows) {
            None => {
                return false;
            },
            Some(expected) => {
                if expected != len {
                    return false;
                }
            },
        }
        let mut i: usize = 0;
        while i < rows
            invariant
                i <= rows,
                rows == self.bounds@.len(),
                forall|j: int|
                    0 <= j < i ==> 1 <= (#[trigger] self.bounds@[j]).size <= self.window_size,
            decreases rows - i,
        {
            let size: u32 = self.bounds[i].size;
            if size < 1 || size as u64 > self.window_size as u64 {
                return false;
            }
            i += 1;
        }
        true
    }

    /// The weights of destination position `i`, rounded to `precision`
    /// fractional bits.
    pub open spec fn rounded_window(&self, i: int, precision: nat) -> Seq<int> {
        Seq::new(
            self.bounds@[i].size as nat,
            |k: int|
                rounded_weight(
                    self.values@[i * self.window_size + k] as int,
                    (WEIGHT_BITS - precision) as nat,
                ),
        )
    }

    /// The weights of destination position `i` at `precision` fractional
    /// bits: rounded, then made to sum to `1 << precision`.
    pub open spec fn normalized_window(&self, i: int, precision: nat) -> Seq<int> {
        diffused(self.rounded_window(i, precision), pow2(precision) as int)
    }
}

/// What a pixel depth allows of integer weights.
pub struct Depth {
    /// Largest value of a channel.
    pub channel_max: int,
    /// Weights lie in `-weight_limit .. weight_limit`.
    pub weight_limit: int,
    /// Largest value of the accumulator of a pass.
    pub acc_max: int,
    /// Largest precision tried.
    pub max_precision: nat,
}

/// Smallest precision of any depth.
pub const MIN_PRECISION: u8 = 8;

/// 8-bit channels: 16-bit weights, a 32-bit accumulator, precision 8 to 14.
pub open spec fn depth_u8() -> Depth {
    Depth { channel_max: 255, weight_limit: 0x8000, acc_max: 0x7fff_ffff, max_precision: 14 }
}

/// 16-bit channels: 32-bit weights, a 64-bit accumulator, precision up to 32.
pub open spec fn depth_u16() -> Depth {
    Depth {
        channel_max: 65535,
        weight_limit: 0x8000_0000,
        acc_max: 0x7fff_ffff_ffff_ffff,
        max_precision: 32,
    }
}

/// Whether the weights of one window can be used at `precision`: each fits
/// the weight type, and the largest sum a window of channels can reach,
/// with the rounding bias added, fits the accumulator.
pub open spec fn window_ok(weights: Seq<int>, precision: nat, depth: Depth) -> bool {
    &&& forall|k: int|
        0 <= k < weights.len() ==> -depth.weight_limit <= #[trigger] weights[k]
            < depth.weight_limit
    &&& sum_abs(weights) * depth.channel_max + pow2((precision - 1) as nat) <= depth.acc_max
}

/// Whether `precision` can be used for all windows of `coeffs`.
pub open spec fn valid_at(coeffs: &Coefficients, precision: nat, depth: Depth) -> bool {
    forall|i: int|
        0 <= i < coeffs.bounds@.len() ==> window_ok(
            #[trigger] coeffs.normalized_window(i, precision),
            precision,
            depth,
        )
}

/// The first `size` entries of window `i` of a dense array of weights.
pub open spec fn window_of(values: Seq<i32>, window_size: int, size: int, i: int) -> Seq<int> {
    Seq::new(size as nat, |k: int| values[i * window_size + k] as int)
}

/// Entry `k` of window `i` lies before window `j` for `i < j`.
pub proof fn lemma_window_index(window_size: int, i: int, j: int, k: int)
    requires
        0 <= i < j,
        0 <= k < window_size,
    ensures
        0 <= i * window_size,
        i * window_size + k < j * window_size,
        (i + 1) * window_size == i * window_size + window_size,
{
    assert(0 <= i * window_size && i * window_size + k < j * window_size && (i + 1) * window_size
        == i * window_size + window_size) by (nonlinear_arith)
        requires
            0 <= i < j,
            0 <= k < window_size,
    ;
}

/// Rounds a fixed-point weight to the nearest multiple of `2^shift`.
fn round_weight(w: i64, shift: u32) -> (r: i128)
    requires
        8 <= shift <= 32,
    ensures
        r == rounded_weight(w as int, shift as nat),
        -0x100_0000_0000_0000 <= r <= 0x100_0000_0000_0000,
{
    proof {
        lemma2_to64();
        lemma_pow2_strictly_increases(7, shift as nat);
        if shift < 32 {
            lemma_pow2_strictly_increases(shift as nat, 32);
        }
        vstd::bits::lemma_u64_shl_is_mul(1u64, shift as u64);
        lemma_pow2_unfold(shift as nat);
    }
    let unit: u128 = (1u64 << shift) as u128;
    let mag: u128 = if w >= 0 {
        w as u128
    } else {
        (-(w as i128)) as u128
    };
    let half: u128 = unit / 2;
    let q: u128 = (mag + half) / unit;
    proof {
        assert(2 * half == unit);
        lemma_div_denominator(2 * mag as int + unit as int, 2, unit as int);
        assert(q <= mag + half) by {
            vstd::arithmetic::div_mod::lemma_div_is_ordered_by_denominator(
                (mag + half) as int,
                1,
                unit as int,
            );
        }
        assert(q * 256 <= mag + half) by {
            lemma_fundamental_div_mod((mag + half) as int, unit as int);
            assert(unit * q >= 256 * q) by (nonlinear_arith)
                requires
                    unit >= 256,
                    q >= 0,
            ;
        }
    }
    if w >= 0 {
        q as i128
    } else {
        -(q as i128)
    }
}

/// Euclidean quotient and remainder of `err` by `n`.
fn euclid_div(err: i128, n: u32) -> (r: (i128, i128))
    requires
        n > 0,
        -0x1_0000_0000_0000_0000_0000_0000 <= err <= 0x1_0000_0000_0000_0000_0000_0000,
    ensures
        r.0 == (err as int) / (n as int),
        r.1 == (err as int) % (n as int),
        0 <= r.1 < n,
        err == r.0 * n + r.1,
{
    if err >= 0 {
        let e: u128 = err as u128;
        let q: u128 = e / (n as u128);
        let m: u128 = e % (n as u128);
        proof {
            lemma_fundamental_div_mod(err as int, n as int);
            assert(n * q == q * n) by (nonlinear_arith);
        }
        (q as i128, m as i128)
    } else {
        let e: u128 = (-err) as u128;
        let up: u128 = (e + (n as u128 - 1)) / (n as u128);
        proof {
            lemma_fundamental_div_mod((e + n - 1) as int, n as int);
            assert(n * up == up * n) by (nonlinear_arith);
            assert(up <= e + n - 1) by (nonlinear_arith)
                requires
                    up * n <= e + n - 1,
                    n >= 1,
                    up >= 0,
            ;
        }
        let back: u128 = up * (n as u128) - e;
        let q: i128 = -(up as i128);
        proof {
            assert(q * n == -(up * n)) by (nonlinear_arith)
                requires
                    q == -up,
            ;
            lemma_fundamental_div_mod_converse(err as int, n as int, q as int, back as int);
        }
        (q, back as i128)
    }
}

/// What a depth of `channel_max` allows.
pub open spec fn depth_of(channel_max: u16) -> Depth {
    if channel_max == 255 {
        depth_u8()
    } else {
        depth_u16()
    }
}

/// Sum of the rounded weights of window `i`.
fn rounded_sum(coeffs: &Coefficients, i: usize, precision: u8) -> (total: i128)
    requires
        coeffs.wf(),
        i < coeffs.bounds@.len(),
        MIN_PRECISION <= precision <= 32,
    ensures
        total == sum(coeffs.rounded_window(i as int, precision as nat)),
        -0x100_0000_0000_0000 * coeffs.bounds@[i as int].size <= total <= 0x100_0000_0000_0000
            * coeffs.bounds@[i as int].size,
{
    let ws: usize = coeffs.window_size;
    let rows: usize = coeffs.bounds.len();
    let len: usize = coeffs.values.len();
    let size: usize = coeffs.bounds[i].size as usize;
    let shift: u32 = WEIGHT_BITS - precision as u32;
    let ghost rounded = coeffs.rounded_window(i as int, precision as nat);
    proof {
        lemma_window_index(ws as int, i as int, rows as int, 0);
    }
    let base: usize = i * ws;
    let mut total: i128 = 0;
    let mut k: usize = 0;
    while k < size
        invariant
            k <= size <= ws,
            rows == coeffs.bounds@.len(),
            size == coeffs.bounds@[i as int].size,
            i < rows,
            base == i * ws,
            len == rows * ws,
            coeffs.values@.len() == len,
            shift == WEIGHT_BITS - precision,
            8 <= shift <= 32,
            rounded == coeffs.rounded_window(i as int, precision as nat),
            ws == coeffs.window_size,
            total == sum(rounded.subrange(0, k as int)),
            -0x100_0000_0000_0000 * k <= total <= 0x100_0000_0000_0000 * k,
        decreases size - k,
    {
        proof {
            lemma_window_index(ws as int, i as int, rows as int, k as int);
            lemma_sum_step(rounded, k as int);
        }
        total = total + round_weight(coeffs.values[base + k], shift);
        k += 1;
    }
    assert(rounded.subrange(0, size as int) =~= rounded);
    total
}

/// Appends window `i` of `coeffs` at `precision` fractional bits to `out`,
/// padded to the window size, or finds that the depth does not allow the
/// window at that precision.
fn push_window(
    coeffs: &Coefficients,
    i: usize,
    precision: u8,
    channel_max: u16,
    out: &mut Vec<i32>,
) -> (ok: bool)
    requires
        coeffs.wf(),
        i < coeffs.bounds@.len(),
        channel_max == 255 || channel_max == 65535,
        MIN_PRECISION <= precision <= depth_of(channel_max).max_precision,
        old(out)@.len() == i * coeffs.window_size,
    ensures
        ok == window_ok(
            coeffs.normalized_window(i as int, precision as nat),
            precision as nat,
            depth_of(channel_max),
        ),
        ok ==> final(out)@.len() == (i + 1) * coeffs.window_size,
        ok ==> final(out)@.subrange(0, i * coeffs.window_size) == old(out)@,
        ok ==> window_of(
            final(out)@,
            coeffs.window_size as int,
            coeffs.bounds@[i as int].size as int,
            i as int,
        ) == coeffs.normalized_window(i as int, precision as nat),
{
    let ghost depth = depth_of(channel_max);
    let ghost p = precision as nat;
    let ws: usize = coeffs.window_size;
    let rows: usize = coeffs.bounds.len();
    let len: usize = coeffs.values.len();
    let size: usize = coeffs.bounds[i].size as usize;
    let ghost rounded = coeffs.rounded_window(i as int, p);
    let ghost norm = coeffs.normalized_window(i as int, p);
    let ghost done = out@;
    proof {
        lemma2_to64();
        lemma2_to64_rest();
        lemma_pow2_strictly_increases(7, p);
        if precision < 32 {
            lemma_pow2_strictly_increases(p, 32);
        }
        lemma_pow2_strictly_increases(6, (p - 1) as nat);
        lemma_pow2_strictly_increases((p - 1) as nat, 32);
        vstd::bits::lemma_u64_shl_is_mul(1u64, precision as u64);
        vstd::bits::lemma_u64_shl_is_mul(1u64, (precision - 1) as u64);
        lemma_window_index(ws as int, i as int, rows as int, 0);
        lemma_diffused_sum(rounded, pow2(p) as int);
    }
    let shift: u32 = WEIGHT_BITS - precision as u32;
    let target: i128 = (1u64 << precision) as i128;
    let bias: i128 = (1u64 << (precision - 1)) as i128;
    let weight_limit: i128 = if channel_max == 255 {
        0x8000
    } else {
        0x8000_0000
    };
    let acc_max: i128 = if channel_max == 255 {
        0x7fff_ffff
    } else {
        0x7fff_ffff_ffff_ffff
    };
    let base: usize = i * ws;
    let total: i128 = rounded_sum(coeffs, i, precision);
    let err: i128 = target - total;
    let (share, extra) = euclid_div(err, size as u32);
    assert(-0x1_0000_0000_0000_0000_0000_0000 <= share <= 0x1_0000_0000_0000_0000_0000_0000)
        by (nonlinear_arith)
        requires
            err == share * size + extra,
            0 <= extra < size,
            -0x1_0000_0000_0000_0000_0000_0000 < err - size,
            err + size < 0x1_0000_0000_0000_0000_0000_0000,
            size >= 1,
    ;
    let mut abs_total: i128 = 0;
    let mut k: usize = 0;
    while k < size
        invariant
            k <= size <= ws,
            i < rows,
            base == i * ws,
            len == rows * ws,
            coeffs.values@.len() == len,
            ws == coeffs.window_size,
            size == coeffs.bounds@[i as int].size,
            shift == WEIGHT_BITS - precision,
            8 <= shift <= 32,
            p == precision,
            rounded == coeffs.rounded_window(i as int, p),
            norm == diffused(rounded, pow2(p) as int),
            norm == coeffs.normalized_window(i as int, p),
            depth == depth_of(channel_max),
            rows == coeffs.bounds@.len(),
            norm.len() == size,
            share == (pow2(p) - sum(rounded)) / (size as int),
            extra == (pow2(p) - sum(rounded)) % (size as int),
            -0x1_0000_0000_0000_0000_0000_0000 <= share <= 0x1_0000_0000_0000_0000_0000_0000,
            weight_limit == depth.weight_limit,
            0 < weight_limit <= 0x8000_0000,
            out@.len() == base + k,
            out@.subrange(0, base as int) == done,
            abs_total == sum_abs(norm.subrange(0, k as int)),
            0 <= abs_total <= weight_limit * k,
            forall|m: int| 0 <= m < k ==> out@[base + m] as int == #[trigger] norm[m],
            forall|m: int|
                0 <= m < k ==> -depth.weight_limit <= #[trigger] norm[m] < depth.weight_limit,
        decreases size - k,
    {
        proof {
            lemma_window_index(ws as int, i as int, rows as int, k as int);
            lemma_sum_step(norm, k as int);
        }
        let bump: i128 = if (k as i128) < extra {
            1
        } else {
            0
        };
        let weight: i128 = round_weight(coeffs.values[base + k], shift) + share + bump;
        assert(weight == norm[k as int]);
        if weight < -weight_limit || weight >= weight_limit {
            return false;
        }
        assert(weight_limit * k <= 0x8000_0000 * 0xffff_ffff) by (nonlinear_arith)
            requires
                0 < weight_limit <= 0x8000_0000,
                0 <= k <= 0xffff_ffff,
        ;
        abs_total = abs_total + if weight < 0 {
            -weight
        } else {
            weight
        };
        let ghost before = out@;
        out.push(weight as i32);
        assert(out@.subrange(0, base as int) =~= before.subrange(0, base as int));
        assert(weight_limit * (k + 1) == weight_limit * k + weight_limit) by (nonlinear_arith);
        k += 1;
    }
    assert(norm.subrange(0, size as int) =~= norm);
    assert(0 <= abs_total * channel_max <= 0x8000_0000 * 0xffff_ffff * 65535) by (nonlinear_arith)
        requires
            0 <= abs_total <= weight_limit * size,
            0 <= weight_limit <= 0x8000_0000,
            size <= 0xffff_ffff,
            0 <= channel_max <= 65535,
    ;
    if abs_total * (channel_max as i128) + bias > acc_max {
        return false;
    }
    while k < ws
        invariant
            size <= k <= ws,
            i < rows,
            base == i * ws,
            len == rows * ws,
            out@.len() == base + k,
            out@.subrange(0, base as int) == done,
            norm.len() == size,
            forall|m: int| 0 <= m < size ==> out@[base + m] as int == #[trigger] norm[m],
        decreases ws - k,
    {
        proof {
            lemma_window_index(ws as int, i as int, rows as int, k as int);
        }
        let ghost before = out@;
        out.push(0);
        assert(out@.subrange(0, base as int) =~= before.subrange(0, base as int));
        k += 1;
    }
    proof {
        lemma_window_index(ws as int, i as int, i as int + 1, 0);
        assert(window_of(out@, ws as int, size as int, i as int) =~= norm);
    }
    true
}

/// Brings the weights of `coeffs` to `precision` fractional bits, or finds
/// that the depth does not allow that precision.
fn normalize_at(coeffs: &Coefficients, precision: u8, channel_max: u16) -> (r: Option<Vec<i32>>)
    requires
        coeffs.wf(),
        channel_max == 255 || channel_max == 65535,
        MIN_PRECISION <= precision <= depth_of(channel_max).max_precision,
    ensures
        match r {
            Some(values) => {
                &&& valid_at(coeffs, precision as nat, depth_of(channel_max))
                &&& values@.len() == coeffs.values@.len()
                &&& forall|i: int|
                    0 <= i < coeffs.bounds@.len() ==> window_of(
                        values@,
                        coeffs.window_size as int,
                        coeffs.bounds@[i].size as int,
                        i,
                    ) == #[trigger] coeffs.normalized_window(i, precision as nat)
            },
            None => !valid_at(coeffs, precision as nat, depth_of(channel_max)),
        },
{
    let ghost depth = depth_of(channel_max);
    let ghost p = precision as nat;
    let ws: usize = coeffs.window_size;
    let rows: usize = coeffs.bounds.len();
    let mut out: Vec<i32> = Vec::new();
    let mut i: usize = 0;
    assert(0 * ws == 0);
    while i < rows
        invariant
            i <= rows,
            coeffs.wf(),
            rows == coeffs.bounds@.len(),
            ws == coeffs.window_size,
            channel_max == 255 || channel_max == 65535,
            MIN_PRECISION <= precision <= depth_of(channel_max).max_precision,
            depth == depth_of(channel_max),
            p == precision,
            out@.len() == i * ws,
            forall|j: int|
                0 <= j < i ==> window_ok(#[trigger] coeffs.normalized_window(j, p), p, depth),
            forall|j: int|
                0 <= j < i ==> window_of(out@, ws as int, coeffs.bounds@[j].size as int, j)
                    == #[trigger] coeffs.normalized_window(j, p),
        decreases rows - i,
    {
        let ghost done = out@;
        let ok = push_window(coeffs, i, precision, channel_max, &mut out);
        if !ok {
            return None;
        }
        proof {
            assert forall|j: int| 0 <= j < i implies window_of(
                out@,
                ws as int,
                coeffs.bounds@[j].size as int,
                j,
            ) == #[trigger] coeffs.normalized_window(j, p) by {
                let earlier = window_of(done, ws as int, coeffs.bounds@[j].size as int, j);
                let now = window_of(out@, ws as int, coeffs.bounds@[j].size as int, j);
                assert forall|m: int| 0 <= m < coeffs.bounds@[j].size implies now[m]
                    == earlier[m] by {
                    lemma_window_index(ws as int, j, i as int, m);
                    lemma_window_index(ws as int, i as int, i as int + 1, 0);
                    assert(out@.subrange(0, i * ws)[j * ws + m] == out@[j * ws + m]);
                }
                assert(now =~= earlier);
            }
        }
        i += 1;
    }
    assert(rows * ws == ws * rows) by (nonlinear_arith);
    Some(out)
}

/// At any precision, the weights of every window of a well-formed bundle
/// sum to exactly `1 << precision` once they are normalized.
pub proof fn lemma_normalized_window_sum(coeffs: &Coefficients, i: int, precision: nat)
    requires
        coeffs.wf(),
        0 <= i < coeffs.bounds@.len(),
    ensures
        coeffs.normalized_window(i, precision).len() == coeffs.bounds@[i].size,
        sum(coeffs.normalized_window(i, precision)) == pow2(precision),
{
    lemma_diffused_sum(coeffs.rounded_window(i, precision), pow2(precision) as int);
}

/// Where rounding has moved the sum of a window by no more than one unit
/// for each weight, normalizing moves no weight by more than one unit.
pub proof fn lemma_diffused_by_one(row: Seq<int>, target: int, k: int)
    requires
        0 < row.len(),
        0 <= k < row.len(),
        -row.len() <= target - sum(row) <= row.len(),
    ensures
        row[k] - 1 <= diffused(row, target)[k] <= row[k] + 1,
{
    let n = row.len() as int;
    let err = target - sum(row);
    lemma_fundamental_div_mod(err, n);
    let q = err / n;
    assert(-1 <= q <= 1 && (q == 1 ==> err % n == 0)) by (nonlinear_arith)
        requires
            err == n * q + err % n,
            0 <= err % n < n,
            -n <= err <= n,
            0 < n,
    ;
}

/// The weights of an axis at the precision of a pixel depth.
pub struct NormalizerGuard {
    pub precision: u8,
    pub window_size: usize,
    pub bounds: Vec<Bound>,
    pub values: Vec<i32>,
    pub channel_max: u16,
}

impl NormalizerGuard {
    /// What the depth of this normalizer allows.
    pub open spec fn depth(&self) -> Depth {
        if self.channel_max == 255 {
            depth_u8()
        } else {
            depth_u16()
        }
    }

    /// The weights of destination position `i`.
    pub open spec fn weights(&self, i: int) -> Seq<int> {
        window_of(self.values@, self.window_size as int, self.bounds@[i].size as int, i)
    }

    /// The weights of every window sum to exactly `1 << precision`, and no
    /// window can overflow the accumulator.
    pub open spec fn wf(&self) -> bool {
        &&& self.channel_max == 255 || self.channel_max == 65535
        &&& MIN_PRECISION <= self.precision <= self.depth().max_precision
        &&& self.window_size > 0
        &&& self.values@.len() == self.window_size * self.bounds@.len()
        &&& forall|i: int|
            0 <= i < self.bounds@.len() ==> 1 <= (#[trigger] self.bounds@[i]).size
                <= self.window_size
        &&& forall|i: int|
            0 <= i < self.bounds@.len() ==> sum(#[trigger] self.weights(i)) == pow2(
                self.precision as nat,
            )
        &&& forall|i: int|
            0 <= i < self.bounds@.len() ==> window_ok(
                #[trigger] self.weights(i),
                self.precision as nat,
                self.depth(),
            )
    }

    /// Whether every window lies inside a source axis of `dim` positions.
    pub open spec fn fits_source(&self, dim: int) -> bool {
        forall|i: int|
            0 <= i < self.bounds@.len() ==> (#[trigger] self.bounds@[i]).start
                + self.bounds@[i].size <= dim
    }

    /// Whether the normalizer holds the weights of `coeffs` at its
    /// precision.
    pub open spec fn holds(&self, coeffs: &Coefficients) -> bool {
        &&& self.window_size == coeffs.window_size
        &&& self.bounds@ == coeffs.bounds@
        &&& forall|i: int|
            0 <= i < self.bounds@.len() ==> #[trigger] self.weights(i) == coeffs.normalized_window(
                i,
                self.precision as nat,
            )
    }
}

/// The largest precision of a depth at which `coeffs` can be used, if
/// there is one.
pub open spec fn is_best_precision(coeffs: &Coefficients, precision: nat, depth: Depth) -> bool {
    &&& MIN_PRECISION <= precision <= depth.max_precision
    &&& valid_at(coeffs, precision, depth)
    &&& forall|p: nat| precision < p <= depth.max_precision ==> !valid_at(coeffs, p, depth)
}

/// Whether no precision of a depth allows `coeffs`.
pub open spec fn no_precision(coeffs: &Coefficients, depth: Depth) -> bool {
    forall|p: nat| MIN_PRECISION <= p <= depth.max_precision ==> !valid_at(coeffs, p, depth)
}

/// The weights of one window, as the passes read them.
pub struct CoefficientsChunk<'a> {
    pub start: u32,
    pub values: &'a [i32],
}

/// A sequence of machine integers as mathematical ones.
pub open spec fn as_ints(s: Seq<i32>) -> Seq<int> {
    Seq::new(s.len(), |k: int| s[k] as int)
}

/// A sum shifted right by `precision` bits and clipped to `0 ..= max`.
pub open spec fn clip_value(total: int, precision: nat, max: int) -> int {
    let shifted = total / (pow2(precision) as int);
    if shifted < 0 {
        0
    } else if shifted > max {
        max
    } else {
        shifted
    }
}

impl NormalizerGuard {
    fn new(coeffs: &Coefficients, channel_max: u16) -> (r: Option<NormalizerGuard>)
        requires
            channel_max == 255 || channel_max == 65535,
        ensures
            match r {
                Some(guard) => {
                    &&& coeffs.wf()
                    &&& guard.wf()
                    &&& guard.channel_max == channel_max
                    &&& guard.holds(coeffs)
                    &&& is_best_precision(coeffs, guard.precision as nat, depth_of(channel_max))
                },
                None => !coeffs.wf() || no_precision(coeffs, depth_of(channel_max)),
            },
    {
        if !coeffs.is_wf() {
            return None;
        }
        let ghost depth = depth_of(channel_max);
        let top: u8 = if channel_max == 255 {
            14
        } else {
            32
        };
        let mut precision: u8 = top;
        while precision >= MIN_PRECISION
            invariant
                MIN_PRECISION - 1 <= precision <= top,
                top == depth.max_precision,
                depth == depth_of(channel_max),
                channel_max == 255 || channel_max == 65535,
                coeffs.wf(),
                forall|p: nat| precision < p <= depth.max_precision ==> !valid_at(coeffs, p, depth),
            decreases precision,
        {
            match normalize_at(coeffs, precision, channel_max) {
                Some(values) => {
                    let rows: usize = coeffs.bounds.len();
                    let mut bounds: Vec<Bound> = Vec::with_capacity(rows);
                    let mut i: usize = 0;
                    while i < rows
                        invariant
                            i <= rows,
                            rows == coeffs.bounds@.len(),
                            bounds@ == coeffs.bounds@.subrange(0, i as int),
                        decreases rows - i,
                    {
                        bounds.push(coeffs.bounds[i]);
                        assert(bounds@ =~= coeffs.bounds@.subrange(0, i + 1));
                        i += 1;
                    }
                    assert(bounds@ =~= coeffs.bounds@);
                    let guard = NormalizerGuard {
                        precision,
                        window_size: coeffs.window_size,
                        bounds,
                        values,
                        channel_max,
                    };
                    proof {
                        assert forall|j: int| 0 <= j < guard.bounds@.len() implies sum(
                            #[trigger] guard.weights(j),
                        ) == pow2(precision as nat) by {
                            assert(guard.weights(j) == coeffs.normalized_window(
                                j,
                                precision as nat,
                            ));
                            lemma_diffused_sum(
                                coeffs.rounded_window(j, precision as nat),
                                pow2(precision as nat) as int,
                            );
                        }
                        assert forall|j: int| 0 <= j < guard.bounds@.len() implies window_ok(
                            #[trigger] guard.weights(j),
                            precision as nat,
                            guard.depth(),
                        ) by {
                            assert(guard.weights(j) == coeffs.normalized_window(
                                j,
                                precision as nat,
                            ));
                        }
                    }
                    return Some(guard);
                },
                None => {},
            }
            precision -= 1;
        }
        None
    }

    /// The weights of `coeffs` for a pass over 8-bit channels: 16-bit
    /// weights at the largest precision from 8 to 14 that a 32-bit
    /// accumulator allows. `None` where the bundle is malformed or no such
    /// precision exists.
    pub fn for_u8(coeffs: &Coefficients) -> (r: Option<NormalizerGuard>)
        ensures
            match r {
                Some(guard) => {
                    &&& coeffs.wf()
                    &&& guard.wf()
                    &&& guard.channel_max == 255
                    &&& guard.holds(coeffs)
                    &&& is_best_precision(coeffs, guard.precision as nat, depth_u8())
                },
                None => !coeffs.wf() || no_precision(coeffs, depth_u8()),
            },
    {
        NormalizerGuard::new(coeffs, 255)
    }

    /// The weights of `coeffs` for a pass over 16-bit channels: 32-bit
    /// weights at the largest precision from 8 to 32 that a 64-bit
    /// accumulator allows. `None` where the bundle is malformed or no such
    /// precision exists.
    pub fn for_u16(coeffs: &Coefficients) -> (r: Option<NormalizerGuard>)
        ensures
            match r {
                Some(guard) => {
                    &&& coeffs.wf()
                    &&& guard.wf()
                    &&& guard.channel_max == 65535
                    &&& guard.holds(coeffs)
                    &&& is_best_precision(coeffs, guard.precision as nat, depth_u16())
                },
                None => !coeffs.wf() || no_precision(coeffs, depth_u16()),
            },
    {
        NormalizerGuard::new(coeffs, 65535)
    }

    /// Fractional bits of the weights.
    pub fn precision(&self) -> (p: u8)
        ensures
            p == self.precision,
    {
        self.precision
    }

    /// What an accumulator starts from: half a unit, so that the final
    /// shift rounds to nearest.
    pub fn initial(&self) -> (r: i64)
        requires
            self.wf(),
        ensures
            r == pow2((self.precision - 1) as nat),
            0 < r <= 0x8000_0000,
    {
        proof {
            lemma2_to64();
            lemma_pow2_strictly_increases(6, (self.precision - 1) as nat);
            if self.precision < 32 {
                lemma_pow2_strictly_increases((self.precision - 1) as nat, 31);
            }
            vstd::bits::lemma_u64_shl_is_mul(1u64, (self.precision - 1) as u64);
        }
        (1u64 << (self.precision - 1)) as i64
    }

    /// Takes the result out of an accumulator: shifts it right by the
    /// precision and clips it to the range of a channel.
    pub fn clip(&self, total: i64) -> (r: u16)
        requires
            self.wf(),
        ensures
            r == clip_value(total as int, self.precision as nat, self.channel_max as int),
    {
        proof {
            lemma2_to64();
            lemma_pow2_strictly_increases(7, self.precision as nat);
            vstd::arithmetic::power2::lemma_pow2_pos(self.precision as nat);
            lemma_fundamental_div_mod(total as int, pow2(self.precision as nat) as int);
        }
        if total < 0 {
            assert(total as int / (pow2(self.precision as nat) as int) < 0) by (nonlinear_arith)
                requires
                    total < 0,
                    pow2(self.precision as nat) > 0,
                    total as int == pow2(self.precision as nat) * (total as int / (pow2(
                        self.precision as nat,
                    ) as int)) + total as int % (pow2(self.precision as nat) as int),
                    0 <= total as int % (pow2(self.precision as nat) as int) < pow2(
                        self.precision as nat,
                    ),
            ;
            return 0;
        }
        let magnitude: u64 = total as u64;
        proof {
            vstd::bits::lemma_u64_shr_is_div(magnitude, self.precision as u64);
        }
        let shifted: u64 = magnitude >> self.precision;
        if shifted > self.channel_max as u64 {
            self.channel_max
        } else {
            shifted as u16
        }
    }

    /// Weight `k` of destination position `i`.
    pub fn weight(&self, i: usize, k: usize) -> (w: i32)
        requires
            self.wf(),
            i < self.bounds@.len(),
            k < self.bounds@[i as int].size,
        ensures
            w == self.weights(i as int)[k as int],
    {
        let len: usize = self.values.len();
        proof {
            lemma_window_index(
                self.window_size as int,
                i as int,
                self.bounds@.len() as int,
                k as int,
            );
        }
        self.values[i * self.window_size + k]
    }

    /// The windows one by one: where each starts and its weights.
    pub fn normalized_chunks(&self) -> (chunks: Vec<CoefficientsChunk<'_>>)
        requires
            self.wf(),
        ensures
            chunks@.len() == self.bounds@.len(),
            forall|i: int|
                0 <= i < chunks@.len() ==> (#[trigger] chunks@[i]).start == self.bounds@[i].start
                    && as_ints(chunks@[i].values@) == self.weights(i),
    {
        let rows: usize = self.bounds.len();
        let len: usize = self.values.len();
        let mut chunks: Vec<CoefficientsChunk<'_>> = Vec::with_capacity(rows);
        let mut i: usize = 0;
        while i < rows
            invariant
                i <= rows,
                self.wf(),
                rows == self.bounds@.len(),
                len == self.values@.len(),
                chunks@.len() == i,
                forall|j: int|
                    0 <= j < i ==> (#[trigger] chunks@[j]).start == self.bounds@[j].start
                        && as_ints(chunks@[j].values@) == self.weights(j),
            decreases rows - i,
        {
            let bound = self.bounds[i];
            proof {
                lemma_window_index(self.window_size as int, i as int, rows as int, 0);
                lemma_window_index(
                    self.window_size as int,
                    i as int,
                    rows as int,
                    bound.size as int - 1,
                );
                assert(rows * self.window_size == self.window_size * rows) by (nonlinear_arith);
            }
            let from: usize = i * self.window_size;
            let values = vstd::slice::slice_subrange(
                self.values.as_slice(),
                from,
                from + bound.size as usize,
            );
            assert(as_ints(values@) =~= self.weights(i as int));
            chunks.push(CoefficientsChunk { start: bound.start, values });
            i += 1;
        }
        chunks
    }

    /// Whether every window lies inside a source axis of `dim` positions.
    pub fn check_source(&self, dim: u32) -> (ok: bool)
        ensures
            ok == self.fits_source(dim as int),
    {
        let rows: usize = self.bounds.len();
        let mut i: usize = 0;
        while i < rows
            invariant
                i <= rows,
                rows == self.bounds@.len(),
                forall|j: int|
                    0 <= j < i ==> (#[trigger] self.bounds@[j]).start + self.bounds@[j].size
                        <= dim,
            decreases rows - i,
        {
            let bound = self.bounds[i];
            if bound.start as u64 + bound.size as u64 > dim as u64 {
                return false;
            }
            i += 1;
        }
        true
    }
}

} // verus!
