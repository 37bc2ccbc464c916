use vstd::prelude::*;

use crate::rat::{lemma_div_round_range, spec_div_round};
use crate::TelemetryError;

verus! {

/// A sample clamped into `[0, max]`; out-of-range values land on the edges.
pub open spec fn spec_clamped(v: int, max: int) -> int {
    if v < 0 {
        0
    } else if v > max {
        max
    } else {
        v
    }
}

/// The bin a sample lands in: `round((v / max_val) * (bin_count - 1))` on the
/// clamped sample, mirrored when `reverse` is set.
pub open spec fn spec_bin_index(v: int, bin_count: int, max_val: int, reverse: bool) -> int
    recommends
        bin_count >= 1,
        max_val >= 1,
{
    let idx = spec_div_round(spec_clamped(v, max_val) * (bin_count - 1), max_val);
    if reverse {
        bin_count - 1 - idx
    } else {
        idx
    }
}

/// How many samples of `vals` land in bin `b`.
pub open spec fn spec_count_in_bin(
    vals: Seq<i64>,
    bin_count: int,
    max_val: int,
    reverse: bool,
    b: int,
) -> nat
    decreases vals.len(),
{
    if vals.len() == 0 {
        0
    } else {
        spec_count_in_bin(vals.drop_last(), bin_count, max_val, reverse, b) + (
        if spec_bin_index(vals.last() as int, bin_count, max_val, reverse) == b {
            1nat
        } else {
            0nat
        })
    }
}

/// The sum of all bins of a histogram.
pub open spec fn spec_sum(s: Seq<u32>) -> int
    decreases s.len(),
{
    if s.len() == 0 {
        0
    } else {
        spec_sum(s.drop_last()) + s.last()
    }
}

/// Changing one bin changes the sum by the difference at that bin.
proof fn lemma_sum_update(s: Seq<u32>, i: int, v: u32)
    requires
        0 <= i < s.len(),
    ensures
        spec_sum(s.update(i, v)) == spec_sum(s) - s[i] + v,
    decreases s.len(),
{
    if i == s.len() - 1 {
        assert(s.update(i, v).drop_last() =~= s.drop_last());
    } else {
        assert(s.update(i, v).drop_last() =~= s.drop_last().update(i, v));
        lemma_sum_update(s.drop_last(), i, v);
    }
}

/// Sort calibrated samples into a fixed number of bins.
///
/// Each sample is clamped into `[0, max_val]` and lands in bin
/// `round((v / max_val) * (bin_count - 1))`; with `reverse` the index is
/// mirrored, so lower values land in higher bins.  Every sample lands in
/// exactly one bin, so the bins sum to the number of samples.
///
/// Fails with `InvalidBinningRange` exactly when `max_val` is zero or
/// negative.
pub fn bin(values: &Vec<i64>, bin_count: usize, max_val: i64, reverse: bool) -> (r: Result<
    Vec<u32>,
    TelemetryError,
>)
    requires
        1 <= bin_count <= 0x7fff_ffff,
        values@.len() <= u32::MAX,
    ensures
        r is Ok <==> max_val >= 1,
        r is Err ==> r == Err::<Vec<u32>, TelemetryError>(TelemetryError::InvalidBinningRange),
        r matches Ok(h) ==> {
            &&& h@.len() == bin_count
            &&& forall|b: int|
                0 <= b < bin_count ==> h@[b] == spec_count_in_bin(
                    values@,
                    bin_count as int,
                    max_val as int,
                    reverse,
                    b,
                )
            &&& spec_sum(h@) == values@.len()
        },
{
    if max_val <= 0 {
        return Err(TelemetryError::InvalidBinningRange);
    }
    let mut counts: Vec<u32> = Vec::new();
    let mut b: usize = 0;
    while b < bin_count
        invariant
            0 <= b <= bin_count,
            counts@.len() == b,
            forall|j: int| 0 <= j < b ==> counts@[j] == 0,
            spec_sum(counts@) == 0,
        decreases bin_count - b,
    {
        let g: Ghost<Seq<u32>> = Ghost(counts@);
        counts.push(0);
        proof {
            assert(counts@.drop_last() =~= g@);
        }
        b += 1;
    }
    proof {
        assert forall|bb: int| 0 <= bb < bin_count implies counts@[bb] == spec_count_in_bin(
            values@.take(0),
            bin_count as int,
            max_val as int,
            reverse,
            bb,
        ) by {
            assert(values@.take(0).len() == 0);
        }
    }
    let n = values.len();
    let mut i: usize = 0;
    while i < n
        invariant
            n == values@.len(),
            0 <= i <= n,
            n <= u32::MAX,
            1 <= bin_count <= 0x7fff_ffff,
            max_val >= 1,
            counts@.len() == bin_count,
            forall|bb: int|
                0 <= bb < bin_count ==> counts@[bb] == spec_count_in_bin(
                    values@.take(i as int),
                    bin_count as int,
                    max_val as int,
                    reverse,
                    bb,
                ),
            forall|bb: int| 0 <= bb < bin_count ==> counts@[bb] <= i,
            spec_sum(counts@) == i,
        decreases n - i,
    {
        let v = values[i];
        let c: i64 = if v < 0 {
            0
        } else if v > max_val {
            max_val
        } else {
            v
        };
        proof {
            crate::rat::lemma_mul_bound(
                2 * (c as int),
                bin_count - 1,
                0x1_0000_0000_0000_0000,
                0x8000_0000,
            );
            vstd::arithmetic::mul::lemma_mul_inequality(
                c as int,
                max_val as int,
                bin_count - 1 as int,
            );
            lemma_div_round_range(c as int * (bin_count - 1), max_val as int, bin_count - 1);
            assert(2 * (c as int) * (bin_count - 1) == 2 * ((c as int) * (bin_count - 1)))
                by (nonlinear_arith);
        }
        let num: i128 = 2 * (c as i128) * ((bin_count - 1) as i128) + (max_val as i128);
        let den: i128 = 2 * (max_val as i128);
        let q: usize = (num / den) as usize;
        let idx: usize = if reverse {
            bin_count - 1 - q
        } else {
            q
        };
        let g: Ghost<Seq<u32>> = Ghost(counts@);
        counts[idx] = counts[idx] + 1;
        proof {
            lemma_sum_update(g@, idx as int, (g@[idx as int] + 1) as u32);
            assert(values@.take(i + 1).drop_last() =~= values@.take(i as int));
            assert(values@.take(i + 1).last() == values@[i as int]);
        }
        i += 1;
    }
    proof {
        assert(values@.take(n as int) =~= values@);
    }
    Ok(counts)
}

} // verus!
