use vstd::prelude::*;

use crate::rat::{
    lemma_eqv_trans, lemma_int_scale_cancel, lemma_mul_bound, lemma_nonzero_mul,
    lemma_radd_rsub_cancel, lemma_rdiv_congruence, lemma_rmul_rdiv_cancel,
    lemma_rsub_congruence, rat_add, rat_div, rat_div_int, rat_mul, rat_sub, Rat, RatVal,
};
use crate::TelemetryError;

verus! {

/// Low end of the sensor's nominal raw range, in raw counts.
pub const DEFAULT_SUS_MIN: i64 = 0;

/// High end of the sensor's nominal raw range, in raw counts.
pub const DEFAULT_SUS_MAX: i64 = 1024;

/// Width of the sensor's nominal raw range.
pub const DEFAULT_SUS_DIFF: i64 = DEFAULT_SUS_MAX - DEFAULT_SUS_MIN;

/// Mapped range that a default record (stroke length 100, identity scale)
/// remaps the nominal raw range onto.
pub const MAPPED_MAX: i64 = 100;

/// Largest observed bound that the calibration calculator accepts; keeps the
/// derived scale and offset small enough for the rational arithmetic.
pub const OBSERVED_BOUND: i64 = 16384;

/// Budget ladder for the rational arithmetic: each constant bounds the
/// numerators and denominators after one more operation of the remap or
/// inverse chain, and the largest stays far below `RAT_LIMIT`.
pub const B10: i128 = 0x400;
pub const B16: i128 = 0x1_0000;
pub const B20: i128 = 0x10_0000;
pub const B26: i128 = 0x400_0000;
pub const B32: i128 = 0x1_0000_0000;
pub const B48: i128 = B32 * B16;
pub const B75: i128 = 2 * B48 * B26;
pub const B91: i128 = B75 * B16;
pub const B101: i128 = B91 * B10;
pub const B58: i128 = B48 * B10;
pub const B74: i128 = B58 * B16;
pub const B101I: i128 = 2 * B74 * B26;
pub const B117: i128 = B101I * B16;
pub const B75N: i128 = 2 * B48 * B26;
pub const B91N: i128 = B75N * B16;

/// The affine calibration of one suspension channel: raw sensor counts are
/// turned into physical travel units by
/// `(raw * scale + offset) * stroke_len / DEFAULT_SUS_DIFF`.
///
/// `scale` and `offset` are derived from observed raw bounds by
/// `calc_vals_from_min_and_max`, never set directly.
#[derive(Debug, Clone, Copy, PartialEq, Eq, Structural)]
pub struct SuspensionRemapInfo {
    pub stroke_len: Rat,
    pub scale: Rat,
    pub offset: Rat,
}

/// The calibration mapping handed to the pipeline: one record per reference
/// key, keys unique by construction of the update methods.
#[derive(Debug, Clone)]
pub struct ConfigInfo {
    pub sus_remap_info: Vec<(String, SuspensionRemapInfo)>,
}

/// Scale derived from observed raw bounds: `DEFAULT_SUS_DIFF / (max - min)`.
pub open spec fn spec_scale_from_bounds(new_min: int, new_max: int) -> RatVal {
    RatVal::from_int(DEFAULT_SUS_DIFF as int).rdiv(RatVal { num: new_max - new_min, den: 1 })
}

/// Offset derived from observed raw bounds:
/// `DEFAULT_SUS_MIN - min * scale`.
pub open spec fn spec_offset_from_bounds(new_min: int, new_max: int) -> RatVal {
    RatVal::from_int(DEFAULT_SUS_MIN as int).rsub(
        RatVal::from_int(new_min).rmul(spec_scale_from_bounds(new_min, new_max)),
    )
}

/// Clamping a rational value into `[lo, hi]`.
pub open spec fn spec_clamp(v: RatVal, lo: RatVal, hi: RatVal) -> RatVal {
    if v.le(lo) {
        lo
    } else if hi.le(v) {
        hi
    } else {
        v
    }
}

impl SuspensionRemapInfo {
    /// Denominators positive and fields small enough that one remap or inverse
    /// stays within the rational arithmetic's `i128` budget.
    pub open spec fn wf(self) -> bool {
        &&& self.stroke_len.bounded(0x1_0000)
        &&& self.scale.bounded(0x1_0000)
        &&& self.offset.bounded(0x400_0000)
    }

    /// The transform can be undone: neither the scale nor the stroke length is
    /// zero.
    pub open spec fn invertible(self) -> bool {
        &&& self.scale@.num != 0
        &&& self.stroke_len@.num != 0
    }

    /// `raw * scale + offset`, the remap without the stroke-length factor.
    pub open spec fn spec_remap_without_stroke_len_scale(self, x: RatVal) -> RatVal {
        x.rmul(self.scale@).radd(self.offset@)
    }

    /// The full remap: `(raw * scale + offset) * stroke_len / DEFAULT_SUS_DIFF`.
    pub open spec fn spec_remap(self, x: RatVal) -> RatVal {
        self.spec_remap_without_stroke_len_scale(x).rmul(self.stroke_len@).rdiv_int(
            DEFAULT_SUS_DIFF as int,
        )
    }

    /// The exact algebraic inverse of `spec_remap`.
    pub open spec fn spec_inverse(self, v: RatVal) -> RatVal {
        v.rmul(RatVal::from_int(DEFAULT_SUS_DIFF as int)).rdiv(self.stroke_len@).rsub(
            self.offset@,
        ).rdiv(self.scale@)
    }

    /// The exact algebraic inverse of `spec_remap_without_stroke_len_scale`.
    pub open spec fn spec_inverse_without_stroke_len_scale(self, v: RatVal) -> RatVal {
        v.rsub(self.offset@).rdiv(self.scale@)
    }

    /// Whether the record is well formed; lets unverified callers check the
    /// preconditions of the remap family before calling it.
    pub fn is_well_formed(&self) -> (r: bool)
        ensures
            r == self.wf(),
    {
        let sl = &self.stroke_len;
        let sc = &self.scale;
        let of = &self.offset;
        -0x1_0000 <= sl.num && sl.num <= 0x1_0000 && 0 < sl.den && sl.den <= 0x1_0000
            && -0x1_0000 <= sc.num && sc.num <= 0x1_0000 && 0 < sc.den && sc.den <= 0x1_0000
            && -0x400_0000 <= of.num && of.num <= 0x400_0000 && 0 < of.den && of.den
            <= 0x400_0000
    }

    /// Whether `inverse` may be applied to this record.
    pub fn is_invertible(&self) -> (r: bool)
        ensures
            r == self.invertible(),
    {
        self.scale.num != 0 && self.stroke_len.num != 0
    }

    /// Derive `scale` and `offset` from an observed raw low/high pair, so that
    /// `remap` sends `new_min` to the low end of the mapped range and
    /// `new_max` to the high end.
    ///
    /// Fails with `InvalidCalibrationBounds`, leaving the record untouched,
    /// exactly when the two bounds coincide.
    pub fn calc_vals_from_min_and_max(&mut self, new_min: i64, new_max: i64) -> (r: Result<
        (),
        TelemetryError,
    >)
        requires
            -OBSERVED_BOUND <= new_min <= OBSERVED_BOUND,
            -OBSERVED_BOUND <= new_max <= OBSERVED_BOUND,
        ensures
            r is Ok <==> new_min != new_max,
            r is Err ==> *final(self) == *old(self) && r == Err::<(), TelemetryError>(
                TelemetryError::InvalidCalibrationBounds,
            ),
            r is Ok ==> {
                &&& final(self).stroke_len == old(self).stroke_len
                &&& final(self).scale@ == spec_scale_from_bounds(new_min as int, new_max as int)
                &&& final(self).offset@ == spec_offset_from_bounds(new_min as int, new_max as int)
                &&& final(self).scale.bounded(0x1_0000)
                &&& final(self).offset.bounded(0x400_0000)
                &&& final(self).scale@.num != 0
            },
    {
        if new_min == new_max {
            return Err(TelemetryError::InvalidCalibrationBounds);
        }
        let lo = Rat::from_int(new_min);
        let hi = Rat::from_int(new_max);
        let diff = rat_sub(&hi, &lo, Ghost(0x8000), Ghost(0x8000));
        let scale = rat_div(
            &Rat::from_int(DEFAULT_SUS_DIFF),
            &diff,
            Ghost(0x400),
            Ghost(0x1_0000),
        );
        let scaled_min = rat_mul(&lo, &scale, Ghost(0x4000), Ghost(B16 as int));
        let offset = rat_sub(
            &Rat::from_int(DEFAULT_SUS_MIN),
            &scaled_min,
            Ghost(1),
            Ghost(B32 as int),
        );
        self.scale = scale;
        self.offset = offset;
        Ok(())
    }

    /// Remap one raw value into physical travel units.
    pub fn remap(&self, val: &Rat) -> (r: Rat)
        requires
            self.wf(),
            val.wf(),
            val.bounded(0x1_0000_0000),
        ensures
            r@ == self.spec_remap(val@),
            r.wf(),
            r.bounded(B101 as int),
    {
        let t1 = rat_mul(val, &self.scale, Ghost(B32 as int), Ghost(B16 as int));
        let t2 = rat_add(&t1, &self.offset, Ghost(B48 as int), Ghost(B26 as int));
        let t3 = rat_mul(&t2, &self.stroke_len, Ghost(B75 as int), Ghost(B16 as int));
        rat_div_int(&t3, DEFAULT_SUS_DIFF, Ghost(B91 as int))
    }

    /// Remap one raw value, without folding in the stroke length.
    pub fn remap_without_stroke_len_scale(&self, val: &Rat) -> (r: Rat)
        requires
            self.wf(),
            val.wf(),
            val.bounded(0x1_0000_0000),
        ensures
            r@ == self.spec_remap_without_stroke_len_scale(val@),
            r.wf(),
            r.bounded(B75 as int),
    {
        let t1 = rat_mul(val, &self.scale, Ghost(B32 as int), Ghost(B16 as int));
        rat_add(&t1, &self.offset, Ghost(B48 as int), Ghost(B26 as int))
    }

    /// Remap one raw value and clamp the result into `[lo, hi]`.
    pub fn remap_with_clamp(&self, val: &Rat, lo: &Rat, hi: &Rat) -> (r: Rat)
        requires
            self.wf(),
            val.wf(),
            val.bounded(0x1_0000_0000),
            lo.wf(),
            hi.wf(),
            lo.bounded(B20 as int),
            hi.bounded(B20 as int),
            lo@.le(hi@),
        ensures
            r@ == spec_clamp(self.spec_remap(val@), lo@, hi@),
            r.wf(),
            r.bounded(B101 as int),
            lo@.le(r@),
            r@.le(hi@),
    {
        let m = self.remap(val);
        proof {
            lemma_mul_bound(m.num as int, lo.den as int, B101 as int, B20 as int);
            lemma_mul_bound(lo.num as int, m.den as int, B20 as int, B101 as int);
            lemma_mul_bound(m.num as int, hi.den as int, B101 as int, B20 as int);
            lemma_mul_bound(hi.num as int, m.den as int, B20 as int, B101 as int);
        }
        m.clamp(lo, hi)
    }

    /// The mapped value of the nominal raw low end.
    pub fn min(&self) -> (r: Rat)
        requires
            self.wf(),
        ensures
            r@ == self.spec_remap(RatVal::from_int(DEFAULT_SUS_MIN as int)),
            r.wf(),
    {
        self.remap(&Rat::from_int(DEFAULT_SUS_MIN))
    }

    /// The mapped value of the nominal raw high end.
    pub fn max(&self) -> (r: Rat)
        requires
            self.wf(),
        ensures
            r@ == self.spec_remap(RatVal::from_int(DEFAULT_SUS_MAX as int)),
            r.wf(),
    {
        self.remap(&Rat::from_int(DEFAULT_SUS_MAX))
    }

    /// Undo `remap`: recover the raw value that maps to `val`.
    pub fn inverse(&self, val: &Rat) -> (r: Rat)
        requires
            self.wf(),
            self.invertible(),
            val.wf(),
            val.bounded(B48 as int),
        ensures
            r@ == self.spec_inverse(val@),
            r.wf(),
            r.bounded(B117 as int),
    {
        let t1 = rat_mul(
            val,
            &Rat::from_int(DEFAULT_SUS_DIFF),
            Ghost(B48 as int),
            Ghost(B10 as int),
        );
        let t2 = rat_div(&t1, &self.stroke_len, Ghost(B58 as int), Ghost(B16 as int));
        let t3 = rat_sub(&t2, &self.offset, Ghost(B74 as int), Ghost(B26 as int));
        rat_div(&t3, &self.scale, Ghost(B101I as int), Ghost(B16 as int))
    }

    /// Undo `remap_without_stroke_len_scale`.
    pub fn inverse_without_stroke_len_scale(&self, val: &Rat) -> (r: Rat)
        requires
            self.wf(),
            self.scale@.num != 0,
            val.wf(),
            val.bounded(B48 as int),
        ensures
            r@ == self.spec_inverse_without_stroke_len_scale(val@),
            r.wf(),
            r.bounded(B91N as int),
    {
        let t1 = rat_sub(val, &self.offset, Ghost(B48 as int), Ghost(B26 as int));
        rat_div(&t1, &self.scale, Ghost(B75N as int), Ghost(B16 as int))
    }
}

impl Default for SuspensionRemapInfo {
    /// Identity scale, zero offset, stroke length `MAPPED_MAX`.
    fn default() -> (r: SuspensionRemapInfo)
        ensures
            r.stroke_len.num == MAPPED_MAX && r.stroke_len.den == 1,
            r.scale.num == 1 && r.scale.den == 1,
            r.offset.num == 0 && r.offset.den == 1,
            r.wf(),
            r.invertible(),
    {
        SuspensionRemapInfo {
            stroke_len: Rat::from_int(MAPPED_MAX),
            scale: Rat::from_int(1),
            offset: Rat::from_int(0),
        }
    }
}

/// Round trip: remapping a raw value and inverting the result gives back the
/// raw value exactly, for every invertible record and every value.
pub proof fn lemma_remap_inverse_round_trip(rec: SuspensionRemapInfo, x: RatVal)
    requires
        rec.stroke_len@.den > 0,
        rec.scale@.den > 0,
        rec.offset@.den > 0,
        rec.invertible(),
        x.den != 0,
    ensures
        rec.spec_inverse(rec.spec_remap(x)).eqv(x),
{
    let s = rec.scale@;
    let o = rec.offset@;
    let l = rec.stroke_len@;
    let d = DEFAULT_SUS_DIFF as int;
    let t1 = x.rmul(s);
    let t2 = t1.radd(o);
    let t3 = t2.rmul(l);
    let m = t3.rdiv_int(d);
    let u1 = m.rmul(RatVal::from_int(d));
    let u2 = u1.rdiv(l);
    let u3 = u2.rsub(o);
    let u4 = u3.rdiv(s);
    assert(rec.spec_remap(x) == m);
    assert(rec.spec_inverse(m) == u4);

    // Denominators along both chains are products of nonzero factors.
    lemma_nonzero_mul(x.den, s.den);  // t1.den
    lemma_nonzero_mul(t1.den, o.den);  // t2.den
    lemma_nonzero_mul(t2.den, l.den);  // t3.den
    lemma_nonzero_mul(t3.den, d);  // m.den
    lemma_nonzero_mul(t3.den, l.num);  // t3.rdiv(l).den, up to sign
    lemma_nonzero_mul(u1.den, l.num);  // u2.den, up to sign
    lemma_nonzero_mul(t2.den, o.den);  // t2.rsub(o).den
    lemma_nonzero_mul(u2.den, o.den);  // u3.den
    lemma_nonzero_mul(t1.den, s.num);  // t1.rdiv(s).den, up to sign

    lemma_int_scale_cancel(t3, d);
    // u1 eqv t3, so dividing both by the stroke length keeps them eqv.
    lemma_rdiv_congruence(u1, t3, l);
    lemma_rmul_rdiv_cancel(t2, l);
    lemma_eqv_trans(u2, t3.rdiv(l), t2);
    lemma_rsub_congruence(u2, t2, o);
    lemma_radd_rsub_cancel(t1, o);
    lemma_eqv_trans(u3, t2.rsub(o), t1);
    lemma_rdiv_congruence(u3, t1, s);
    lemma_rmul_rdiv_cancel(x, s);
    lemma_eqv_trans(u4, t1.rdiv(s), x);
}

/// Round trip of the stroke-length-free pair: for every record with a nonzero
/// scale, `inverse_without_stroke_len_scale(remap_without_stroke_len_scale(x))`
/// gives back `x` exactly.
pub proof fn lemma_remap_inverse_round_trip_without_stroke_len_scale(
    rec: SuspensionRemapInfo,
    x: RatVal,
)
    requires
        rec.scale@.den > 0,
        rec.offset@.den > 0,
        rec.scale@.num != 0,
        x.den != 0,
    ensures
        rec.spec_inverse_without_stroke_len_scale(
            rec.spec_remap_without_stroke_len_scale(x),
        ).eqv(x),
{
    let s = rec.scale@;
    let o = rec.offset@;
    let t1 = x.rmul(s);
    let t2 = t1.radd(o);
    let u1 = t2.rsub(o);
    let u2 = u1.rdiv(s);
    lemma_nonzero_mul(x.den, s.den);  // t1.den
    lemma_nonzero_mul(t1.den, o.den);  // t2.den
    lemma_nonzero_mul(t2.den, o.den);  // u1.den
    lemma_nonzero_mul(u1.den, s.num);  // u2.den, up to sign
    lemma_nonzero_mul(t1.den, s.num);  // t1.rdiv(s).den, up to sign
    lemma_radd_rsub_cancel(t1, o);
    lemma_rdiv_congruence(u1, t1, s);
    lemma_rmul_rdiv_cancel(x, s);
    lemma_eqv_trans(u2, t1.rdiv(s), x);
}

/// First record stored under `key`, scanning in order.
pub open spec fn spec_lookup(
    entries: Seq<(String, SuspensionRemapInfo)>,
    key: Seq<char>,
) -> Option<SuspensionRemapInfo>
    decreases entries.len(),
{
    if entries.len() == 0 {
        None
    } else if entries[0].0@ == key {
        Some(entries[0].1)
    } else {
        spec_lookup(entries.drop_first(), key)
    }
}

/// If the first `i` entries miss `key`, the lookup is decided by the rest.
proof fn lemma_lookup_skip(entries: Seq<(String, SuspensionRemapInfo)>, key: Seq<char>, i: int)
    requires
        0 <= i <= entries.len(),
        forall|j: int| 0 <= j < i ==> entries[j].0@ != key,
    ensures
        spec_lookup(entries, key) == spec_lookup(entries.skip(i), key),
    decreases i,
{
    if i > 0 {
        assert(entries[0].0@ != key);
        assert forall|j: int| 0 <= j < i - 1 implies entries.drop_first()[j].0@ != key by {
            assert(entries.drop_first()[j] == entries[j + 1]);
        }
        lemma_lookup_skip(entries.drop_first(), key, i - 1);
        assert(entries.drop_first().skip(i - 1) =~= entries.skip(i));
    } else {
        assert(entries.skip(0) =~= entries);
    }
}

impl ConfigInfo {
    /// The lookup of `key` in this mapping.
    pub open spec fn spec_get(self, key: Seq<char>) -> Option<SuspensionRemapInfo> {
        spec_lookup(self.sus_remap_info@, key)
    }

    /// An empty mapping, with no calibration records.
    pub fn load_blank() -> (r: ConfigInfo)
        ensures
            r.sus_remap_info@.len() == 0,
            forall|k: Seq<char>| r.spec_get(k) is None,
    {
        ConfigInfo { sus_remap_info: Vec::new() }
    }

    /// Store `info` under `key`, adding the key or replacing what it held.
    pub fn add_sus_remap_info(&mut self, key: String, info: SuspensionRemapInfo)
        ensures
            final(self).spec_get(key@) == Some(info),
            forall|k: Seq<char>|
                k != key@ ==> final(self).spec_get(k) == old(self).spec_get(k),
    {
        let n = self.sus_remap_info.len();
        let mut i: usize = 0;
        while i < n
            invariant
                n == self.sus_remap_info.len(),
                0 <= i <= n,
                *self == *old(self),
                forall|j: int| 0 <= j < i ==> self.sus_remap_info@[j].0@ != key@,
            decreases n - i,
        {
            if self.sus_remap_info[i].0 == key {
                let g: Ghost<Seq<(String, SuspensionRemapInfo)>> = Ghost(self.sus_remap_info@);
                self.sus_remap_info[i].1 = info;
                proof {
                    lemma_lookup_replace(g@, self.sus_remap_info@, key@, i as int, info);
                }
                return ;
            }
            i += 1;
        }
        let g: Ghost<Seq<(String, SuspensionRemapInfo)>> = Ghost(self.sus_remap_info@);
        self.sus_remap_info.push((key, info));
        proof {
            let e = self.sus_remap_info@.last();
            assert(self.sus_remap_info@ =~= g@.push(e));
            lemma_lookup_append(g@, e);
        }
    }

    /// Replace the record under `key`; the key must already be present.
    pub fn set_sus_remap_info(&mut self, key: String, info: SuspensionRemapInfo)
        requires
            old(self).spec_get(key@) is Some,
        ensures
            final(self).spec_get(key@) == Some(info),
            forall|k: Seq<char>|
                k != key@ ==> final(self).spec_get(k) == old(self).spec_get(k),
    {
        self.add_sus_remap_info(key, info);
    }

    /// Look up the record for a reference key.
    pub fn get_sus_remap_info(&self, key: &String) -> (r: Option<SuspensionRemapInfo>)
        ensures
            r == self.spec_get(key@),
    {
        let n = self.sus_remap_info.len();
        let mut i: usize = 0;
        while i < n
            invariant
                n == self.sus_remap_info.len(),
                0 <= i <= n,
                forall|j: int| 0 <= j < i ==> self.sus_remap_info@[j].0@ != key@,
            decreases n - i,
        {
            if self.sus_remap_info[i].0 == *key {
                proof {
                    lemma_lookup_skip(self.sus_remap_info@, key@, i as int);
                    assert(self.sus_remap_info@.skip(i as int)[0] == self.sus_remap_info@[
                        i as int
                    ]);
                }
                return Some(self.sus_remap_info[i].1);
            }
            i += 1;
        }
        proof {
            lemma_lookup_skip(self.sus_remap_info@, key@, n as int);
        }
        None
    }
}

/// Replacing the record at the first hit of `key` updates the lookup of `key`
/// and leaves every other lookup unchanged.
proof fn lemma_lookup_replace(
    before: Seq<(String, SuspensionRemapInfo)>,
    after: Seq<(String, SuspensionRemapInfo)>,
    key: Seq<char>,
    i: int,
    info: SuspensionRemapInfo,
)
    requires
        0 <= i < before.len(),
        after.len() == before.len(),
        forall|j: int| 0 <= j < before.len() && j != i ==> after[j] == before[j],
        after[i].0 == before[i].0,
        after[i].1 == info,
        before[i].0@ == key,
        forall|j: int| 0 <= j < i ==> before[j].0@ != key,
    ensures
        spec_lookup(after, key) == Some(info),
        forall|k: Seq<char>| k != key ==> spec_lookup(after, k) == spec_lookup(before, k),
    decreases i,
{
    if i == 0 {
        assert forall|k: Seq<char>| k != key implies spec_lookup(after, k) == spec_lookup(
            before,
            k,
        ) by {
            assert(after.drop_first() =~= before.drop_first());
        }
    } else {
        assert forall|j: int|
            0 <= j < before.drop_first().len() && j != i - 1 implies after.drop_first()[j]
            == before.drop_first()[j] by {
            assert(after.drop_first()[j] == after[j + 1]);
            assert(before.drop_first()[j] == before[j + 1]);
        }
        assert forall|j: int| 0 <= j < i - 1 implies before.drop_first()[j].0@ != key by {
            assert(before.drop_first()[j] == before[j + 1]);
        }
        assert(after.drop_first()[i - 1] == after[i]);
        assert(before.drop_first()[i - 1] == before[i]);
        lemma_lookup_replace(before.drop_first(), after.drop_first(), key, i - 1, info);
        assert(after[0] == before[0]);
        assert(before[0].0@ != key);
        assert forall|k: Seq<char>| k != key implies spec_lookup(after, k) == spec_lookup(
            before,
            k,
        ) by {
            assert(after[0] == before[0]);
            if before[0].0@ != k {
                assert(spec_lookup(after.drop_first(), k) == spec_lookup(
                    before.drop_first(),
                    k,
                ));
            }
        }
    }
}

/// Appending an entry under a fresh key decides that key's lookup and leaves
/// every other lookup unchanged.
proof fn lemma_lookup_append(
    entries: Seq<(String, SuspensionRemapInfo)>,
    e: (String, SuspensionRemapInfo),
)
    requires
        forall|j: int| 0 <= j < entries.len() ==> entries[j].0@ != e.0@,
    ensures
        spec_lookup(entries.push(e), e.0@) == Some(e.1),
        forall|k: Seq<char>|
            k != e.0@ ==> spec_lookup(entries.push(e), k) == spec_lookup(entries, k),
    decreases entries.len(),
{
    if entries.len() == 0 {
        assert(entries.push(e)[0] == e);
        assert forall|k: Seq<char>|
            k != e.0@ implies spec_lookup(entries.push(e), k) == spec_lookup(entries, k) by {
            assert(entries.push(e)[0] == e);
            assert(entries.push(e).drop_first() =~= entries);
        }
    } else {
        assert forall|j: int|
            0 <= j < entries.drop_first().len() implies entries.drop_first()[j].0@ != e.0@ by {
            assert(entries.drop_first()[j] == entries[j + 1]);
        }
        lemma_lookup_append(entries.drop_first(), e);
        assert(entries.push(e)[0] == entries[0]);
        assert(entries[0].0@ != e.0@);
        assert(entries.push(e).drop_first() =~= entries.drop_first().push(e));
        assert forall|k: Seq<char>|
            k != e.0@ implies spec_lookup(entries.push(e), k) == spec_lookup(entries, k) by {
            assert(entries.push(e)[0] == entries[0]);
            assert(entries.push(e).drop_first() =~= entries.drop_first().push(e));
            if entries[0].0@ != k {
                assert(spec_lookup(entries.drop_first().push(e), k) == spec_lookup(
                    entries.drop_first(),
                    k,
                ));
            }
        }
    }
}

} // verus!
