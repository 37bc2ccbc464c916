use vstd::prelude::*;
use vstd::string::StrSliceExecFns;

use crate::binner::{bin, spec_count_in_bin, spec_sum};
use crate::config_info::{spec_clamp, ConfigInfo, SuspensionRemapInfo};
use crate::graph::line_manager::{strictly_increasing_t, LineManager, Point, MAX_BASE_LEN};
use crate::loader::{
    check_cell, find_char, spec_digits_val, spec_pot_lookup, truncate_val, wf_cell, Loader,
    RawPotData,
};
use crate::rat::{
    lemma_div_round_range, lemma_mul_bound, spec_div_round, Rat, RatVal,
};
use crate::strokes::{
    analyze_strokes, spec_compressions_upto, spec_rebounds_upto, spec_step, Stroke,
};
use crate::turning::{
    detect_turning_points, detector_window, spec_detect, tp_seq_ok, TurningPoint, VALUE_BOUND,
};
use crate::TelemetryError;

verus! {

/// Size of the legacy fixed sample buffer.
pub const BUFF_SIZE: usize = 4500;

/// The polling rate the recorder usually runs at, in hertz.
pub const FREQUENCY: u32 = 250;

/// The minimum period of a compression plus rebound cycle, in milliseconds;
/// used to size the turning-point detector's window.
pub const MIN_PERIOD_MS: u32 = 100;

/// Fixed-point scale of calibrated samples: thousandths of a travel unit.
pub const MILLI: i64 = 1000;

/// The number of histogram bins one channel is counted into.
pub const BIN_COUNT: usize = 26;

/// The travel range calibrated samples are clamped into, in whole units.
pub const CLAMP_MAX: i64 = 100;

/// One calibrated fixed-point sample: the raw count remapped, clamped into
/// `[0, CLAMP_MAX]`, and rounded to `MILLI`-ths of a unit.
pub open spec fn spec_cal_sample(rec: SuspensionRemapInfo, v: u32) -> int {
    let c = spec_clamp(
        rec.spec_remap(RatVal::from_int(v as int)),
        RatVal::from_int(0),
        RatVal::from_int(CLAMP_MAX as int),
    );
    spec_div_round(c.num * MILLI, c.den)
}

/// The calibrated fixed-point samples of a raw channel.
pub open spec fn spec_calibrated(rec: SuspensionRemapInfo, raw: Seq<u32>) -> Seq<i64> {
    Seq::new(raw.len(), |i: int| spec_cal_sample(rec, raw[i]) as i64)
}

/// The signed value deltas of the completed strokes: one entry per pair of
/// consecutive turning points, the closing pair excluded.
pub open spec fn spec_displacements(tps: Seq<TurningPoint>) -> Seq<i64> {
    Seq::new(
        if tps.len() >= 2 {
            (tps.len() - 2) as nat
        } else {
            0
        },
        |p: int| (tps[p + 1].value - tps[p].value) as i64,
    )
}

/// The sum of a sample vector.
pub open spec fn spec_sum_i64(s: Seq<i64>) -> int
    decreases s.len(),
{
    if s.len() == 0 {
        0
    } else {
        spec_sum_i64(s.drop_last()) + s.last()
    }
}

/// The outputs one channel's rebuild publishes, each filled exactly once per
/// rebuild.
pub struct ChannelData {
    pub calibrated: Option<Vec<i64>>,
    pub counts: Option<Vec<u32>>,
    pub turning_points: Option<Vec<TurningPoint>>,
    pub compressions: Option<Vec<Stroke>>,
    pub rebounds: Option<Vec<Stroke>>,
    pub displacements: Option<Vec<i64>>,
    pub line: Option<LineManager>,
    pub dyn_sag: Option<Rat>,
}

/// The two suspension channels of a run.
#[derive(Debug, Clone, Copy, PartialEq, Eq, Structural)]
pub enum Channel {
    Front,
    Rear,
}

/// The typed result store of one telemetry run: one slot per derived signal
/// and channel, in place of a string-keyed bag of values.
pub struct Data {
    pub front: ChannelData,
    pub rear: ChannelData,
}

/// An empty channel: nothing published yet.
pub open spec fn spec_channel_empty(cd: ChannelData) -> bool {
    &&& cd.calibrated is None
    &&& cd.counts is None
    &&& cd.turning_points is None
    &&& cd.compressions is None
    &&& cd.rebounds is None
    &&& cd.displacements is None
    &&& cd.line is None
    &&& cd.dyn_sag is None
}

/// What a finished rebuild of one channel holds: every stage's output,
/// derived from the raw samples through the calibration record.
pub open spec fn spec_channel_built(
    cd: ChannelData,
    raw: Seq<u32>,
    rec: SuspensionRemapInfo,
    window: int,
    hysteresis: int,
    min_amplitude: int,
    noise_floor: int,
    freq: u32,
) -> bool {
    let samples = spec_calibrated(rec, raw);
    let tps = spec_detect(samples, window, hysteresis, min_amplitude);
    &&& cd.calibrated matches Some(s) && s@ == samples
    &&& cd.counts matches Some(h) && h@.len() == BIN_COUNT && spec_sum(h@) == samples.len()
        && (forall|b: int|
        0 <= b < BIN_COUNT ==> h@[b] == spec_count_in_bin(
            samples,
            BIN_COUNT as int,
            CLAMP_MAX * MILLI,
            false,
            b,
        ))
    &&& cd.turning_points matches Some(t) && t@ == tps
    &&& cd.compressions matches Some(c) && c@ == spec_compressions_upto(
        tps,
        samples,
        spec_step(freq),
        noise_floor,
        tps.len() - 2,
    )
    &&& cd.rebounds matches Some(rb) && rb@ == spec_rebounds_upto(
        tps,
        samples,
        spec_step(freq),
        noise_floor,
        tps.len() - 2,
    )
    &&& cd.displacements matches Some(d) && d@ == spec_displacements(tps)
    &&& cd.line matches Some(l) && l.wf() && l.level0().len() == samples.len() && (forall|i: int|
        0 <= i < samples.len() ==> (#[trigger] l.level0()[i]) == Point { t: i as i64, v: samples[i] })
    &&& cd.dyn_sag matches Some(m) && m.wf() && (samples.len() == 0 ==> m@ == RatVal {
        num: 0,
        den: 1,
    }) && (samples.len() >= 1 ==> m@.num == spec_sum_i64(samples) && m@.den == samples.len())
}

impl ChannelData {
    /// A channel with no published outputs.
    pub fn empty() -> (r: ChannelData)
        ensures
            spec_channel_empty(r),
    {
        ChannelData {
            calibrated: None,
            counts: None,
            turning_points: None,
            compressions: None,
            rebounds: None,
            displacements: None,
            line: None,
            dyn_sag: None,
        }
    }
}

impl Data {
    /// The store of the named channel.
    pub open spec fn channel(self, ch: Channel) -> ChannelData {
        match ch {
            Channel::Front => self.front,
            Channel::Rear => self.rear,
        }
    }

    /// The opposite channel.
    pub open spec fn spec_other(ch: Channel) -> Channel {
        match ch {
            Channel::Front => Channel::Rear,
            Channel::Rear => Channel::Front,
        }
    }

    /// A store with nothing published.
    pub fn new() -> (r: Data)
        ensures
            spec_channel_empty(r.front),
            spec_channel_empty(r.rear),
    {
        Data { front: ChannelData::empty(), rear: ChannelData::empty() }
    }

    /// Drop every published output of both channels.
    pub fn clear(&mut self)
        ensures
            spec_channel_empty(final(self).front),
            spec_channel_empty(final(self).rear),
    {
        self.front = ChannelData::empty();
        self.rear = ChannelData::empty();
    }

    /// Borrow the results of one channel.
    pub fn channel_data(&self, ch: Channel) -> (r: &ChannelData)
        ensures
            *r == self.channel(ch),
    {
        match ch {
            Channel::Front => &self.front,
            Channel::Rear => &self.rear,
        }
    }

    /// The exact mean of a sample vector, as a rational: the sum over the
    /// length, or zero for an empty vector.
    pub fn data_average_raw(&self, data: &Vec<i64>) -> (r: Rat)
        requires
            forall|j: int| 0 <= j < data@.len() ==> -VALUE_BOUND <= #[trigger] data@[j] <= VALUE_BOUND,
        ensures
            r.wf(),
            data@.len() == 0 ==> r@ == (RatVal { num: 0, den: 1 }),
            data@.len() >= 1 ==> r@.num == spec_sum_i64(data@) && r@.den == data@.len(),
    {
        mean_i64(data)
    }

    /// The exact mean of one channel's histogram counts.
    pub fn data_average(&self, ch: Channel) -> (r: Result<Rat, TelemetryError>)
        ensures
            r is Ok <==> self.channel(ch).counts is Some,
            r is Err ==> r == Err::<Rat, TelemetryError>(TelemetryError::FieldNotFound),
            r matches Ok(m) ==> {
                let h = self.channel(ch).counts->0;
                &&& m.wf()
                &&& h@.len() == 0 ==> m@ == (RatVal { num: 0, den: 1 })
                &&& h@.len() >= 1 ==> m@.num == spec_sum(h@) && m@.den == h@.len()
            },
    {
        let cd = self.channel_data(ch);
        match &cd.counts {
            None => Err(TelemetryError::FieldNotFound),
            Some(h) => {
                let n = h.len();
                if n == 0 {
                    return Ok(Rat::from_int(0));
                }
                let mut sum: i128 = 0;
                let mut i: usize = 0;
                while i < n
                    invariant
                        n == h@.len(),
                        0 <= i <= n,
                        sum == spec_sum(h@.take(i as int)),
                        0 <= sum <= 0x1_0000_0000 * (i as int),
                    decreases n - i,
                {
                    proof {
                        assert(h@.take(i + 1).drop_last() =~= h@.take(i as int));
                        assert(h@.take(i + 1).last() == h@[i as int]);
                    }
                    sum = sum + (h[i] as i128);
                    i += 1;
                }
                proof {
                    assert(h@.take(n as int) =~= h@);
                }
                Ok(Rat { num: sum, den: n as i128 })
            },
        }
    }
}

/// Remap a raw channel through a calibration record, with no clamping.
pub fn remapped_1d(data: &Vec<u32>, remap_info: &SuspensionRemapInfo) -> (r: Vec<Rat>)
    requires
        remap_info.wf(),
    ensures
        r@.len() == data@.len(),
        forall|i: int|
            0 <= i < data@.len() ==> (#[trigger] r@[i])@ == remap_info.spec_remap(
                RatVal::from_int(data@[i] as int),
            ) && r@[i].wf(),
{
    let mut out: Vec<Rat> = Vec::new();
    let n = data.len();
    let mut i: usize = 0;
    while i < n
        invariant
            n == data@.len(),
            0 <= i <= n,
            remap_info.wf(),
            out@.len() == i,
            forall|j: int|
                0 <= j < i ==> (#[trigger] out@[j])@ == remap_info.spec_remap(
                    RatVal::from_int(data@[j] as int),
                ) && out@[j].wf(),
        decreases n - i,
    {
        let v = remap_info.remap(&Rat::from_int(data[i] as i64));
        out.push(v);
        i += 1;
    }
    out
}

/// Remap a raw channel and clamp every sample into `[lo, hi]`.
pub fn remapped_1d_with_clamp(
    data: &Vec<u32>,
    remap_info: &SuspensionRemapInfo,
    lo: &Rat,
    hi: &Rat,
) -> (r: Vec<Rat>)
    requires
        remap_info.wf(),
        lo.wf(),
        hi.wf(),
        lo.bounded(0x10_0000),
        hi.bounded(0x10_0000),
        lo@.le(hi@),
    ensures
        r@.len() == data@.len(),
        forall|i: int|
            0 <= i < data@.len() ==> (#[trigger] r@[i])@ == spec_clamp(
                remap_info.spec_remap(RatVal::from_int(data@[i] as int)),
                lo@,
                hi@,
            ) && r@[i].wf(),
{
    let mut out: Vec<Rat> = Vec::new();
    let n = data.len();
    let mut i: usize = 0;
    while i < n
        invariant
            n == data@.len(),
            0 <= i <= n,
            remap_info.wf(),
            lo.wf(),
            hi.wf(),
            lo.bounded(0x10_0000),
            hi.bounded(0x10_0000),
            lo@.le(hi@),
            out@.len() == i,
            forall|j: int|
                0 <= j < i ==> (#[trigger] out@[j])@ == spec_clamp(
                    remap_info.spec_remap(RatVal::from_int(data@[j] as int)),
                    lo@,
                    hi@,
                ) && out@[j].wf(),
        decreases n - i,
    {
        let v = remap_info.remap_with_clamp(&Rat::from_int(data[i] as i64), lo, hi);
        out.push(v);
        i += 1;
    }
    out
}

/// Calibrate a raw channel into fixed-point samples: remap, clamp into
/// `[0, CLAMP_MAX]`, and round to `MILLI`-ths of a unit.
pub fn calibrate_milli(data: &Vec<u32>, remap_info: &SuspensionRemapInfo) -> (r: Vec<i64>)
    requires
        remap_info.wf(),
    ensures
        r@ == spec_calibrated(*remap_info, data@),
        forall|i: int| 0 <= i < r@.len() ==> 0 <= #[trigger] r@[i] <= CLAMP_MAX * MILLI,
{
    let lo = Rat::from_int(0);
    let hi = Rat::from_int(CLAMP_MAX);
    let mut out: Vec<i64> = Vec::new();
    let n = data.len();
    let mut i: usize = 0;
    while i < n
        invariant
            n == data@.len(),
            0 <= i <= n,
            remap_info.wf(),
            lo.num == 0 && lo.den == 1,
            hi.num == CLAMP_MAX && hi.den == 1,
            out@.len() == i,
            forall|j: int|
                0 <= j < i ==> #[trigger] out@[j] == spec_cal_sample(*remap_info, data@[j]),
            forall|j: int| 0 <= j < i ==> 0 <= #[trigger] out@[j] <= CLAMP_MAX * MILLI,
        decreases n - i,
    {
        let c = remap_info.remap_with_clamp(&Rat::from_int(data[i] as i64), &lo, &hi);
        proof {
            // `c` lies in `[0, CLAMP_MAX]`, so its numerator is between zero
            // and `CLAMP_MAX` times its denominator.
            assert(c.num >= 0);
            assert(c.num <= CLAMP_MAX * c.den);
            lemma_mul_bound(c.num as int, MILLI as int, crate::config_info::B101 as int, 0x400);
            assert(c.num * MILLI <= (CLAMP_MAX * MILLI) * c.den && 0 <= c.num * MILLI)
                by (nonlinear_arith)
                requires
                    0 <= c.num <= CLAMP_MAX * c.den,
                    c.den > 0,
                    MILLI >= 1,
            {
            }
            lemma_div_round_range(c.num * MILLI, c.den as int, CLAMP_MAX * MILLI);
        }
        let v = c.to_scaled(MILLI);
        out.push(v);
        i += 1;
    }
    proof {
        assert(out@ =~= spec_calibrated(*remap_info, data@));
    }
    out
}

/// Pair each sample with a time coordinate: sample `i` gets
/// `i * scale + offset`.
pub fn enumerated_with_transform(data: &Vec<i64>, scale: i64, offset: i64) -> (r: Vec<Point>)
    requires
        1 <= scale <= 0x10_0000,
        -VALUE_BOUND <= offset <= VALUE_BOUND,
        data@.len() <= MAX_BASE_LEN,
    ensures
        r@.len() == data@.len(),
        forall|i: int|
            0 <= i < data@.len() ==> #[trigger] r@[i] == (Point {
                t: (i * scale + offset) as i64,
                v: data@[i],
            }),
        strictly_increasing_t(r@),
{
    let mut out: Vec<Point> = Vec::new();
    let n = data.len();
    let mut i: usize = 0;
    while i < n
        invariant
            n == data@.len(),
            n <= MAX_BASE_LEN,
            0 <= i <= n,
            1 <= scale <= 0x10_0000,
            -VALUE_BOUND <= offset <= VALUE_BOUND,
            out@.len() == i,
            forall|j: int|
                0 <= j < i ==> #[trigger] out@[j] == (Point {
                    t: (j * scale + offset) as i64,
                    v: data@[j],
                }),
        decreases n - i,
    {
        proof {
            lemma_mul_bound(i as int, scale as int, 0xF000_0000, 0x10_0000);
        }
        let t: i64 = (i as i64) * scale + offset;
        out.push(Point { t, v: data[i] });
        i += 1;
    }
    proof {
        assert forall|a: int, b: int|
            #![trigger out@[a], out@[b]]
            0 <= a < b < out@.len() implies out@[a].t < out@[b].t by {
            lemma_mul_bound(a, scale as int, 0xF000_0000, 0x10_0000);
            lemma_mul_bound(b, scale as int, 0xF000_0000, 0x10_0000);
            assert(a * scale < b * scale) by (nonlinear_arith)
                requires
                    a < b,
                    scale >= 1;
        }
    }
    out
}

impl Data {
    /// Count one channel's calibrated samples into bins and publish the
    /// histogram.
    ///
    /// Fails with `DuplicateField` when this rebuild already published a
    /// histogram for the channel, and with `InvalidBinningRange` when
    /// `max_val` is zero or negative; a failure changes nothing.
    pub fn set_count(
        &mut self,
        ch: Channel,
        data: &Vec<i64>,
        bin_count: usize,
        max_val: i64,
        reverse: bool,
    ) -> (r: Result<(), TelemetryError>)
        requires
            1 <= bin_count <= 0x7fff_ffff,
            data@.len() <= u32::MAX,
        ensures
            r is Ok <==> (old(self).channel(ch).counts is None && max_val >= 1),
            r is Err ==> *final(self) == *old(self),
            old(self).channel(ch).counts is Some ==> r == Err::<(), TelemetryError>(
                TelemetryError::DuplicateField,
            ),
            (old(self).channel(ch).counts is None && max_val < 1) ==> r == Err::<
                (),
                TelemetryError,
            >(TelemetryError::InvalidBinningRange),
            r is Ok ==> ({
                let h = final(self).channel(ch).counts->0;
                &&& final(self).channel(ch).counts is Some
                &&& h@.len() == bin_count
                &&& forall|b: int|
                    0 <= b < bin_count ==> h@[b] == spec_count_in_bin(
                        data@,
                        bin_count as int,
                        max_val as int,
                        reverse,
                        b,
                    )
                &&& spec_sum(h@) == data@.len()
                &&& final(self).channel(ch) == (ChannelData {
                    counts: final(self).channel(ch).counts,
                    ..old(self).channel(ch)
                })
                &&& final(self).channel(Data::spec_other(ch)) == old(self).channel(
                    Data::spec_other(ch),
                )
            }),
    {
        let occupied = match ch {
            Channel::Front => self.front.counts.is_some(),
            Channel::Rear => self.rear.counts.is_some(),
        };
        if occupied {
            return Err(TelemetryError::DuplicateField);
        }
        let h = match bin(data, bin_count, max_val, reverse) {
            Ok(h) => h,
            Err(e) => {
                return Err(e);
            },
        };
        match ch {
            Channel::Front => {
                self.front.counts = Some(h);
            },
            Channel::Rear => {
                self.rear.counts = Some(h);
            },
        }
        Ok(())
    }

    /// Detect one channel's turning points, split its strokes, and publish
    /// all three results.
    ///
    /// Fails with `DuplicateField` when any of the three slots is already
    /// filled, and with `InsufficientSamples` when the buffer is shorter than
    /// two samples or than twice the window; a failure changes nothing.
    pub fn set_turning_points(
        &mut self,
        ch: Channel,
        data: &Vec<i64>,
        window: usize,
        hysteresis: i64,
        min_amplitude: i64,
        noise_floor: i64,
        freq: u32,
    ) -> (r: Result<(), TelemetryError>)
        requires
            window <= 0x1_0000,
            0 <= hysteresis <= VALUE_BOUND,
            0 <= min_amplitude <= VALUE_BOUND,
            noise_floor >= 0,
            forall|j: int| 0 <= j < data@.len() ==> -VALUE_BOUND <= #[trigger] data@[j] <= VALUE_BOUND,
        ensures
            r is Ok <==> (old(self).channel(ch).turning_points is None && old(self).channel(
                ch,
            ).compressions is None && old(self).channel(ch).rebounds is None && data@.len() >= 2
                && data@.len() >= 2 * window),
            r is Err ==> *final(self) == *old(self),
            r is Ok ==> ({
                let tps = spec_detect(data@, window as int, hysteresis as int, min_amplitude as int);
                &&& final(self).channel(ch).turning_points matches Some(t) && t@ == tps
                &&& final(self).channel(ch).compressions matches Some(c) && c@
                    == spec_compressions_upto(
                    tps,
                    data@,
                    spec_step(freq),
                    noise_floor as int,
                    tps.len() - 2,
                )
                &&& final(self).channel(ch).rebounds matches Some(rb) && rb@
                    == spec_rebounds_upto(
                    tps,
                    data@,
                    spec_step(freq),
                    noise_floor as int,
                    tps.len() - 2,
                )
                &&& final(self).channel(ch) == (ChannelData {
                    turning_points: final(self).channel(ch).turning_points,
                    compressions: final(self).channel(ch).compressions,
                    rebounds: final(self).channel(ch).rebounds,
                    ..old(self).channel(ch)
                })
                &&& final(self).channel(Data::spec_other(ch)) == old(self).channel(
                    Data::spec_other(ch),
                )
            }),
    {
        let occupied = match ch {
            Channel::Front => self.front.turning_points.is_some()
                || self.front.compressions.is_some() || self.front.rebounds.is_some(),
            Channel::Rear => self.rear.turning_points.is_some() || self.rear.compressions.is_some()
                || self.rear.rebounds.is_some(),
        };
        if occupied {
            return Err(TelemetryError::DuplicateField);
        }
        let tps = match detect_turning_points(data, window, hysteresis, min_amplitude) {
            Ok(t) => t,
            Err(e) => {
                return Err(e);
            },
        };
        let (comps, rebs) = analyze_strokes(&tps, data, freq, noise_floor);
        match ch {
            Channel::Front => {
                self.front.turning_points = Some(tps);
                self.front.compressions = Some(comps);
                self.front.rebounds = Some(rebs);
            },
            Channel::Rear => {
                self.rear.turning_points = Some(tps);
                self.rear.compressions = Some(comps);
                self.rear.rebounds = Some(rebs);
            },
        }
        Ok(())
    }

    /// Publish the signed stroke displacements of one channel: the value
    /// delta of each pair of consecutive turning points, the closing pair
    /// excluded.
    ///
    /// Fails with `DuplicateField` when already published; changes nothing
    /// then.
    pub fn set_displacements(&mut self, ch: Channel, tps: &Vec<TurningPoint>) -> (r: Result<
        (),
        TelemetryError,
    >)
        requires
            forall|j: int|
                0 <= j < tps@.len() ==> -VALUE_BOUND <= (#[trigger] tps@[j]).value <= VALUE_BOUND,
        ensures
            r is Ok <==> old(self).channel(ch).displacements is None,
            r is Err ==> *final(self) == *old(self) && r == Err::<(), TelemetryError>(
                TelemetryError::DuplicateField,
            ),
            r is Ok ==> ({
                &&& final(self).channel(ch).displacements matches Some(d) && d@
                    == spec_displacements(tps@)
                &&& final(self).channel(ch) == (ChannelData {
                    displacements: final(self).channel(ch).displacements,
                    ..old(self).channel(ch)
                })
                &&& final(self).channel(Data::spec_other(ch)) == old(self).channel(
                    Data::spec_other(ch),
                )
            }),
    {
        let occupied = match ch {
            Channel::Front => self.front.displacements.is_some(),
            Channel::Rear => self.rear.displacements.is_some(),
        };
        if occupied {
            return Err(TelemetryError::DuplicateField);
        }
        let n = tps.len();
        let mut out: Vec<i64> = Vec::new();
        let mut p: usize = 1;
        while p < n && p + 1 < n
            invariant
                n == tps@.len(),
                1 <= p,
                n >= 2 ==> p <= n - 1,
                n < 2 ==> p == 1,
                forall|j: int|
                    0 <= j < tps@.len() ==> -VALUE_BOUND <= (#[trigger] tps@[j]).value
                        <= VALUE_BOUND,
                out@.len() == p - 1,
                forall|j: int|
                    0 <= j < out@.len() ==> #[trigger] out@[j] == tps@[j + 1].value - tps@[j].value,
            decreases n - p,
        {
            out.push(tps[p].value - tps[p - 1].value);
            p += 1;
        }
        proof {
            assert(out@ =~= spec_displacements(tps@));
        }
        match ch {
            Channel::Front => {
                self.front.displacements = Some(out);
            },
            Channel::Rear => {
                self.rear.displacements = Some(out);
            },
        }
        Ok(())
    }

    /// Publish one channel's resolution pyramid.
    ///
    /// Fails with `DuplicateField` when already published; changes nothing
    /// then.
    pub fn set_line_manager(&mut self, ch: Channel, line: LineManager) -> (r: Result<
        (),
        TelemetryError,
    >)
        ensures
            r is Ok <==> old(self).channel(ch).line is None,
            r is Err ==> *final(self) == *old(self) && r == Err::<(), TelemetryError>(
                TelemetryError::DuplicateField,
            ),
            r is Ok ==> ({
                &&& final(self).channel(ch).line matches Some(l) && l == line
                &&& final(self).channel(ch) == (ChannelData {
                    line: final(self).channel(ch).line,
                    ..old(self).channel(ch)
                })
                &&& final(self).channel(Data::spec_other(ch)) == old(self).channel(
                    Data::spec_other(ch),
                )
            }),
    {
        let occupied = match ch {
            Channel::Front => self.front.line.is_some(),
            Channel::Rear => self.rear.line.is_some(),
        };
        if occupied {
            return Err(TelemetryError::DuplicateField);
        }
        match ch {
            Channel::Front => {
                self.front.line = Some(line);
            },
            Channel::Rear => {
                self.rear.line = Some(line);
            },
        }
        Ok(())
    }

    /// Borrow one channel's resolution pyramid; fails with `FieldNotFound`
    /// before a rebuild publishes it.
    pub fn get_line_manager(&self, ch: Channel) -> (r: Result<&LineManager, TelemetryError>)
        ensures
            r is Ok <==> self.channel(ch).line is Some,
            r matches Ok(l) ==> *l == self.channel(ch).line->0,
            r is Err ==> r == Err::<&LineManager, TelemetryError>(TelemetryError::FieldNotFound),
    {
        let cd = self.channel_data(ch);
        match &cd.line {
            Some(l) => Ok(l),
            None => Err(TelemetryError::FieldNotFound),
        }
    }

    /// Borrow one channel's histogram; fails with `FieldNotFound` before a
    /// rebuild publishes it.
    pub fn get_counts(&self, ch: Channel) -> (r: Result<&Vec<u32>, TelemetryError>)
        ensures
            r is Ok <==> self.channel(ch).counts is Some,
            r matches Ok(h) ==> *h == self.channel(ch).counts->0,
            r is Err ==> r == Err::<&Vec<u32>, TelemetryError>(TelemetryError::FieldNotFound),
    {
        let cd = self.channel_data(ch);
        match &cd.counts {
            Some(h) => Ok(h),
            None => Err(TelemetryError::FieldNotFound),
        }
    }

    /// Borrow one channel's turning points; fails with `FieldNotFound`
    /// before a rebuild publishes them.
    pub fn get_turning_points(&self, ch: Channel) -> (r: Result<&Vec<TurningPoint>, TelemetryError>)
        ensures
            r is Ok <==> self.channel(ch).turning_points is Some,
            r matches Ok(t) ==> *t == self.channel(ch).turning_points->0,
            r is Err ==> r == Err::<&Vec<TurningPoint>, TelemetryError>(
                TelemetryError::FieldNotFound,
            ),
    {
        let cd = self.channel_data(ch);
        match &cd.turning_points {
            Some(t) => Ok(t),
            None => Err(TelemetryError::FieldNotFound),
        }
    }

    /// Borrow one channel's compression strokes; fails with `FieldNotFound`
    /// before a rebuild publishes them.
    pub fn get_compressions(&self, ch: Channel) -> (r: Result<&Vec<Stroke>, TelemetryError>)
        ensures
            r is Ok <==> self.channel(ch).compressions is Some,
            r matches Ok(c) ==> *c == self.channel(ch).compressions->0,
            r is Err ==> r == Err::<&Vec<Stroke>, TelemetryError>(TelemetryError::FieldNotFound),
    {
        let cd = self.channel_data(ch);
        match &cd.compressions {
            Some(c) => Ok(c),
            None => Err(TelemetryError::FieldNotFound),
        }
    }

    /// Borrow one channel's rebound strokes; fails with `FieldNotFound`
    /// before a rebuild publishes them.
    pub fn get_rebounds(&self, ch: Channel) -> (r: Result<&Vec<Stroke>, TelemetryError>)
        ensures
            r is Ok <==> self.channel(ch).rebounds is Some,
            r matches Ok(c) ==> *c == self.channel(ch).rebounds->0,
            r is Err ==> r == Err::<&Vec<Stroke>, TelemetryError>(TelemetryError::FieldNotFound),
    {
        let cd = self.channel_data(ch);
        match &cd.rebounds {
            Some(c) => Ok(c),
            None => Err(TelemetryError::FieldNotFound),
        }
    }
}

/// The detector window the pipeline uses for a polling rate: half the
/// minimum stroke period, capped at the largest window the detector accepts.
pub open spec fn spec_window(freq: u32) -> int {
    if (freq as int) * (MIN_PERIOD_MS as int) / 2000 <= 0x1_0000 {
        (freq as int) * (MIN_PERIOD_MS as int) / 2000
    } else {
        0x1_0000int
    }
}

/// The channel stored under `key`, for a key known to be present.
pub open spec fn spec_pot_of(loader: Loader, key: Seq<char>) -> RawPotData
    recommends
        spec_pot_lookup(loader.raw_pot_datas@, key) is Some,
{
    loader.raw_pot_datas@[spec_pot_lookup(loader.raw_pot_datas@, key)->0].1
}

/// The signed stroke displacements of a turning-point sequence.
fn displacements_of(tps: &Vec<TurningPoint>) -> (r: Vec<i64>)
    requires
        forall|j: int|
            0 <= j < tps@.len() ==> -VALUE_BOUND <= (#[trigger] tps@[j]).value <= VALUE_BOUND,
    ensures
        r@ == spec_displacements(tps@),
{
    let n = tps.len();
    let mut out: Vec<i64> = Vec::new();
    let mut p: usize = 1;
    while p < n && p + 1 < n
        invariant
            n == tps@.len(),
            1 <= p,
            n >= 2 ==> p <= n - 1,
            n < 2 ==> p == 1,
            forall|j: int|
                0 <= j < tps@.len() ==> -VALUE_BOUND <= (#[trigger] tps@[j]).value <= VALUE_BOUND,
            out@.len() == p - 1,
            forall|j: int|
                0 <= j < out@.len() ==> #[trigger] out@[j] == tps@[j + 1].value - tps@[j].value,
        decreases n - p,
    {
        out.push(tps[p].value - tps[p - 1].value);
        p += 1;
    }
    proof {
        assert(out@ =~= spec_displacements(tps@));
    }
    out
}

/// The exact mean of a sample vector: the sum over the length, or zero for
/// an empty vector.
fn mean_i64(data: &Vec<i64>) -> (r: Rat)
    requires
        forall|j: int| 0 <= j < data@.len() ==> -VALUE_BOUND <= #[trigger] data@[j] <= VALUE_BOUND,
    ensures
        r.wf(),
        data@.len() == 0 ==> r@ == (RatVal { num: 0, den: 1 }),
        data@.len() >= 1 ==> r@.num == spec_sum_i64(data@) && r@.den == data@.len(),
{
    let n = data.len();
    if n == 0 {
        return Rat::from_int(0);
    }
    let mut sum: i128 = 0;
    let mut i: usize = 0;
    while i < n
        invariant
            n == data@.len(),
            0 <= i <= n,
            forall|j: int|
                0 <= j < data@.len() ==> -VALUE_BOUND <= #[trigger] data@[j] <= VALUE_BOUND,
            sum == spec_sum_i64(data@.take(i as int)),
            -0x100_0000_0000 * (i as int) <= sum <= 0x100_0000_0000 * (i as int),
        decreases n - i,
    {
        proof {
            assert(data@.take(i + 1).drop_last() =~= data@.take(i as int));
            assert(data@.take(i + 1).last() == data@[i as int]);
        }
        sum = sum + (data[i] as i128);
        i += 1;
    }
    proof {
        assert(data@.take(n as int) =~= data@);
    }
    Rat { num: sum, den: n as i128 }
}

/// Run the whole per-channel pipeline over one raw channel: calibrate, count
/// into bins, detect turning points, split and measure strokes, and build
/// the resolution pyramid.
///
/// Fails with `InsufficientSamples` exactly when the channel is shorter than
/// two samples or than twice the detector window.
pub fn build_channel(
    pot: &RawPotData,
    rec: &SuspensionRemapInfo,
    hysteresis: i64,
    min_amplitude: i64,
    noise_floor: i64,
) -> (r: Result<ChannelData, TelemetryError>)
    requires
        rec.wf(),
        pot.data@.len() <= MAX_BASE_LEN,
        0 <= hysteresis <= VALUE_BOUND,
        0 <= min_amplitude <= VALUE_BOUND,
        0 <= noise_floor,
    ensures
        r is Ok <==> (pot.data@.len() >= 2 && pot.data@.len() >= 2 * spec_window(
            pot.polling_rate,
        )),
        r is Err ==> r == Err::<ChannelData, TelemetryError>(TelemetryError::InsufficientSamples),
        r matches Ok(cd) ==> spec_channel_built(
            cd,
            pot.data@,
            *rec,
            spec_window(pot.polling_rate),
            hysteresis as int,
            min_amplitude as int,
            noise_floor as int,
            pot.polling_rate,
        ),
{
    let samples = calibrate_milli(&pot.data, rec);
    let window = detector_window(pot.polling_rate, MIN_PERIOD_MS);
    let tps = match detect_turning_points(&samples, window, hysteresis, min_amplitude) {
        Ok(t) => t,
        Err(e) => {
            return Err(e);
        },
    };
    let (comps, rebs) = analyze_strokes(&tps, &samples, pot.polling_rate, noise_floor);
    let disps = displacements_of(&tps);
    let counts = match bin(&samples, BIN_COUNT, CLAMP_MAX * MILLI, false) {
        Ok(h) => h,
        Err(_) => {
            proof {
                assert(false);
            }
            return Err(TelemetryError::InvalidBinningRange);
        },
    };
    let pts = enumerated_with_transform(&samples, 1, 0);
    let lm = LineManager::new(pts);
    let sag = mean_i64(&samples);
    proof {
        assert forall|i: int| 0 <= i < samples@.len() implies (#[trigger] lm.level0()[i])
            == (Point { t: i as i64, v: samples@[i] }) by {
            assert(lm.level0()[i] == (Point { t: (i * 1 + 0) as i64, v: samples@[i] }));
        }
    }
    Ok(
        ChannelData {
            calibrated: Some(samples),
            counts: Some(counts),
            turning_points: Some(tps),
            compressions: Some(comps),
            rebounds: Some(rebs),
            displacements: Some(disps),
            line: Some(lm),
            dyn_sag: Some(sag),
        },
    )
}

impl Data {
    /// Rebuild every derived signal of both suspension channels from the
    /// loader's raw data and the calibration mapping.
    ///
    /// The rear channel comes from the raw channel tagged `RS` and the front
    /// channel from `FS`.  A missing calibration reference, an unusable
    /// calibration record, or a channel too short for the detector fails the
    /// rebuild and leaves the previously published results untouched.
    pub fn reset_data(
        &mut self,
        loader: &Loader,
        config: &ConfigInfo,
        hysteresis: i64,
        min_amplitude: i64,
        noise_floor: i64,
    ) -> (r: Result<(), TelemetryError>)
        requires
            spec_pot_lookup(loader.raw_pot_datas@, "RS"@) is Some,
            spec_pot_lookup(loader.raw_pot_datas@, "FS"@) is Some,
            spec_pot_of(*loader, "RS"@).data@.len() <= MAX_BASE_LEN,
            spec_pot_of(*loader, "FS"@).data@.len() <= MAX_BASE_LEN,
            0 <= hysteresis <= VALUE_BOUND,
            0 <= min_amplitude <= VALUE_BOUND,
            0 <= noise_floor,
        ensures
            r is Err ==> *final(self) == *old(self),
            ({
                let rs = spec_pot_of(*loader, "RS"@);
                let fs = spec_pot_of(*loader, "FS"@);
                let rsrec = config.spec_get(rs.remap_ref@);
                let fsrec = config.spec_get(fs.remap_ref@);
                &&& (r is Ok <==> ((rsrec matches Some(rc) && rc.wf()) && (fsrec matches Some(
                    fc,
                ) && fc.wf()) && rs.data@.len() >= 2 && rs.data@.len() >= 2 * spec_window(
                    rs.polling_rate,
                ) && fs.data@.len() >= 2 && fs.data@.len() >= 2 * spec_window(fs.polling_rate)))
                &&& (rsrec is None ==> (r matches Err(
                    TelemetryError::CalibrationNotFound(k),
                ) && k@ == rs.remap_ref@))
                &&& ((rsrec matches Some(rc) && !rc.wf()) ==> r == Err::<(), TelemetryError>(
                    TelemetryError::InvalidCalibrationBounds,
                ))
                &&& r is Ok ==> ({
                    &&& spec_channel_built(
                        final(self).rear,
                        rs.data@,
                        rsrec->0,
                        spec_window(rs.polling_rate),
                        hysteresis as int,
                        min_amplitude as int,
                        noise_floor as int,
                        rs.polling_rate,
                    )
                    &&& spec_channel_built(
                        final(self).front,
                        fs.data@,
                        fsrec->0,
                        spec_window(fs.polling_rate),
                        hysteresis as int,
                        min_amplitude as int,
                        noise_floor as int,
                        fs.polling_rate,
                    )
                })
            }),
    {
        let rs = loader.get_raw_pot_data("RS".to_owned());
        let fs = loader.get_raw_pot_data("FS".to_owned());
        let rs_rec = match config.get_sus_remap_info(&rs.remap_ref) {
            Some(rc) => rc,
            None => {
                return Err(TelemetryError::CalibrationNotFound(rs.remap_ref.clone()));
            },
        };
        if !rs_rec.is_well_formed() {
            return Err(TelemetryError::InvalidCalibrationBounds);
        }
        let fs_rec = match config.get_sus_remap_info(&fs.remap_ref) {
            Some(fc) => fc,
            None => {
                return Err(TelemetryError::CalibrationNotFound(fs.remap_ref.clone()));
            },
        };
        if !fs_rec.is_well_formed() {
            return Err(TelemetryError::InvalidCalibrationBounds);
        }
        let rear_cd = match build_channel(rs, &rs_rec, hysteresis, min_amplitude, noise_floor) {
            Ok(cd) => cd,
            Err(e) => {
                return Err(e);
            },
        };
        let front_cd = match build_channel(fs, &fs_rec, hysteresis, min_amplitude, noise_floor) {
            Ok(cd) => cd,
            Err(e) => {
                return Err(e);
            },
        };
        self.rear = rear_cd;
        self.front = front_cd;
        Ok(())
    }
}

/// Whether the legacy buffer can read these lines: every line up to the
/// first without a dot must be a readable sample cell; lines after that are
/// ignored.
pub open spec fn spec_buff_wf(ls: Seq<Seq<char>>) -> bool
    decreases ls.len(),
{
    if ls.len() == 0 {
        true
    } else if find_char(ls[0], '.') >= ls[0].len() {
        true
    } else if !wf_cell(ls[0]) {
        false
    } else {
        spec_buff_wf(ls.drop_first())
    }
}

/// The samples the legacy buffer reads: the integer part of every line up to
/// the first without a dot.
pub open spec fn spec_buff_vals(ls: Seq<Seq<char>>) -> Seq<u32>
    decreases ls.len(),
{
    if ls.len() == 0 {
        Seq::empty()
    } else if find_char(ls[0], '.') >= ls[0].len() {
        Seq::empty()
    } else if !wf_cell(ls[0]) {
        Seq::empty()
    } else {
        seq![spec_digits_val(ls[0].take(find_char(ls[0], '.'))) as u32] + spec_buff_vals(
            ls.drop_first(),
        )
    }
}

/// The legacy raw sample buffer: a growable list of raw counts beside a
/// fixed scratch block.
#[derive(Clone)]
pub struct Buff {
    pub data: Vec<u32>,
    pub stackBuff: [u16; BUFF_SIZE],
}

impl Buff {
    /// The scratch block's contents.
    pub open spec fn spec_stack(self) -> Seq<u16> {
        self.stackBuff@
    }

    /// An empty buffer with a zeroed scratch block.
    pub fn new() -> (r: Buff)
        ensures
            r.data@.len() == 0,
            r.spec_stack().len() == BUFF_SIZE,
            forall|i: int| 0 <= i < BUFF_SIZE ==> r.spec_stack()[i] == 0,
    {
        Buff { data: Vec::new(), stackBuff: [0u16; BUFF_SIZE] }
    }

    /// A copy of the scratch block.
    pub fn getstackBuff(&self) -> (r: [u16; BUFF_SIZE])
        ensures
            r@ == self.spec_stack(),
    {
        self.stackBuff
    }

    /// Read raw samples from telemetry lines: each line's integer part, up
    /// to the first line without a dot.
    ///
    /// Returns whether every read line was a readable cell; on failure the
    /// buffer is unchanged.
    pub fn load_from_lines(&mut self, lines: &Vec<String>) -> (ok: bool)
        ensures
            ok == spec_buff_wf(lines.deep_view()),
            !ok ==> *final(self) == *old(self),
            ok ==> (final(self).data@ == spec_buff_vals(lines.deep_view())
                && final(self).spec_stack() == old(self).spec_stack()),
    {
        let ghost ls = lines.deep_view();
        let n = lines.len();
        let mut acc: Vec<u32> = Vec::new();
        let mut r: usize = 0;
        let mut failed = false;
        let mut stopped = false;
        proof {
            assert(ls.skip(0) =~= ls);
        }
        while r < n && !failed && !stopped
            invariant
                ls == lines.deep_view(),
                n == lines@.len(),
                0 <= r <= n,
                !failed && !stopped ==> spec_buff_wf(ls) == spec_buff_wf(ls.skip(r as int))
                    && spec_buff_vals(ls) =~= acc@ + spec_buff_vals(ls.skip(r as int)),
                failed ==> !spec_buff_wf(ls),
                stopped ==> spec_buff_wf(ls) && spec_buff_vals(ls) =~= acc@,
            decreases n - r + (if failed || stopped {
                0int
            } else {
                1int
            }),
        {
            let s = lines[r].as_str();
            proof {
                assert(lines@[r as int]@ == ls[r as int]);
                assert(ls.skip(r as int)[0] == ls[r as int]);
                assert(ls.skip(r as int).drop_first() =~= ls.skip(r + 1));
            }
            let dot = crate::loader::find_char_index(s, '.');
            if dot >= s.unicode_len() {
                stopped = true;
            } else if !check_cell(s) {
                failed = true;
            } else {
                let v = truncate_val(s);
                acc.push(v);
                r += 1;
            }
        }
        if failed {
            return false;
        }
        proof {
            if !stopped {
                assert(ls.skip(n as int) =~= Seq::<Seq<char>>::empty());
            }
        }
        self.data = acc;
        true
    }
}

} // verus!
