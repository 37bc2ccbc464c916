use vstd::prelude::*;

use crate::TelemetryError;

verus! {

/// Bound on the calibrated sample magnitudes the detector accepts; keeps the
/// windowed sums inside `i64`.
pub const VALUE_BOUND: i64 = 0x100_0000_0000;

/// The direction a waveform moves in after a turning point.
#[derive(Debug, Clone, Copy, PartialEq, Eq, Structural)]
pub enum Direction {
    Rising,
    Falling,
}

/// A detected local extremum: the sample index where the waveform reverses,
/// the value there, and the direction of the movement that starts there.
#[derive(Debug, Clone, Copy, PartialEq, Eq, Structural)]
pub struct TurningPoint {
    pub index: usize,
    pub value: i64,
    pub direction: Direction,
}

pub open spec fn spec_toggle(d: Direction) -> Direction {
    match d {
        Direction::Rising => Direction::Falling,
        Direction::Falling => Direction::Rising,
    }
}

impl Direction {
    /// The opposite direction.
    pub fn toggle(&self) -> (r: Direction)
        ensures
            r == spec_toggle(*self),
    {
        match self {
            Direction::Rising => Direction::Falling,
            Direction::Falling => Direction::Rising,
        }
    }
}

/// `sum over k in 1..=w of (s[i] - s[i - k])`: how far the window behind `i`
/// sits below the candidate.
pub open spec fn spec_back_sum(s: Seq<i64>, i: int, w: int) -> int
    decreases w,
{
    if w <= 0 {
        0
    } else {
        spec_back_sum(s, i, w - 1) + (s[i] - s[i - w])
    }
}

/// `sum over k in 1..=w of (s[i] - s[i + k])`: how far the window ahead of `i`
/// sits below the candidate.
pub open spec fn spec_front_sum(s: Seq<i64>, i: int, w: int) -> int
    decreases w,
{
    if w <= 0 {
        0
    } else {
        spec_front_sum(s, i, w - 1) + (s[i] - s[i + w])
    }
}

/// Whether the detector registers a direction flip at candidate `i`: the
/// back/front asymmetry crosses the hysteresis margin in favour of the current
/// direction, and the value has moved at least the noise floor away from the
/// last registered turning point.
pub open spec fn spec_flips(
    s: Seq<i64>,
    w: int,
    hysteresis: int,
    min_amplitude: int,
    i: int,
    decreasing: bool,
    last_value: int,
) -> bool {
    let back = spec_back_sum(s, i, w);
    let front = spec_front_sum(s, i, w);
    let margin = if decreasing {
        -hysteresis
    } else {
        hysteresis
    };
    &&& decreasing == (back > front + margin)
    &&& vstd::math::abs(s[i] - last_value) > min_amplitude
}

/// The turning points found after the candidates in `[w, i)` have been
/// examined.  The walk starts with the first sample as an anchor point, whose
/// direction comes from comparing the first two samples.
pub open spec fn spec_detect_upto(s: Seq<i64>, w: int, h: int, m: int, i: int) -> Seq<
    TurningPoint,
>
    recommends
        2 <= s.len(),
        w <= i <= s.len() - w,
    decreases i,
{
    if i <= w || i <= 0 {
        seq![
            TurningPoint {
                index: 0,
                value: s[0],
                direction: if s[0] > s[1] {
                    Direction::Falling
                } else {
                    Direction::Rising
                },
            },
        ]
    } else {
        let prev = spec_detect_upto(s, w, h, m, i - 1);
        let last = prev.last();
        let decreasing = last.direction is Falling;
        if spec_flips(s, w, h, m, i - 1, decreasing, last.value as int) {
            prev.push(
                TurningPoint {
                    index: (i - 1) as usize,
                    value: s[i - 1],
                    direction: spec_toggle(last.direction),
                },
            )
        } else {
            prev
        }
    }
}

/// The full detector output: all candidates examined, and the final sample
/// appended as a closing point so the last completed stroke has an end.
pub open spec fn spec_detect(s: Seq<i64>, w: int, h: int, m: int) -> Seq<TurningPoint>
    recommends
        2 <= s.len(),
        2 * w <= s.len(),
{
    let tps = spec_detect_upto(s, w, h, m, s.len() - w);
    let last = tps.last();
    if last.index < s.len() - 1 {
        tps.push(
            TurningPoint {
                index: (s.len() - 1) as usize,
                value: s[s.len() - 1],
                direction: spec_toggle(last.direction),
            },
        )
    } else {
        tps
    }
}

/// Well-formedness of a turning-point sequence over its waveform: it starts at
/// the first sample, every point carries the waveform's value at its index,
/// indices strictly increase (so timestamps do too), and consecutive points
/// strictly alternate direction.
pub open spec fn tp_seq_ok(tps: Seq<TurningPoint>, s: Seq<i64>) -> bool {
    &&& tps.len() >= 1
    &&& tps[0].index == 0
    &&& forall|j: int|
        0 <= j < tps.len() ==> (#[trigger] tps[j]).index < s.len() && tps[j].value == s[
            tps[j].index as int
        ]
    &&& forall|j: int, k: int|
        #![trigger tps[j], tps[k]]
        0 <= j && k == j + 1 && k < tps.len() ==> tps[j].index < tps[k].index
            && tps[k].direction == spec_toggle(tps[j].direction)
}

/// Pushing a later, alternating, value-faithful point keeps a turning-point
/// sequence well formed.
proof fn lemma_tp_push_ok(tps: Seq<TurningPoint>, s: Seq<i64>, tp: TurningPoint)
    requires
        tp_seq_ok(tps, s),
        tps.last().index < tp.index,
        tp.index < s.len(),
        tp.value == s[tp.index as int],
        tp.direction == spec_toggle(tps.last().direction),
    ensures
        tp_seq_ok(tps.push(tp), s),
        tps.push(tp).last() == tp,
{
    let pushed = tps.push(tp);
    assert(pushed.last() == tp);
    assert(pushed[0] == tps[0]);
    assert forall|j: int|
        0 <= j < pushed.len() implies (#[trigger] pushed[j]).index < s.len() && pushed[j].value
        == s[pushed[j].index as int] by {
        if j < tps.len() {
            assert(pushed[j] == tps[j]);
        }
    }
    assert forall|j: int, k: int|
        #![trigger pushed[j], pushed[k]]
        0 <= j && k == j + 1 && k < pushed.len() implies pushed[j].index < pushed[k].index
            && pushed[k].direction == spec_toggle(pushed[j].direction) by {
        if k < tps.len() {
            assert(pushed[j] == tps[j] && pushed[k] == tps[k]);
        } else {
            assert(pushed[k] == tp);
            assert(pushed[j] == tps[j]);
            assert(tps[j] == tps.last());
        }
    }
}

/// Every partial detector state is well formed, and its last point sits before
/// the candidate about to be examined.
#[verifier::rlimit(100)]
proof fn lemma_detect_upto_ok(s: Seq<i64>, w: int, h: int, m: int, i: int)
    requires
        2 <= s.len(),
        s.len() <= usize::MAX,
        0 <= w,
        2 * w <= s.len(),
        w <= i <= s.len() - w,
        m >= 0,
    ensures
        tp_seq_ok(spec_detect_upto(s, w, h, m, i), s),
        spec_detect_upto(s, w, h, m, i).last().index <= (if i == 0 {
            0int
        } else {
            i - 1
        }),
    decreases i,
{
    if i <= w || i <= 0 {
    } else {
        lemma_detect_upto_ok(s, w, h, m, i - 1);
        let prev = spec_detect_upto(s, w, h, m, i - 1);
        let last = prev.last();
        let decreasing = last.direction is Falling;
        if spec_flips(s, w, h, m, i - 1, decreasing, last.value as int) {
            if i - 1 == 0 {
                // The candidate is the anchor itself: the amplitude gate is
                // `|s[0] - s[0]| > m`, which a nonnegative noise floor refuses.
                assert(prev == spec_detect_upto(s, w, h, m, 0));
                assert(false);
            }
            let tp = TurningPoint {
                index: (i - 1) as usize,
                value: s[i - 1],
                direction: spec_toggle(last.direction),
            };
            lemma_tp_push_ok(prev, s, tp);
            assert(spec_detect_upto(s, w, h, m, i) == prev.push(tp));
        }
    }
}

/// Find the turning points of a calibrated waveform.
///
/// A sliding window of `window` samples on each side of a candidate index is
/// summed against the candidate; a reversal is registered when the asymmetry
/// of the two sums crosses the hysteresis margin against the current
/// direction and the value has moved more than `min_amplitude` since the last
/// registered point.  The first sample anchors the walk and the last sample
/// closes it, so every completed stroke lies between two output points.
///
/// Fails with `InsufficientSamples` exactly when fewer than two samples, or
/// fewer than `2 * window`, are given.
#[verifier::rlimit(100)]
pub fn detect_turning_points(
    samples: &Vec<i64>,
    window: usize,
    hysteresis: i64,
    min_amplitude: i64,
) -> (r: Result<Vec<TurningPoint>, TelemetryError>)
    requires
        window <= 0x1_0000,
        0 <= hysteresis <= VALUE_BOUND,
        0 <= min_amplitude <= VALUE_BOUND,
        forall|j: int| 0 <= j < samples@.len() ==> -VALUE_BOUND <= #[trigger] samples@[j] <= VALUE_BOUND,
    ensures
        r is Ok <==> (samples@.len() >= 2 && samples@.len() >= 2 * window),
        r is Err ==> r == Err::<Vec<TurningPoint>, TelemetryError>(
            TelemetryError::InsufficientSamples,
        ),
        r matches Ok(tps) ==> tps@ == spec_detect(
            samples@,
            window as int,
            hysteresis as int,
            min_amplitude as int,
        ),
        r matches Ok(tps) ==> tp_seq_ok(tps@, samples@),
{
    let n = samples.len();
    if n < 2 || n < 2 * window {
        return Err(TelemetryError::InsufficientSamples);
    }
    let ghost w = window as int;
    let ghost h = hysteresis as int;
    let ghost m = min_amplitude as int;

    let mut tps: Vec<TurningPoint> = Vec::new();
    let first_dir = if samples[0] > samples[1] {
        Direction::Falling
    } else {
        Direction::Rising
    };
    tps.push(TurningPoint { index: 0, value: samples[0], direction: first_dir });
    proof {
        assert(tps@ =~= spec_detect_upto(samples@, w, h, m, w));
    }

    let end: usize = n - window;
    let mut i: usize = window;
    while i < end
        invariant
            n == samples@.len(),
            n >= 2,
            2 * window <= n,
            window <= 0x1_0000,
            0 <= hysteresis <= VALUE_BOUND,
            0 <= min_amplitude <= VALUE_BOUND,
            forall|j: int| 0 <= j < samples@.len() ==> -VALUE_BOUND <= #[trigger] samples@[j] <= VALUE_BOUND,
            w == window as int && h == hysteresis as int && m == min_amplitude as int,
            end == n - window,
            window <= i <= end,
            tps@ == spec_detect_upto(samples@, w, h, m, i as int),
        decreases end - i,
    {
        proof {
            lemma_detect_upto_ok(samples@, w, h, m, i as int);
        }
        let last = tps[tps.len() - 1];
        let decreasing = last.direction == Direction::Falling;

        let mut back: i64 = 0;
        let mut front: i64 = 0;
        let mut k: usize = 1;
        while k <= window
            invariant
                n == samples@.len(),
                forall|j: int|
                    0 <= j < samples@.len() ==> -VALUE_BOUND <= #[trigger] samples@[j]
                        <= VALUE_BOUND,
                window <= 0x1_0000,
                window <= i < end,
                end == n - window,
                1 <= k <= window + 1,
                back == spec_back_sum(samples@, i as int, k - 1),
                front == spec_front_sum(samples@, i as int, k - 1),
                -0x200_0000_0000 * (k - 1) <= back <= 0x200_0000_0000 * (k - 1),
                -0x200_0000_0000 * (k - 1) <= front <= 0x200_0000_0000 * (k - 1),
            decreases window + 1 - k,
        {
            back = back + (samples[i] - samples[i - k]);
            front = front + (samples[i] - samples[i + k]);
            k += 1;
        }

        let margin: i64 = if decreasing {
            -hysteresis
        } else {
            hysteresis
        };
        let amp: i64 = samples[i] - last.value;
        let amp_abs: i64 = if amp < 0 {
            -amp
        } else {
            amp
        };
        let flip = (decreasing == (back > front + margin)) && amp_abs > min_amplitude;
        if flip {
            tps.push(
                TurningPoint { index: i, value: samples[i], direction: last.direction.toggle() },
            );
        }
        proof {
            assert(spec_back_sum(samples@, i as int, w) == back);
            assert(spec_front_sum(samples@, i as int, w) == front);
            assert(flip == spec_flips(samples@, w, h, m, i as int, decreasing, last.value as int));
            assert(tps@ == spec_detect_upto(samples@, w, h, m, i + 1));
        }
        i += 1;
    }

    proof {
        lemma_detect_upto_ok(samples@, w, h, m, (n - window) as int);
    }
    let last = tps[tps.len() - 1];
    if last.index < n - 1 {
        let tp = TurningPoint {
            index: n - 1,
            value: samples[n - 1],
            direction: last.direction.toggle(),
        };
        proof {
            lemma_tp_push_ok(tps@, samples@, tp);
        }
        tps.push(tp);
    }
    Ok(tps)
}

/// The detector window for a polling rate and a minimum expected stroke
/// period: `floor(freq * min_period_ms / 2000)` samples, half the shortest
/// full compression-and-rebound cycle.  Capped at the largest window the
/// detector accepts.
pub fn detector_window(freq: u32, min_period_ms: u32) -> (w: usize)
    ensures
        w == if (freq as int) * (min_period_ms as int) / 2000 <= 0x1_0000 {
            (freq as int) * (min_period_ms as int) / 2000
        } else {
            0x1_0000int
        },
        w <= 0x1_0000,
{
    proof {
        crate::rat::lemma_mul_bound(freq as int, min_period_ms as int, 0xffff_ffff, 0xffff_ffff);
        vstd::arithmetic::div_mod::lemma_div_pos_is_pos((freq as int) * (min_period_ms as int), 2000);
    }
    let q: u64 = (freq as u64) * (min_period_ms as u64) / 2000;
    if q <= 0x1_0000 {
        q as usize
    } else {
        0x1_0000
    }
}

} // verus!
