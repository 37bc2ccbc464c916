use vstd::prelude::*;

use crate::turning::{tp_seq_ok, TurningPoint, VALUE_BOUND};

verus! {

/// Whether a stroke moves the suspension toward shorter travel (compression)
/// or longer travel (rebound).
#[derive(Debug, Clone, Copy, PartialEq, Eq, Structural)]
pub enum StrokeKind {
    Compression,
    Rebound,
}

/// One monotonic excursion between two turning points: the absolute travel
/// delta, the largest sub-sampled finite difference inside the interval, and
/// the direction class.
#[derive(Debug, Clone, Copy, PartialEq, Eq, Structural)]
pub struct Stroke {
    pub displacement: i64,
    pub peak_velocity: i64,
    pub kind: StrokeKind,
}

/// The sub-sampling stride for peak velocity: every `freq / 10` samples, at
/// least one.
pub open spec fn spec_step(freq: u32) -> int {
    if freq / 10 >= 1 {
        (freq / 10) as int
    } else {
        1
    }
}

/// The largest `|s[j + step] - s[j]|` over sub-sample points
/// `a, a + step, ...` inside `[a, b]`.
pub open spec fn spec_peak_vel(s: Seq<i64>, a: int, b: int, step: int) -> int
    recommends
        step >= 1,
    decreases b - a,
{
    if step <= 0 || a + step > b || a < 0 {
        0
    } else {
        vstd::math::max(
            vstd::math::abs(s[a + step] - s[a]) as int,
            spec_peak_vel(s, a + step, b, step),
        )
    }
}

/// The sub-sampled peak velocity is never negative.
pub proof fn lemma_peak_vel_nonneg(s: Seq<i64>, a: int, b: int, step: int)
    ensures
        spec_peak_vel(s, a, b, step) >= 0,
    decreases b - a,
{
    if !(step <= 0 || a + step > b || a < 0) {
        lemma_peak_vel_nonneg(s, a + step, b, step);
    }
}

/// The stroke between two consecutive turning points.
pub open spec fn spec_stroke(tp0: TurningPoint, tp1: TurningPoint, s: Seq<i64>, step: int) -> Stroke {
    let delta = tp1.value - tp0.value;
    Stroke {
        displacement: vstd::math::abs(delta) as i64,
        peak_velocity: spec_peak_vel(s, tp0.index as int, tp1.index as int, step) as i64,
        kind: if delta < 0 {
            StrokeKind::Compression
        } else {
            StrokeKind::Rebound
        },
    }
}

/// The compression strokes among the pairs `1..=p`, in order, keeping only
/// those whose magnitude reaches the noise floor.
pub open spec fn spec_compressions_upto(
    tps: Seq<TurningPoint>,
    s: Seq<i64>,
    step: int,
    noise: int,
    p: int,
) -> Seq<Stroke>
    decreases p,
{
    if p <= 0 {
        Seq::empty()
    } else {
        let rest = spec_compressions_upto(tps, s, step, noise, p - 1);
        let st = spec_stroke(tps[p - 1], tps[p], s, step);
        if st.displacement >= noise && st.kind is Compression {
            rest.push(st)
        } else {
            rest
        }
    }
}

/// The rebound strokes among the pairs `1..=p`, in order, keeping only those
/// whose magnitude reaches the noise floor.
pub open spec fn spec_rebounds_upto(
    tps: Seq<TurningPoint>,
    s: Seq<i64>,
    step: int,
    noise: int,
    p: int,
) -> Seq<Stroke>
    decreases p,
{
    if p <= 0 {
        Seq::empty()
    } else {
        let rest = spec_rebounds_upto(tps, s, step, noise, p - 1);
        let st = spec_stroke(tps[p - 1], tps[p], s, step);
        if st.displacement >= noise && st.kind is Rebound {
            rest.push(st)
        } else {
            rest
        }
    }
}

/// Stroke classification is decided by the sign of the underlying value
/// delta, and the stored magnitude is exactly the absolute delta between the
/// two bounding turning points.
pub proof fn lemma_stroke_classification(tp0: TurningPoint, tp1: TurningPoint, s: Seq<i64>, step: int)
    requires
        -VALUE_BOUND <= tp0.value <= VALUE_BOUND,
        -VALUE_BOUND <= tp1.value <= VALUE_BOUND,
    ensures
        spec_stroke(tp0, tp1, s, step).kind is Compression <==> tp1.value < tp0.value,
        spec_stroke(tp0, tp1, s, step).displacement == vstd::math::abs(
            tp1.value - tp0.value,
        ),
{
}

/// Split the strokes between consecutive turning points into compressions and
/// rebounds.
///
/// For each consecutive pair of turning points but the last (the closing
/// point only marks the end of the buffer, so the stroke into it is
/// incomplete), the displacement is the absolute value delta; the peak
/// velocity is the largest absolute finite difference between sub-samples
/// taken every `freq / 10` samples inside the stroke; strokes whose magnitude
/// stays below `noise_floor` are detector chatter and are dropped.
pub fn analyze_strokes(
    tps: &Vec<TurningPoint>,
    samples: &Vec<i64>,
    freq: u32,
    noise_floor: i64,
) -> (r: (Vec<Stroke>, Vec<Stroke>))
    requires
        tp_seq_ok(tps@, samples@),
        forall|j: int| 0 <= j < samples@.len() ==> -VALUE_BOUND <= #[trigger] samples@[j] <= VALUE_BOUND,
        noise_floor >= 0,
    ensures
        r.0@ == spec_compressions_upto(
            tps@,
            samples@,
            spec_step(freq),
            noise_floor as int,
            tps@.len() - 2,
        ),
        r.1@ == spec_rebounds_upto(
            tps@,
            samples@,
            spec_step(freq),
            noise_floor as int,
            tps@.len() - 2,
        ),
{
    let step: usize = if freq >= 10 {
        (freq / 10) as usize
    } else {
        1
    };
    let mut comps: Vec<Stroke> = Vec::new();
    let mut rebs: Vec<Stroke> = Vec::new();
    let n = tps.len();
    let mut p: usize = 1;
    while p < n - 1
        invariant
            n == tps@.len(),
            n >= 1,
            tp_seq_ok(tps@, samples@),
            forall|j: int|
                0 <= j < samples@.len() ==> -VALUE_BOUND <= #[trigger] samples@[j] <= VALUE_BOUND,
            noise_floor >= 0,
            step == spec_step(freq),
            1 <= p,
            n >= 3 ==> p <= n - 1,
            n < 3 ==> p == 1,
            comps@ == spec_compressions_upto(
                tps@,
                samples@,
                step as int,
                noise_floor as int,
                p - 1,
            ),
            rebs@ == spec_rebounds_upto(tps@, samples@, step as int, noise_floor as int, p - 1),
        decreases n - p,
    {
        let tp0 = tps[p - 1];
        let tp1 = tps[p];
        let delta: i64 = tp1.value - tp0.value;
        let disp: i64 = if delta < 0 {
            -delta
        } else {
            delta
        };

        let a: usize = tp0.index;
        let b: usize = tp1.index;
        let mut peak: i64 = 0;
        let mut j: usize = a;
        proof {
            lemma_peak_vel_nonneg(samples@, a as int, b as int, step as int);
        }
        while b - j >= step
            invariant
                n == tps@.len(),
                tp_seq_ok(tps@, samples@),
                forall|jj: int|
                    0 <= jj < samples@.len() ==> -VALUE_BOUND <= #[trigger] samples@[jj]
                        <= VALUE_BOUND,
                step >= 1,
                a <= j <= b,
                b < samples@.len(),
                0 <= peak <= 0x200_0000_0000,
                vstd::math::max(peak as int, spec_peak_vel(samples@, j as int, b as int, step as int))
                    == spec_peak_vel(samples@, a as int, b as int, step as int),
            decreases b - j,
        {
            let d: i64 = samples[j + step] - samples[j];
            let dabs: i64 = if d < 0 {
                -d
            } else {
                d
            };
            proof {
                lemma_peak_vel_nonneg(samples@, j + step, b as int, step as int);
            }
            if dabs > peak {
                peak = dabs;
            }
            j += step;
        }

        if disp >= noise_floor {
            let st = Stroke {
                displacement: disp,
                peak_velocity: peak,
                kind: if delta < 0 {
                    StrokeKind::Compression
                } else {
                    StrokeKind::Rebound
                },
            };
            proof {
                assert(st == spec_stroke(tps@[p - 1], tps@[p as int], samples@, step as int));
            }
            if delta < 0 {
                comps.push(st);
            } else {
                rebs.push(st);
            }
        }
        p += 1;
    }
    proof {
        if n < 3 {
            assert(p == 1 && tps@.len() - 2 <= 0);
        } else {
            assert(p - 1 == tps@.len() - 2);
        }
    }
    (comps, rebs)
}

} // verus!
