use vstd::prelude::*;

verus! {

/// The most points one query answer should ever ask a renderer to draw.
pub const MAX_POINTS: usize = 1024;

/// Largest base sequence the store accepts; keeps every index and stride
/// computation inside `usize` on any platform.
pub const MAX_BASE_LEN: usize = 0xF000_0000;

/// A time/value pair in fixed-point units.
#[derive(Debug, Clone, Copy, PartialEq, Eq, Structural)]
pub struct Point {
    pub t: i64,
    pub v: i64,
}

/// `2^k` for `k >= 0`, and `1` below.
pub open spec fn pow2_int(k: int) -> int
    decreases k,
{
    if k <= 0 {
        1
    } else {
        2 * pow2_int(k - 1)
    }
}

/// Largest `e` with `2^e <= q`, for `q >= 1`.
pub open spec fn spec_floor_log2(q: int) -> int
    decreases q,
{
    if q <= 1 {
        0
    } else {
        1 + spec_floor_log2(q / 2)
    }
}

/// How many levels the store builds over `n` points: two more than the
/// binary magnitude of `n / MAX_POINTS`, so the coarsest level keeps
/// head-room below the query bound.
pub open spec fn spec_num_levels(n: int) -> int {
    if n / (MAX_POINTS as int) <= 0 {
        2
    } else {
        spec_floor_log2(n / (MAX_POINTS as int)) + 2
    }
}

/// How many of the indices `0, stride, 2 * stride, ...` fall below `n`.
pub open spec fn num_strided(n: int, stride: int) -> int
    recommends
        stride >= 1,
{
    if n <= 0 {
        0
    } else {
        (n - 1) / stride + 1
    }
}

/// `level` holds every `stride`-th point of `base`, in order.
pub open spec fn level_samples(level: Seq<Point>, base: Seq<Point>, stride: int) -> bool {
    &&& level.len() == num_strided(base.len() as int, stride)
    &&& forall|j: int| 0 <= j < level.len() ==> #[trigger] level[j] == base[j * stride]
}

/// Timestamps strictly increase along the sequence.
pub open spec fn strictly_increasing_t(pts: Seq<Point>) -> bool {
    forall|i: int, j: int|
        #![trigger pts[i], pts[j]]
        0 <= i < j < pts.len() ==> pts[i].t < pts[j].t
}

/// How many points lie strictly before time `min`.
pub open spec fn spec_count_lt(pts: Seq<Point>, min: i64) -> int
    decreases pts.len(),
{
    if pts.len() == 0 {
        0
    } else {
        spec_count_lt(pts.drop_last(), min) + (if pts.last().t < min {
            1int
        } else {
            0int
        })
    }
}

/// How many points lie at or before time `max`.
pub open spec fn spec_count_le(pts: Seq<Point>, max: i64) -> int
    decreases pts.len(),
{
    if pts.len() == 0 {
        0
    } else {
        spec_count_le(pts.drop_last(), max) + (if pts.last().t <= max {
            1int
        } else {
            0int
        })
    }
}

/// The contiguous run of points of a sorted level whose times lie in
/// `[min, max]`.
pub open spec fn spec_level_slice(pts: Seq<Point>, min: i64, max: i64) -> Seq<Point> {
    let lo = spec_count_lt(pts, min);
    let hi = spec_count_le(pts, max);
    if lo <= hi {
        pts.subrange(lo, hi)
    } else {
        Seq::empty()
    }
}

/// One level of detail: a sampled copy of the base data.  Meaningful only as
/// part of a `LineManager`.
pub struct LineInstance {
    /// The sampling exponent: this level keeps every `2^period`-th point.
    pub period: u32,
    /// The sampled points, still in time order.
    pub data: Vec<Point>,
}

/// A resolution pyramid over one line: level 0 is the original point
/// sequence, level `k` keeps every `2^k`-th point, and queries scan from the
/// finest level down until one fits under `MAX_POINTS`.
pub struct LineManager {
    instances: Vec<LineInstance>,
}

/// `pow2_int` is at least one.
proof fn lemma_pow2_int_pos(k: int)
    ensures
        pow2_int(k) >= 1,
    decreases k,
{
    if k > 0 {
        lemma_pow2_int_pos(k - 1);
    }
}

/// `pow2_int` outgrows its exponent.
proof fn lemma_pow2_int_gt(k: int)
    ensures
        pow2_int(k) > k,
    decreases k,
{
    if k > 0 {
        lemma_pow2_int_gt(k - 1);
    }
}

/// `pow2_int` grows with its exponent.
proof fn lemma_pow2_int_mono(a: int, b: int)
    requires
        a <= b,
    ensures
        pow2_int(a) <= pow2_int(b),
    decreases b - a,
{
    if a < b {
        lemma_pow2_int_mono(a, b - 1);
        lemma_pow2_int_pos(b - 1);
    }
}

/// The floor binary logarithm is nonnegative, below its argument, and its
/// power of two stays at or below the argument.
proof fn lemma_flog2_facts(q: int)
    requires
        q >= 1,
    ensures
        0 <= spec_floor_log2(q) < q,
        pow2_int(spec_floor_log2(q)) <= q,
    decreases q,
{
    if q > 1 {
        lemma_flog2_facts(q / 2);
    }
}

/// The last strided index sits inside the base.
proof fn lemma_num_strided_last(n: int, stride: int)
    requires
        stride >= 1,
        n >= 1,
    ensures
        (num_strided(n, stride) - 1) * stride <= n - 1,
        num_strided(n, stride) >= 1,
{
    vstd::arithmetic::div_mod::lemma_fundamental_div_mod(n - 1, stride);
    vstd::arithmetic::div_mod::lemma_div_pos_is_pos(n - 1, stride);
    assert(((n - 1) / stride) * stride <= n - 1) by (nonlinear_arith)
        requires
            stride >= 1,
            n - 1 == stride * ((n - 1) / stride) + ((n - 1) % stride),
            (n - 1) % stride >= 0;
}

/// A level of a sorted base is itself sorted.
proof fn lemma_level_sorted(level: Seq<Point>, base: Seq<Point>, stride: int)
    requires
        level_samples(level, base, stride),
        strictly_increasing_t(base),
        stride >= 1,
    ensures
        strictly_increasing_t(level),
{
    assert forall|i: int, j: int|
        #![trigger level[i], level[j]]
        0 <= i < j < level.len() implies level[i].t < level[j].t by {
        lemma_num_strided_last(base.len() as int, stride);
        assert(level[i] == base[i * stride]);
        assert(level[j] == base[j * stride]);
        assert(0 <= i * stride && i * stride < j * stride && j * stride <= (level.len() - 1)
            * stride) by (nonlinear_arith)
            requires
                0 <= i < j <= level.len() - 1,
                stride >= 1;
        assert((level.len() - 1) * stride <= base.len() - 1);
    }
}

/// In a sorted sequence, an index below which every time is under `min` and
/// from which on no time is, is the count of times under `min`.
proof fn lemma_count_lt_boundary(pts: Seq<Point>, min: i64, idx: int)
    requires
        0 <= idx <= pts.len(),
        forall|j: int| 0 <= j < idx ==> pts[j].t < min,
        forall|j: int| idx <= j < pts.len() ==> pts[j].t >= min,
    ensures
        spec_count_lt(pts, min) == idx,
    decreases pts.len(),
{
    if pts.len() > 0 {
        if idx == pts.len() {
            lemma_count_lt_boundary(pts.drop_last(), min, idx - 1);
        } else {
            lemma_count_lt_boundary(pts.drop_last(), min, idx);
        }
    }
}

/// The analogue of `lemma_count_lt_boundary` for the inclusive upper bound.
proof fn lemma_count_le_boundary(pts: Seq<Point>, max: i64, idx: int)
    requires
        0 <= idx <= pts.len(),
        forall|j: int| 0 <= j < idx ==> pts[j].t <= max,
        forall|j: int| idx <= j < pts.len() ==> pts[j].t > max,
    ensures
        spec_count_le(pts, max) == idx,
    decreases pts.len(),
{
    if pts.len() > 0 {
        if idx == pts.len() {
            lemma_count_le_boundary(pts.drop_last(), max, idx - 1);
        } else {
            lemma_count_le_boundary(pts.drop_last(), max, idx);
        }
    }
}

impl LineInstance {
    /// The first index at or after the queried range, and the first index
    /// beyond it: the points with times in `[min, max]` are exactly those
    /// between the two.
    pub fn get_points_in_range(&self, min: i64, max: i64) -> (r: (usize, usize))
        requires
            strictly_increasing_t(self.data@),
        ensures
            r.0 == spec_count_lt(self.data@, min),
            r.1 == spec_count_le(self.data@, max),
            r.0 <= self.data@.len(),
            r.1 <= self.data@.len(),
            min <= max ==> r.0 <= r.1,
    {
        let n = self.data.len();

        let mut lo: usize = 0;
        let mut hi: usize = n;
        while lo < hi
            invariant
                n == self.data@.len(),
                strictly_increasing_t(self.data@),
                0 <= lo <= hi <= n,
                forall|j: int| 0 <= j < lo ==> self.data@[j].t < min,
                forall|j: int| hi <= j < n ==> self.data@[j].t >= min,
            decreases hi - lo,
        {
            let mid = lo + (hi - lo) / 2;
            if self.data[mid].t < min {
                assert forall|j: int| 0 <= j < mid + 1 implies self.data@[j].t < min by {
                    if j < mid {
                        assert(self.data@[j].t < self.data@[mid as int].t);
                    }
                }
                lo = mid + 1;
            } else {
                assert forall|j: int| mid <= j < n implies self.data@[j].t >= min by {
                    if j > mid {
                        assert(self.data@[mid as int].t < self.data@[j].t);
                    }
                }
                hi = mid;
            }
        }
        let first = lo;
        proof {
            lemma_count_lt_boundary(self.data@, min, first as int);
        }

        let mut lo2: usize = 0;
        let mut hi2: usize = n;
        while lo2 < hi2
            invariant
                n == self.data@.len(),
                strictly_increasing_t(self.data@),
                0 <= lo2 <= hi2 <= n,
                forall|j: int| 0 <= j < lo2 ==> self.data@[j].t <= max,
                forall|j: int| hi2 <= j < n ==> self.data@[j].t > max,
            decreases hi2 - lo2,
        {
            let mid = lo2 + (hi2 - lo2) / 2;
            if self.data[mid].t <= max {
                assert forall|j: int| 0 <= j < mid + 1 implies self.data@[j].t <= max by {
                    if j < mid {
                        assert(self.data@[j].t < self.data@[mid as int].t);
                    }
                }
                lo2 = mid + 1;
            } else {
                assert forall|j: int| mid <= j < n implies self.data@[j].t > max by {
                    if j > mid {
                        assert(self.data@[mid as int].t < self.data@[j].t);
                    }
                }
                hi2 = mid;
            }
        }
        let beyond = lo2;
        proof {
            lemma_count_le_boundary(self.data@, max, beyond as int);
            if min <= max && first > beyond {
                assert(self.data@[beyond as int].t > max);
                assert(self.data@[beyond as int].t < min);
            }
        }
        (first, beyond)
    }
}

impl LineManager {
    /// The levels of the pyramid.
    pub closed spec fn levels(self) -> Seq<LineInstance> {
        self.instances@
    }

    /// The untouched base sequence.
    pub open spec fn level0(self) -> Seq<Point> {
        self.levels()[0].data@
    }

    /// The pyramid shape: level `k` carries period `k` and every `2^k`-th
    /// base point, and the base is sorted by time.
    pub open spec fn wf(self) -> bool {
        &&& self.levels().len() >= 2
        &&& forall|k: int|
            0 <= k < self.levels().len() ==> (#[trigger] self.levels()[k]).period == k
        &&& forall|k: int|
            0 <= k < self.levels().len() ==> level_samples(
                (#[trigger] self.levels()[k]).data@,
                self.levels()[0].data@,
                pow2_int(k),
            )
        &&& strictly_increasing_t(self.levels()[0].data@)
    }

    /// Which level a query for `[min, max]` answers from: the finest whose
    /// covering run fits under `MAX_POINTS`, or the coarsest if none does.
    pub open spec fn spec_chosen_from(self, min: i64, max: i64, k: int) -> int
        recommends
            0 <= k < self.levels().len(),
        decreases self.levels().len() - k,
    {
        if k >= self.levels().len() - 1 {
            self.levels().len() - 1
        } else if spec_level_slice(self.levels()[k].data@, min, max).len() <= MAX_POINTS as int {
            k
        } else {
            self.spec_chosen_from(min, max, k + 1)
        }
    }

    /// Build the resolution pyramid: level 0 keeps the data untouched, and
    /// level `k` keeps every `2^k`-th point.
    pub fn new(data: Vec<Point>) -> (r: LineManager)
        requires
            strictly_increasing_t(data@),
            data@.len() <= MAX_BASE_LEN,
        ensures
            r.wf(),
            r.level0() == data@,
            r.levels().len() == spec_num_levels(data@.len() as int),
    {
        let n = data.len();
        let q: usize = n / MAX_POINTS;

        let mut max_period: usize = 2;
        if q >= 1 {
            let mut lev: usize = 0;
            let mut qq: usize = q;
            proof {
                lemma_flog2_facts(q as int);
            }
            while qq > 1
                invariant
                    1 <= qq <= q,
                    q >= 1,
                    spec_floor_log2(q as int) == lev + spec_floor_log2(qq as int),
                    0 <= lev,
                    lev as int <= spec_floor_log2(q as int),
                decreases qq,
            {
                proof {
                    lemma_flog2_facts(qq as int);
                    lemma_flog2_facts(q as int);
                    if qq / 2 >= 1 {
                        lemma_flog2_facts((qq / 2) as int);
                    }
                }
                qq = qq / 2;
                lev = lev + 1;
            }
            proof {
                assert(spec_floor_log2(qq as int) == 0);
                assert(lev as int == spec_floor_log2(q as int));
                lemma_flog2_facts(q as int);
            }
            max_period = lev + 2;
            proof {
                // 2^(lev + 2) == 4 * 2^lev <= 4 * q
                assert(pow2_int(lev as int + 2) == 2 * pow2_int(lev as int + 1));
                assert(pow2_int(lev as int + 1) == 2 * pow2_int(lev as int));
                assert(pow2_int(lev as int) <= q);
            }
        }

        let ghost nl = spec_num_levels(n as int);
        proof {
            assert(q as int == n as int / (MAX_POINTS as int));
            assert(max_period as int == nl);
        }

        let mut instances: Vec<LineInstance> = Vec::new();
        let mut k: usize = 0;
        let mut stride: usize = 1;
        while k < max_period
            invariant
                n == data@.len(),
                n <= MAX_BASE_LEN,
                strictly_increasing_t(data@),
                q as int == n as int / (MAX_POINTS as int),
                0 <= k <= max_period,
                2 <= max_period,
                q == 0 ==> max_period == 2,
                q >= 1 ==> pow2_int(max_period as int) <= 4 * q,
                instances@.len() == k,
                stride == pow2_int(k as int),
                1 <= stride,
                forall|kk: int| 0 <= kk < k ==> (#[trigger] instances@[kk]).period == kk,
                forall|kk: int|
                    0 <= kk < k ==> level_samples(
                        (#[trigger] instances@[kk]).data@,
                        data@,
                        pow2_int(kk),
                    ),
                k >= 1 ==> instances@[0].data@ == data@,
            decreases max_period - k,
        {
            proof {
                lemma_pow2_int_mono(k as int, max_period as int);
                if q == 0 {
                    assert(pow2_int(2) == 2 * pow2_int(1));
                    assert(pow2_int(1) == 2 * pow2_int(0));
                }
                assert(stride <= 4 * q + 4);
            }
            let mut lvl: Vec<Point> = Vec::new();
            let mut i: usize = 0;
            proof {
                assert(lvl@.len() * stride == 0) by (nonlinear_arith)
                    requires
                        lvl@.len() == 0;
            }
            while i < n
                invariant
                    n == data@.len(),
                    n <= MAX_BASE_LEN,
                    1 <= stride,
                    stride <= 4 * q + 4,
                    q as int == n as int / (MAX_POINTS as int),
                    lvl@.len() * stride == i,
                    i == 0 || i - stride < n,
                    forall|j: int| 0 <= j < lvl@.len() ==> #[trigger] lvl@[j] == data@[j * stride],
                decreases n + stride - i,
            {
                let g: Ghost<Seq<Point>> = Ghost(lvl@);
                lvl.push(data[i]);
                proof {
                    assert(lvl@.len() * stride == g@.len() * stride + stride) by (nonlinear_arith)
                        requires
                            lvl@.len() == g@.len() + 1;
                    assert forall|j: int| 0 <= j < lvl@.len() implies #[trigger] lvl@[j] == data@[j
                        * stride] by {
                        if j < g@.len() {
                            assert(lvl@[j] == g@[j]);
                        } else {
                            assert(j == g@.len());
                            assert(j * stride == i) by (nonlinear_arith)
                                requires
                                    j == g@.len(),
                                    g@.len() * stride == i;
                        }
                    }
                }
                i = i + stride;
            }
            proof {
                let len = lvl@.len() as int;
                let st = stride as int;
                if n >= 1 {
                    assert(len >= 1) by (nonlinear_arith)
                        requires
                            len * st == i,
                            i >= n,
                            n >= 1,
                            st >= 1,
                            len >= 0;
                    assert((len - 1) * st == len * st - st) by (nonlinear_arith);
                    vstd::arithmetic::div_mod::lemma_fundamental_div_mod_converse(
                        n as int - 1,
                        st,
                        len - 1,
                        n as int - 1 - (len - 1) * st,
                    );
                    assert(lvl@.len() == num_strided(n as int, st));
                } else {
                    assert(i < stride);
                    assert(len == 0) by (nonlinear_arith)
                        requires
                            len * st == i,
                            i < st,
                            st >= 1,
                            len >= 0;
                }
            }
            let ghost glvl = lvl@;
            let gi: Ghost<Seq<LineInstance>> = Ghost(instances@);
            proof {
                // The level count stays far below `u32`: it is outgrown by its
                // own power of two, which the loop bound caps at `4 * q + 4`.
                lemma_pow2_int_gt(max_period as int);
            }
            let kk32: u32 = k as u32;
            instances.push(LineInstance { period: kk32, data: lvl });
            proof {
                let newinst = instances@.last();
                assert(instances@ == gi@.push(newinst));
                assert(newinst.data@ == glvl);
                assert(newinst.period == kk32);
                assert(level_samples(newinst.data@, data@, pow2_int(k as int)));
                assert forall|kj: int|
                    0 <= kj < instances@.len() implies level_samples(
                    (#[trigger] instances@[kj]).data@,
                    data@,
                    pow2_int(kj),
                ) && instances@[kj].period == kj by {
                    if kj < gi@.len() {
                        assert(instances@[kj] == gi@[kj]);
                    } else {
                        assert(instances@[kj] == newinst);
                    }
                }
                if k == 0 {
                    let l0 = instances@[0].data@;
                    assert(l0 =~= data@) by {
                        assert(l0.len() == num_strided(n as int, 1));
                        if n >= 1 {
                            assert((n as int - 1) / 1 == n as int - 1)
                                by (nonlinear_arith);
                        }
                        assert forall|j: int| 0 <= j < l0.len() implies l0[j] == data@[j] by {
                            assert(l0[j] == data@[j * 1]);
                            assert(j * 1 == j) by (nonlinear_arith);
                        }
                    }
                }
            }
            k = k + 1;
            proof {
                lemma_pow2_int_mono(k as int, max_period as int);
            }
            stride = stride * 2;
        }
        LineManager { instances }
    }

    /// How many levels the pyramid holds.
    pub fn level_count(&self) -> (r: usize)
        ensures
            r == self.levels().len(),
    {
        self.instances.len()
    }

    /// Borrow the sampled points of one level.
    pub fn level_data(&self, k: usize) -> (r: &Vec<Point>)
        requires
            k < self.levels().len(),
        ensures
            r@ == self.levels()[k as int].data@,
    {
        &self.instances[k].data
    }

    /// Answer a visible-range query with a bounded number of points.
    ///
    /// Levels are scanned from finest to coarsest; the first whose covering
    /// run holds at most `MAX_POINTS` points answers the query.  If even the
    /// coarsest level exceeds the bound, its run is returned regardless:
    /// returning too many points is preferred over returning nothing.
    /// Returns `None` exactly when the store holds no points.
    pub fn gen_line(&self, min: i64, max: i64) -> (r: Option<Vec<Point>>)
        requires
            self.wf(),
        ensures
            r is None <==> self.level0().len() == 0,
            r matches Some(pts) ==> {
                let kk = self.spec_chosen_from(min, max, 0);
                &&& pts@ == spec_level_slice(self.levels()[kk].data@, min, max)
                &&& (pts@.len() <= MAX_POINTS || kk == self.levels().len() - 1)
                &&& forall|k2: int|
                    0 <= k2 < kk ==> spec_level_slice(
                        (#[trigger] self.levels()[k2]).data@,
                        min,
                        max,
                    ).len() > MAX_POINTS
            },
    {
        if self.instances[0].data.len() == 0 {
            return None;
        }
        let levels = self.instances.len();
        let mut k: usize = 0;
        loop
            invariant
                self.wf(),
                levels == self.levels().len(),
                0 <= k < levels,
                forall|k2: int|
                    0 <= k2 < k ==> spec_level_slice(
                        (#[trigger] self.levels()[k2]).data@,
                        min,
                        max,
                    ).len() > MAX_POINTS,
                self.spec_chosen_from(min, max, 0) == self.spec_chosen_from(min, max, k as int),
                self.level0().len() > 0,
            decreases levels - k,
        {
            let inst = &self.instances[k];
            proof {
                lemma_pow2_int_pos(k as int);
                lemma_level_sorted(inst.data@, self.level0(), pow2_int(k as int));
            }
            let (lo, hi) = inst.get_points_in_range(min, max);
            let span: usize = if hi > lo {
                hi - lo
            } else {
                0
            };
            if span <= MAX_POINTS || k == levels - 1 {
                let mut out: Vec<Point> = Vec::new();
                if hi > lo {
                    let mut j: usize = lo;
                    while j < hi
                        invariant
                            lo <= j <= hi <= inst.data@.len(),
                            inst == &self.instances@[k as int],
                            out@ == inst.data@.subrange(lo as int, j as int),
                        decreases hi - j,
                    {
                        out.push(inst.data[j]);
                        proof {
                            assert(out@ =~= inst.data@.subrange(lo as int, j + 1));
                        }
                        j += 1;
                    }
                }
                proof {
                    if hi <= lo {
                        assert(out@ =~= spec_level_slice(inst.data@, min, max));
                    }
                    if span <= MAX_POINTS {
                        assert(self.spec_chosen_from(min, max, k as int) == k);
                    } else {
                        assert(k == levels - 1);
                        assert(self.spec_chosen_from(min, max, k as int) == k);
                    }
                }
                return Some(out);
            }
            proof {
                assert(spec_level_slice(inst.data@, min, max).len() > MAX_POINTS);
                assert(self.spec_chosen_from(min, max, k as int) == self.spec_chosen_from(
                    min,
                    max,
                    k + 1,
                ));
            }
            k += 1;
        }
    }

    /// The largest time in the store, or zero when it is empty.
    pub fn max_x(&self) -> (r: i64)
        requires
            self.wf(),
        ensures
            r == if self.level0().len() == 0 {
                0i64
            } else {
                self.level0().last().t
            },
    {
        let n = self.instances[0].data.len();
        if n == 0 {
            return 0;
        }
        self.instances[0].data[n - 1].t
    }
}

/// Every point a coarser level keeps exists, at the same time and value, in
/// level 0 at the index scaled by the level's stride.
pub proof fn lemma_lod_fidelity(lm: LineManager, k: int, j: int)
    requires
        lm.wf(),
        0 <= k < lm.levels().len(),
        0 <= j < lm.levels()[k].data@.len(),
    ensures
        lm.levels()[k].data@[j] == lm.level0()[j * pow2_int(k)],
{
}

} // verus!
