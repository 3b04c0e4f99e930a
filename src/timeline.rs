//! The render timeline: which source frame each output frame reads.
//!
//! Times are integer microseconds. A frame position is the exact rational
//! `num / den` in units of source frames, so no rounding enters the timeline
//! beyond the point counts, which are rounded to the nearest integer.
use vstd::prelude::*;

verus! {

/// Upper bound, in microseconds, on every time that a note is described with.
pub const MAX_TIME_US: i64 = 1_000_000_000;

/// The non-negative ratio `a / b` rounded to the nearest integer, halves upward.
pub open spec fn round_div(a: int, b: int) -> int {
    (2 * a + b) / (2 * b)
}

pub open spec fn min_int(a: int, b: int) -> int {
    if a <= b { a } else { b }
}

/// `a / b` rounded to the nearest integer, halves upward.
pub fn rounded_ratio(a: i64, b: i64) -> (r: i64)
    requires
        0 <= a <= 3 * MAX_TIME_US,
        0 < b <= MAX_TIME_US,
    ensures
        r == round_div(a as int, b as int),
        0 <= r <= a,
{
    proof {
        assert(0 <= (2 * a + b) / (2 * b) <= a) by (nonlinear_arith)
            requires 0 <= a, 0 < b;
    }
    (2 * a + b) / (2 * b)
}

/// How a note is placed on its source sample.
pub struct NoteTiming {
    /// Where the note starts in the source.
    pub offset_us: i64,
    /// Length of the consonant region in the source.
    pub consonant_us: i64,
    /// Negative: the region's length from the offset. Otherwise: what is cut
    /// from the tail of the source.
    pub cutoff_us: i64,
    /// Requested length of the vowel part of the render.
    pub length_us: i64,
    /// Length of the consonant in the render, after the velocity stretch.
    pub consonant_render_us: i64,
}

impl NoteTiming {
    /// Every time lies within `MAX_TIME_US` of zero, and all but the cutoff are
    /// non-negative.
    pub open spec fn valid(self) -> bool {
        &&& 0 <= self.offset_us <= MAX_TIME_US
        &&& 0 <= self.consonant_us <= MAX_TIME_US
        &&& -MAX_TIME_US <= self.cutoff_us <= MAX_TIME_US
        &&& 0 <= self.length_us <= MAX_TIME_US
        &&& 0 <= self.consonant_render_us <= MAX_TIME_US
    }

    /// Source time at which the consonant ends and the vowel begins.
    pub open spec fn consonant_end(self) -> int {
        self.offset_us + self.consonant_us
    }

    /// Source time at which the usable region ends.
    pub open spec fn region_end(self, source_us: int) -> int {
        if self.cutoff_us < 0 {
            self.offset_us - self.cutoff_us
        } else {
            source_us - self.cutoff_us
        }
    }

    /// The source vowel region is longer than requested: it is sliced, not stretched.
    pub open spec fn slices(self, source_us: int) -> bool {
        self.region_end(source_us) - self.consonant_end() > self.length_us
    }
}

/// `count` evenly spaced frame positions; the `i`-th is `(first + i * step) / den`.
pub struct Segment {
    pub first: i64,
    pub step: i64,
    pub den: i64,
    pub count: usize,
}

impl Segment {
    pub open spec fn num_at(self, i: int) -> int {
        self.first + i * self.step
    }

    pub open spec fn wf(self) -> bool {
        &&& 0 < self.den <= MAX_TIME_US * MAX_TIME_US
        &&& self.count <= MAX_TIME_US
        &&& -3 * MAX_TIME_US <= self.step <= 3 * MAX_TIME_US
        &&& -2 * MAX_TIME_US * MAX_TIME_US <= self.first <= 2 * MAX_TIME_US * MAX_TIME_US
    }

    /// The numerator of the `i`-th position.
    pub fn num(&self, i: usize) -> (r: i64)
        requires
            self.wf(),
            i < self.count,
        ensures
            r == self.num_at(i as int),
    {
        proof {
            let m = MAX_TIME_US as int;
            assert(-3 * m * m <= i * self.step <= 3 * m * m) by (nonlinear_arith)
                requires 0 <= i <= m, -3 * m <= self.step <= 3 * m, m == 1_000_000_000;
        }
        self.first + (i as i64) * self.step
    }
}


/// Positions `0 .. n` of the consonant, `n` points from the offset towards the
/// consonant's end with that end left out: point `i` lies at source time
/// `offset + i * consonant / n`, divided by the frame period `p`.
pub open spec fn spans_consonant(seg: Segment, t: NoteTiming, p: int) -> bool {
    forall|i: int|
        0 <= i < seg.count ==> #[trigger] seg.num_at(i) * (seg.count * p) == (t.offset_us
            * seg.count + i * t.consonant_us) * seg.den
}

/// Last source frame (exclusive) of the sliced vowel.
pub open spec fn slice_hi(t: NoteTiming, frames: int, p: int) -> int {
    min_int(round_div(t.consonant_end(), p) + round_div(t.length_us as int, p), frames - 1)
}

/// First source frame of the sliced vowel.
pub open spec fn slice_lo(t: NoteTiming, frames: int, p: int) -> int {
    min_int(round_div(t.consonant_end(), p), slice_hi(t, frames, p))
}

/// The source frames `lo .. hi`, one source frame per render frame.
pub open spec fn is_frame_run(seg: Segment, lo: int, hi: int) -> bool {
    &&& seg.count == hi - lo
    &&& seg.den == 1
    &&& forall|i: int| 0 <= i < seg.count ==> #[trigger] seg.num_at(i) == lo + i
}

/// `m` evenly spaced positions from source time `a` to source time `b`, both
/// ends included, divided by the frame period `p`.
pub open spec fn spans_evenly(seg: Segment, a: int, b: int, m: int, p: int) -> bool {
    &&& seg.count == m
    &&& m >= 2 ==> forall|i: int|
        0 <= i < m ==> #[trigger] seg.num_at(i) * ((m - 1) * p) == (a * (m - 1) + i * (b - a))
            * seg.den
    &&& m == 1 ==> seg.num_at(0) * p == a * seg.den
}

/// The consonant part: the source consonant laid over as many frames as its
/// stretched length in the render fills.
pub fn consonant_segment(t: &NoteTiming, frame_period_us: i64) -> (r: Segment)
    requires
        t.valid(),
        0 < frame_period_us <= MAX_TIME_US,
    ensures
        r.wf(),
        r.count == round_div(t.consonant_render_us as int, frame_period_us as int),
        spans_consonant(r, *t, frame_period_us as int),
{
    let n = rounded_ratio(t.consonant_render_us, frame_period_us);
    if n == 0 {
        Segment { first: t.offset_us, step: 0, den: frame_period_us, count: 0 }
    } else {
        proof {
            let m = MAX_TIME_US as int;
            assert(t.offset_us * n <= m * m && 0 <= t.offset_us * n) by (nonlinear_arith)
                requires 0 <= t.offset_us <= m, 0 <= n <= m;
            assert(0 < n * frame_period_us <= m * m) by (nonlinear_arith)
                requires 0 < frame_period_us <= m, 0 < n <= m;
        }
        let r = Segment {
            first: t.offset_us * n,
            step: t.consonant_us,
            den: n * frame_period_us,
            count: n as usize,
        };
        r
    }
}

/// The vowel part when the source vowel is longer than requested: a run of
/// whole source frames, cut short before the last frame of the source.
pub fn sliced_vowel(t: &NoteTiming, frames: usize, frame_period_us: i64) -> (r: Segment)
    requires
        t.valid(),
        0 < frame_period_us <= MAX_TIME_US,
        1 <= frames <= MAX_TIME_US,
    ensures
        r.wf(),
        is_frame_run(
            r,
            slice_lo(*t, frames as int, frame_period_us as int),
            slice_hi(*t, frames as int, frame_period_us as int),
        ),
{
    let start = rounded_ratio(t.offset_us + t.consonant_us, frame_period_us);
    let len = rounded_ratio(t.length_us, frame_period_us);
    let last = (frames - 1) as i64;
    let hi = if start + len <= last { start + len } else { last };
    let lo = if start <= hi { start } else { hi };
    Segment { first: lo, step: 1, den: 1, count: (hi - lo) as usize }
}

/// The vowel part when the source vowel is not longer than requested: the
/// region from the consonant's end to the region's end, resampled evenly to
/// the requested length.
pub fn stretched_vowel(t: &NoteTiming, end_us: i64, frame_period_us: i64) -> (r: Segment)
    requires
        t.valid(),
        0 < frame_period_us <= MAX_TIME_US,
        -MAX_TIME_US <= end_us <= 2 * MAX_TIME_US,
    ensures
        r.wf(),
        spans_evenly(
            r,
            t.consonant_end(),
            end_us as int,
            round_div(t.length_us as int, frame_period_us as int),
            frame_period_us as int,
        ),
{
    let a = t.offset_us + t.consonant_us;
    let m = rounded_ratio(t.length_us, frame_period_us);
    if m < 2 {
        Segment { first: a, step: 0, den: frame_period_us, count: m as usize }
    } else {
        let k = m - 1;
        proof {
            let mm = MAX_TIME_US as int;
            assert(0 <= a * k <= 2 * mm * mm) by (nonlinear_arith)
                requires 0 <= a <= 2 * mm, 0 < k <= mm;
            assert(0 < k * frame_period_us <= mm * mm) by (nonlinear_arith)
                requires 0 < frame_period_us <= mm, 0 < k <= mm;
        }
        let r = Segment { first: a * k, step: end_us - a, den: k * frame_period_us, count: m as usize };
        assert forall|i: int| 0 <= i < m implies #[trigger] r.num_at(i) * ((m - 1) * frame_period_us)
            == (a * (m - 1) + i * (end_us - a)) * r.den by {}
        r
    }
}


/// The output frames of a note: the consonant part, then the vowel part.
pub struct RenderTimeline {
    pub consonant: Segment,
    pub vowel: Segment,
}

impl RenderTimeline {
    pub open spec fn wf(self) -> bool {
        self.consonant.wf() && self.vowel.wf()
    }

    pub open spec fn len(self) -> int {
        self.consonant.count + self.vowel.count
    }

    /// Numerator of output frame `k`'s source position.
    pub open spec fn num_at(self, k: int) -> int {
        if k < self.consonant.count {
            self.consonant.num_at(k)
        } else {
            self.vowel.num_at(k - self.consonant.count)
        }
    }

    /// Denominator of output frame `k`'s source position.
    pub open spec fn den_at(self, k: int) -> int {
        if k < self.consonant.count {
            self.consonant.den as int
        } else {
            self.vowel.den as int
        }
    }

    /// The source frame that output frame `k` falls in, held within the source.
    pub open spec fn frame_at(self, k: int, frames: int) -> int {
        let f = self.num_at(k) / self.den_at(k);
        if f < 0 {
            0
        } else if f > frames - 1 {
            frames - 1
        } else {
            f
        }
    }

    /// Number of output frames.
    pub fn render_length(&self) -> (r: usize)
        requires
            self.wf(),
        ensures
            r == self.len(),
    {
        self.consonant.count + self.vowel.count
    }

    /// Source position of output frame `k`, as a numerator and a positive denominator.
    pub fn position(&self, k: usize) -> (r: (i64, i64))
        requires
            self.wf(),
            k < self.len(),
        ensures
            r.0 == self.num_at(k as int),
            r.1 == self.den_at(k as int),
            r.1 > 0,
    {
        if k < self.consonant.count {
            (self.consonant.num(k), self.consonant.den)
        } else {
            (self.vowel.num(k - self.consonant.count), self.vowel.den)
        }
    }

    /// The source frame that output frame `k` falls in: its position rounded
    /// down, held within `0 .. frames`.
    pub fn source_frame(&self, k: usize, frames: usize) -> (r: usize)
        requires
            self.wf(),
            k < self.len(),
            frames >= 1,
        ensures
            r == self.frame_at(k as int, frames as int),
            r < frames,
    {
        let (num, den) = self.position(k);
        if num < 0 {
            proof {
                assert(num / den < 0) by (nonlinear_arith)
                    requires num < 0, den > 0;
            }
            0
        } else {
            let f = num / den;
            if f as u64 > (frames - 1) as u64 {
                frames - 1
            } else {
                f as usize
            }
        }
    }

    /// The voiced flag of each output frame, read from the source frame it falls in.
    pub fn voicing(&self, vuv: &Vec<bool>) -> (r: Vec<bool>)
        requires
            self.wf(),
            vuv.len() >= 1,
        ensures
            r.len() == self.len(),
            forall|k: int|
                0 <= k < self.len() ==> #[trigger] r[k] == vuv[self.frame_at(k, vuv.len() as int)],
    {
        let n = self.render_length();
        let mut r: Vec<bool> = Vec::with_capacity(n);
        let mut k: usize = 0;
        while k < n
            invariant
                self.wf(),
                vuv.len() >= 1,
                n == self.len(),
                k <= n,
                r.len() == k,
                forall|j: int|
                    0 <= j < k ==> #[trigger] r[j] == vuv[self.frame_at(j, vuv.len() as int)],
            decreases n - k,
        {
            let f = self.source_frame(k, vuv.len());
            r.push(vuv[f]);
            k += 1;
        }
        r
    }
}

/// Lays a note over its source: `frames` source frames of `frame_period_us` each.
///
/// The consonant part always holds `round(consonant_render / period)` points
/// spread over the source consonant, its end left out. When the source vowel
/// region is longer than requested it is sliced, whole frames at the source's
/// own pace; otherwise it is stretched evenly over the requested length.
pub fn build_timeline(t: &NoteTiming, frames: usize, frame_period_us: i64) -> (r: RenderTimeline)
    requires
        t.valid(),
        0 < frame_period_us <= MAX_TIME_US,
        1 <= frames,
        frames * frame_period_us <= MAX_TIME_US,
    ensures
        r.wf(),
        r.consonant.count == round_div(t.consonant_render_us as int, frame_period_us as int),
        spans_consonant(r.consonant, *t, frame_period_us as int),
        t.slices(frames * frame_period_us) ==> is_frame_run(
            r.vowel,
            slice_lo(*t, frames as int, frame_period_us as int),
            slice_hi(*t, frames as int, frame_period_us as int),
        ),
        !t.slices(frames * frame_period_us) ==> spans_evenly(
            r.vowel,
            t.consonant_end(),
            t.region_end(frames * frame_period_us),
            round_div(t.length_us as int, frame_period_us as int),
            frame_period_us as int,
        ),
{
    proof {
        assert(frames <= frames * frame_period_us) by (nonlinear_arith)
            requires frame_period_us >= 1, frames >= 1;
    }
    let source_us = (frames as i64) * frame_period_us;
    let consonant = consonant_segment(t, frame_period_us);
    let end_us = if t.cutoff_us < 0 {
        t.offset_us - t.cutoff_us
    } else {
        source_us - t.cutoff_us
    };
    let vowel = if end_us - (t.offset_us + t.consonant_us) > t.length_us {
        sliced_vowel(t, frames, frame_period_us)
    } else {
        stretched_vowel(t, end_us, frame_period_us)
    };
    RenderTimeline { consonant, vowel }
}


/// A sliced vowel whose run fits before the source's last frame holds exactly
/// `round(length / period)` output frames, and they are consecutive source
/// frames from `round(consonant_end / period)` on: one source frame per output
/// frame, nothing interpolated.
pub proof fn lemma_slice_keeps_source_pace(seg: Segment, t: NoteTiming, frames: int, p: int)
    requires
        is_frame_run(seg, slice_lo(t, frames, p), slice_hi(t, frames, p)),
        t.valid(),
        p > 0,
        round_div(t.consonant_end(), p) + round_div(t.length_us as int, p) <= frames - 1,
    ensures
        seg.count == round_div(t.length_us as int, p),
        seg.den == 1,
        seg.count > 0 ==> seg.num_at(0) == round_div(t.consonant_end(), p),
        forall|i: int| 0 <= i < seg.count - 1 ==> seg.num_at(i + 1) == #[trigger] seg.num_at(i) + 1,
{
    let lo = round_div(t.consonant_end(), p);
    assert(0 <= round_div(t.length_us as int, p)) by (nonlinear_arith)
        requires p > 0, t.length_us >= 0;
    assert(slice_lo(t, frames, p) == lo);
    assert forall|i: int| 0 <= i < seg.count - 1 implies seg.num_at(i + 1) == #[trigger] seg.num_at(i) + 1 by {
        assert(seg.num_at(i) == lo + i);
        assert(seg.num_at(i + 1) == lo + i + 1);
    }
    if seg.count > 0 {
        assert(seg.num_at(0) == lo + 0);
    }
}

/// A stretched vowel of two or more points starts exactly at the consonant's
/// end, ends exactly at the region's end, and its points are evenly spaced:
/// each step is `(b - a) / (m - 1)` of source time.
pub proof fn lemma_stretch_spans_region(seg: Segment, a: int, b: int, m: int, p: int)
    requires
        spans_evenly(seg, a, b, m, p),
        m >= 2,
        p > 0,
        seg.den > 0,
    ensures
        seg.num_at(0) * p == a * seg.den,
        seg.num_at(m - 1) * p == b * seg.den,
        forall|i: int|
            0 <= i < m - 1 ==> (seg.num_at(i + 1) - #[trigger] seg.num_at(i)) * ((m - 1) * p) == (b
                - a) * seg.den,
{
    let d = seg.den as int;
    let k = m - 1;
    let n0 = seg.num_at(0);
    let nl = seg.num_at(m - 1);
    assert(n0 * (k * p) == (a * k + 0 * (b - a)) * d);
    assert(nl * (k * p) == (a * k + (m - 1) * (b - a)) * d);
    assert(n0 * p == a * d) by (nonlinear_arith)
        requires n0 * (k * p) == (a * k + 0 * (b - a)) * d, k > 0;
    assert(nl * p == b * d) by (nonlinear_arith)
        requires nl * (k * p) == (a * k + k * (b - a)) * d, k > 0, k == m - 1;
    assert forall|i: int|
        0 <= i < m - 1 implies (seg.num_at(i + 1) - #[trigger] seg.num_at(i)) * ((m - 1) * p) == (b
            - a) * seg.den by {
        let x = seg.num_at(i);
        let y = seg.num_at(i + 1);
        assert(x * (k * p) == (a * k + i * (b - a)) * d);
        assert(y * (k * p) == (a * k + (i + 1) * (b - a)) * d);
        assert((y - x) * (k * p) == (b - a) * d) by (nonlinear_arith)
            requires
                x * (k * p) == (a * k + i * (b - a)) * d,
                y * (k * p) == (a * k + (i + 1) * (b - a)) * d;
    }
}

} // verus!
