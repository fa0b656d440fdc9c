//! Rolling views of a metric for live display.
//!
//! [`SparklineValues`] keeps the last 500 samples of a metric in fixed-point
//! form together with the largest sample ever seen. [`ChartValues`] keeps the
//! last 1000 samples as points over a running index, the least and the
//! greatest sample among those it still holds, and a level reference line
//! that always spans the same range of the index as the points do.
//!
//! Both hand out what a drawing layer needs as plain values.

use vstd::prelude::*;
use crate::array::{newest, pushed, pushed_all, Array, lemma_pushes_retain_newest};
use crate::ffmpeg::Binary64;

verus! {

/// Samples that a [`SparklineValues`] retains.
pub const SPARKLINE_CAPACITY: usize = 500;

/// Points that a [`ChartValues`] retains.
pub const CHART_CAPACITY: usize = 1000;

/// Columns of a drawing area that its border takes.
pub const BORDER_COLUMNS: u16 = 2;

/// The greatest of `values`, or zero if there are none.
pub open spec fn highest(values: Seq<u64>) -> u64
    decreases values.len(),
{
    if values.len() == 0 {
        0
    } else if values.last() > highest(values.drop_last()) {
        values.last()
    } else {
        highest(values.drop_last())
    }
}

/// The least of `values`, or the greatest 64-bit number if there are none.
pub open spec fn lowest(values: Seq<u64>) -> u64
    decreases values.len(),
{
    if values.len() == 0 {
        u64::MAX
    } else if values.last() < lowest(values.drop_last()) {
        values.last()
    } else {
        lowest(values.drop_last())
    }
}

/// No value exceeds the highest, and the highest of a non-empty sequence is
/// one of its values.
pub proof fn lemma_highest(values: Seq<u64>)
    ensures
        forall|i: int| 0 <= i < values.len() ==> values[i] <= highest(values),
        values.len() > 0 ==> exists|i: int| 0 <= i < values.len() && values[i] == highest(values),
    decreases values.len(),
{
    if values.len() > 0 {
        let front = values.drop_last();
        lemma_highest(front);
        assert forall|i: int| 0 <= i < values.len() implies values[i] <= highest(values) by {
            if i < front.len() {
                assert(values[i] == front[i]);
            }
        }
        if values.last() > highest(front) || front.len() == 0 {
            assert(values[values.len() - 1] == highest(values));
        } else {
            let i = choose|i: int| 0 <= i < front.len() && front[i] == highest(front);
            assert(values[i] == highest(values));
        }
    }
}

/// No value is below the lowest, and the lowest of a non-empty sequence is
/// one of its values.
pub proof fn lemma_lowest(values: Seq<u64>)
    ensures
        forall|i: int| 0 <= i < values.len() ==> values[i] >= lowest(values),
        values.len() > 0 ==> exists|i: int| 0 <= i < values.len() && values[i] == lowest(values),
    decreases values.len(),
{
    if values.len() > 0 {
        let front = values.drop_last();
        lemma_lowest(front);
        assert forall|i: int| 0 <= i < values.len() implies values[i] >= lowest(values) by {
            if i < front.len() {
                assert(values[i] == front[i]);
            }
        }
        if values.last() < lowest(front) || front.len() == 0 {
            assert(values[values.len() - 1] == lowest(values));
        } else {
            let i = choose|i: int| 0 <= i < front.len() && front[i] == lowest(front);
            assert(values[i] == lowest(values));
        }
    }
}

/// What a [`SparklineValues`] holds.
pub struct SparklineState {
    /// The retained samples in fixed-point form, oldest first.
    pub history: Seq<u64>,
    /// The greatest fixed-point sample of all updates so far.
    pub max: u64,
    /// The latest sample as it arrived.
    pub current: Binary64,
}

impl SparklineState {
    /// The state before any update.
    pub open spec fn start() -> SparklineState {
        SparklineState { history: Seq::empty(), max: 0, current: Binary64 { bits: 0 } }
    }

    /// The state after an update with the sample `current`, whose fixed-point
    /// form is `scaled`.
    pub open spec fn updated(self, current: Binary64, scaled: u64) -> SparklineState {
        SparklineState {
            history: pushed(self.history, scaled, SPARKLINE_CAPACITY as nat),
            max: if scaled > self.max {
                scaled
            } else {
                self.max
            },
            current,
        }
    }

    /// The state after updates with each of `samples`, first to last.
    pub open spec fn after(samples: Seq<(Binary64, u64)>) -> SparklineState
        decreases samples.len(),
    {
        if samples.len() == 0 {
            Self::start()
        } else {
            Self::after(samples.drop_last()).updated(samples.last().0, samples.last().1)
        }
    }
}

/// The fixed-point forms of `samples`.
pub open spec fn scaled_of(samples: Seq<(Binary64, u64)>) -> Seq<u64> {
    Seq::new(samples.len(), |i: int| samples[i].1)
}

/// What a drawing layer needs of a [`SparklineValues`].
pub struct Sparkline<'a> {
    /// The samples to draw, oldest first.
    pub data: &'a [u64],
    /// The upper end of the scale.
    pub max: u64,
    /// The latest sample as it arrived, for the title.
    pub current: Binary64,
}

/// A metric's recent samples for a single-line graph.
pub struct SparklineValues {
    history: Array<u64, 500>,
    max: u64,
    current: Binary64,
}

impl View for SparklineValues {
    type V = SparklineState;

    closed spec fn view(&self) -> SparklineState {
        SparklineState { history: self.history@, max: self.max, current: self.current }
    }
}

impl SparklineValues {
    /// A view without samples.
    pub fn new() -> (r: Self)
        ensures
            r@ == SparklineState::start(),
    {
        SparklineValues { history: Array::new(0), max: 0, current: Binary64 { bits: 0 } }
    }

    /// Takes the next sample: `current` as it arrived and `scaled` in
    /// fixed-point form.
    pub fn update(&mut self, current: Binary64, scaled: u64)
        ensures
            final(self)@ == old(self)@.updated(current, scaled),
            final(self)@.history.len() <= SPARKLINE_CAPACITY,
    {
        self.current = current;
        self.history.push(scaled);
        if scaled > self.max {
            self.max = scaled;
        }
    }

    /// What to draw in an area `width` columns wide: the newest samples that
    /// fit between the borders, with the scale's upper end and the latest
    /// sample.
    pub fn create(&self, width: u16) -> (r: Sparkline<'_>)
        ensures
            r.data@ == newest(
                self@.history,
                if width >= BORDER_COLUMNS {
                    (width - BORDER_COLUMNS) as nat
                } else {
                    0
                },
            ),
            r.max == self@.max,
            r.current == self@.current,
    {
        let data = self.history.as_slice();
        let room: usize = if width >= BORDER_COLUMNS {
            (width - BORDER_COLUMNS) as usize
        } else {
            0
        };
        let from: usize = if data.len() > room {
            data.len() - room
        } else {
            0
        };
        let shown = &data[from..data.len()];
        assert(shown@ =~= newest(self@.history, room as nat));
        Sparkline { data: shown, max: self.max, current: self.current }
    }
}

/// After any run of updates a single-line view retains the newest 500
/// fixed-point samples, while its maximum is the greatest of all of them,
/// the evicted ones included.
pub proof fn lemma_sparkline_after(samples: Seq<(Binary64, u64)>)
    ensures
        SparklineState::after(samples).history == newest(
            scaled_of(samples),
            SPARKLINE_CAPACITY as nat,
        ),
        SparklineState::after(samples).max == highest(scaled_of(samples)),
        samples.len() > 0 ==> SparklineState::after(samples).current == samples.last().0,
    decreases samples.len(),
{
    let cap = SPARKLINE_CAPACITY as nat;
    if samples.len() == 0 {
        assert(scaled_of(samples) =~= Seq::<u64>::empty());
    } else {
        let front = samples.drop_last();
        lemma_sparkline_after(front);
        assert(scaled_of(samples).drop_last() =~= scaled_of(front));
        assert(scaled_of(samples).last() == samples.last().1);
        assert(Seq::<u64>::empty() + scaled_of(front) =~= scaled_of(front));
        assert(Seq::<u64>::empty() + scaled_of(samples) =~= scaled_of(samples));
        lemma_pushes_retain_newest(Seq::empty(), scaled_of(front), cap);
        lemma_pushes_retain_newest(Seq::empty(), scaled_of(samples), cap);
    }
}

/// The second coordinates of `points`.
pub open spec fn ys(points: Seq<(u64, u64)>) -> Seq<u64> {
    Seq::new(points.len(), |i: int| points[i].1)
}

/// The index that follows `x`; the greatest index follows itself.
pub open spec fn next_index(x: u64) -> u64 {
    if x < u64::MAX {
        (x + 1) as u64
    } else {
        x
    }
}

/// What a [`ChartValues`] holds.
pub struct ChartState {
    /// The retained points, oldest first: a running index and the sample.
    pub history: Seq<(u64, u64)>,
    /// The two ends of the reference line.
    pub baseline: Seq<(u64, u64)>,
    /// The latest sample.
    pub current: u64,
    /// The least sample among the retained points.
    pub min: u64,
    /// The greatest sample among the retained points.
    pub max: u64,
}

impl ChartState {
    /// The state before any update, with the reference line at `level`.
    pub open spec fn start(level: u64) -> ChartState {
        ChartState {
            history: Seq::empty(),
            baseline: seq![(0u64, level), (0u64, level)],
            current: 0,
            min: 0,
            max: 0,
        }
    }

    /// The index of the newest retained point, or zero if there is none.
    pub open spec fn last_index(self) -> u64 {
        if self.history.len() > 0 {
            self.history.last().0
        } else {
            0
        }
    }

    /// The state after an update with the sample `value`. The new point
    /// takes the index after that of the newest point. The reference line
    /// keeps its level and spans from the oldest retained index to the
    /// newest, and the extremes are those of the retained samples.
    pub open spec fn updated(self, value: u64) -> ChartState {
        let history = pushed(
            self.history,
            (next_index(self.last_index()), value),
            CHART_CAPACITY as nat,
        );
        ChartState {
            history,
            baseline: seq![
                (history.first().0, self.baseline[0].1),
                (history.last().0, self.baseline[1].1),
            ],
            current: value,
            min: lowest(ys(history)),
            max: highest(ys(history)),
        }
    }

    /// The state after updates with each of `samples`, first to last.
    pub open spec fn after(level: u64, samples: Seq<u64>) -> ChartState
        decreases samples.len(),
    {
        if samples.len() == 0 {
            Self::start(level)
        } else {
            Self::after(level, samples.drop_last()).updated(samples.last())
        }
    }
}

/// What a drawing layer needs of a [`ChartValues`].
pub struct Chart<'a> {
    /// The two ends of the reference line.
    pub baseline: [(u64, u64); 2],
    /// The points to draw, oldest first.
    pub history: &'a [(u64, u64)],
    /// The latest sample, for the title.
    pub current: u64,
    /// The least sample among the points.
    pub min: u64,
    /// The greatest sample among the points.
    pub max: u64,
}

/// A metric's recent samples for a chart with a reference line.
pub struct ChartValues {
    history: Array<(u64, u64), 1000>,
    baseline: [(u64, u64); 2],
    current: u64,
    min: u64,
    max: u64,
}

impl View for ChartValues {
    type V = ChartState;

    closed spec fn view(&self) -> ChartState {
        ChartState {
            history: self.history@,
            baseline: self.baseline@,
            current: self.current,
            min: self.min,
            max: self.max,
        }
    }
}

/// The least and the greatest second coordinate of `points`.
fn extremes(points: &[(u64, u64)]) -> (r: (u64, u64))
    ensures
        r.0 == lowest(ys(points@)),
        r.1 == highest(ys(points@)),
{
    let mut min: u64 = u64::MAX;
    let mut max: u64 = 0;
    let mut i: usize = 0;
    assert(ys(points@).take(0) =~= Seq::<u64>::empty());
    while i < points.len()
        invariant
            i <= points.len(),
            min == lowest(ys(points@).take(i as int)),
            max == highest(ys(points@).take(i as int)),
        decreases points.len() - i,
    {
        let v = points[i].1;
        assert(ys(points@).take(i + 1).drop_last() =~= ys(points@).take(i as int));
        assert(ys(points@).take(i + 1).last() == v);
        if v < min {
            min = v;
        }
        if v > max {
            max = v;
        }
        i += 1;
    }
    assert(ys(points@).take(i as int) =~= ys(points@));
    (min, max)
}

impl ChartValues {
    /// A view without points, with the reference line at `baseline`.
    pub fn new(baseline: u64) -> (r: Self)
        ensures
            r@ == ChartState::start(baseline),
    {
        let r = ChartValues {
            history: Array::default(),
            baseline: [(0, baseline), (0, baseline)],
            current: 0,
            min: 0,
            max: 0,
        };
        assert(r.baseline@ =~= seq![(0u64, baseline), (0u64, baseline)]);
        r
    }

    /// Takes the next sample.
    pub fn update(&mut self, value: u64)
        ensures
            final(self)@ == old(self)@.updated(value),
            0 < final(self)@.history.len() <= CHART_CAPACITY,
    {
        self.current = value;
        let last = self.history.last();
        assert(last.0 == old(self)@.last_index());
        let x: u64 = if last.0 < u64::MAX {
            last.0 + 1
        } else {
            last.0
        };
        self.history.push((x, value));
        let first = self.history.first();
        let newest_point = self.history.last();
        let level_from = self.baseline[0].1;
        let level_to = self.baseline[1].1;
        self.baseline[0] = (first.0, level_from);
        self.baseline[1] = (newest_point.0, level_to);
        let (min, max) = extremes(self.history.as_slice());
        self.min = min;
        self.max = max;
        assert(self.baseline@ =~= old(self)@.updated(value).baseline);
    }

    /// What to draw: the reference line, the retained points, the latest
    /// sample and the extremes of the retained samples.
    pub fn create(&self) -> (r: Chart<'_>)
        ensures
            r.baseline@ == self@.baseline,
            r.history@ == self@.history,
            r.current == self@.current,
            r.min == self@.min,
            r.max == self@.max,
    {
        Chart {
            baseline: self.baseline,
            history: self.history.as_slice(),
            current: self.current,
            min: self.min,
            max: self.max,
        }
    }
}

/// Pushing a point keeps its sample in step with pushing the sample alone.
proof fn lemma_ys_pushed(points: Seq<(u64, u64)>, point: (u64, u64), cap: nat)
    ensures
        ys(pushed(points, point, cap)) == pushed(ys(points), point.1, cap),
{
    assert(ys(pushed(points, point, cap)) =~= pushed(ys(points), point.1, cap));
}

/// The samples that a chart retains after a run of updates are those that a
/// window of 1000 retains after pushes of the same samples.
proof fn lemma_chart_window(level: u64, samples: Seq<u64>)
    ensures
        ys(ChartState::after(level, samples).history) == pushed_all(
            Seq::<u64>::empty(),
            samples,
            CHART_CAPACITY as nat,
        ),
    decreases samples.len(),
{
    if samples.len() == 0 {
        assert(ys(Seq::<(u64, u64)>::empty()) =~= Seq::<u64>::empty());
    } else {
        lemma_chart_window(level, samples.drop_last());
        let before = ChartState::after(level, samples.drop_last());
        lemma_ys_pushed(
            before.history,
            (next_index(before.last_index()), samples.last()),
            CHART_CAPACITY as nat,
        );
    }
}

/// After any run of updates, however many points were evicted meanwhile, a
/// chart retains the newest 1000 samples, and its least and greatest are
/// those of the retained samples alone.
pub proof fn lemma_chart_after(level: u64, samples: Seq<u64>)
    requires
        samples.len() > 0,
    ensures
        ys(ChartState::after(level, samples).history) == newest(samples, CHART_CAPACITY as nat),
        ChartState::after(level, samples).min == lowest(newest(samples, CHART_CAPACITY as nat)),
        ChartState::after(level, samples).max == highest(newest(samples, CHART_CAPACITY as nat)),
        ChartState::after(level, samples).current == samples.last(),
{
    lemma_chart_window(level, samples);
    assert(Seq::<u64>::empty() + samples =~= samples);
    lemma_pushes_retain_newest(Seq::empty(), samples, CHART_CAPACITY as nat);
}

/// After any run of updates the reference line of a chart is level at the
/// height it was given, and spans from the index of the oldest retained point
/// to the index of the newest.
pub proof fn lemma_chart_baseline(level: u64, samples: Seq<u64>)
    ensures
        ChartState::after(level, samples).baseline.len() == 2,
        ChartState::after(level, samples).baseline[0].1 == level,
        ChartState::after(level, samples).baseline[1].1 == level,
        samples.len() > 0 ==> ChartState::after(level, samples).baseline[0].0 == ChartState::after(
            level,
            samples,
        ).history.first().0,
        samples.len() > 0 ==> ChartState::after(level, samples).baseline[1].0 == ChartState::after(
            level,
            samples,
        ).history.last().0,
    decreases samples.len(),
{
    if samples.len() > 0 {
        lemma_chart_baseline(level, samples.drop_last());
    }
}

} // verus!
