//! Summaries of a finished session, one per chart.
//!
//! A summary holds the series to plot, the extent of both axes and the
//! labels of the time axis. Samples are unsigned 64-bit magnitudes: a bit
//! rate as it is, a frame rate or a speed as the bit pattern of the
//! number, which for numbers that are not negative orders as the numbers do.

use vstd::prelude::*;
use crate::duration::{seconds_of, Duration};
use crate::ffmpeg::Progress;
use crate::text::string_of;
use crate::values::{highest, lowest};

verus! {

/// The character of the decimal digit `d`.
pub open spec fn digit_char(d: nat) -> char {
    if d == 0 {
        '0'
    } else if d == 1 {
        '1'
    } else if d == 2 {
        '2'
    } else if d == 3 {
        '3'
    } else if d == 4 {
        '4'
    } else if d == 5 {
        '5'
    } else if d == 6 {
        '6'
    } else if d == 7 {
        '7'
    } else if d == 8 {
        '8'
    } else {
        '9'
    }
}

/// `n` in decimal digits, without leading zeros.
pub open spec fn decimal(n: nat) -> Seq<char>
    decreases n,
{
    if n < 10 {
        seq![digit_char(n)]
    } else {
        decimal(n / 10).push(digit_char(n % 10))
    }
}

/// `n` in decimal digits, with a leading zero if it has one digit only.
pub open spec fn two_digits(n: nat) -> Seq<char> {
    if n < 10 {
        seq!['0'] + decimal(n)
    } else {
        decimal(n)
    }
}

/// A count of seconds as hours, minutes and seconds: `HH:MM:SS`, with more
/// digits for the hours where two do not suffice.
pub open spec fn clock_of(seconds: nat) -> Seq<char> {
    two_digits(seconds / 3600) + seq![':'] + two_digits(seconds / 60 % 60) + seq![':']
        + two_digits(seconds % 60)
}

/// The magnitude of the whole seconds of a span of `total` nanoseconds.
pub open spec fn whole_seconds_abs(total: int) -> nat {
    if seconds_of(total) >= 0 {
        seconds_of(total) as nat
    } else {
        (-seconds_of(total)) as nat
    }
}

/// The character of the decimal digit `d`.
fn digit(d: u64) -> (r: char)
    requires
        d < 10,
    ensures
        r == digit_char(d as nat),
{
    if d == 0 {
        '0'
    } else if d == 1 {
        '1'
    } else if d == 2 {
        '2'
    } else if d == 3 {
        '3'
    } else if d == 4 {
        '4'
    } else if d == 5 {
        '5'
    } else if d == 6 {
        '6'
    } else if d == 7 {
        '7'
    } else if d == 8 {
        '8'
    } else {
        '9'
    }
}

/// Appends `n` in decimal digits to `out`.
fn push_decimal(out: &mut Vec<char>, n: u64)
    ensures
        final(out)@ == old(out)@ + decimal(n as nat),
    decreases n,
{
    if n >= 10 {
        push_decimal(out, n / 10);
    }
    out.push(digit(n % 10));
    assert(out@ =~= old(out)@ + decimal(n as nat));
}

/// Appends `n` in at least two decimal digits to `out`.
fn push_two_digits(out: &mut Vec<char>, n: u64)
    ensures
        final(out)@ == old(out)@ + two_digits(n as nat),
{
    if n < 10 {
        out.push('0');
    }
    push_decimal(out, n);
    assert(out@ =~= old(out)@ + two_digits(n as nat));
}

/// A count of seconds as `HH:MM:SS`.
pub fn clock(seconds: u64) -> (r: String)
    ensures
        r@ == clock_of(seconds as nat),
{
    let mut out: Vec<char> = Vec::new();
    push_two_digits(&mut out, seconds / 3600);
    out.push(':');
    push_two_digits(&mut out, seconds / 60 % 60);
    out.push(':');
    push_two_digits(&mut out, seconds % 60);
    assert(out@ =~= clock_of(seconds as nat));
    string_of(out.as_slice())
}

/// The whole seconds of a span as `HH:MM:SS`, without its sign.
pub fn format_duration(d: Duration) -> (r: String)
    ensures
        r@ == clock_of(whole_seconds_abs(d@)),
{
    let s = d.whole_seconds();
    let magnitude: u64 = if s >= 0 {
        s as u64
    } else if s == i64::MIN {
        9_223_372_036_854_775_808
    } else {
        (-s) as u64
    };
    clock(magnitude)
}

/// The length in nanoseconds of the longest span among the first
/// coordinates of `points`, or zero if none is longer than that.
pub open spec fn latest(points: Seq<(Duration, u64)>) -> int
    decreases points.len(),
{
    if points.len() == 0 {
        0
    } else if points.last().0@ > latest(points.drop_last()) {
        points.last().0@
    } else {
        latest(points.drop_last())
    }
}

/// The second coordinates of `points`.
pub open spec fn samples_of(points: Seq<(Duration, u64)>) -> Seq<u64> {
    Seq::new(points.len(), |i: int| points[i].1)
}

/// The whole seconds at `quarters` quarters of a span of `total`
/// nanoseconds that is not negative.
pub open spec fn quarter_seconds(total: int, quarters: int) -> nat {
    (total * quarters / 4 / 1_000_000_000) as nat
}

/// Whether `labels` are the five labels of a time axis that ends at a span
/// of `total` nanoseconds: the clock at none, one, two, three and four
/// quarters of it.
pub open spec fn time_labels(labels: Seq<String>, total: int) -> bool {
    &&& labels.len() == 5
    &&& forall|k: int| 0 <= k < 5 ==> (#[trigger] labels[k])@ == clock_of(quarter_seconds(total, k))
}

/// The extent of a series: its longest span, and its least and greatest
/// sample.
fn extent(points: &[(Duration, u64)]) -> (r: (Duration, u64, u64))
    ensures
        r.0@ == latest(points@),
        r.0.wf(),
        r.1 == lowest(samples_of(points@)),
        r.2 == highest(samples_of(points@)),
{
    let mut x_max = Duration::zero();
    let mut y_min: u64 = u64::MAX;
    let mut y_max: u64 = 0;
    let mut i: usize = 0;
    assert(points@.take(0) =~= Seq::<(Duration, u64)>::empty());
    assert(samples_of(points@).take(0) =~= Seq::<u64>::empty());
    while i < points.len()
        invariant
            i <= points.len(),
            x_max@ == latest(points@.take(i as int)),
            x_max.wf(),
            y_min == lowest(samples_of(points@).take(i as int)),
            y_max == highest(samples_of(points@).take(i as int)),
        decreases points.len() - i,
    {
        let (d, v) = points[i];
        assert(points@.take(i + 1).drop_last() =~= points@.take(i as int));
        assert(points@.take(i + 1).last() == (d, v));
        assert(samples_of(points@).take(i + 1).drop_last() =~= samples_of(points@).take(i as int));
        assert(samples_of(points@).take(i + 1).last() == v);
        if d.exceeds(&x_max) {
            x_max = d;
        }
        if v < y_min {
            y_min = v;
        }
        if v > y_max {
            y_max = v;
        }
        proof {
            use_type_invariant(x_max);
        }
        i += 1;
    }
    assert(points@.take(i as int) =~= points@);
    assert(samples_of(points@).take(i as int) =~= samples_of(points@));
    (x_max, y_min, y_max)
}

/// The five labels of a time axis that ends at `x_max`.
fn axis_labels(x_max: &Duration) -> (r: Vec<String>)
    requires
        x_max@ >= 0,
    ensures
        time_labels(r@, x_max@),
{
    let total = x_max.total();
    let mut labels: Vec<String> = Vec::new();
    let mut k: u8 = 0;
    while k < 5
        invariant
            k <= 5,
            total == x_max@,
            0 <= total <= 9_223_372_036_854_775_807_999_999_999,
            labels@.len() == k,
            forall|j: int| 0 <= j < k ==> (#[trigger] labels@[j])@ == clock_of(quarter_seconds(total as int, j)),
        decreases 5 - k,
    {
        assert(0 <= total * (k as i128) <= total * 4) by (nonlinear_arith)
            requires
                0 <= total,
                0 <= k <= 4,
        ;
        let at: i128 = total * (k as i128) / 4 / 1_000_000_000;
        labels.push(clock(at as u64));
        k += 1;
    }
    labels
}

/// The summary of one metric's series.
#[derive(Clone, Debug, PartialEq, Eq)]
pub struct OneLineStats {
    /// The series: when each sample was taken, and the sample.
    pub data: Vec<(Duration, u64)>,
    /// The end of the time axis: the longest span of the series.
    pub x_max: Duration,
    /// The labels of the time axis at each quarter of it.
    pub x_labels: Vec<String>,
    /// The least sample, or the greatest 64-bit number without samples.
    pub y_min: u64,
    /// The greatest sample, or zero without samples.
    pub y_max: u64,
}

impl OneLineStats {
    /// Whether this is the summary of `history`.
    pub open spec fn summarizes(self, history: Seq<(Duration, u64)>) -> bool {
        &&& self.data@ == history
        &&& self.x_max@ == latest(history)
        &&& self.x_max.wf()
        &&& time_labels(self.x_labels@, latest(history))
        &&& self.y_min == lowest(samples_of(history))
        &&& self.y_max == highest(samples_of(history))
    }

    /// The summary of `history`.
    pub fn new(history: Vec<(Duration, u64)>) -> (r: Self)
        ensures
            r.summarizes(history@),
    {
        let (x_max, y_min, y_max) = extent(history.as_slice());
        proof {
            lemma_latest_not_negative(history@);
        }
        let x_labels = axis_labels(&x_max);
        OneLineStats { data: history, x_max, x_labels, y_min, y_max }
    }
}

/// The summary of the bit rate's series, with the level that the source
/// had.
#[derive(Clone, Debug, PartialEq, Eq)]
pub struct BitrateStats {
    /// The two ends of the reference line: the source's bit rate from the
    /// start of the time axis to its end.
    pub baseline_data: [(Duration, u64); 2],
    /// The series: when each sample was taken, and the bit rate.
    pub bitrate_data: Vec<(Duration, u64)>,
    /// The end of the time axis: the longest span of the series.
    pub x_max: Duration,
    /// The labels of the time axis at each quarter of it.
    pub x_labels: Vec<String>,
    /// The least bit rate, or the greatest 64-bit number without samples.
    pub y_min: u64,
    /// The greatest bit rate, or zero without samples.
    pub y_max: u64,
}

impl BitrateStats {
    /// Whether this is the summary of `history` with the reference line at
    /// `baseline`.
    pub open spec fn summarizes(self, baseline: u64, history: Seq<(Duration, u64)>) -> bool {
        &&& self.bitrate_data@ == history
        &&& self.baseline_data@.len() == 2
        &&& self.baseline_data@[0] == (Duration::from_nanos(0), baseline)
        &&& self.baseline_data@[1] == (self.x_max, baseline)
        &&& self.x_max@ == latest(history)
        &&& self.x_max.wf()
        &&& time_labels(self.x_labels@, latest(history))
        &&& self.y_min == lowest(samples_of(history))
        &&& self.y_max == highest(samples_of(history))
    }

    /// The summary of `history` with the reference line at `baseline`.
    pub fn new(baseline: u64, history: Vec<(Duration, u64)>) -> (r: Self)
        ensures
            r.summarizes(baseline, history@),
    {
        let (x_max, y_min, y_max) = extent(history.as_slice());
        proof {
            lemma_latest_not_negative(history@);
        }
        let x_labels = axis_labels(&x_max);
        let baseline_data = [(Duration::zero(), baseline), (x_max, baseline)];
        BitrateStats { baseline_data, bitrate_data: history, x_max, x_labels, y_min, y_max }
    }
}

/// The time axis never ends before its start.
pub proof fn lemma_latest_not_negative(points: Seq<(Duration, u64)>)
    ensures
        latest(points) >= 0,
    decreases points.len(),
{
    if points.len() > 0 {
        lemma_latest_not_negative(points.drop_last());
    }
}

/// No span of a series is longer than the end of its time axis.
pub proof fn lemma_latest_bounds(points: Seq<(Duration, u64)>)
    ensures
        forall|i: int| 0 <= i < points.len() ==> (#[trigger] points[i]).0@ <= latest(points),
    decreases points.len(),
{
    if points.len() > 0 {
        let front = points.drop_last();
        lemma_latest_bounds(front);
        assert forall|i: int| 0 <= i < points.len() implies (#[trigger] points[i]).0@ <= latest(
            points,
        ) by {
            if i < front.len() {
                assert(points[i] == front[i]);
            }
        }
    }
}

/// Which field of a record a series follows.
#[derive(Clone, Copy, Debug, PartialEq, Eq, Structural)]
pub enum Series {
    /// The bit rate in bits per second.
    Bitrate,
    /// The bit pattern of the frame rate.
    Fps,
    /// The bit pattern of the speed.
    Speed,
}

impl Series {
    /// The place of the series among the three, from zero.
    pub open spec fn place(self) -> int {
        match self {
            Series::Bitrate => 0,
            Series::Fps => 1,
            Series::Speed => 2,
        }
    }

    /// The place of the series among the three, from zero.
    pub fn index(&self) -> (r: usize)
        ensures
            r == self.place(),
    {
        match self {
            Series::Bitrate => 0,
            Series::Fps => 1,
            Series::Speed => 2,
        }
    }

    /// The series to the left, or the series itself if it is the first.
    pub fn left(self) -> (r: Series)
        ensures
            r.place() == if self.place() > 0 {
                self.place() - 1
            } else {
                0
            },
    {
        match self {
            Series::Bitrate => Series::Bitrate,
            Series::Fps => Series::Bitrate,
            Series::Speed => Series::Fps,
        }
    }

    /// The series to the right, or the series itself if it is the last.
    pub fn right(self) -> (r: Series)
        ensures
            r.place() == if self.place() < 2 {
                self.place() + 1
            } else {
                2
            },
    {
        match self {
            Series::Bitrate => Series::Fps,
            Series::Fps => Series::Speed,
            Series::Speed => Series::Speed,
        }
    }

    /// The name of the series on its tab.
    pub fn title(&self) -> (r: &'static str)
        ensures
            *self == Series::Bitrate ==> r@ == "Bitrate"@,
            *self == Series::Fps ==> r@ == "FPS"@,
            *self == Series::Speed ==> r@ == "Speed"@,
    {
        match self {
            Series::Bitrate => "Bitrate",
            Series::Fps => "FPS",
            Series::Speed => "Speed",
        }
    }
}

/// The sample that a series takes from a record.
pub open spec fn sample_of(series: Series, record: Progress) -> u64 {
    match series {
        Series::Bitrate => record.bitrate,
        Series::Fps => record.fps.bits,
        Series::Speed => record.speed.bits,
    }
}

/// The series that `series` takes from `history`.
pub open spec fn series_of(series: Series, history: Seq<(Duration, Progress)>) -> Seq<
    (Duration, u64),
> {
    Seq::new(history.len(), |i: int| (history[i].0, sample_of(series, history[i].1)))
}

/// Takes one field's series from a session's history: when each record
/// arrived, and the field's sample in it.
pub fn series(which: Series, history: &[(Duration, Progress)]) -> (r: Vec<(Duration, u64)>)
    ensures
        r@ == series_of(which, history@),
{
    let mut out: Vec<(Duration, u64)> = Vec::new();
    let mut i: usize = 0;
    while i < history.len()
        invariant
            i <= history.len(),
            out@ == series_of(which, history@).take(i as int),
        decreases history.len() - i,
    {
        let (at, record) = history[i];
        let sample = match which {
            Series::Bitrate => record.bitrate,
            Series::Fps => record.fps.bits,
            Series::Speed => record.speed.bits,
        };
        out.push((at, sample));
        i += 1;
        assert(out@ =~= series_of(which, history@).take(i as int));
    }
    assert(series_of(which, history@).take(i as int) =~= series_of(which, history@));
    out
}

} // verus!
