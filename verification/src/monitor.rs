//! The state of a run while it is watched.
//!
//! A [`Monitor`] takes each progress record as it arrives. It appends the
//! record to the history of the session, which grows without bound, and
//! feeds the three rolling views, which do not.

use vstd::prelude::*;
use crate::duration::Duration;
use crate::ffmpeg::Progress;
use crate::values::{ChartState, ChartValues, SparklineState, SparklineValues};

verus! {

/// What a [`Monitor`] holds.
pub struct MonitorState {
    /// The latest record, or the record of zeros before the first.
    pub progress: Progress,
    /// When the latest record arrived, or the empty span before the first.
    pub timestamp: Duration,
    /// Every record so far with the time at which it arrived, in the order
    /// of arrival.
    pub history: Seq<(Duration, Progress)>,
    /// The view of the frame rate.
    pub fps: SparklineState,
    /// The view of the speed.
    pub speed: SparklineState,
    /// The view of the bit rate.
    pub bitrate: ChartState,
}

impl MonitorState {
    /// The state before any record, with the bit rate of the input as the
    /// reference line of the bit rate's chart.
    pub open spec fn start(bit_rate: u64) -> MonitorState {
        MonitorState {
            progress: Progress::zero(),
            timestamp: Duration::from_nanos(0),
            history: Seq::empty(),
            fps: SparklineState::start(),
            speed: SparklineState::start(),
            bitrate: ChartState::start(bit_rate),
        }
    }

    /// The state after the record `progress` has arrived at `timestamp`.
    /// `fps` and `speed` are the fixed-point forms of the record's frame
    /// rate and speed.
    pub open spec fn recorded(
        self,
        timestamp: Duration,
        progress: Progress,
        fps: u64,
        speed: u64,
    ) -> MonitorState {
        MonitorState {
            progress,
            timestamp,
            history: self.history.push((timestamp, progress)),
            fps: self.fps.updated(progress.fps, fps),
            speed: self.speed.updated(progress.speed, speed),
            bitrate: self.bitrate.updated(progress.bitrate),
        }
    }
}

/// The state of a run while it is watched.
pub struct Monitor {
    progress: Progress,
    timestamp: Duration,
    history: Vec<(Duration, Progress)>,
    fps: SparklineValues,
    speed: SparklineValues,
    bitrate: ChartValues,
}

impl View for Monitor {
    type V = MonitorState;

    closed spec fn view(&self) -> MonitorState {
        MonitorState {
            progress: self.progress,
            timestamp: self.timestamp,
            history: self.history@,
            fps: self.fps@,
            speed: self.speed@,
            bitrate: self.bitrate@,
        }
    }
}

impl Monitor {
    /// The state before any record. `bit_rate` is the bit rate of the
    /// input.
    pub fn new(bit_rate: u64) -> (r: Self)
        ensures
            r@ == MonitorState::start(bit_rate),
    {
        Monitor {
            progress: Progress::default(),
            timestamp: Duration::zero(),
            history: Vec::new(),
            fps: SparklineValues::new(),
            speed: SparklineValues::new(),
            bitrate: ChartValues::new(bit_rate),
        }
    }

    /// Takes the record `progress` that arrived at `timestamp`. `fps` and
    /// `speed` are the fixed-point forms of its frame rate and speed.
    pub fn record(&mut self, timestamp: Duration, progress: Progress, fps: u64, speed: u64)
        ensures
            final(self)@ == old(self)@.recorded(timestamp, progress, fps, speed),
    {
        self.progress = progress;
        self.timestamp = timestamp;
        self.history.push((timestamp, progress));
        self.fps.update(progress.fps, fps);
        self.speed.update(progress.speed, speed);
        self.bitrate.update(progress.bitrate);
    }

    /// The latest record.
    pub fn progress(&self) -> (r: Progress)
        ensures
            r == self@.progress,
    {
        self.progress
    }

    /// When the latest record arrived.
    pub fn timestamp(&self) -> (r: Duration)
        ensures
            r == self@.timestamp,
    {
        self.timestamp
    }

    /// The view of the frame rate.
    pub fn fps(&self) -> (r: &SparklineValues)
        ensures
            r@ == self@.fps,
    {
        &self.fps
    }

    /// The view of the speed.
    pub fn speed(&self) -> (r: &SparklineValues)
        ensures
            r@ == self@.speed,
    {
        &self.speed
    }

    /// The view of the bit rate.
    pub fn bitrate(&self) -> (r: &ChartValues)
        ensures
            r@ == self@.bitrate,
    {
        &self.bitrate
    }

    /// Every record so far, in the order of arrival.
    pub fn history(&self) -> (r: &[(Duration, Progress)])
        ensures
            r@ == self@.history,
    {
        self.history.as_slice()
    }

    /// Ends the watch and hands the history over.
    pub fn into_history(self) -> (r: Vec<(Duration, Progress)>)
        ensures
            r@ == self@.history,
    {
        self.history
    }
}

/// The unit in which a size is shown.
#[derive(Clone, Copy, Debug, PartialEq, Eq, Structural)]
pub enum SizeUnit {
    /// Bytes, shown as a whole number.
    Bytes,
    /// Thousands of bytes.
    Kilo,
    /// Millions of bytes.
    Mega,
    /// Thousands of millions of bytes.
    Giga,
}

impl SizeUnit {
    /// How many bytes make one of the unit.
    pub open spec fn bytes(self) -> int {
        match self {
            SizeUnit::Bytes => 1,
            SizeUnit::Kilo => 1_000,
            SizeUnit::Mega => 1_000_000,
            SizeUnit::Giga => 1_000_000_000,
        }
    }

    /// How many bytes make one of the unit.
    pub fn divisor(&self) -> (r: u64)
        ensures
            r == self.bytes(),
    {
        match self {
            SizeUnit::Bytes => 1,
            SizeUnit::Kilo => 1_000,
            SizeUnit::Mega => 1_000_000,
            SizeUnit::Giga => 1_000_000_000,
        }
    }

    /// The name of the unit as it is shown after a size.
    pub fn suffix(&self) -> (r: &'static str)
        ensures
            *self == SizeUnit::Bytes ==> r@ == "B"@,
            *self == SizeUnit::Kilo ==> r@ == "KiB"@,
            *self == SizeUnit::Mega ==> r@ == "MiB"@,
            *self == SizeUnit::Giga ==> r@ == "GiB"@,
    {
        match self {
            SizeUnit::Bytes => "B",
            SizeUnit::Kilo => "KiB",
            SizeUnit::Mega => "MiB",
            SizeUnit::Giga => "GiB",
        }
    }
}

/// The unit in which `total_size` bytes are shown: the greatest unit that
/// the size exceeds, or bytes for a size of at most a thousand.
pub fn size_unit(total_size: u64) -> (r: SizeUnit)
    ensures
        total_size > 1_000_000_000 ==> r == SizeUnit::Giga,
        1_000_000 < total_size <= 1_000_000_000 ==> r == SizeUnit::Mega,
        1_000 < total_size <= 1_000_000 ==> r == SizeUnit::Kilo,
        total_size <= 1_000 ==> r == SizeUnit::Bytes,
{
    if total_size > 1_000_000_000 {
        SizeUnit::Giga
    } else if total_size > 1_000_000 {
        SizeUnit::Mega
    } else if total_size > 1_000 {
        SizeUnit::Kilo
    } else {
        SizeUnit::Bytes
    }
}

/// The history after any run of records is the records in the order in
/// which they arrived: none is lost, none is moved.
pub proof fn lemma_history_appends(
    state: MonitorState,
    timestamp: Duration,
    progress: Progress,
    fps: u64,
    speed: u64,
)
    ensures
        state.recorded(timestamp, progress, fps, speed).history.len() == state.history.len() + 1,
        state.recorded(timestamp, progress, fps, speed).history.last() == (timestamp, progress),
        forall|i: int|
            0 <= i < state.history.len() ==> state.recorded(
                timestamp,
                progress,
                fps,
                speed,
            ).history[i] == state.history[i],
{
}

} // verus!
