//! The transcoder's progress stream.
//!
//! The transcoder reports its progress as lines of `key=value`. The lines of
//! one report end with a line whose key is `progress`; the fields named up to
//! there make one [`Progress`] record, and the next record starts from zero.
//!
//! [`ProgressIter`] is the parser's state. It takes one line at a time and
//! says what the line meant. Three fields hold decimal fractions, which this
//! library carries as bit patterns and does not decode: for these the parser
//! hands the text back, and the caller stores what the text decodes to.

use vstd::prelude::*;
use crate::duration::{holdable, Elapsed};
use crate::text::{
    after, before, chars_of, lemma_trimmed_within, number_error, parse_u64, position, spells,
    split_once, string_of, strip_suffix, trim, trimmed, unsigned_of, without_suffix, NumberError,
};

verus! {

/// A double-precision number (IEEE 754 binary64), carried as its bit pattern.
#[derive(Clone, Copy, Debug, PartialEq, Eq, Structural)]
pub struct Binary64 {
    pub bits: u64,
}

impl Binary64 {
    /// The number with the bit pattern `bits`.
    pub fn from_bits(bits: u64) -> (r: Self)
        ensures
            r.bits == bits,
    {
        Binary64 { bits }
    }

    /// The bit pattern of the number.
    pub fn to_bits(&self) -> (r: u64)
        ensures
            r == self.bits,
    {
        self.bits
    }
}

impl Default for Binary64 {
    /// Positive zero.
    fn default() -> (r: Self)
        ensures
            r.bits == 0,
    {
        Binary64 { bits: 0 }
    }
}

/// One report of the transcoder's state.
#[derive(Clone, Copy, Debug, PartialEq, Eq, Structural)]
pub struct Progress {
    /// Frames written so far.
    pub frame: u64,
    /// Frames per second.
    pub fps: Binary64,
    /// Bits per second.
    pub bitrate: u64,
    /// Bytes written so far.
    pub total_size: u64,
    /// Position in the output, in microseconds.
    pub out_time_us: u64,
    /// Position in the output as the transcoder reports it under `out_time_ms`.
    pub out_time_ms: u64,
    /// Position in the output.
    pub out_time: Elapsed,
    /// Frames duplicated so far.
    pub dup_frames: u64,
    /// Frames dropped so far.
    pub drop_frames: u64,
    /// Speed of the transcode as a multiple of playback speed.
    pub speed: Binary64,
}

impl Progress {
    /// The record in which nothing has been reported yet.
    pub open spec fn zero() -> Progress {
        Progress {
            frame: 0,
            fps: Binary64 { bits: 0 },
            bitrate: 0,
            total_size: 0,
            out_time_us: 0,
            out_time_ms: 0,
            out_time: Elapsed::from_nanos(0),
            dup_frames: 0,
            drop_frames: 0,
            speed: Binary64 { bits: 0 },
        }
    }
}

impl Default for Progress {
    fn default() -> (r: Self)
        ensures
            r == Progress::zero(),
    {
        Progress {
            frame: 0,
            fps: Binary64 { bits: 0 },
            bitrate: 0,
            total_size: 0,
            out_time_us: 0,
            out_time_ms: 0,
            out_time: Elapsed::zero(),
            dup_frames: 0,
            drop_frames: 0,
            speed: Binary64 { bits: 0 },
        }
    }
}

/// Why a line of the progress stream was rejected.
#[derive(Clone, Copy, Debug, PartialEq, Eq, Structural)]
pub enum ParseError {
    /// A timestamp without a `:` after its hours.
    HoursMissing,
    /// A timestamp without a `:` after its minutes.
    MinutesMissing,
    /// A timestamp without a `.` after its seconds.
    SecondsMissing,
    /// A value that is no unsigned decimal number of at most 64 bits, and
    /// why it is none.
    Number(NumberError),
    /// A value that is no decimal fraction.
    Fraction,
    /// A timestamp too long to represent.
    OutOfRange,
}

impl ParseError {
    /// What went wrong, in words.
    pub fn message(&self) -> (r: &'static str)
        ensures
            *self == ParseError::HoursMissing ==> r@ == "hours missing"@,
            *self == ParseError::MinutesMissing ==> r@ == "minutes missing"@,
            *self == ParseError::SecondsMissing ==> r@ == "seconds missing"@,
            *self == ParseError::Number(NumberError::Empty) ==> r@
                == "cannot parse integer from empty string"@,
            *self == ParseError::Number(NumberError::InvalidDigit) ==> r@
                == "invalid digit found in string"@,
            *self == ParseError::Number(NumberError::Overflow) ==> r@
                == "number too large to fit in target type"@,
            *self == ParseError::Fraction ==> r@ == "invalid float literal"@,
            *self == ParseError::OutOfRange ==> r@ == "timestamp out of range"@,
    {
        match self {
            ParseError::HoursMissing => "hours missing",
            ParseError::MinutesMissing => "minutes missing",
            ParseError::SecondsMissing => "seconds missing",
            ParseError::Number(NumberError::Empty) => "cannot parse integer from empty string",
            ParseError::Number(NumberError::InvalidDigit) => "invalid digit found in string",
            ParseError::Number(NumberError::Overflow) => "number too large to fit in target type",
            ParseError::Fraction => "invalid float literal",
            ParseError::OutOfRange => "timestamp out of range",
        }
    }
}

/// The keys that the parser knows.
#[derive(Clone, Copy, Debug, PartialEq, Eq, Structural)]
pub enum Key {
    Frame,
    Fps,
    Bitrate,
    TotalSize,
    OutTimeUs,
    OutTimeMs,
    OutTime,
    DupFrames,
    DropFrames,
    Speed,
    /// The key that ends a report.
    Progress,
}

/// The fields whose values are decimal fractions.
#[derive(Clone, Copy, Debug, PartialEq, Eq, Structural)]
pub enum Metric {
    /// Frames per second; stored as the bit pattern of the number.
    Fps,
    /// Thousands of bits per second; stored as whole bits per second.
    Bitrate,
    /// Speed as a multiple of playback speed; stored as the bit pattern of
    /// the number.
    Speed,
}

/// The key that `key` spells, if it spells one.
pub open spec fn key_of(key: Seq<char>) -> Option<Key> {
    if key == "frame"@ {
        Some(Key::Frame)
    } else if key == "fps"@ {
        Some(Key::Fps)
    } else if key == "bitrate"@ {
        Some(Key::Bitrate)
    } else if key == "total_size"@ {
        Some(Key::TotalSize)
    } else if key == "out_time_us"@ {
        Some(Key::OutTimeUs)
    } else if key == "out_time_ms"@ {
        Some(Key::OutTimeMs)
    } else if key == "out_time"@ {
        Some(Key::OutTime)
    } else if key == "dup_frames"@ {
        Some(Key::DupFrames)
    } else if key == "drop_frames"@ {
        Some(Key::DropFrames)
    } else if key == "speed"@ {
        Some(Key::Speed)
    } else if key == "progress"@ {
        Some(Key::Progress)
    } else {
        None
    }
}

/// `record` with the counter that `key` names set to `value`. Keys that name
/// no counter leave the record as it is.
pub open spec fn with_counter(record: Progress, key: Key, value: u64) -> Progress {
    match key {
        Key::Frame => Progress { frame: value, ..record },
        Key::TotalSize => Progress { total_size: value, ..record },
        Key::OutTimeUs => Progress { out_time_us: value, ..record },
        Key::OutTimeMs => Progress { out_time_ms: value, ..record },
        Key::DupFrames => Progress { dup_frames: value, ..record },
        Key::DropFrames => Progress { drop_frames: value, ..record },
        _ => record,
    }
}

/// `record` with the fraction field `metric` set to `value`.
pub open spec fn with_metric(record: Progress, metric: Metric, value: u64) -> Progress {
    match metric {
        Metric::Fps => Progress { fps: Binary64 { bits: value }, ..record },
        Metric::Bitrate => Progress { bitrate: value, ..record },
        Metric::Speed => Progress { speed: Binary64 { bits: value }, ..record },
    }
}

/// The whole seconds of a timestamp of `hours`, `minutes`, `seconds` and
/// `micros` microseconds.
pub open spec fn time_seconds(hours: u64, minutes: u64, seconds: u64, micros: u64) -> int {
    hours * 3600 + minutes * 60 + seconds + micros / 1_000_000
}

/// The length in nanoseconds of a timestamp of `hours`, `minutes`, `seconds`
/// and `micros` microseconds.
pub open spec fn time_nanos(hours: u64, minutes: u64, seconds: u64, micros: u64) -> int {
    (hours * 3600 + minutes * 60 + seconds) * 1_000_000_000 + micros * 1_000
}

/// The four parts of a timestamp `HH:MM:SS.ffffff`: hours, minutes, seconds
/// and microseconds. The parts are what stands before the first `:`, between
/// it and the second, between that and the first `.` after it, and after
/// that `.`; each is an unsigned decimal number of any length. A timestamp
/// without one of the three separators lacks the part before it, and no
/// other timestamp is refused but one with a part that is no such number;
/// the first such part says why.
pub open spec fn time_parts(value: Seq<char>) -> Result<(u64, u64, u64, u64), ParseError> {
    let rest = after(value, ':');
    let tail = after(rest, ':');
    if position(value, ':') == value.len() {
        Err(ParseError::HoursMissing)
    } else if position(rest, ':') == rest.len() {
        Err(ParseError::MinutesMissing)
    } else if position(tail, '.') == tail.len() {
        Err(ParseError::SecondsMissing)
    } else {
        match (
            unsigned_of(before(value, ':')),
            unsigned_of(before(rest, ':')),
            unsigned_of(before(tail, '.')),
            unsigned_of(after(tail, '.')),
        ) {
            (Some(h), Some(m), Some(s), Some(u)) => Ok((h, m, s, u)),
            (None, _, _, _) => Err(ParseError::Number(number_error(before(value, ':')))),
            (_, None, _, _) => Err(ParseError::Number(number_error(before(rest, ':')))),
            (_, _, None, _) => Err(ParseError::Number(number_error(before(tail, '.')))),
            _ => Err(ParseError::Number(number_error(after(tail, '.')))),
        }
    }
}

/// What a timestamp `HH:MM:SS.ffffff` denotes: the span of its four parts
/// together, wherever the whole seconds of that span fit an unsigned 64-bit
/// number.
pub open spec fn time_of(value: Seq<char>) -> Result<Elapsed, ParseError> {
    match time_parts(value) {
        Ok((h, m, s, u)) => if time_seconds(h, m, s, u) <= u64::MAX {
            Ok(Elapsed::from_nanos(time_nanos(h, m, s, u)))
        } else {
            Err(ParseError::OutOfRange)
        },
        Err(e) => Err(e),
    }
}

/// The length of a timestamp has as many whole seconds as the timestamp,
/// so the span of a timestamp whose whole seconds fit 64 bits is well formed
/// and as long as the timestamp.
pub proof fn lemma_time_nanos(hours: u64, minutes: u64, seconds: u64, micros: u64)
    ensures
        time_nanos(hours, minutes, seconds, micros) / 1_000_000_000 == time_seconds(
            hours,
            minutes,
            seconds,
            micros,
        ),
        time_seconds(hours, minutes, seconds, micros) <= u64::MAX <==> holdable(
            time_nanos(hours, minutes, seconds, micros),
        ),
        time_seconds(hours, minutes, seconds, micros) <= u64::MAX ==> Elapsed::from_nanos(
            time_nanos(hours, minutes, seconds, micros),
        )@ == time_nanos(hours, minutes, seconds, micros) && Elapsed::from_nanos(
            time_nanos(hours, minutes, seconds, micros),
        ).wf(),
{
    let w = hours * 3600 + minutes * 60 + seconds;
    let q = micros as int / 1_000_000;
    let m = micros as int % 1_000_000;
    assert(micros as int == q * 1_000_000 + m) by (nonlinear_arith)
        requires
            q == micros as int / 1_000_000,
            m == micros as int % 1_000_000,
    ;
    assert((w * 1_000_000_000 + micros * 1_000) / 1_000_000_000 == w + q) by (nonlinear_arith)
        requires
            micros as int == q * 1_000_000 + m,
            0 <= m < 1_000_000,
    ;
    if time_seconds(hours, minutes, seconds, micros) <= u64::MAX {
        Elapsed::lemma_from_nanos(time_nanos(hours, minutes, seconds, micros));
    }
}

/// Every timestamp that has its four parts is read, unless its whole
/// seconds exceed an unsigned 64-bit number. What is read is a well-formed
/// span as long as the hours, minutes, seconds and microseconds together.
pub proof fn lemma_time_read(value: Seq<char>)
    ensures
        time_parts(value) matches Ok((h, m, s, u)) ==> (time_of(value) is Ok <==> h * 3600 + m * 60
            + s + u / 1_000_000 <= u64::MAX),
        time_parts(value) matches Ok((h, m, s, u)) ==> (time_of(value) matches Ok(d) ==> d@ == (h
            * 3600 + m * 60 + s) * 1_000_000_000 + u * 1_000 && d.wf()),
        time_parts(value) matches Err(e) ==> time_of(value) == Err::<Elapsed, ParseError>(e),
        time_of(value) matches Err(e) ==> e == ParseError::OutOfRange || time_parts(value) == Err::<
            (u64, u64, u64, u64),
            ParseError,
        >(e),
{
    match time_parts(value) {
        Ok((h, m, s, u)) => {
            lemma_time_nanos(h, m, s, u);
        },
        Err(_) => {},
    }
}

/// What one `key=value` pair means for the record under construction.
pub enum Outcome {
    /// Go on with this record. It is the record as it was if the key is
    /// unknown.
    Stored(Progress),
    /// The report is complete.
    Finished,
    /// The value of this field is a decimal fraction, spelled by this text.
    Fraction(Metric, Seq<char>),
    /// The value is malformed.
    Failed(ParseError),
}

/// What the pair of `key` and `value` means for `record`. White space around
/// the value does not count, and the unit after a bit rate or a speed is
/// optional.
pub open spec fn outcome(record: Progress, key: Seq<char>, value: Seq<char>) -> Outcome {
    let text = trimmed(value);
    match key_of(key) {
        None => Outcome::Stored(record),
        Some(Key::Progress) => Outcome::Finished,
        Some(Key::Fps) => Outcome::Fraction(Metric::Fps, text),
        Some(Key::Bitrate) => Outcome::Fraction(Metric::Bitrate, without_suffix(text, "kbits/s"@)),
        Some(Key::Speed) => Outcome::Fraction(Metric::Speed, without_suffix(text, "x"@)),
        Some(Key::OutTime) => match time_of(text) {
            Ok(d) => Outcome::Stored(Progress { out_time: d, ..record }),
            Err(e) => Outcome::Failed(e),
        },
        Some(counter) => match unsigned_of(text) {
            Some(v) => Outcome::Stored(with_counter(record, counter, v)),
            None => Outcome::Failed(ParseError::Number(number_error(text))),
        },
    }
}

/// What one line means for `record`: a line without `=` means nothing, and
/// any other line is the pair of what stands before its first `=` and what
/// stands after it. White space around the line does not count.
pub open spec fn line_outcome(record: Progress, line: Seq<char>) -> Outcome {
    let text = trimmed(line);
    if position(text, '=') == text.len() {
        Outcome::Stored(record)
    } else {
        outcome(record, before(text, '='), after(text, '='))
    }
}

/// A line without `=` means nothing: it neither changes the record under
/// construction nor ends it, whatever else the line holds.
pub proof fn lemma_line_without_delimiter(record: Progress, line: Seq<char>)
    requires
        position(line, '=') == line.len(),
    ensures
        line_outcome(record, line) == Outcome::Stored(record),
{
    lemma_trimmed_within(line, '=');
}

/// A line whose key is unknown means nothing, whatever its value.
pub proof fn lemma_unknown_key(record: Progress, key: Seq<char>, value: Seq<char>)
    requires
        key_of(key) is None,
    ensures
        outcome(record, key, value) == Outcome::Stored(record),
{
}

/// The line that ends a report ends it whatever its value, and the value
/// is not read.
pub proof fn lemma_end_of_report(record: Progress, value: Seq<char>)
    ensures
        outcome(record, "progress"@, value) == Outcome::Finished,
{
    reveal_strlit("frame");
    reveal_strlit("fps");
    reveal_strlit("bitrate");
    reveal_strlit("total_size");
    reveal_strlit("out_time_us");
    reveal_strlit("out_time_ms");
    reveal_strlit("out_time");
    reveal_strlit("dup_frames");
    reveal_strlit("drop_frames");
    reveal_strlit("speed");
    reveal_strlit("progress");
    let key = "progress"@;
    assert(key.len() == 8);
    assert(key[0] == 'p');
    assert(key[1] == 'r');
}

/// What the parser found in a pair.
#[derive(Clone, Debug, PartialEq, Eq)]
pub enum Parsed {
    /// A field was stored or the key is unknown.
    Continue,
    /// The report is complete.
    Finished,
    /// The field's value is the decimal fraction that this text spells; the
    /// caller decodes it.
    Fraction(Metric, String),
}

/// Whether the result `r` of parsing a pair, with the record `after` it, is
/// what `expected` says of the record `before` it.
pub open spec fn parsed_as(
    r: Result<Parsed, ParseError>,
    before: Progress,
    after: Progress,
    expected: Outcome,
) -> bool {
    match expected {
        Outcome::Stored(record) => r matches Ok(Parsed::Continue) && after == record,
        Outcome::Finished => r matches Ok(Parsed::Finished) && after == before,
        Outcome::Fraction(metric, text) => r matches Ok(Parsed::Fraction(m, s)) && m == metric
            && s@ == text && after == before,
        Outcome::Failed(error) => r matches Err(e) && e == error && after == before,
    }
}

/// The key that `key` spells, if it spells one.
pub fn recognize(key: &[char]) -> (r: Option<Key>)
    ensures
        r == key_of(key@),
{
    if spells(key, "frame") {
        Some(Key::Frame)
    } else if spells(key, "fps") {
        Some(Key::Fps)
    } else if spells(key, "bitrate") {
        Some(Key::Bitrate)
    } else if spells(key, "total_size") {
        Some(Key::TotalSize)
    } else if spells(key, "out_time_us") {
        Some(Key::OutTimeUs)
    } else if spells(key, "out_time_ms") {
        Some(Key::OutTimeMs)
    } else if spells(key, "out_time") {
        Some(Key::OutTime)
    } else if spells(key, "dup_frames") {
        Some(Key::DupFrames)
    } else if spells(key, "drop_frames") {
        Some(Key::DropFrames)
    } else if spells(key, "speed") {
        Some(Key::Speed)
    } else if spells(key, "progress") {
        Some(Key::Progress)
    } else {
        None
    }
}

/// The span that the characters of a timestamp denote.
fn time_from(value: &[char]) -> (r: Result<Elapsed, ParseError>)
    ensures
        r == time_of(value@),
{
    let (hours, rest) = match split_once(value, ':') {
        Some(pair) => pair,
        None => {
            return Err(ParseError::HoursMissing);
        },
    };
    let (minutes, tail) = match split_once(rest, ':') {
        Some(pair) => pair,
        None => {
            return Err(ParseError::MinutesMissing);
        },
    };
    let (seconds, micros) = match split_once(tail, '.') {
        Some(pair) => pair,
        None => {
            return Err(ParseError::SecondsMissing);
        },
    };
    let h = match parse_u64(hours) {
        Ok(v) => v,
        Err(e) => {
            return Err(ParseError::Number(e));
        },
    };
    let m = match parse_u64(minutes) {
        Ok(v) => v,
        Err(e) => {
            return Err(ParseError::Number(e));
        },
    };
    let s = match parse_u64(seconds) {
        Ok(v) => v,
        Err(e) => {
            return Err(ParseError::Number(e));
        },
    };
    let u = match parse_u64(micros) {
        Ok(v) => v,
        Err(e) => {
            return Err(ParseError::Number(e));
        },
    };
    let whole: u128 = (h as u128) * 3600 + (m as u128) * 60 + (s as u128);
    if whole > u64::MAX as u128 {
        return Err(ParseError::OutOfRange);
    }
    match Elapsed::new(whole as u64, u) {
        Some(d) => Ok(d),
        None => Err(ParseError::OutOfRange),
    }
}

/// Reads a timestamp `HH:MM:SS.ffffff`: hours, minutes and seconds, and after
/// the point a count of microseconds. Every timestamp whose four parts are
/// unsigned decimal numbers is read, unless its whole seconds exceed what an
/// unsigned 64-bit number holds.
pub fn parse_time(value: &str) -> (r: Result<Elapsed, ParseError>)
    ensures
        r == time_of(value@),
        r matches Ok(d) ==> d.wf(),
{
    let chars = chars_of(value);
    let r = time_from(chars.as_slice());
    proof {
        if let Ok(d) = r {
            use_type_invariant(d);
        }
    }
    r
}

/// Stores the counter that `key` names.
fn set_counter(progress: &mut Progress, key: Key, value: u64)
    ensures
        *final(progress) == with_counter(*old(progress), key, value),
{
    match key {
        Key::Frame => {
            progress.frame = value;
        },
        Key::TotalSize => {
            progress.total_size = value;
        },
        Key::OutTimeUs => {
            progress.out_time_us = value;
        },
        Key::OutTimeMs => {
            progress.out_time_ms = value;
        },
        Key::DupFrames => {
            progress.dup_frames = value;
        },
        Key::DropFrames => {
            progress.drop_frames = value;
        },
        _ => {},
    }
}

/// Applies one pair, given as characters, to the record.
fn apply_pair(progress: &mut Progress, key: &[char], value: &[char]) -> (r: Result<
    Parsed,
    ParseError,
>)
    ensures
        parsed_as(r, *old(progress), *final(progress), outcome(*old(progress), key@, value@)),
{
    let text = trim(value);
    match recognize(key) {
        None => Ok(Parsed::Continue),
        Some(Key::Progress) => Ok(Parsed::Finished),
        Some(Key::Fps) => Ok(Parsed::Fraction(Metric::Fps, string_of(text))),
        Some(Key::Bitrate) => Ok(
            Parsed::Fraction(Metric::Bitrate, string_of(strip_suffix(text, "kbits/s"))),
        ),
        Some(Key::Speed) => Ok(Parsed::Fraction(Metric::Speed, string_of(strip_suffix(text, "x")))),
        Some(Key::OutTime) => match time_from(text) {
            Ok(d) => {
                progress.out_time = d;
                Ok(Parsed::Continue)
            },
            Err(e) => Err(e),
        },
        Some(counter) => match parse_u64(text) {
            Ok(v) => {
                set_counter(progress, counter, v);
                Ok(Parsed::Continue)
            },
            Err(e) => Err(ParseError::Number(e)),
        },
    }
}

/// Applies the pair of `key` and `value` to the record under construction.
///
/// A counter or a timestamp is stored. For a fraction field the text that
/// spells the fraction is handed back and the record is left alone. An
/// unknown key is ignored. A malformed value is an error, and the record is
/// left alone.
pub fn parse_kv(progress: &mut Progress, key: &str, value: &str) -> (r: Result<Parsed, ParseError>)
    ensures
        parsed_as(r, *old(progress), *final(progress), outcome(*old(progress), key@, value@)),
{
    let key_chars = chars_of(key);
    let value_chars = chars_of(value);
    apply_pair(progress, key_chars.as_slice(), value_chars.as_slice())
}

/// Stores what a fraction field's text was decoded to.
pub fn store_metric(progress: &mut Progress, metric: Metric, value: u64)
    ensures
        *final(progress) == with_metric(*old(progress), metric, value),
{
    match metric {
        Metric::Fps => {
            progress.fps = Binary64 { bits: value };
        },
        Metric::Bitrate => {
            progress.bitrate = value;
        },
        Metric::Speed => {
            progress.speed = Binary64 { bits: value };
        },
    }
}

/// The parser's state.
pub struct State {
    /// The record under construction.
    pub record: Progress,
    /// Whether lines are still taken.
    pub live: bool,
    /// Whether the transcoder has not been waited for yet, so that it may
    /// still run.
    pub running: bool,
}

/// What a line meant.
#[derive(Clone, Debug, PartialEq, Eq)]
pub enum Step {
    /// Nothing to hand out: read the next line.
    Continue,
    /// The line holds a fraction field. The caller decodes the text and
    /// hands the result to [`ProgressIter::store`].
    Fraction(Metric, String),
    /// The line ended a report: this is its record.
    Record(Progress),
    /// The stream had ended before; the line was ignored.
    Closed,
}

/// Why the stream ended in failure.
#[derive(Clone, Debug, PartialEq, Eq)]
pub struct Failure {
    /// What the transcoder wrote to its error stream.
    pub message: String,
}

/// Whether the result `r` of feeding a line, with the state `after` it, is
/// what `expected` says of the live state `before` it.
pub open spec fn stepped_as(
    r: Result<Step, ParseError>,
    before: State,
    after: State,
    expected: Outcome,
) -> bool {
    match expected {
        Outcome::Stored(record) => r matches Ok(Step::Continue) && after == (State {
            record,
            ..before
        }),
        Outcome::Finished => r matches Ok(Step::Record(p)) && p == before.record && after == (State {
            record: Progress::zero(),
            ..before
        }),
        Outcome::Fraction(metric, text) => r matches Ok(Step::Fraction(m, s)) && m == metric && s@
            == text && after == before,
        Outcome::Failed(error) => r matches Err(e) && e == error && after == (State {
            live: false,
            ..before
        }),
    }
}

/// The parser of the progress stream.
///
/// It starts live, with a record of zeros and the transcoder running.
/// Lines are fed to it one by one. The line that ends a report hands out
/// the record and starts a new one from zero, so no field passes from one
/// record to the next. A malformed value ends the stream: every later line
/// is ignored, while the transcoder still runs and is still to be stopped.
/// [`ProgressIter::close`] ends the stream after the transcoder has exited,
/// and [`ProgressIter::abandon`] ends it at any time and says whether the
/// transcoder must be stopped.
pub struct ProgressIter {
    progress: Progress,
    live: bool,
    running: bool,
}

impl View for ProgressIter {
    type V = State;

    closed spec fn view(&self) -> State {
        State { record: self.progress, live: self.live, running: self.running }
    }
}

impl ProgressIter {
    /// A parser at the start of a stream.
    pub fn new() -> (r: Self)
        ensures
            r@ == (State { record: Progress::zero(), live: true, running: true }),
    {
        ProgressIter { progress: Progress::default(), live: true, running: true }
    }

    /// Whether lines are still taken.
    pub fn is_live(&self) -> (r: bool)
        ensures
            r == self@.live,
    {
        self.live
    }

    /// Whether the transcoder has not been waited for yet.
    pub fn is_running(&self) -> (r: bool)
        ensures
            r == self@.running,
    {
        self.running
    }

    /// Takes the next line of the stream.
    pub fn feed(&mut self, line: &str) -> (r: Result<Step, ParseError>)
        ensures
            !old(self)@.live ==> (r matches Ok(Step::Closed) && final(self)@ == old(self)@),
            old(self)@.live ==> stepped_as(
                r,
                old(self)@,
                final(self)@,
                line_outcome(old(self)@.record, line@),
            ),
    {
        if !self.live {
            return Ok(Step::Closed);
        }
        let chars = chars_of(line);
        let text = trim(chars.as_slice());
        let (key, value) = match split_once(text, '=') {
            Some(pair) => pair,
            None => {
                return Ok(Step::Continue);
            },
        };
        match apply_pair(&mut self.progress, key, value) {
            Ok(Parsed::Continue) => Ok(Step::Continue),
            Ok(Parsed::Fraction(metric, text)) => Ok(Step::Fraction(metric, text)),
            Ok(Parsed::Finished) => {
                let record = self.progress;
                self.progress = Progress::default();
                Ok(Step::Record(record))
            },
            Err(e) => {
                self.live = false;
                Err(e)
            },
        }
    }

    /// Stores what the text of a fraction field was decoded to, or ends the
    /// stream if the text could not be decoded (`None`). For a frame rate or
    /// a speed `decoded` is the bit pattern of the number; for a bit rate it
    /// is the number of bits per second. After the end of the stream nothing
    /// is stored.
    pub fn store(&mut self, metric: Metric, decoded: Option<u64>) -> (r: Result<(), ParseError>)
        ensures
            !old(self)@.live ==> r is Ok && final(self)@ == old(self)@,
            old(self)@.live ==> match decoded {
                Some(v) => r is Ok && final(self)@ == (State {
                    record: with_metric(old(self)@.record, metric, v),
                    ..old(self)@
                }),
                None => r == Err::<(), ParseError>(ParseError::Fraction) && final(self)@ == (State {
                    live: false,
                    ..old(self)@
                }),
            },
    {
        if !self.live {
            return Ok(());
        }
        match decoded {
            Some(v) => {
                store_metric(&mut self.progress, metric, v);
                Ok(())
            },
            None => {
                self.live = false;
                Err(ParseError::Fraction)
            },
        }
    }

    /// Ends the stream after the transcoder has been waited for. `clean`
    /// says whether it exited with status zero, and `diagnostics` is what it
    /// wrote to its error stream. An unclean exit is a failure that carries
    /// the diagnostics. Where the transcoder had been waited for or stopped
    /// before, there is no failure. The record under construction is not
    /// handed out.
    pub fn close(&mut self, clean: bool, diagnostics: String) -> (r: Result<(), Failure>)
        ensures
            final(self)@ == (State { live: false, running: false, ..old(self)@ }),
            r is Ok <==> !old(self)@.running || clean,
            r matches Err(failure) ==> failure.message@ == diagnostics@,
    {
        let was = self.running;
        self.live = false;
        self.running = false;
        if !was || clean {
            Ok(())
        } else {
            Err(Failure { message: diagnostics })
        }
    }

    /// Gives the stream up, and says whether the transcoder is still to be
    /// stopped. It is on every path on which it has not been waited for:
    /// in the middle of the stream and after a failure alike.
    pub fn abandon(&mut self) -> (r: bool)
        ensures
            r == old(self)@.running,
            final(self)@ == (State { live: false, running: false, ..old(self)@ }),
    {
        let was = self.running;
        self.live = false;
        self.running = false;
        was
    }
}

/// Feeding lines never makes a stopped transcoder run, and whatever the
/// lines hold the transcoder stays to be stopped until it is waited for or
/// the stream is given up.
pub proof fn lemma_lines_keep_running(before: State, after: State, r: Result<Step, ParseError>, line: Seq<char>)
    requires
        before.live,
        stepped_as(r, before, after, line_outcome(before.record, line)),
    ensures
        after.running == before.running,
{
}

/// The options that precede the caller's own on the transcoder's command
/// line: progress in machine-readable form on the standard output, no
/// statistics for people, no input from the terminal, no banner, two reports
/// a second, and warnings only.
pub open spec fn fixed_options() -> Seq<Seq<char>> {
    seq![
        "-progress"@,
        "pipe:1"@,
        "-nostats"@,
        "-nostdin"@,
        "-hide_banner"@,
        "-stats_period"@,
        "0.5"@,
        "-loglevel"@,
        "warning"@,
    ]
}

/// The option that says whether existing output is overwritten.
pub open spec fn overwrite_option(overwrite: bool) -> Seq<char> {
    if overwrite {
        "-y"@
    } else {
        "-n"@
    }
}

/// The views of the strings in `args`.
pub open spec fn views(args: Seq<String>) -> Seq<Seq<char>> {
    args.map_values(|s: String| s@)
}

/// The arguments with which the transcoder is started: the fixed options,
/// then `-y` to overwrite existing output or `-n` to keep it, then `args`.
pub fn spawn_arguments(args: &[String], overwrite: bool) -> (r: Vec<String>)
    ensures
        views(r@) == fixed_options().push(overwrite_option(overwrite)) + views(args@),
{
    let mut out: Vec<String> = Vec::new();
    out.push("-progress".to_owned());
    out.push("pipe:1".to_owned());
    out.push("-nostats".to_owned());
    out.push("-nostdin".to_owned());
    out.push("-hide_banner".to_owned());
    out.push("-stats_period".to_owned());
    out.push("0.5".to_owned());
    out.push("-loglevel".to_owned());
    out.push("warning".to_owned());
    out.push(
        if overwrite {
            "-y".to_owned()
        } else {
            "-n".to_owned()
        },
    );
    let ghost head = fixed_options().push(overwrite_option(overwrite));
    assert(views(out@) =~= head);
    let mut i: usize = 0;
    while i < args.len()
        invariant
            i <= args.len(),
            head.len() == 10,
            views(out@) == head + views(args@).take(i as int),
        decreases args.len() - i,
    {
        let ghost prev = out@;
        let arg = args[i].clone();
        out.push(arg);
        i += 1;
        proof {
            let want = head + views(args@).take(i as int);
            assert(views(args@).len() == args@.len());
            assert(views(prev).len() == prev.len());
            assert(views(prev).len() == head.len() + (i - 1));
            assert(views(out@).len() == out@.len());
            assert(views(out@).len() == want.len());
            assert forall|j: int| 0 <= j < want.len() implies views(out@)[j] == want[j] by {
                if j < prev.len() {
                    assert(out@[j] == prev[j]);
                    assert(views(prev)[j] == (head + views(args@).take(i - 1))[j]);
                } else {
                    assert(out@[j] == args@[i - 1]);
                }
            }
            assert(views(out@) =~= want);
        }
    }
    assert(views(args@).take(i as int) =~= views(args@));
    out
}

} // verus!
