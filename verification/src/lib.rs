//! Monitoring of a media transcode: a bounded window for rolling metrics, the
//! parser of the transcoder's progress stream, the rolling views computed
//! from it, and the snapshot format in which a finished session is kept.

pub mod array;
pub mod charts;
pub mod duration;
pub mod ffmpeg;
pub mod ffprobe;
pub mod monitor;
pub mod stats;
pub mod text;
pub mod values;
pub mod wire;
