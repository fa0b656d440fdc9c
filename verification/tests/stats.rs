use std::collections::BTreeMap;
use std::io::{Read, Write};

use ffmonitor::duration::{Duration, Elapsed};
use ffmonitor::ffmpeg::{Binary64, Progress};
use ffmonitor::ffprobe::{rank, Format, Rank, Tags};
use ffmonitor::stats::{
    load, parse, save, serialize, stats_path, write_history, write_progress, LoadError, Stats,
    SUFFIX, VERSION_1,
};
use ffmonitor::wire::{
    compress, decompress, read_elapsed, SaveError, from_zigzag, read_bits, read_byte, read_optional_text, read_signed,
    read_span, read_text, read_varint, read_varint32, to_zigzag, write_bits, write_optional_text,
    write_signed, write_span, write_text, write_varint,
};

type SpanTuple = (i64, i32);
type ProgressTuple = (u64, f64, u64, u64, u64, u64, SpanTuple, u64, u64, f64);
type FormatTuple = (
    String,
    u32,
    u32,
    String,
    Option<String>,
    SpanTuple,
    SpanTuple,
    u64,
    u64,
    u8,
    BTreeMap<String, String>,
);
type SessionTuple = (u32, FormatTuple, Vec<(SpanTuple, ProgressTuple)>);

fn span(seconds: i64, nanoseconds: i64) -> Duration {
    Duration::from_parts(seconds, nanoseconds).unwrap()
}

fn tags_of(pairs: &[(&str, &str)]) -> Tags {
    let mut tags = Tags::new();
    for (name, value) in pairs {
        tags.insert(name.to_string(), value.to_string());
    }
    tags
}

fn format_with(tags: Tags) -> Format {
    Format {
        filename: "input \u{e9}\u{4e2d}.mkv".to_string(),
        nb_streams: 3,
        nb_programs: 0,
        format_name: "matroska,webm".to_string(),
        format_long_name: Some("Matroska / WebM".to_string()),
        start_time: span(0, -23_000_000),
        duration: span(5400, 120_000_000),
        size: 4_294_967_296,
        bit_rate: 6_358_901,
        probe_score: 100,
        tags,
    }
}

fn record(i: u64) -> Progress {
    Progress {
        frame: i * 12,
        fps: Binary64::from_bits((23.976 + i as f64).to_bits()),
        bitrate: 1_000_000 + i * 999,
        total_size: i * 65_536,
        out_time_us: i * 500_000,
        out_time_ms: i * 500_000,
        out_time: Elapsed::new(i / 2, (i % 2) * 500_000).unwrap(),
        dup_frames: i % 3,
        drop_frames: i % 5,
        speed: Binary64::from_bits((0.25 * i as f64).to_bits()),
    }
}

fn session(tags: Tags, epochs: u64) -> Stats {
    let history = (0..epochs).map(|i| (span((i / 2) as i64, ((i % 2) * 512_345_678) as i64), record(i))).collect();
    Stats { import: format_with(tags), history }
}

fn span_tuple(d: &Duration) -> SpanTuple {
    (d.whole_seconds(), d.subsec_nanoseconds())
}

fn tuple_of(stats: &Stats) -> SessionTuple {
    let f = &stats.import;
    let tags: BTreeMap<String, String> = f.tags.entries().iter().cloned().collect();
    let format = (
        f.filename.clone(),
        f.nb_streams,
        f.nb_programs,
        f.format_name.clone(),
        f.format_long_name.clone(),
        span_tuple(&f.start_time),
        span_tuple(&f.duration),
        f.size,
        f.bit_rate,
        f.probe_score,
        tags,
    );
    let history = stats
        .history
        .iter()
        .map(|(at, p)| {
            (
                span_tuple(at),
                (
                    p.frame,
                    f64::from_bits(p.fps.to_bits()),
                    p.bitrate,
                    p.total_size,
                    p.out_time_us,
                    p.out_time_ms,
                    (p.out_time.as_secs() as i64, p.out_time.subsec_nanos() as i32),
                    p.dup_frames,
                    p.drop_frames,
                    f64::from_bits(p.speed.to_bits()),
                ),
            )
        })
        .collect();
    (0u32, format, history)
}

fn raw_of(stats: &Stats) -> Vec<u8> {
    serialize(stats).unwrap()
}

fn by_bincode(stats: &Stats) -> Vec<u8> {
    bincode::encode_to_vec(tuple_of(stats), bincode::config::standard()).unwrap()
}

fn varint_bytes(v: u64) -> Vec<u8> {
    let mut out = vec![0xEE];
    write_varint(&mut out, v);
    out.remove(0);
    out
}

#[test]
fn a_session_survives_the_round_trip() {
    let stats = session(tags_of(&[("title", "A film"), ("encoder", "libebml"), ("ENCODER", "Lavf")]), 25);
    let container = save(&stats).unwrap();
    assert_eq!(load(&container), Ok(stats));
}

#[test]
fn a_session_without_tags_survives_the_round_trip() {
    let stats = session(Tags::new(), 3);
    let container = save(&stats).unwrap();
    let back = load(&container).unwrap();
    assert_eq!(back, stats);
    assert_eq!(back.import.tags.len(), 0);
}

#[test]
fn a_session_with_many_tags_survives_the_round_trip() {
    let mut tags = Tags::new();
    for i in 0..300 {
        tags.insert(format!("tag-{}", (i * 37) % 300), format!("value {}", i));
    }
    assert_eq!(tags.len(), 300);
    let stats = session(tags, 1);
    let back = load(&save(&stats).unwrap()).unwrap();
    assert_eq!(back, stats);
    assert_eq!(back.import.tags.entries(), stats.import.tags.entries());
}

#[test]
fn a_session_without_records_can_be_kept() {
    let stats = session(tags_of(&[("a", "b")]), 0);
    let container = save(&stats).unwrap();
    let back = load(&container).unwrap();
    assert_eq!(back, stats);
    assert!(back.history.is_empty());
}

#[test]
fn a_long_session_survives_the_round_trip() {
    let stats = session(Tags::new(), 5000);
    let back = load(&save(&stats).unwrap()).unwrap();
    assert_eq!(back.history.len(), 5000);
    assert_eq!(back, stats);
}

#[test]
fn every_numeric_field_is_reproduced_exactly() {
    let mut stats = session(Tags::new(), 1);
    stats.import.nb_streams = u32::MAX;
    stats.import.nb_programs = 65_536;
    stats.import.format_long_name = None;
    stats.import.start_time = span(i64::MIN, -999_999_999);
    stats.import.duration = span(i64::MAX, 999_999_999);
    stats.import.size = u64::MAX;
    stats.import.bit_rate = 251;
    stats.import.probe_score = 255;
    stats.history[0].0 = span(-1, -1);
    stats.history[0].1 = Progress {
        frame: u64::MAX,
        fps: Binary64::from_bits(f64::NAN.to_bits()),
        bitrate: 250,
        total_size: 65_535,
        out_time_us: 65_536,
        out_time_ms: 4_294_967_295,
        out_time: Elapsed::from_signed(&span(0, 1)).unwrap(),
        dup_frames: 4_294_967_296,
        drop_frames: 0,
        speed: Binary64::from_bits((-0.0f64).to_bits()),
    };
    let back = load(&save(&stats).unwrap()).unwrap();
    assert_eq!(back, stats);
    assert_eq!(back.history[0].1.fps.to_bits(), f64::NAN.to_bits());
    assert_eq!(back.history[0].1.speed.to_bits(), 1u64 << 63);
}

#[test]
fn the_layout_is_that_of_bincode() {
    for (tags, epochs) in [
        (Tags::new(), 0),
        (tags_of(&[("b", "2"), ("a", "1"), ("\u{e9}", "\u{4e2d}")]), 1),
        (tags_of(&[("creation_time", "2022-01-01T00:00:00.000000Z")]), 300),
    ] {
        let stats = session(tags, epochs);
        assert_eq!(raw_of(&stats), by_bincode(&stats));
    }
}

#[test]
fn bincode_reads_what_the_library_writes() {
    let stats = session(tags_of(&[("k", "v")]), 10);
    let raw = raw_of(&stats);
    let (read, taken): (SessionTuple, usize) =
        bincode::decode_from_slice(&raw, bincode::config::standard()).unwrap();
    assert_eq!(taken, raw.len());
    assert_eq!(read, tuple_of(&stats));
}

#[test]
fn the_library_reads_what_bincode_writes() {
    let stats = session(tags_of(&[("k", "v"), ("j", "w")]), 10);
    assert_eq!(parse(&by_bincode(&stats)), Ok(stats));
}

#[test]
fn a_container_is_a_gzip_stream_of_the_layout() {
    let stats = session(tags_of(&[("k", "v")]), 40);
    let raw = raw_of(&stats);
    let container = save(&stats).unwrap();
    assert_ne!(container, raw);
    assert_eq!(&container[..2], &[0x1f, 0x8b]);
    assert!(container.len() < raw.len());
    let mut unpacked = Vec::new();
    flate2::read::GzDecoder::new(&container[..]).read_to_end(&mut unpacked).unwrap();
    assert_eq!(unpacked, raw);
}

#[test]
fn a_container_written_by_other_means_is_read() {
    let stats = session(tags_of(&[("k", "v")]), 4);
    let mut encoder = flate2::write::GzEncoder::new(Vec::new(), flate2::Compression::fast());
    encoder.write_all(&by_bincode(&stats)).unwrap();
    let container = encoder.finish().unwrap();
    assert_eq!(load(&container), Ok(stats));
}

#[test]
fn compression_and_decompression_undo_each_other() {
    for data in [&b""[..], &b"a"[..], &[0u8; 10_000][..], &b"the quick brown fox"[..]] {
        let packed = compress(data).unwrap();
        assert_ne!(packed, data);
        assert_eq!(decompress(&packed), Some(data.to_vec()));
    }
}

#[test]
fn what_is_no_gzip_stream_is_corrupt() {
    assert_eq!(load(&[]), Err(LoadError::Corrupt));
    assert_eq!(load(b"not a container"), Err(LoadError::Corrupt));
    let stats = session(Tags::new(), 2);
    assert_eq!(load(&raw_of(&stats)), Err(LoadError::Corrupt));
    assert_eq!(decompress(b"junk"), None);
}

#[test]
fn a_damaged_container_is_corrupt() {
    let stats = session(Tags::new(), 50);
    let container = save(&stats).unwrap();
    assert_eq!(load(&container[..container.len() - 1]), Err(LoadError::Corrupt));
    assert_eq!(load(&container[..container.len() / 2]), Err(LoadError::Corrupt));
    let mut flipped = container.clone();
    let last = flipped.len() - 5;
    flipped[last] ^= 0xff;
    assert_eq!(load(&flipped), Err(LoadError::Corrupt));
}

#[test]
fn an_unknown_version_is_refused() {
    let stats = session(Tags::new(), 2);
    let mut raw = raw_of(&stats);
    assert_eq!(raw[0], 0);
    assert_eq!(VERSION_1, 0);
    raw[0] = 1;
    assert_eq!(parse(&raw), Err(LoadError::UnknownVersion(1)));
    assert_eq!(load(&compress(&raw).unwrap()), Err(LoadError::UnknownVersion(1)));
    let mut wide = vec![252, 0xff, 0xff, 0xff, 0xff];
    wide.extend_from_slice(&raw[1..]);
    assert_eq!(parse(&wide), Err(LoadError::UnknownVersion(u32::MAX)));
    let mut odd = vec![251, 0, 0];
    odd.extend_from_slice(&raw[1..]);
    assert_eq!(parse(&odd), Ok(stats));
}

#[test]
fn malformed_data_is_refused() {
    let stats = session(tags_of(&[("k", "v")]), 3);
    let raw = raw_of(&stats);
    assert_eq!(parse(&[]), Err(LoadError::Malformed));
    assert_eq!(parse(&[253, 0, 0, 0, 0, 0, 0, 0, 0]), Err(LoadError::Malformed));
    assert_eq!(parse(&[254]), Err(LoadError::Malformed));
    assert_eq!(parse(&[0]), Err(LoadError::Malformed));
    for cut in 1..raw.len() {
        assert_eq!(parse(&raw[..cut]), Err(LoadError::Malformed), "{}", cut);
    }
    assert_eq!(load(&compress(&raw[..raw.len() - 1]).unwrap()), Err(LoadError::Malformed));
}

#[test]
fn bytes_after_the_session_do_not_count() {
    let stats = session(Tags::new(), 2);
    let mut raw = raw_of(&stats);
    raw.extend_from_slice(b"trailing");
    assert_eq!(parse(&raw), Ok(stats));
}

#[test]
fn text_that_is_not_utf8_is_refused() {
    let stats = session(Tags::new(), 0);
    let mut raw = raw_of(&stats);
    let name_at = 2;
    assert_eq!(raw[1] as usize, stats.import.filename.len());
    raw[name_at] = 0xff;
    assert_eq!(parse(&raw), Err(LoadError::Malformed));
}

#[test]
fn a_span_beyond_the_range_is_refused() {
    let mut raw = Vec::new();
    write_signed(&mut raw, i64::MAX);
    write_signed(&mut raw, 1_000_000_000);
    assert_eq!(read_span(&raw, 0), None);
    let mut fine = Vec::new();
    write_signed(&mut fine, i64::MAX);
    write_signed(&mut fine, 999_999_999);
    assert_eq!(read_span(&fine, 0), Some((span(i64::MAX, 999_999_999), fine.len())));
}

#[test]
fn tags_that_come_out_of_order_or_twice_are_put_right() {
    let stats = session(Tags::new(), 0);
    let with_none = raw_of(&stats);
    let mut raw = with_none[..with_none.len() - 2].to_vec();
    write_varint(&mut raw, 3);
    for (name, value) in [("b", "1"), ("a", "2"), ("b", "3")] {
        write_text(&mut raw, name);
        write_text(&mut raw, value);
    }
    write_varint(&mut raw, 0);
    let back = parse(&raw).unwrap();
    assert_eq!(back.import.tags, tags_of(&[("a", "2"), ("b", "3")]));
    let theirs: (SessionTuple, usize) =
        bincode::decode_from_slice(&raw, bincode::config::standard()).unwrap();
    assert_eq!(theirs.0, tuple_of(&back));
}

#[test]
fn tags_keep_every_name_once_in_order() {
    let mut tags = Tags::new();
    tags.insert("m".to_string(), "1".to_string());
    tags.insert("z".to_string(), "2".to_string());
    tags.insert("a".to_string(), "3".to_string());
    tags.insert("m".to_string(), "4".to_string());
    tags.insert("".to_string(), "5".to_string());
    tags.insert("ma".to_string(), "6".to_string());
    tags.insert("Z".to_string(), "7".to_string());
    tags.insert("\u{e9}".to_string(), "8".to_string());
    let entries: Vec<(&str, &str)> =
        tags.entries().iter().map(|(k, v)| (k.as_str(), v.as_str())).collect();
    assert_eq!(
        entries,
        vec![("", "5"), ("Z", "7"), ("a", "3"), ("m", "4"), ("ma", "6"), ("z", "2"), ("\u{e9}", "8")]
    );
    assert_eq!(tags.len(), 7);
    assert_eq!(tags.clone(), tags);
}

#[test]
fn tags_are_ordered_as_a_sorted_map_orders_them() {
    let names = ["b", "a", "ab", "", "B", "\u{e9}", "e", "\u{4e2d}", "zz", "z", "a", "\u{1f600}", "~"];
    let mut tags = Tags::new();
    let mut map = BTreeMap::new();
    for (i, name) in names.iter().enumerate() {
        tags.insert(name.to_string(), i.to_string());
        map.insert(name.to_string(), i.to_string());
    }
    let ours: Vec<(String, String)> = tags.entries().to_vec();
    let theirs: Vec<(String, String)> = map.into_iter().collect();
    assert_eq!(ours, theirs);
}

#[test]
fn byte_strings_are_ranked_in_dictionary_order() {
    assert_eq!(rank(b"", b""), Rank::Same);
    assert_eq!(rank(b"", b"a"), Rank::Before);
    assert_eq!(rank(b"a", b""), Rank::After);
    assert_eq!(rank(b"abc", b"abd"), Rank::Before);
    assert_eq!(rank(b"abd", b"abc"), Rank::After);
    assert_eq!(rank(b"ab", b"abc"), Rank::Before);
    assert_eq!(rank(b"abc", b"abc"), Rank::Same);
    assert_eq!(rank(&[0xff], &[0x00, 0xff]), Rank::After);
}

#[test]
fn unsigned_numbers_take_the_least_width() {
    assert_eq!(varint_bytes(0), vec![0]);
    assert_eq!(varint_bytes(250), vec![250]);
    assert_eq!(varint_bytes(251), vec![251, 251, 0]);
    assert_eq!(varint_bytes(65_535), vec![251, 0xff, 0xff]);
    assert_eq!(varint_bytes(65_536), vec![252, 0, 0, 1, 0]);
    assert_eq!(varint_bytes(u32::MAX as u64), vec![252, 0xff, 0xff, 0xff, 0xff]);
    assert_eq!(varint_bytes(1 << 32), vec![253, 0, 0, 0, 0, 1, 0, 0, 0]);
    assert_eq!(varint_bytes(u64::MAX), vec![253, 0xff, 0xff, 0xff, 0xff, 0xff, 0xff, 0xff, 0xff]);
}

#[test]
fn writing_appends_to_what_is_there() {
    let mut out = vec![1, 2, 3];
    write_varint(&mut out, 7);
    write_bits(&mut out, 0x0102_0304_0506_0708);
    assert_eq!(out, vec![1, 2, 3, 7, 8, 7, 6, 5, 4, 3, 2, 1]);
}

#[test]
fn unsigned_numbers_are_read_back() {
    for v in [0u64, 1, 250, 251, 65_535, 65_536, u32::MAX as u64, 1 << 32, u64::MAX] {
        let mut raw = vec![9, 9];
        write_varint(&mut raw, v);
        let end = raw.len();
        raw.push(5);
        assert_eq!(read_varint(&raw, 2), Some((v, end)));
    }
    assert_eq!(read_varint(&[], 0), None);
    assert_eq!(read_varint(&[7], 1), None);
    assert_eq!(read_varint(&[251, 1], 0), None);
    assert_eq!(read_varint(&[252, 1, 2, 3], 0), None);
    assert_eq!(read_varint(&[253, 1, 2, 3, 4, 5, 6, 7], 0), None);
    assert_eq!(read_varint(&[254, 0, 0, 0, 0, 0, 0, 0, 0, 0, 0, 0, 0, 0, 0, 0, 0], 0), None);
    assert_eq!(read_varint(&[255, 0], 0), None);
    assert_eq!(read_varint(&[251, 5, 0], 0), Some((5, 3)));
    assert_eq!(read_varint(&[253, 5, 0, 0, 0, 0, 0, 0, 0], 0), Some((5, 9)));
}

#[test]
fn narrow_numbers_refuse_the_widest_form() {
    assert_eq!(read_varint32(&[7], 0), Some((7, 1)));
    assert_eq!(read_varint32(&[251, 1, 1], 0), Some((257, 3)));
    assert_eq!(read_varint32(&[252, 0xff, 0xff, 0xff, 0xff], 0), Some((u32::MAX, 5)));
    assert_eq!(read_varint32(&[253, 5, 0, 0, 0, 0, 0, 0, 0], 0), None);
    assert_eq!(read_varint32(&[], 0), None);
    let direct: Result<(u32, usize), _> =
        bincode::decode_from_slice(&[253, 5, 0, 0, 0, 0, 0, 0, 0], bincode::config::standard());
    assert!(direct.is_err());
}

#[test]
fn signed_numbers_alternate_around_zero() {
    assert_eq!(to_zigzag(0), 0);
    assert_eq!(to_zigzag(-1), 1);
    assert_eq!(to_zigzag(1), 2);
    assert_eq!(to_zigzag(-2), 3);
    assert_eq!(to_zigzag(i64::MAX), u64::MAX - 1);
    assert_eq!(to_zigzag(i64::MIN), u64::MAX);
    for v in [0i64, 1, -1, 125, -126, 1 << 40, -(1 << 40), i64::MAX, i64::MIN] {
        assert_eq!(from_zigzag(to_zigzag(v)), v);
        let mut ours = Vec::new();
        write_signed(&mut ours, v);
        assert_eq!(ours, bincode::encode_to_vec(v, bincode::config::standard()).unwrap());
        assert_eq!(read_signed(&ours, 0), Some((v, ours.len())));
    }
}

#[test]
fn bits_are_written_least_significant_byte_first() {
    let mut out = Vec::new();
    write_bits(&mut out, 1.5f64.to_bits());
    assert_eq!(out, 1.5f64.to_le_bytes().to_vec());
    assert_eq!(out, bincode::encode_to_vec(1.5f64, bincode::config::standard()).unwrap());
    assert_eq!(read_bits(&out, 0), Some((1.5f64.to_bits(), 8)));
    assert_eq!(read_bits(&out[..7], 0), None);
    assert_eq!(read_bits(&out, 1), None);
}

#[test]
fn text_is_its_length_and_its_bytes() {
    let mut out = Vec::new();
    write_text(&mut out, "h\u{e9}llo");
    assert_eq!(out, vec![6, b'h', 0xc3, 0xa9, b'l', b'l', b'o']);
    assert_eq!(out, bincode::encode_to_vec("h\u{e9}llo", bincode::config::standard()).unwrap());
    assert_eq!(read_text(&out, 0), Some(("h\u{e9}llo".to_string(), 7)));
    assert_eq!(read_text(&out[..6], 0), None);
    assert_eq!(read_text(&[2, 0xc3], 0), None);
    assert_eq!(read_text(&[2, 0xc3, 0x28], 0), None);
    assert_eq!(read_text(&[0], 0), Some((String::new(), 1)));
    assert_eq!(read_text(&[253, 0xff, 0xff, 0xff, 0xff, 0xff, 0xff, 0xff, 0xff, b'a'], 0), None);
    let long = "x".repeat(300);
    let mut wide = Vec::new();
    write_text(&mut wide, &long);
    assert_eq!(&wide[..3], &[251, 44, 1]);
    assert_eq!(read_text(&wide, 0), Some((long, 303)));
}

#[test]
fn absent_text_is_a_single_zero() {
    let mut out = Vec::new();
    write_optional_text(&mut out, &None);
    assert_eq!(out, vec![0]);
    assert_eq!(read_optional_text(&out, 0), Some((None, 1)));
    let mut some = Vec::new();
    write_optional_text(&mut some, &Some("ab".to_string()));
    assert_eq!(some, vec![1, 2, b'a', b'b']);
    assert_eq!(read_optional_text(&some, 0), Some((Some("ab".to_string()), 4)));
    assert_eq!(read_optional_text(&[2, 0], 0), None);
    assert_eq!(read_optional_text(&[], 0), None);
    assert_eq!(read_optional_text(&[1], 0), None);
}

#[test]
fn a_span_is_its_seconds_and_its_nanoseconds() {
    let mut out = Vec::new();
    write_span(&mut out, &span(-3, -250));
    let theirs = bincode::encode_to_vec((-3i64, -250i32), bincode::config::standard()).unwrap();
    assert_eq!(out, theirs);
    assert_eq!(read_span(&out, 0), Some((span(-3, -250), out.len())));
    let mut loose = Vec::new();
    write_signed(&mut loose, 1);
    write_signed(&mut loose, -2_500_000_000);
    assert_eq!(read_span(&loose, 0), Some((span(-1, -500_000_000), loose.len())));
    assert_eq!(read_span(&out[..1], 0), None);
}

#[test]
fn a_byte_is_read_as_it_is() {
    assert_eq!(read_byte(&[1, 255], 1), Some((255, 2)));
    assert_eq!(read_byte(&[1, 255], 2), None);
}

#[test]
fn the_container_is_kept_beside_the_input() {
    assert_eq!(stats_path("movie.mkv"), "movie.mkv.stats");
    assert_eq!(stats_path("/a/b c/\u{e9}"), "/a/b c/\u{e9}.stats");
    assert_eq!(stats_path(""), ".stats");
    assert_eq!(SUFFIX, ".stats");
}

#[test]
fn compression_depends_on_the_data_alone() {
    let stats = session(tags_of(&[("k", "v")]), 200);
    let raw = raw_of(&stats);
    let first = compress(&raw).unwrap();
    let second = compress(&raw).unwrap();
    assert_eq!(first, second);
    assert_eq!(save(&stats).unwrap(), first);
    assert_eq!(save(&stats.clone()).unwrap(), first);
    assert_ne!(compress(&raw[1..]).unwrap(), first);
}

#[test]
fn the_longest_position_that_the_layout_holds_survives_the_round_trip() {
    let mut stats = session(Tags::new(), 2);
    stats.history[1].1.out_time = Elapsed::new(i64::MAX as u64, 999_999).unwrap();
    assert_eq!(raw_of(&stats), by_bincode(&stats));
    let back = load(&save(&stats).unwrap()).unwrap();
    assert_eq!(back, stats);
    assert_eq!(back.history[1].1.out_time.as_secs(), i64::MAX as u64);
    assert_eq!(back.history[1].1.out_time.subsec_nanos(), 999_999_000);
}

#[test]
fn a_position_beyond_the_layout_is_refused_when_saving() {
    let mut stats = session(tags_of(&[("k", "v")]), 3);
    stats.history[1].1.out_time = Elapsed::new(i64::MAX as u64 + 1, 0).unwrap();
    assert_eq!(serialize(&stats), Err(SaveError::OutOfRange));
    assert_eq!(save(&stats), Err(SaveError::OutOfRange));
    stats.history[1].1.out_time = Elapsed::new(u64::MAX, 999_999).unwrap();
    assert_eq!(save(&stats), Err(SaveError::OutOfRange));
    stats.history[1].1.out_time = Elapsed::new(i64::MAX as u64, 0).unwrap();
    assert!(save(&stats).is_ok());
}

#[test]
fn a_refused_record_leaves_the_bytes_as_they_were() {
    let fine = record(4);
    let beyond = Progress { out_time: Elapsed::new(1 << 63, 0).unwrap(), ..record(5) };
    let mut out = vec![7, 7];
    assert_eq!(write_progress(&mut out, &beyond), Err(SaveError::OutOfRange));
    assert_eq!(out, vec![7, 7]);
    assert_eq!(write_progress(&mut out, &fine), Ok(()));
    assert!(out.len() > 2);
    let mut list = vec![9];
    let history = vec![(span(1, 0), fine), (span(2, 0), beyond)];
    assert_eq!(write_history(&mut list, &history), Err(SaveError::OutOfRange));
    assert_eq!(list, vec![9]);
    assert_eq!(write_history(&mut list, &history[..1]), Ok(()));
    assert_eq!(list[..2], [9, 1]);
}

#[test]
fn a_negative_position_in_a_container_is_malformed() {
    let stats = session(Tags::new(), 2);
    let mut tuple = tuple_of(&stats);
    tuple.2[1].1 .6 = (-1, 0);
    let raw = bincode::encode_to_vec(tuple.clone(), bincode::config::standard()).unwrap();
    assert_eq!(parse(&raw), Err(LoadError::Malformed));
    tuple.2[1].1 .6 = (0, -1);
    let raw = bincode::encode_to_vec(tuple.clone(), bincode::config::standard()).unwrap();
    assert_eq!(parse(&raw), Err(LoadError::Malformed));
    tuple.2[1].1 .6 = (1, -1);
    let raw = bincode::encode_to_vec(tuple, bincode::config::standard()).unwrap();
    let back = parse(&raw).unwrap();
    assert_eq!(back.history[1].1.out_time.as_secs(), 0);
    assert_eq!(back.history[1].1.out_time.subsec_nanos(), 999_999_999);
}

#[test]
fn a_position_is_read_as_a_span_that_is_not_negative() {
    let mut raw = Vec::new();
    write_signed(&mut raw, 5);
    write_signed(&mut raw, 250);
    assert_eq!(read_elapsed(&raw, 0), Some((Elapsed::from_signed(&span(5, 250)).unwrap(), raw.len())));
    let mut negative = Vec::new();
    write_signed(&mut negative, -5);
    write_signed(&mut negative, 0);
    assert_eq!(read_elapsed(&negative, 0), None);
    let mut mixed = Vec::new();
    write_signed(&mut mixed, 1);
    write_signed(&mut mixed, -2_000_000_000);
    assert_eq!(read_elapsed(&mixed, 0), None);
    assert_eq!(read_elapsed(&raw[..1], 0), None);
}
