//! A finished session and the container in which it is kept.
//!
//! A [`Stats`] is what was known of the input together with every progress
//! record of the run and the time at which each arrived. [`save`] turns it
//! into a container: a version number, the session in the layout of that
//! version, and all of it compressed as a gzip stream. [`load`] reads a
//! container back. There is one version so far; a container of any other
//! version is refused.
//!
//! The layout is specified by [`snapshot`], and what reading makes of any
//! bytes by [`decoded`]. [`lemma_snapshot_roundtrip`] shows that every
//! session that the layout holds is read back as it was written. The layout
//! keeps the whole seconds of a span in a signed 64-bit number, so it does
//! not hold a record whose position in the output is longer than that;
//! [`save`] refuses a session with such a record.

use vstd::prelude::*;
use vstd::bytes::spec_u64_to_le_bytes;
use crate::duration::Duration;
use crate::ffmpeg::{Binary64, Progress};
use crate::ffprobe::{
    entry_views, inserted, lemma_inserted_last, ordered, Format, FormatView, Tags,
};
use crate::wire::{
    bits_at, byte_at, compress, decompress, fits, gunzip_of, gzip_of, lemma_bits_roundtrip,
    elapsed, elapsed_at, lemma_elapsed_roundtrip, lemma_optional_text_roundtrip,
    lemma_span_roundtrip, lemma_text_roundtrip, read_elapsed,
    lemma_varint32_roundtrip, lemma_varint_roundtrip, optional_text,
    optional_text_at, read_bits, read_byte, read_optional_text, read_span, read_text, read_varint,
    read_varint32, span, span_at, text, text_at, varint, varint32_at, varint_at, views_of,
    write_bits, write_optional_text, write_span, write_text, write_varint, SaveError,
};

verus! {

/// The number of the one version of the layout.
pub const VERSION_1: u32 = 0;

/// What is appended to the input's path to name its container.
pub const SUFFIX: &'static str = ".stats";

/// What was read, where something was read.
pub open spec fn found<T>(read: Option<(T, int)>) -> T {
    match read {
        Some((value, _)) => value,
        None => arbitrary(),
    }
}

/// The count of bytes that reading took, or zero where nothing was read.
pub open spec fn taken<T>(read: Option<(T, int)>) -> int {
    match read {
        Some((_, n)) => n,
        None => 0,
    }
}

/// The bytes of a record in the layout of version 1: its fields in the
/// order of their declaration, counters in variable-length form, the two
/// double-precision numbers in eight bytes each, and the position in the
/// output as a signed span. They are the record's bytes only where a signed
/// span can be as long as the position.
#[verifier::opaque]
pub open spec fn progress_v1(p: Progress) -> Seq<u8> {
    varint(p.frame) + (spec_u64_to_le_bytes(p.fps.bits) + (varint(p.bitrate) + (varint(
        p.total_size,
    ) + (varint(p.out_time_us) + (varint(p.out_time_ms) + (elapsed(p.out_time) + (varint(
        p.dup_frames,
    ) + (varint(p.drop_frames) + spec_u64_to_le_bytes(p.speed.bits)))))))))
}

/// The record at the front of `bytes`, and the count of bytes it takes.
#[verifier::opaque]
pub open spec fn progress_v1_at(bytes: Seq<u8>) -> Option<(Progress, int)> {
    let frame = varint_at(bytes);
    let n1 = taken(frame);
    let fps = bits_at(bytes.skip(n1));
    let n2 = n1 + taken(fps);
    let bitrate = varint_at(bytes.skip(n2));
    let n3 = n2 + taken(bitrate);
    let total_size = varint_at(bytes.skip(n3));
    let n4 = n3 + taken(total_size);
    let out_time_us = varint_at(bytes.skip(n4));
    let n5 = n4 + taken(out_time_us);
    let out_time_ms = varint_at(bytes.skip(n5));
    let n6 = n5 + taken(out_time_ms);
    let out_time = elapsed_at(bytes.skip(n6));
    let n7 = n6 + taken(out_time);
    let dup_frames = varint_at(bytes.skip(n7));
    let n8 = n7 + taken(dup_frames);
    let drop_frames = varint_at(bytes.skip(n8));
    let n9 = n8 + taken(drop_frames);
    let speed = bits_at(bytes.skip(n9));
    let n10 = n9 + taken(speed);
    if frame is Some && fps is Some && bitrate is Some && total_size is Some && out_time_us is Some
        && out_time_ms is Some && out_time is Some && dup_frames is Some && drop_frames is Some
        && speed is Some {
        Some(
            (
                Progress {
                    frame: found(frame),
                    fps: Binary64 { bits: found(fps) },
                    bitrate: found(bitrate),
                    total_size: found(total_size),
                    out_time_us: found(out_time_us),
                    out_time_ms: found(out_time_ms),
                    out_time: found(out_time),
                    dup_frames: found(dup_frames),
                    drop_frames: found(drop_frames),
                    speed: Binary64 { bits: found(speed) },
                },
                n10,
            ),
        )
    } else {
        None
    }
}

/// Joining three pieces gives the same bytes however they are grouped.
proof fn lemma_join(a: Seq<u8>, b: Seq<u8>, c: Seq<u8>)
    ensures
        (a + b) + c == a + (b + c),
{
    assert((a + b) + c =~= a + (b + c));
}

/// Where `piece` and then `tail` stand at index `n` of `whole`, `tail`
/// stands right after the piece.
proof fn lemma_after_piece(whole: Seq<u8>, n: int, piece: Seq<u8>, tail: Seq<u8>)
    requires
        0 <= n <= whole.len(),
        whole.skip(n) == piece + tail,
    ensures
        whole.skip(n + piece.len()) == tail,
        n + piece.len() <= whole.len(),
{
    assert(whole.skip(n).len() == whole.len() - n);
    assert(whole.skip(n + piece.len()) =~= whole.skip(n).skip(piece.len() as int));
    assert((piece + tail).skip(piece.len() as int) =~= tail);
}

/// To skip `n` bytes from index `pos` on is to skip to index `pos + n`.
proof fn lemma_resume(bytes: Seq<u8>, pos: int, n: int)
    requires
        0 <= pos,
        0 <= n,
        pos + n <= bytes.len(),
    ensures
        bytes.skip(pos).skip(n) == bytes.skip(pos + n),
{
    assert(bytes.skip(pos).skip(n) =~= bytes.skip(pos + n));
}

/// Reading a record's bytes gives the record back, whatever follows them,
/// where a signed span can be as long as the record's position in the
/// output.
pub proof fn lemma_progress_roundtrip(p: Progress, rest: Seq<u8>)
    requires
        p.out_time.wf(),
        p.out_time.storable(),
    ensures
        progress_v1_at(progress_v1(p) + rest) == Some((p, progress_v1(p).len() as int)),
{
    reveal(progress_v1);
    reveal(progress_v1_at);
    let a0 = varint(p.frame);
    let a1 = spec_u64_to_le_bytes(p.fps.bits);
    let a2 = varint(p.bitrate);
    let a3 = varint(p.total_size);
    let a4 = varint(p.out_time_us);
    let a5 = varint(p.out_time_ms);
    let a6 = elapsed(p.out_time);
    let a7 = varint(p.dup_frames);
    let a8 = varint(p.drop_frames);
    let a9 = spec_u64_to_le_bytes(p.speed.bits);
    let t9 = a9 + rest;
    let t8 = a8 + t9;
    let t7 = a7 + t8;
    let t6 = a6 + t7;
    let t5 = a5 + t6;
    let t4 = a4 + t5;
    let t3 = a3 + t4;
    let t2 = a2 + t3;
    let t1 = a1 + t2;
    let t0 = a0 + t1;
    assert(progress_v1(p) + rest == t0) by {
        lemma_join(a8, a9, rest);
        lemma_join(a7, a8 + a9, rest);
        lemma_join(a6, a7 + (a8 + a9), rest);
        lemma_join(a5, a6 + (a7 + (a8 + a9)), rest);
        lemma_join(a4, a5 + (a6 + (a7 + (a8 + a9))), rest);
        lemma_join(a3, a4 + (a5 + (a6 + (a7 + (a8 + a9)))), rest);
        lemma_join(a2, a3 + (a4 + (a5 + (a6 + (a7 + (a8 + a9))))), rest);
        lemma_join(a1, a2 + (a3 + (a4 + (a5 + (a6 + (a7 + (a8 + a9)))))), rest);
        lemma_join(a0, a1 + (a2 + (a3 + (a4 + (a5 + (a6 + (a7 + (a8 + a9))))))), rest);
    }
    assert(t0.skip(0) =~= t0);
    lemma_varint_roundtrip(p.frame, t1);
    lemma_after_piece(t0, 0, a0, t1);
    let n1 = a0.len() as int;
    lemma_bits_roundtrip(p.fps.bits, t2);
    lemma_after_piece(t0, n1, a1, t2);
    let n2 = n1 + a1.len();
    lemma_varint_roundtrip(p.bitrate, t3);
    lemma_after_piece(t0, n2, a2, t3);
    let n3 = n2 + a2.len();
    lemma_varint_roundtrip(p.total_size, t4);
    lemma_after_piece(t0, n3, a3, t4);
    let n4 = n3 + a3.len();
    lemma_varint_roundtrip(p.out_time_us, t5);
    lemma_after_piece(t0, n4, a4, t5);
    let n5 = n4 + a4.len();
    lemma_varint_roundtrip(p.out_time_ms, t6);
    lemma_after_piece(t0, n5, a5, t6);
    let n6 = n5 + a5.len();
    lemma_elapsed_roundtrip(p.out_time, t7);
    lemma_after_piece(t0, n6, a6, t7);
    let n7 = n6 + a6.len();
    lemma_varint_roundtrip(p.dup_frames, t8);
    lemma_after_piece(t0, n7, a7, t8);
    let n8 = n7 + a7.len();
    lemma_varint_roundtrip(p.drop_frames, t9);
    lemma_after_piece(t0, n8, a8, t9);
    let n9 = n8 + a8.len();
    lemma_bits_roundtrip(p.speed.bits, rest);
    assert(taken(varint_at(t0)) == n1);
    assert(taken(bits_at(t0.skip(n1))) == 8);
    assert(taken(varint_at(t0.skip(n2))) == a2.len());
    assert(taken(varint_at(t0.skip(n3))) == a3.len());
    assert(taken(varint_at(t0.skip(n4))) == a4.len());
    assert(taken(varint_at(t0.skip(n5))) == a5.len());
    assert(taken(elapsed_at(t0.skip(n6))) == a6.len());
    assert(taken(varint_at(t0.skip(n7))) == a7.len());
    assert(taken(varint_at(t0.skip(n8))) == a8.len());
    assert(taken(bits_at(t0.skip(n9))) == 8);
    assert(progress_v1(p).len() == n9 + 8);
}

/// Appends the bytes of the record `p` to `out`. Where no signed span can be
/// as long as the record's position in the output, nothing is appended and
/// the record is refused.
pub fn write_progress(out: &mut Vec<u8>, p: &Progress) -> (r: Result<(), SaveError>)
    ensures
        p.out_time.wf(),
        r is Ok <==> p.out_time.storable(),
        r is Ok ==> final(out)@ == old(out)@ + progress_v1(*p),
        r matches Err(e) ==> e == SaveError::OutOfRange && final(out)@ == old(out)@,
{
    let out_time = match p.out_time.to_signed() {
        Some(d) => d,
        None => {
            return Err(SaveError::OutOfRange);
        },
    };
    let ghost p0 = out@;
    write_varint(out, p.frame);
    let ghost p1 = out@;
    write_bits(out, p.fps.bits);
    let ghost p2 = out@;
    write_varint(out, p.bitrate);
    let ghost p3 = out@;
    write_varint(out, p.total_size);
    let ghost p4 = out@;
    write_varint(out, p.out_time_us);
    let ghost p5 = out@;
    write_varint(out, p.out_time_ms);
    let ghost p6 = out@;
    write_span(out, &out_time);
    let ghost p7 = out@;
    write_varint(out, p.dup_frames);
    let ghost p8 = out@;
    write_varint(out, p.drop_frames);
    let ghost p9 = out@;
    write_bits(out, p.speed.bits);
    proof {
        reveal(progress_v1);
        reveal(elapsed);
        let s9 = spec_u64_to_le_bytes(p.speed.bits);
        let s8 = varint(p.drop_frames) + s9;
        let s7 = varint(p.dup_frames) + s8;
        let s6 = elapsed(p.out_time) + s7;
        let s5 = varint(p.out_time_ms) + s6;
        let s4 = varint(p.out_time_us) + s5;
        let s3 = varint(p.total_size) + s4;
        let s2 = varint(p.bitrate) + s3;
        let s1 = spec_u64_to_le_bytes(p.fps.bits) + s2;
        lemma_join(p8, varint(p.drop_frames), s9);
        lemma_join(p7, varint(p.dup_frames), s8);
        lemma_join(p6, elapsed(p.out_time), s7);
        lemma_join(p5, varint(p.out_time_ms), s6);
        lemma_join(p4, varint(p.out_time_us), s5);
        lemma_join(p3, varint(p.total_size), s4);
        lemma_join(p2, varint(p.bitrate), s3);
        lemma_join(p1, spec_u64_to_le_bytes(p.fps.bits), s2);
        lemma_join(p0, varint(p.frame), s1);
    }
    Ok(())
}

/// Reads the record that starts at `pos`.
#[verifier::rlimit(30)]
pub fn read_progress(bytes: &[u8], pos: usize) -> (r: Option<(Progress, usize)>)
    requires
        pos <= bytes.len(),
    ensures
        match progress_v1_at(bytes@.skip(pos as int)) {
            Some((p, n)) => r == Some((p, (pos + n) as usize)) && 0 < n && pos + n <= bytes.len()
                && p.out_time.wf() && p.out_time.storable(),
            None => r is None,
        },
{
    proof {
        reveal(progress_v1_at);
    }
    let (frame, p1) = match read_varint(bytes, pos) {
        Some(found) => found,
        None => {
            return None;
        },
    };
    proof {
        lemma_resume(bytes@, pos as int, p1 - pos);
    }
    let (fps, p2) = match read_bits(bytes, p1) {
        Some(found) => found,
        None => {
            return None;
        },
    };
    proof {
        lemma_resume(bytes@, pos as int, p2 - pos);
    }
    let (bitrate, p3) = match read_varint(bytes, p2) {
        Some(found) => found,
        None => {
            return None;
        },
    };
    proof {
        lemma_resume(bytes@, pos as int, p3 - pos);
    }
    let (total_size, p4) = match read_varint(bytes, p3) {
        Some(found) => found,
        None => {
            return None;
        },
    };
    proof {
        lemma_resume(bytes@, pos as int, p4 - pos);
    }
    let (out_time_us, p5) = match read_varint(bytes, p4) {
        Some(found) => found,
        None => {
            return None;
        },
    };
    proof {
        lemma_resume(bytes@, pos as int, p5 - pos);
    }
    let (out_time_ms, p6) = match read_varint(bytes, p5) {
        Some(found) => found,
        None => {
            return None;
        },
    };
    proof {
        lemma_resume(bytes@, pos as int, p6 - pos);
    }
    let (out_time, p7) = match read_elapsed(bytes, p6) {
        Some(found) => found,
        None => {
            return None;
        },
    };
    proof {
        lemma_resume(bytes@, pos as int, p7 - pos);
    }
    let (dup_frames, p8) = match read_varint(bytes, p7) {
        Some(found) => found,
        None => {
            return None;
        },
    };
    proof {
        lemma_resume(bytes@, pos as int, p8 - pos);
    }
    let (drop_frames, p9) = match read_varint(bytes, p8) {
        Some(found) => found,
        None => {
            return None;
        },
    };
    proof {
        lemma_resume(bytes@, pos as int, p9 - pos);
    }
    let (speed, p10) = match read_bits(bytes, p9) {
        Some(found) => found,
        None => {
            return None;
        },
    };
    Some(
        (
            Progress {
                frame,
                fps: Binary64 { bits: fps },
                bitrate,
                total_size,
                out_time_us,
                out_time_ms,
                out_time,
                dup_frames,
                drop_frames,
                speed: Binary64 { bits: speed },
            },
            p10,
        ),
    )
}

/// What was read with `extra` more bytes taken before it.
pub open spec fn shifted<T>(read: Option<(T, int)>, extra: int) -> Option<(T, int)> {
    match read {
        Some((value, n)) => Some((value, n + extra)),
        None => None,
    }
}

/// Whether the texts of `entries` have lengths that 64 bits hold.
pub open spec fn fit(entries: Seq<(Seq<char>, Seq<char>)>) -> bool {
    forall|i: int| 0 <= i < entries.len() ==> fits(#[trigger] entries[i].0) && fits(entries[i].1)
}

/// The bytes of the entries of a tag mapping: name and value of each, in
/// order.
pub open spec fn tag_entries(entries: Seq<(Seq<char>, Seq<char>)>) -> Seq<u8>
    decreases entries.len(),
{
    if entries.len() == 0 {
        Seq::empty()
    } else {
        text(entries[0].0) + (text(entries[0].1) + tag_entries(entries.drop_first()))
    }
}

/// The bytes of a tag mapping: the count of its entries, then the entries.
#[verifier::opaque]
pub open spec fn tags_v1(entries: Seq<(Seq<char>, Seq<char>)>) -> Seq<u8> {
    varint(entries.len() as u64) + tag_entries(entries)
}

/// The mapping that results when `count` entries at the front of `bytes`
/// are given, one after the other, to the mapping `acc`. An entry whose
/// name has occurred before replaces the earlier one.
pub open spec fn tag_entries_at(
    bytes: Seq<u8>,
    count: nat,
    acc: Seq<(Seq<char>, Seq<char>)>,
) -> Option<(Seq<(Seq<char>, Seq<char>)>, int)>
    decreases count,
{
    if count == 0 {
        Some((acc, 0))
    } else {
        let name = text_at(bytes);
        let n1 = taken(name);
        let value = text_at(bytes.skip(n1));
        let n2 = n1 + taken(value);
        if name is Some && value is Some {
            shifted(
                tag_entries_at(
                    bytes.skip(n2),
                    (count - 1) as nat,
                    inserted(acc, found(name), found(value)),
                ),
                n2,
            )
        } else {
            None
        }
    }
}

/// The tag mapping at the front of `bytes`.
#[verifier::opaque]
pub open spec fn tags_at(bytes: Seq<u8>) -> Option<(Seq<(Seq<char>, Seq<char>)>, int)> {
    let count = varint_at(bytes);
    if count is Some {
        shifted(
            tag_entries_at(bytes.skip(taken(count)), found(count) as nat, Seq::empty()),
            taken(count),
        )
    } else {
        None
    }
}

/// Reading the bytes of entries whose names go on in order from those read
/// so far appends the entries.
proof fn lemma_tag_entries_roundtrip(
    done: Seq<(Seq<char>, Seq<char>)>,
    coming: Seq<(Seq<char>, Seq<char>)>,
    rest: Seq<u8>,
)
    requires
        ordered(done + coming),
        fit(coming),
    ensures
        tag_entries_at(tag_entries(coming) + rest, coming.len(), done) == Some(
            (done + coming, tag_entries(coming).len() as int),
        ),
    decreases coming.len(),
{
    if coming.len() == 0 {
        assert(done + coming =~= done);
        assert(tag_entries(coming) + rest =~= rest);
    } else {
        let e = coming[0];
        let later = coming.drop_first();
        let a0 = text(e.0);
        let a1 = text(e.1);
        let t2 = tag_entries(later) + rest;
        let t1 = a1 + t2;
        let t0 = a0 + t1;
        assert(tag_entries(coming) + rest == t0) by {
            lemma_join(a1, tag_entries(later), rest);
            lemma_join(a0, a1 + tag_entries(later), rest);
        }
        assert(fits(e.0) && fits(e.1));
        assert(t0.skip(0) =~= t0);
        lemma_text_roundtrip(e.0, t1);
        lemma_after_piece(t0, 0, a0, t1);
        lemma_text_roundtrip(e.1, t2);
        lemma_after_piece(t0, a0.len() as int, a1, t2);
        assert(inserted(done, e.0, e.1) == done.push(e)) by {
            if done.len() > 0 {
                assert((done + coming)[done.len() - 1] == done.last());
                assert((done + coming)[done.len() as int] == e);
            }
            lemma_inserted_last(done, e.0, e.1);
        }
        assert(done.push(e) + later =~= done + coming);
        assert(fit(later)) by {
            assert forall|i: int| 0 <= i < later.len() implies fits(#[trigger] later[i].0) && fits(
                later[i].1,
            ) by {
                assert(later[i] == coming[i + 1]);
            }
        }
        lemma_tag_entries_roundtrip(done.push(e), later, rest);
    }
}

/// Reading a tag mapping's bytes gives the mapping back.
pub proof fn lemma_tags_roundtrip(entries: Seq<(Seq<char>, Seq<char>)>, rest: Seq<u8>)
    requires
        ordered(entries),
        fit(entries),
        entries.len() <= u64::MAX,
    ensures
        tags_at(tags_v1(entries) + rest) == Some((entries, tags_v1(entries).len() as int)),
{
    reveal(tags_v1);
    reveal(tags_at);
    let head = varint(entries.len() as u64);
    let t1 = tag_entries(entries) + rest;
    lemma_join(head, tag_entries(entries), rest);
    lemma_varint_roundtrip(entries.len() as u64, t1);
    assert((head + t1).skip(0) =~= head + t1);
    lemma_after_piece(head + t1, 0, head, t1);
    assert(Seq::<(Seq<char>, Seq<char>)>::empty() + entries =~= entries);
    lemma_tag_entries_roundtrip(Seq::empty(), entries, rest);
}

/// The bytes of the entries from index `i` on are those of the entry at
/// `i`, then those of the entries after it.
proof fn lemma_tag_entries_from(entries: Seq<(Seq<char>, Seq<char>)>, i: int)
    requires
        0 <= i < entries.len(),
    ensures
        tag_entries(entries.skip(i)) == text(entries[i].0) + (text(entries[i].1) + tag_entries(
            entries.skip(i + 1),
        )),
{
    assert(entries.skip(i).drop_first() =~= entries.skip(i + 1));
    assert(entries.skip(i)[0] == entries[i]);
}

/// Two pieces appended one after the other, then a tail, are the pieces
/// and the tail appended as one.
proof fn lemma_appended(head: Seq<u8>, a: Seq<u8>, b: Seq<u8>, tail: Seq<u8>)
    ensures
        ((head + a) + b) + tail == head + (a + (b + tail)),
{
    assert(((head + a) + b) + tail =~= head + (a + (b + tail)));
}

/// Appends the bytes of the tag mapping `tags` to `out`.
pub fn write_tags(out: &mut Vec<u8>, tags: &Tags)
    ensures
        final(out)@ == old(out)@ + tags_v1(tags@),
        ordered(tags@),
        fit(tags@),
        tags@.len() <= u64::MAX,
{
    let entries = tags.entries();
    let ghost all = tags@;
    write_varint(out, entries.len() as u64);
    let ghost head = out@;
    let mut i: usize = 0;
    assert(all.skip(0) =~= all);
    while i < entries.len()
        invariant
            i <= entries.len(),
            all == entry_views(entries@),
            all.len() == entries@.len(),
            head + tag_entries(all) == out@ + tag_entries(all.skip(i as int)),
            forall|j: int| 0 <= j < i ==> fits(#[trigger] all[j].0) && fits(all[j].1),
        decreases entries.len() - i,
    {
        let ghost before = out@;
        let name = entries[i].0.as_str();
        let value = entries[i].1.as_str();
        assert(all[i as int] == (name@, value@));
        write_text(out, name);
        write_text(out, value);
        proof {
            lemma_tag_entries_from(all, i as int);
            lemma_appended(before, text(name@), text(value@), tag_entries(all.skip(i + 1)));
        }
        i += 1;
    }
    proof {
        reveal(tags_v1);
        assert(all.skip(i as int) =~= Seq::<(Seq<char>, Seq<char>)>::empty());
        assert(out@ + tag_entries(all.skip(i as int)) =~= out@);
        lemma_join(old(out)@, varint(all.len() as u64), tag_entries(all));
    }
}

/// Reads the tag mapping that starts at `pos`.
pub fn read_tags(bytes: &[u8], pos: usize) -> (r: Option<(Tags, usize)>)
    requires
        pos <= bytes.len(),
    ensures
        match tags_at(bytes@.skip(pos as int)) {
            Some((entries, n)) => r matches Some(read) && read.0@ == entries && read.1 == pos + n
                && 0 < n && pos + n <= bytes.len() && ordered(entries),
            None => r is None,
        },
{
    proof {
        reveal(tags_at);
    }
    let (count, start) = match read_varint(bytes, pos) {
        Some(read) => read,
        None => {
            return None;
        },
    };
    proof {
        lemma_resume(bytes@, pos as int, start - pos);
    }
    let ghost goal = tag_entries_at(bytes@.skip(start as int), count as nat, Seq::empty());
    let mut tags = Tags::new();
    let mut cur: usize = start;
    let mut i: u64 = 0;
    while i < count
        invariant
            i <= count,
            pos < start <= cur <= bytes.len(),
            tags.wf(),
            tags_at(bytes@.skip(pos as int)) == shifted(goal, start - pos),
            goal == shifted(
                tag_entries_at(bytes@.skip(cur as int), (count - i) as nat, tags@),
                cur - start,
            ),
        decreases count - i,
    {
        let (name, mid) = match read_text(bytes, cur) {
            Some(read) => read,
            None => {
                return None;
            },
        };
        proof {
            lemma_resume(bytes@, cur as int, mid - cur);
        }
        let (value, next) = match read_text(bytes, mid) {
            Some(read) => read,
            None => {
                return None;
            },
        };
        proof {
            lemma_resume(bytes@, cur as int, next - cur);
        }
        tags.insert(name, value);
        cur = next;
        i += 1;
    }
    proof {
        use_type_invariant(&tags);
    }
    let ghost entries = tags@;
    assert(ordered(entries)) by {
        tags.lemma_ordered();
    }
    Some((tags, cur))
}

/// The bytes of the entries of a history: time and record of each, in
/// order.
pub open spec fn history_entries(history: Seq<(Duration, Progress)>) -> Seq<u8>
    decreases history.len(),
{
    if history.len() == 0 {
        Seq::empty()
    } else {
        span(history[0].0) + (progress_v1(history[0].1) + history_entries(history.drop_first()))
    }
}

/// The bytes of a history: the count of its entries, then the entries.
#[verifier::opaque]
pub open spec fn history_v1(history: Seq<(Duration, Progress)>) -> Seq<u8> {
    varint(history.len() as u64) + history_entries(history)
}

/// The history that results when `count` entries at the front of `bytes`
/// are appended to `acc`.
pub open spec fn history_entries_at(
    bytes: Seq<u8>,
    count: nat,
    acc: Seq<(Duration, Progress)>,
) -> Option<(Seq<(Duration, Progress)>, int)>
    decreases count,
{
    if count == 0 {
        Some((acc, 0))
    } else {
        let at = span_at(bytes);
        let n1 = taken(at);
        let record = progress_v1_at(bytes.skip(n1));
        let n2 = n1 + taken(record);
        if at is Some && record is Some {
            shifted(
                history_entries_at(
                    bytes.skip(n2),
                    (count - 1) as nat,
                    acc.push((found(at), found(record))),
                ),
                n2,
            )
        } else {
            None
        }
    }
}

/// The history at the front of `bytes`.
#[verifier::opaque]
pub open spec fn history_at(bytes: Seq<u8>) -> Option<(Seq<(Duration, Progress)>, int)> {
    let count = varint_at(bytes);
    if count is Some {
        shifted(
            history_entries_at(bytes.skip(taken(count)), found(count) as nat, Seq::empty()),
            taken(count),
        )
    } else {
        None
    }
}

/// Whether every span in `history` is well formed.
pub open spec fn sound(history: Seq<(Duration, Progress)>) -> bool {
    forall|i: int|
        0 <= i < history.len() ==> (#[trigger] history[i]).0.wf() && history[i].1.out_time.wf()
}

/// Whether the layout, which keeps whole seconds in a signed 64-bit number,
/// holds every record of `history`: no position in the output is longer
/// than a signed span can be.
pub open spec fn stored(history: Seq<(Duration, Progress)>) -> bool {
    forall|i: int| 0 <= i < history.len() ==> (#[trigger] history[i]).1.out_time.storable()
}

/// Reading the bytes of history entries appends the entries to those read
/// so far.
proof fn lemma_history_entries_roundtrip(
    done: Seq<(Duration, Progress)>,
    coming: Seq<(Duration, Progress)>,
    rest: Seq<u8>,
)
    requires
        sound(coming),
        stored(coming),
    ensures
        history_entries_at(history_entries(coming) + rest, coming.len(), done) == Some(
            (done + coming, history_entries(coming).len() as int),
        ),
    decreases coming.len(),
{
    if coming.len() == 0 {
        assert(done + coming =~= done);
        assert(history_entries(coming) + rest =~= rest);
    } else {
        let e = coming[0];
        let later = coming.drop_first();
        let a0 = span(e.0);
        let a1 = progress_v1(e.1);
        let t2 = history_entries(later) + rest;
        let t1 = a1 + t2;
        let t0 = a0 + t1;
        assert(history_entries(coming) + rest == t0) by {
            lemma_join(a1, history_entries(later), rest);
            lemma_join(a0, a1 + history_entries(later), rest);
        }
        assert(e.0.wf() && e.1.out_time.wf());
        assert(e.1.out_time.storable());
        assert(t0.skip(0) =~= t0);
        lemma_span_roundtrip(e.0, t1);
        lemma_after_piece(t0, 0, a0, t1);
        lemma_progress_roundtrip(e.1, t2);
        lemma_after_piece(t0, a0.len() as int, a1, t2);
        assert(done.push(e) + later =~= done + coming);
        assert(sound(later) && stored(later)) by {
            assert forall|i: int| 0 <= i < later.len() implies (#[trigger] later[i]).0.wf()
                && later[i].1.out_time.wf() && later[i].1.out_time.storable() by {
                assert(later[i] == coming[i + 1]);
            }
        }
        lemma_history_entries_roundtrip(done.push(e), later, rest);
    }
}

/// Reading a history's bytes gives the history back, where the layout holds
/// every record.
pub proof fn lemma_history_roundtrip(history: Seq<(Duration, Progress)>, rest: Seq<u8>)
    requires
        sound(history),
        stored(history),
        history.len() <= u64::MAX,
    ensures
        history_at(history_v1(history) + rest) == Some(
            (history, history_v1(history).len() as int),
        ),
{
    reveal(history_v1);
    reveal(history_at);
    let head = varint(history.len() as u64);
    let t1 = history_entries(history) + rest;
    lemma_join(head, history_entries(history), rest);
    lemma_varint_roundtrip(history.len() as u64, t1);
    assert((head + t1).skip(0) =~= head + t1);
    lemma_after_piece(head + t1, 0, head, t1);
    assert(Seq::<(Duration, Progress)>::empty() + history =~= history);
    lemma_history_entries_roundtrip(Seq::empty(), history, rest);
}

/// The bytes of the entries from index `i` on are those of the entry at
/// `i`, then those of the entries after it.
proof fn lemma_history_entries_from(history: Seq<(Duration, Progress)>, i: int)
    requires
        0 <= i < history.len(),
    ensures
        history_entries(history.skip(i)) == span(history[i].0) + (progress_v1(history[i].1)
            + history_entries(history.skip(i + 1))),
{
    assert(history.skip(i).drop_first() =~= history.skip(i + 1));
    assert(history.skip(i)[0] == history[i]);
}

/// Appends the bytes of the history `history` to `out`. Where the layout
/// does not hold one of the records, nothing is appended and the history is
/// refused.
pub fn write_history(out: &mut Vec<u8>, history: &[(Duration, Progress)]) -> (r: Result<
    (),
    SaveError,
>)
    ensures
        history@.len() <= u64::MAX,
        r is Ok <==> stored(history@),
        r is Ok ==> sound(history@) && final(out)@ == old(out)@ + history_v1(history@),
        r matches Err(e) ==> e == SaveError::OutOfRange && final(out)@ == old(out)@,
{
    let ghost all = history@;
    let mut k: usize = 0;
    while k < history.len()
        invariant
            k <= history.len(),
            all == history@,
            out@ == old(out)@,
            forall|j: int| 0 <= j < k ==> (#[trigger] all[j]).1.out_time.storable(),
        decreases history.len() - k,
    {
        if history[k].1.out_time.to_signed().is_none() {
            assert(!all[k as int].1.out_time.storable());
            return Err(SaveError::OutOfRange);
        }
        k += 1;
    }
    assert(stored(all));
    write_varint(out, history.len() as u64);
    let ghost head = out@;
    let mut i: usize = 0;
    assert(all.skip(0) =~= all);
    while i < history.len()
        invariant
            i <= history.len(),
            all == history@,
            stored(all),
            head + history_entries(all) == out@ + history_entries(all.skip(i as int)),
            forall|j: int| 0 <= j < i ==> (#[trigger] all[j]).0.wf() && all[j].1.out_time.wf(),
        decreases history.len() - i,
    {
        let ghost before = out@;
        assert(all[i as int].1.out_time.storable());
        write_span(out, &history[i].0);
        match write_progress(out, &history[i].1) {
            Ok(()) => {},
            Err(e) => {
                return Err(e);
            },
        }
        proof {
            lemma_history_entries_from(all, i as int);
            lemma_appended(
                before,
                span(all[i as int].0),
                progress_v1(all[i as int].1),
                history_entries(all.skip(i + 1)),
            );
        }
        i += 1;
    }
    proof {
        reveal(history_v1);
        assert(all.skip(i as int) =~= Seq::<(Duration, Progress)>::empty());
        assert(out@ + history_entries(all.skip(i as int)) =~= out@);
        lemma_join(old(out)@, varint(all.len() as u64), history_entries(all));
    }
    Ok(())
}

/// Reads the history that starts at `pos`.
pub fn read_history(bytes: &[u8], pos: usize) -> (r: Option<(Vec<(Duration, Progress)>, usize)>)
    requires
        pos <= bytes.len(),
    ensures
        match history_at(bytes@.skip(pos as int)) {
            Some((history, n)) => r matches Some(read) && read.0@ == history && read.1 == pos + n
                && 0 < n && pos + n <= bytes.len() && sound(history) && stored(history),
            None => r is None,
        },
{
    proof {
        reveal(history_at);
    }
    let (count, start) = match read_varint(bytes, pos) {
        Some(read) => read,
        None => {
            return None;
        },
    };
    proof {
        lemma_resume(bytes@, pos as int, start - pos);
    }
    let ghost goal = history_entries_at(bytes@.skip(start as int), count as nat, Seq::empty());
    let mut history: Vec<(Duration, Progress)> = Vec::new();
    let mut cur: usize = start;
    let mut i: u64 = 0;
    while i < count
        invariant
            i <= count,
            pos < start <= cur <= bytes.len(),
            sound(history@),
            stored(history@),
            history_at(bytes@.skip(pos as int)) == shifted(goal, start - pos),
            goal == shifted(
                history_entries_at(bytes@.skip(cur as int), (count - i) as nat, history@),
                cur - start,
            ),
        decreases count - i,
    {
        let (at, mid) = match read_span(bytes, cur) {
            Some(read) => read,
            None => {
                return None;
            },
        };
        proof {
            lemma_resume(bytes@, cur as int, mid - cur);
        }
        let (record, next) = match read_progress(bytes, mid) {
            Some(read) => read,
            None => {
                return None;
            },
        };
        proof {
            lemma_resume(bytes@, cur as int, next - cur);
        }
        let ghost before = history@;
        history.push((at, record));
        assert(sound(history@) && stored(history@)) by {
            assert forall|j: int| 0 <= j < history@.len() implies (#[trigger] history@[j]).0.wf()
                && history@[j].1.out_time.wf() && history@[j].1.out_time.storable() by {
                if j < before.len() {
                    assert(history@[j] == before[j]);
                }
            }
        }
        cur = next;
        i += 1;
    }
    Some((history, cur))
}

/// The bytes of the facts about the input in the layout of version 1: the
/// fields in the order of their declaration.
#[verifier::opaque]
pub open spec fn format_v1(f: FormatView) -> Seq<u8> {
    text(f.filename) + (varint(f.nb_streams as u64) + (varint(f.nb_programs as u64) + (text(
        f.format_name,
    ) + (optional_text(f.format_long_name) + (span(f.start_time) + (span(f.duration) + (varint(
        f.size,
    ) + (varint(f.bit_rate) + (seq![f.probe_score] + tags_v1(f.tags))))))))))
}

/// The facts about the input at the front of `bytes`.
#[verifier::opaque]
pub open spec fn format_v1_at(bytes: Seq<u8>) -> Option<(FormatView, int)> {
    let filename = text_at(bytes);
    let n1 = taken(filename);
    let nb_streams = varint32_at(bytes.skip(n1));
    let n2 = n1 + taken(nb_streams);
    let nb_programs = varint32_at(bytes.skip(n2));
    let n3 = n2 + taken(nb_programs);
    let format_name = text_at(bytes.skip(n3));
    let n4 = n3 + taken(format_name);
    let format_long_name = optional_text_at(bytes.skip(n4));
    let n5 = n4 + taken(format_long_name);
    let start_time = span_at(bytes.skip(n5));
    let n6 = n5 + taken(start_time);
    let duration = span_at(bytes.skip(n6));
    let n7 = n6 + taken(duration);
    let size = varint_at(bytes.skip(n7));
    let n8 = n7 + taken(size);
    let bit_rate = varint_at(bytes.skip(n8));
    let n9 = n8 + taken(bit_rate);
    let probe_score = byte_at(bytes.skip(n9));
    let n10 = n9 + taken(probe_score);
    let tags = tags_at(bytes.skip(n10));
    let n11 = n10 + taken(tags);
    if filename is Some && nb_streams is Some && nb_programs is Some && format_name is Some
        && format_long_name is Some && start_time is Some && duration is Some && size is Some
        && bit_rate is Some && probe_score is Some && tags is Some {
        Some(
            (
                FormatView {
                    filename: found(filename),
                    nb_streams: found(nb_streams),
                    nb_programs: found(nb_programs),
                    format_name: found(format_name),
                    format_long_name: found(format_long_name),
                    start_time: found(start_time),
                    duration: found(duration),
                    size: found(size),
                    bit_rate: found(bit_rate),
                    probe_score: found(probe_score),
                    tags: found(tags),
                },
                n11,
            ),
        )
    } else {
        None
    }
}

/// Whether the facts `f` can be written and read back: the texts have
/// lengths that 64 bits hold, the spans are well formed, and the tags are
/// in the order of their names.
pub open spec fn valid_format(f: FormatView) -> bool {
    &&& fits(f.filename)
    &&& fits(f.format_name)
    &&& f.format_long_name matches Some(s) ==> fits(s)
    &&& f.start_time.wf()
    &&& f.duration.wf()
    &&& ordered(f.tags)
    &&& fit(f.tags)
    &&& f.tags.len() <= u64::MAX
}

/// Reading the bytes of the facts about the input gives the facts back.
pub proof fn lemma_format_roundtrip(f: FormatView, rest: Seq<u8>)
    requires
        valid_format(f),
    ensures
        format_v1_at(format_v1(f) + rest) == Some((f, format_v1(f).len() as int)),
{
    reveal(format_v1);
    reveal(format_v1_at);
    let a0 = text(f.filename);
    let a1 = varint(f.nb_streams as u64);
    let a2 = varint(f.nb_programs as u64);
    let a3 = text(f.format_name);
    let a4 = optional_text(f.format_long_name);
    let a5 = span(f.start_time);
    let a6 = span(f.duration);
    let a7 = varint(f.size);
    let a8 = varint(f.bit_rate);
    let a9 = seq![f.probe_score];
    let a10 = tags_v1(f.tags);
    let t10 = a10 + rest;
    let t9 = a9 + t10;
    let t8 = a8 + t9;
    let t7 = a7 + t8;
    let t6 = a6 + t7;
    let t5 = a5 + t6;
    let t4 = a4 + t5;
    let t3 = a3 + t4;
    let t2 = a2 + t3;
    let t1 = a1 + t2;
    let t0 = a0 + t1;
    assert(format_v1(f) + rest == t0) by {
        lemma_join(a9, a10, rest);
        lemma_join(a8, a9 + a10, rest);
        lemma_join(a7, a8 + (a9 + a10), rest);
        lemma_join(a6, a7 + (a8 + (a9 + a10)), rest);
        lemma_join(a5, a6 + (a7 + (a8 + (a9 + a10))), rest);
        lemma_join(a4, a5 + (a6 + (a7 + (a8 + (a9 + a10)))), rest);
        lemma_join(a3, a4 + (a5 + (a6 + (a7 + (a8 + (a9 + a10))))), rest);
        lemma_join(a2, a3 + (a4 + (a5 + (a6 + (a7 + (a8 + (a9 + a10)))))), rest);
        lemma_join(a1, a2 + (a3 + (a4 + (a5 + (a6 + (a7 + (a8 + (a9 + a10))))))), rest);
        lemma_join(a0, a1 + (a2 + (a3 + (a4 + (a5 + (a6 + (a7 + (a8 + (a9 + a10)))))))), rest);
    }
    assert(t0.skip(0) =~= t0);
    lemma_text_roundtrip(f.filename, t1);
    lemma_after_piece(t0, 0, a0, t1);
    let n1 = a0.len() as int;
    lemma_varint32_roundtrip(f.nb_streams, t2);
    lemma_after_piece(t0, n1, a1, t2);
    let n2 = n1 + a1.len();
    lemma_varint32_roundtrip(f.nb_programs, t3);
    lemma_after_piece(t0, n2, a2, t3);
    let n3 = n2 + a2.len();
    lemma_text_roundtrip(f.format_name, t4);
    lemma_after_piece(t0, n3, a3, t4);
    let n4 = n3 + a3.len();
    lemma_optional_text_roundtrip(f.format_long_name, t5);
    lemma_after_piece(t0, n4, a4, t5);
    let n5 = n4 + a4.len();
    lemma_span_roundtrip(f.start_time, t6);
    lemma_after_piece(t0, n5, a5, t6);
    let n6 = n5 + a5.len();
    lemma_span_roundtrip(f.duration, t7);
    lemma_after_piece(t0, n6, a6, t7);
    let n7 = n6 + a6.len();
    lemma_varint_roundtrip(f.size, t8);
    lemma_after_piece(t0, n7, a7, t8);
    let n8 = n7 + a7.len();
    lemma_varint_roundtrip(f.bit_rate, t9);
    lemma_after_piece(t0, n8, a8, t9);
    let n9 = n8 + a8.len();
    assert(byte_at(t9) == Some((f.probe_score, 1int)));
    lemma_after_piece(t0, n9, a9, t10);
    let n10 = n9 + 1;
    lemma_tags_roundtrip(f.tags, rest);
    assert(taken(text_at(t0)) == n1);
    assert(taken(varint32_at(t0.skip(n1))) == a1.len());
    assert(taken(varint32_at(t0.skip(n2))) == a2.len());
    assert(taken(text_at(t0.skip(n3))) == a3.len());
    assert(taken(optional_text_at(t0.skip(n4))) == a4.len());
    assert(taken(span_at(t0.skip(n5))) == a5.len());
    assert(taken(span_at(t0.skip(n6))) == a6.len());
    assert(taken(varint_at(t0.skip(n7))) == a7.len());
    assert(taken(varint_at(t0.skip(n8))) == a8.len());
    assert(taken(byte_at(t0.skip(n9))) == 1);
    assert(taken(tags_at(t0.skip(n10))) == a10.len());
    assert(format_v1(f).len() == n10 + a10.len());
}

/// Appends the bytes of the facts `f` to `out`.
pub fn write_format(out: &mut Vec<u8>, f: &Format)
    ensures
        final(out)@ == old(out)@ + format_v1(f@),
        valid_format(f@),
{
    let ghost v = f@;
    assert(views_of(f.format_long_name) == v.format_long_name);
    let ghost p0 = out@;
    write_text(out, f.filename.as_str());
    let ghost p1 = out@;
    write_varint(out, f.nb_streams as u64);
    let ghost p2 = out@;
    write_varint(out, f.nb_programs as u64);
    let ghost p3 = out@;
    write_text(out, f.format_name.as_str());
    let ghost p4 = out@;
    write_optional_text(out, &f.format_long_name);
    let ghost p5 = out@;
    write_span(out, &f.start_time);
    let ghost p6 = out@;
    write_span(out, &f.duration);
    let ghost p7 = out@;
    write_varint(out, f.size);
    let ghost p8 = out@;
    write_varint(out, f.bit_rate);
    let ghost p9 = out@;
    out.push(f.probe_score);
    let ghost p10 = out@;
    write_tags(out, &f.tags);
    proof {
        reveal(format_v1);
        assert(p10 == p9 + seq![v.probe_score]) by {
            assert(p10 =~= p9 + seq![v.probe_score]);
        }
        let s10 = tags_v1(v.tags);
        let s9 = seq![v.probe_score] + s10;
        let s8 = varint(v.bit_rate) + s9;
        let s7 = varint(v.size) + s8;
        let s6 = span(v.duration) + s7;
        let s5 = span(v.start_time) + s6;
        let s4 = optional_text(v.format_long_name) + s5;
        let s3 = text(v.format_name) + s4;
        let s2 = varint(v.nb_programs as u64) + s3;
        let s1 = varint(v.nb_streams as u64) + s2;
        lemma_join(p9, seq![v.probe_score], s10);
        lemma_join(p8, varint(v.bit_rate), s9);
        lemma_join(p7, varint(v.size), s8);
        lemma_join(p6, span(v.duration), s7);
        lemma_join(p5, span(v.start_time), s6);
        lemma_join(p4, optional_text(v.format_long_name), s5);
        lemma_join(p3, text(v.format_name), s4);
        lemma_join(p2, varint(v.nb_programs as u64), s3);
        lemma_join(p1, varint(v.nb_streams as u64), s2);
        lemma_join(p0, text(v.filename), s1);
    }
}

/// Reads the facts about the input that start at `pos`.
#[verifier::rlimit(30)]
pub fn read_format(bytes: &[u8], pos: usize) -> (r: Option<(Format, usize)>)
    requires
        pos <= bytes.len(),
    ensures
        match format_v1_at(bytes@.skip(pos as int)) {
            Some((f, n)) => r matches Some(read) && read.0@ == f && read.1 == pos + n && 0 < n && pos
                + n <= bytes.len() && f.start_time.wf() && f.duration.wf() && ordered(f.tags),
            None => r is None,
        },
{
    proof {
        reveal(format_v1_at);
    }
    let (filename, p1) = match read_text(bytes, pos) {
        Some(read) => read,
        None => {
            return None;
        },
    };
    proof {
        lemma_resume(bytes@, pos as int, p1 - pos);
    }
    let (nb_streams, p2) = match read_varint32(bytes, p1) {
        Some(read) => read,
        None => {
            return None;
        },
    };
    proof {
        lemma_resume(bytes@, pos as int, p2 - pos);
    }
    let (nb_programs, p3) = match read_varint32(bytes, p2) {
        Some(read) => read,
        None => {
            return None;
        },
    };
    proof {
        lemma_resume(bytes@, pos as int, p3 - pos);
    }
    let (format_name, p4) = match read_text(bytes, p3) {
        Some(read) => read,
        None => {
            return None;
        },
    };
    proof {
        lemma_resume(bytes@, pos as int, p4 - pos);
    }
    let (format_long_name, p5) = match read_optional_text(bytes, p4) {
        Some(read) => read,
        None => {
            return None;
        },
    };
    proof {
        lemma_resume(bytes@, pos as int, p5 - pos);
    }
    let (start_time, p6) = match read_span(bytes, p5) {
        Some(read) => read,
        None => {
            return None;
        },
    };
    proof {
        lemma_resume(bytes@, pos as int, p6 - pos);
    }
    let (duration, p7) = match read_span(bytes, p6) {
        Some(read) => read,
        None => {
            return None;
        },
    };
    proof {
        lemma_resume(bytes@, pos as int, p7 - pos);
    }
    let (size, p8) = match read_varint(bytes, p7) {
        Some(read) => read,
        None => {
            return None;
        },
    };
    proof {
        lemma_resume(bytes@, pos as int, p8 - pos);
    }
    let (bit_rate, p9) = match read_varint(bytes, p8) {
        Some(read) => read,
        None => {
            return None;
        },
    };
    proof {
        lemma_resume(bytes@, pos as int, p9 - pos);
    }
    let (probe_score, p10) = match read_byte(bytes, p9) {
        Some(read) => read,
        None => {
            return None;
        },
    };
    proof {
        lemma_resume(bytes@, pos as int, p10 - pos);
    }
    let (tags, p11) = match read_tags(bytes, p10) {
        Some(read) => read,
        None => {
            return None;
        },
    };
    let format = Format {
        filename,
        nb_streams,
        nb_programs,
        format_name,
        format_long_name,
        start_time,
        duration,
        size,
        bit_rate,
        probe_score,
        tags,
    };
    assert(views_of(format.format_long_name) == format@.format_long_name);
    Some((format, p11))
}

/// What a [`Stats`] holds, with texts as sequences of characters.
pub struct StatsView {
    pub import: FormatView,
    pub history: Seq<(Duration, Progress)>,
}

/// A session: the facts about the input, and every record of the run with
/// the time since the start at which it arrived, in the order of arrival.
#[derive(Clone, Debug, PartialEq, Eq)]
pub struct Stats {
    pub import: Format,
    pub history: Vec<(Duration, Progress)>,
}

impl View for Stats {
    type V = StatsView;

    open spec fn view(&self) -> StatsView {
        StatsView { import: self.import@, history: self.history@ }
    }
}

/// Why a container could not be read.
#[derive(Clone, Copy, Debug, PartialEq, Eq, Structural)]
pub enum LoadError {
    /// The container is no gzip stream, or a damaged one.
    Corrupt,
    /// What the container holds is no session in the layout of its version.
    Malformed,
    /// The container is of a version that this library does not know.
    UnknownVersion(u32),
}

/// Whether the session `m` can be written and read back: its texts, spans
/// and tags are as every session of a program has them, and the layout
/// holds every record. Of a session that a program holds only the last can
/// fail: a position in the output that was read from the progress stream
/// may be longer than the signed span in which the layout keeps it.
pub open spec fn valid(m: StatsView) -> bool {
    &&& valid_format(m.import)
    &&& sound(m.history)
    &&& stored(m.history)
    &&& m.history.len() <= u64::MAX
}

/// The bytes of a session in the layout of version 1: the facts about the
/// input, then the history.
pub open spec fn stats_v1(m: StatsView) -> Seq<u8> {
    format_v1(m.import) + history_v1(m.history)
}

/// The session in the layout of version 1 at the front of `bytes`.
pub open spec fn stats_v1_at(bytes: Seq<u8>) -> Option<(StatsView, int)> {
    let import = format_v1_at(bytes);
    let n1 = taken(import);
    let history = history_at(bytes.skip(n1));
    if import is Some && history is Some {
        Some((StatsView { import: found(import), history: found(history) }, n1 + taken(history)))
    } else {
        None
    }
}

/// What a container holds before compression: the number of the version,
/// then the session in the layout of that version.
pub open spec fn snapshot(m: StatsView) -> Seq<u8> {
    varint(VERSION_1 as u64) + stats_v1(m)
}

/// What reading makes of the bytes `raw` of a decompressed container.
/// Bytes after the session do not count.
pub open spec fn decoded(raw: Seq<u8>) -> Result<StatsView, LoadError> {
    match varint32_at(raw) {
        None => Err(LoadError::Malformed),
        Some((version, n)) => if version != VERSION_1 {
            Err(LoadError::UnknownVersion(version))
        } else {
            match stats_v1_at(raw.skip(n)) {
                Some((m, _)) => Ok(m),
                None => Err(LoadError::Malformed),
            }
        },
    }
}

/// What reading makes of a container.
pub open spec fn loaded(container: Seq<u8>) -> Result<StatsView, LoadError> {
    match gunzip_of(container) {
        None => Err(LoadError::Corrupt),
        Some(raw) => decoded(raw),
    }
}

/// Whether the result `r` of reading is what `expected` says: the session
/// with the expected content, or the expected error.
pub open spec fn read_as(r: Result<Stats, LoadError>, expected: Result<StatsView, LoadError>) -> bool {
    match expected {
        Ok(m) => r matches Ok(stats) && stats@ == m,
        Err(error) => r matches Err(e) && e == error,
    }
}

/// Every session that the layout holds is read back from its bytes as it
/// was written, whatever follows the bytes.
pub proof fn lemma_snapshot_roundtrip(m: StatsView, rest: Seq<u8>)
    requires
        valid(m),
    ensures
        decoded(snapshot(m) + rest) == Ok::<StatsView, LoadError>(m),
{
    let head = varint(VERSION_1 as u64);
    let a0 = format_v1(m.import);
    let a1 = history_v1(m.history);
    let t2 = a1 + rest;
    let t1 = a0 + t2;
    let t0 = head + t1;
    assert(snapshot(m) + rest == t0) by {
        lemma_join(a0, a1, rest);
        lemma_join(head, a0 + a1, rest);
    }
    lemma_varint32_roundtrip(VERSION_1, t1);
    assert(t0.skip(0) =~= t0);
    lemma_after_piece(t0, 0, head, t1);
    lemma_format_roundtrip(m.import, t2);
    assert(t1.skip(0) =~= t1);
    lemma_after_piece(t1, 0, a0, t2);
    lemma_history_roundtrip(m.history, rest);
}

/// Every session that the layout holds is read back as it was from any
/// container that decompresses to its bytes. [`save`] makes such a
/// container.
pub proof fn lemma_load_after_save(m: StatsView, container: Seq<u8>)
    requires
        valid(m),
        gunzip_of(container) == Some(snapshot(m)),
    ensures
        loaded(container) == Ok::<StatsView, LoadError>(m),
{
    lemma_snapshot_roundtrip(m, Seq::empty());
    assert(snapshot(m) + Seq::<u8>::empty() =~= snapshot(m));
}

/// The bytes of the session before compression. There are none where the
/// layout does not hold one of the records, which is the one way in which a
/// session of a program can fail to be valid.
pub fn serialize(stats: &Stats) -> (r: Result<Vec<u8>, SaveError>)
    ensures
        valid(stats@) <==> stored(stats@.history),
        r is Ok <==> valid(stats@),
        r matches Ok(out) ==> out@ == snapshot(stats@),
        r matches Err(e) ==> e == SaveError::OutOfRange,
{
    let mut out: Vec<u8> = Vec::new();
    write_varint(&mut out, VERSION_1 as u64);
    write_format(&mut out, &stats.import);
    match write_history(&mut out, stats.history.as_slice()) {
        Ok(()) => {
            assert(out@ =~= snapshot(stats@));
            Ok(out)
        },
        Err(e) => Err(e),
    }
}

/// Reads a session from the bytes of a decompressed container.
pub fn parse(raw: &[u8]) -> (r: Result<Stats, LoadError>)
    ensures
        read_as(r, decoded(raw@)),
{
    assert(raw@.skip(0) =~= raw@);
    let (version, start) = match read_varint32(raw, 0) {
        Some(read) => read,
        None => {
            return Err(LoadError::Malformed);
        },
    };
    if version != VERSION_1 {
        return Err(LoadError::UnknownVersion(version));
    }
    let (import, mid) = match read_format(raw, start) {
        Some(read) => read,
        None => {
            return Err(LoadError::Malformed);
        },
    };
    proof {
        lemma_resume(raw@, start as int, mid - start);
    }
    let (history, _) = match read_history(raw, mid) {
        Some(read) => read,
        None => {
            return Err(LoadError::Malformed);
        },
    };
    Ok(Stats { import, history })
}

/// The container of the session: its bytes as a gzip stream, which
/// decompresses to the bytes of the session and is read back as the session.
///
/// There is no container for a session that is not valid, which is one with
/// a record whose position in the output is longer than the signed span of
/// the layout can be: the session is refused as out of range, and nothing is
/// compressed. There is none either where the compressor fails on the bytes.
pub fn save(stats: &Stats) -> (r: Result<Vec<u8>, SaveError>)
    ensures
        valid(stats@) <==> stored(stats@.history),
        r is Ok <==> valid(stats@) && gzip_of(snapshot(stats@)) is Some,
        r matches Ok(container) ==> gzip_of(snapshot(stats@)) == Some(container@) && gunzip_of(
            container@,
        ) == Some(snapshot(stats@)) && loaded(container@) == Ok::<StatsView, LoadError>(stats@),
        r == Err::<Vec<u8>, SaveError>(SaveError::OutOfRange) <==> !valid(stats@),
        r == Err::<Vec<u8>, SaveError>(SaveError::Compression) <==> valid(stats@) && gzip_of(
            snapshot(stats@),
        ) is None,
{
    let raw = match serialize(stats) {
        Ok(raw) => raw,
        Err(e) => {
            return Err(e);
        },
    };
    match compress(raw.as_slice()) {
        Ok(container) => {
            proof {
                lemma_load_after_save(stats@, container@);
            }
            Ok(container)
        },
        Err(e) => Err(e),
    }
}

/// Reads the session that a container holds.
pub fn load(container: &[u8]) -> (r: Result<Stats, LoadError>)
    ensures
        read_as(r, loaded(container@)),
{
    match decompress(container) {
        Some(raw) => parse(raw.as_slice()),
        None => Err(LoadError::Corrupt),
    }
}

/// Where the container of the input at `input` is kept: at the input's
/// path with `.stats` appended.
pub fn stats_path(input: &str) -> (r: String)
    ensures
        r@ == input@ + SUFFIX@,
{
    input.to_owned().concat(SUFFIX)
}

} // verus!
