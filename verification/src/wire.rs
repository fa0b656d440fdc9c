//! The byte-level pieces of the snapshot format.
//!
//! Numbers are written in bincode's standard configuration: unsigned
//! integers in its variable-length form, signed integers mapped to unsigned
//! ones first, double-precision numbers as eight bytes, least significant
//! first. Text is its length in bytes followed by its UTF-8 encoding.
//!
//! Every form has a spec function that says which bytes it writes, a spec
//! function that says what it reads from the front of a sequence of bytes
//! and how many bytes that takes, and a proof that reading gives back what
//! was written.

use vstd::prelude::*;
use vstd::bytes::{
    lemma_auto_spec_u16_to_from_le_bytes, lemma_auto_spec_u32_to_from_le_bytes,
    lemma_auto_spec_u64_to_from_le_bytes, spec_u16_from_le_bytes, spec_u16_to_le_bytes,
    spec_u32_from_le_bytes, spec_u32_to_le_bytes, spec_u64_from_le_bytes, spec_u64_to_le_bytes,
    u64_from_le_bytes, u64_to_le_bytes,
};
use vstd::utf8::{decode_utf8, encode_utf8, valid_utf8, encode_utf8_decode_utf8, encode_utf8_valid_utf8};
use vstd::slice::slice_to_vec;
use crate::duration::{representable, Duration, Elapsed};
use std::io::{Read, Write};

verus! {

/// The error of std's input and output.
#[verifier::external_type_specification]
#[verifier::external_body]
pub struct ExIoError(std::io::Error);

/// The error of `str::from_utf8`.
#[verifier::external_type_specification]
#[verifier::external_body]
pub struct ExUtf8Error(std::str::Utf8Error);

/// The error of bincode's encoders.
#[verifier::external_type_specification]
#[verifier::external_body]
pub struct ExEncodeError(bincode::error::EncodeError);

/// The error of bincode's decoders.
#[verifier::external_type_specification]
#[verifier::external_body]
pub struct ExDecodeError(bincode::error::DecodeError);

/// The greatest number that the variable-length form writes as one byte.
pub const SINGLE_BYTE_MAX: u8 = 250;

/// The first byte of a number written in two more bytes.
pub const U16_BYTE: u8 = 251;

/// The first byte of a number written in four more bytes.
pub const U32_BYTE: u8 = 252;

/// The first byte of a number written in eight more bytes.
pub const U64_BYTE: u8 = 253;

/// The variable-length form of `v`: the number itself in one byte up to
/// 250, else a byte that tells the width, then the number in two, four or
/// eight bytes, least significant first, in the least width that holds it.
#[verifier::opaque]
pub open spec fn varint(v: u64) -> Seq<u8> {
    if v <= 250 {
        seq![v as u8]
    } else if v <= 0xffff {
        seq![251u8] + spec_u16_to_le_bytes(v as u16)
    } else if v <= 0xffff_ffff {
        seq![252u8] + spec_u32_to_le_bytes(v as u32)
    } else {
        seq![253u8] + spec_u64_to_le_bytes(v)
    }
}

/// The number in variable-length form at the front of `bytes`, and the
/// count of bytes it takes. A width byte may be followed by a number that a
/// lesser width would hold. Nothing is read where the width byte is above
/// 253 or the bytes end early.
#[verifier::opaque]
pub open spec fn varint_at(bytes: Seq<u8>) -> Option<(u64, int)> {
    if bytes.len() == 0 {
        None
    } else if bytes[0] <= 250 {
        Some((bytes[0] as u64, 1))
    } else if bytes[0] == 251 {
        if bytes.len() >= 3 {
            Some((spec_u16_from_le_bytes(bytes.subrange(1, 3)) as u64, 3))
        } else {
            None
        }
    } else if bytes[0] == 252 {
        if bytes.len() >= 5 {
            Some((spec_u32_from_le_bytes(bytes.subrange(1, 5)) as u64, 5))
        } else {
            None
        }
    } else if bytes[0] == 253 {
        if bytes.len() >= 9 {
            Some((spec_u64_from_le_bytes(bytes.subrange(1, 9)), 9))
        } else {
            None
        }
    } else {
        None
    }
}

/// What gzip's decompression makes of `data`, or `None` where `data` is no
/// gzip stream or a damaged one.
pub uninterp spec fn gunzip_of(data: Seq<u8>) -> Option<Seq<u8>>;

/// The gzip stream that compression at the highest level makes of `data`,
/// or `None` where the compressor fails on it.
pub uninterp spec fn gzip_of(data: Seq<u8>) -> Option<Seq<u8>>;

/// `bincode::encode_to_vec` for a `u64` in the standard configuration: it
/// writes the number's variable-length form, and writing to memory does not
/// fail.
#[verifier::external_body]
fn encode_varint(v: u64) -> (r: Result<Vec<u8>, bincode::error::EncodeError>)
    ensures
        r is Ok,
        r matches Ok(out) ==> out@ == varint(v),
{
    bincode::encode_to_vec(v, bincode::config::standard())
}

/// `bincode::decode_from_slice` for a `u64` in the standard configuration:
/// it reads the number in variable-length form at the front of `bytes` and
/// says how many bytes that took, and fails where there is none.
#[verifier::external_body]
fn decode_varint(bytes: &[u8]) -> (r: Result<(u64, usize), bincode::error::DecodeError>)
    ensures
        r is Ok <==> varint_at(bytes@) is Some,
        r matches Ok(found) ==> varint_at(bytes@) == Some((found.0, found.1 as int)),
{
    bincode::decode_from_slice(bytes, bincode::config::standard())
}

/// `flate2::write::GzEncoder` at `Compression::best()`: all of `data`
/// written to memory through it and the stream finished. What comes back,
/// the stream or the failure, depends on `data` alone, and a stream that
/// comes back decompresses to `data` again.
#[verifier::external_body]
fn gzip(data: &[u8]) -> (r: Result<Vec<u8>, std::io::Error>)
    ensures
        r is Ok <==> gzip_of(data@) is Some,
        r matches Ok(out) ==> gzip_of(data@) == Some(out@),
        r matches Ok(out) ==> gunzip_of(out@) == Some(data@),
{
    let mut encoder = flate2::write::GzEncoder::new(Vec::new(), flate2::Compression::best());
    encoder.write_all(data)?;
    encoder.finish()
}

/// `flate2::read::GzDecoder` read to its end: what gzip's decompression
/// makes of `data`, or an error where it makes nothing of it.
#[verifier::external_body]
fn gunzip(data: &[u8]) -> (r: Result<Vec<u8>, std::io::Error>)
    ensures
        r is Ok <==> gunzip_of(data@) is Some,
        r matches Ok(out) ==> gunzip_of(data@) == Some(out@),
{
    let mut out = Vec::new();
    flate2::read::GzDecoder::new(data).read_to_end(&mut out)?;
    Ok(out)
}

/// `str::from_utf8` of std: the text of which `bytes` are the UTF-8
/// encoding, or an error where they are the encoding of none.
#[verifier::external_body]
fn str_from_utf8(bytes: &[u8]) -> (r: Result<&str, std::str::Utf8Error>)
    ensures
        r is Ok <==> valid_utf8(bytes@),
        r matches Ok(s) ==> encode_utf8(s@) == bytes@,
{
    std::str::from_utf8(bytes)
}

/// Why a container could not be written.
#[derive(Clone, Copy, Debug, PartialEq, Eq, Structural)]
pub enum SaveError {
    /// A record holds a position in the output whose whole seconds exceed
    /// the signed 64-bit number in which the layout keeps them.
    OutOfRange,
    /// The compressor failed.
    Compression,
}

/// The gzip stream of `data`, which decompresses to `data` again, or the
/// failure of the compressor where it makes none.
pub fn compress(data: &[u8]) -> (r: Result<Vec<u8>, SaveError>)
    ensures
        r is Ok <==> gzip_of(data@) is Some,
        r matches Ok(out) ==> gzip_of(data@) == Some(out@) && gunzip_of(out@) == Some(data@),
        r matches Err(e) ==> e == SaveError::Compression,
{
    match gzip(data) {
        Ok(out) => Ok(out),
        Err(_) => Err(SaveError::Compression),
    }
}

/// What the gzip stream `data` decompresses to, or `None` if it is none or
/// a damaged one.
pub fn decompress(data: &[u8]) -> (r: Option<Vec<u8>>)
    ensures
        match gunzip_of(data@) {
            Some(raw) => r matches Some(out) && out@ == raw,
            None => r is None,
        },
{
    match gunzip(data) {
        Ok(out) => Some(out),
        Err(_) => None,
    }
}

/// Reading a number's variable-length form gives the number back, whatever
/// follows it.
pub proof fn lemma_varint_roundtrip(v: u64, rest: Seq<u8>)
    ensures
        varint_at(varint(v) + rest) == Some((v, varint(v).len() as int)),
        1 <= varint(v).len() <= 9,
{
    reveal(varint);
    reveal(varint_at);
    lemma_auto_spec_u16_to_from_le_bytes();
    lemma_auto_spec_u32_to_from_le_bytes();
    lemma_auto_spec_u64_to_from_le_bytes();
    let all = varint(v) + rest;
    if v <= 250 {
    } else if v <= 0xffff {
        assert(all.subrange(1, 3) =~= spec_u16_to_le_bytes(v as u16));
    } else if v <= 0xffff_ffff {
        assert(all.subrange(1, 5) =~= spec_u32_to_le_bytes(v as u32));
    } else {
        assert(all.subrange(1, 9) =~= spec_u64_to_le_bytes(v));
    }
}

/// What is read in variable-length form takes at least one byte and no
/// more than there are.
proof fn lemma_varint_at_bounds(bytes: Seq<u8>)
    ensures
        varint_at(bytes) matches Some((_, n)) ==> 1 <= n <= bytes.len() && n <= 9,
{
    reveal(varint_at);
}

/// Appends the variable-length form of `v` to `out`.
pub fn write_varint(out: &mut Vec<u8>, v: u64)
    ensures
        final(out)@ == old(out)@ + varint(v),
{
    if let Ok(mut piece) = encode_varint(v) {
        out.append(&mut piece);
    }
}

/// Reads the number in variable-length form that starts at `pos`, and
/// gives it with the position after it.
pub fn read_varint(bytes: &[u8], pos: usize) -> (r: Option<(u64, usize)>)
    requires
        pos <= bytes.len(),
    ensures
        match varint_at(bytes@.skip(pos as int)) {
            Some((v, n)) => r == Some((v, (pos + n) as usize)) && 0 < n && pos + n <= bytes.len(),
            None => r is None,
        },
{
    let tail = &bytes[pos..bytes.len()];
    assert(tail@ =~= bytes@.skip(pos as int));
    proof {
        lemma_varint_at_bounds(tail@);
    }
    match decode_varint(tail) {
        Ok((v, n)) => Some((v, pos + n)),
        Err(_) => None,
    }
}

/// The unsigned number that stands for the signed `v`: twice `v` for what
/// is not negative, and one less than twice its magnitude for what is.
pub open spec fn zigzag(v: i64) -> u64 {
    if v < 0 {
        (-2 * v - 1) as u64
    } else {
        (2 * v) as u64
    }
}

/// The signed number that the unsigned `n` stands for.
pub open spec fn unzigzag(n: u64) -> i64 {
    if n % 2 == 0 {
        (n / 2) as i64
    } else {
        (-(n / 2) - 1) as i64
    }
}

/// Every signed number is the one that its unsigned stand-in stands for.
pub proof fn lemma_zigzag_roundtrip(v: i64)
    ensures
        unzigzag(zigzag(v)) == v,
{
}

/// The unsigned number that stands for `v`.
pub fn to_zigzag(v: i64) -> (r: u64)
    ensures
        r == zigzag(v),
{
    if v < 0 {
        let m: u64 = (-(v + 1)) as u64;
        m * 2 + 1
    } else {
        (v as u64) * 2
    }
}

/// The signed number that `n` stands for.
pub fn from_zigzag(n: u64) -> (r: i64)
    ensures
        r == unzigzag(n),
{
    if n % 2 == 0 {
        (n / 2) as i64
    } else {
        -((n / 2) as i64) - 1
    }
}

/// The signed number in variable-length form at the front of `bytes`.
#[verifier::opaque]
pub open spec fn signed_at(bytes: Seq<u8>) -> Option<(i64, int)> {
    match varint_at(bytes) {
        Some((n, k)) => Some((unzigzag(n), k)),
        None => None,
    }
}

/// The 32-bit number in variable-length form at the front of `bytes`. The
/// width byte of eight bytes is not accepted.
#[verifier::opaque]
pub open spec fn varint32_at(bytes: Seq<u8>) -> Option<(u32, int)> {
    match varint_at(bytes) {
        Some((n, k)) => if bytes[0] != 253 {
            Some((n as u32, k))
        } else {
            None
        },
        None => None,
    }
}

/// The byte at the front of `bytes`.
pub open spec fn byte_at(bytes: Seq<u8>) -> Option<(u8, int)> {
    if bytes.len() >= 1 {
        Some((bytes[0], 1))
    } else {
        None
    }
}

/// The 64 bits in eight bytes, least significant first, at the front of
/// `bytes`.
#[verifier::opaque]
pub open spec fn bits_at(bytes: Seq<u8>) -> Option<(u64, int)> {
    if bytes.len() >= 8 {
        Some((spec_u64_from_le_bytes(bytes.subrange(0, 8)), 8))
    } else {
        None
    }
}

/// The bytes of a text: the length of its UTF-8 encoding, then the
/// encoding.
#[verifier::opaque]
pub open spec fn text(s: Seq<char>) -> Seq<u8> {
    varint(encode_utf8(s).len() as u64) + encode_utf8(s)
}

/// The text at the front of `bytes`: a length, then as many bytes that are
/// the UTF-8 encoding of a text.
#[verifier::opaque]
pub open spec fn text_at(bytes: Seq<u8>) -> Option<(Seq<char>, int)> {
    match varint_at(bytes) {
        Some((n, k)) => if k + n <= bytes.len() && valid_utf8(bytes.subrange(k, k + n)) {
            Some((decode_utf8(bytes.subrange(k, k + n)), k + n))
        } else {
            None
        },
        None => None,
    }
}

/// The bytes of a text that may be absent: a zero, or a one and the text.
#[verifier::opaque]
pub open spec fn optional_text(o: Option<Seq<char>>) -> Seq<u8> {
    match o {
        None => seq![0u8],
        Some(s) => seq![1u8] + text(s),
    }
}

/// The text that may be absent at the front of `bytes`.
#[verifier::opaque]
pub open spec fn optional_text_at(bytes: Seq<u8>) -> Option<(Option<Seq<char>>, int)> {
    if bytes.len() == 0 {
        None
    } else if bytes[0] == 0 {
        Some((None, 1))
    } else if bytes[0] == 1 {
        match text_at(bytes.skip(1)) {
            Some((s, n)) => Some((Some(s), 1 + n)),
            None => None,
        }
    } else {
        None
    }
}

/// The bytes of a span: its whole seconds, then its sub-second part in
/// nanoseconds, both as signed numbers in variable-length form.
#[verifier::opaque]
pub open spec fn span(d: Duration) -> Seq<u8> {
    varint(zigzag(d.secs() as i64)) + varint(zigzag(d.nanos() as i64))
}

/// The span at the front of `bytes`: two signed numbers, of which the
/// second may have any size and either sign, taken together. Nothing is
/// read where the two together have no representation.
#[verifier::opaque]
pub open spec fn span_at(bytes: Seq<u8>) -> Option<(Duration, int)> {
    match signed_at(bytes) {
        Some((s, k)) => match signed_at(bytes.skip(k)) {
            Some((n, m)) => if representable(s * 1_000_000_000 + n) {
                Some((Duration::from_nanos(s * 1_000_000_000 + n), k + m))
            } else {
                None
            },
            None => None,
        },
        None => None,
    }
}

/// Whether the UTF-8 encoding of `s` has a length that 64 bits hold.
pub open spec fn fits(s: Seq<char>) -> bool {
    encode_utf8(s).len() <= u64::MAX
}

/// Reading a signed number's bytes gives the number back.
pub proof fn lemma_signed_roundtrip(v: i64, rest: Seq<u8>)
    ensures
        signed_at(varint(zigzag(v)) + rest) == Some((v, varint(zigzag(v)).len() as int)),
{
    reveal(signed_at);
    lemma_varint_roundtrip(zigzag(v), rest);
    lemma_zigzag_roundtrip(v);
}

/// Reading a 32-bit number's bytes gives the number back.
pub proof fn lemma_varint32_roundtrip(v: u32, rest: Seq<u8>)
    ensures
        varint32_at(varint(v as u64) + rest) == Some((v, varint(v as u64).len() as int)),
{
    reveal(varint32_at);
    reveal(varint);
    reveal(varint_at);
    lemma_varint_roundtrip(v as u64, rest);
}

/// Reading the eight bytes of 64 bits gives the bits back.
pub proof fn lemma_bits_roundtrip(v: u64, rest: Seq<u8>)
    ensures
        bits_at(spec_u64_to_le_bytes(v) + rest) == Some((v, 8int)),
        spec_u64_to_le_bytes(v).len() == 8,
{
    reveal(bits_at);
    lemma_auto_spec_u64_to_from_le_bytes();
    assert((spec_u64_to_le_bytes(v) + rest).subrange(0, 8) =~= spec_u64_to_le_bytes(v));
}

/// Reading a text's bytes gives the text back.
pub proof fn lemma_text_roundtrip(s: Seq<char>, rest: Seq<u8>)
    requires
        fits(s),
    ensures
        text_at(text(s) + rest) == Some((s, text(s).len() as int)),
{
    reveal(text);
    reveal(text_at);
    let body = encode_utf8(s);
    let head = varint(body.len() as u64);
    lemma_varint_roundtrip(body.len() as u64, body + rest);
    assert(text(s) + rest =~= head + (body + rest));
    assert((text(s) + rest).subrange(head.len() as int, (head.len() + body.len()) as int) =~= body);
    encode_utf8_valid_utf8(s);
    encode_utf8_decode_utf8(s);
}

/// Reading the bytes of a text that may be absent gives it back.
pub proof fn lemma_optional_text_roundtrip(o: Option<Seq<char>>, rest: Seq<u8>)
    requires
        o matches Some(s) ==> fits(s),
    ensures
        optional_text_at(optional_text(o) + rest) == Some((o, optional_text(o).len() as int)),
{
    reveal(optional_text);
    reveal(optional_text_at);
    match o {
        None => {},
        Some(s) => {
            lemma_text_roundtrip(s, rest);
            assert((optional_text(o) + rest).skip(1) =~= text(s) + rest);
        },
    }
}

/// Reading a well-formed span's bytes gives the span back.
pub proof fn lemma_span_roundtrip(d: Duration, rest: Seq<u8>)
    requires
        d.wf(),
    ensures
        span_at(span(d) + rest) == Some((d, span(d).len() as int)),
{
    reveal(span);
    reveal(span_at);
    d.lemma_parts();
    d.lemma_canonical();
    let s = d.secs() as i64;
    let n = d.nanos() as i64;
    let first = varint(zigzag(s));
    let second = varint(zigzag(n));
    lemma_signed_roundtrip(s, second + rest);
    lemma_signed_roundtrip(n, rest);
    assert(span(d) + rest =~= first + (second + rest));
    assert((span(d) + rest).skip(first.len() as int) =~= second + rest);
}

/// Appends the bytes of the signed number `v` to `out`.
pub fn write_signed(out: &mut Vec<u8>, v: i64)
    ensures
        final(out)@ == old(out)@ + varint(zigzag(v)),
{
    write_varint(out, to_zigzag(v));
}

/// Appends the eight bytes of `bits` to `out`.
pub fn write_bits(out: &mut Vec<u8>, bits: u64)
    ensures
        final(out)@ == old(out)@ + spec_u64_to_le_bytes(bits),
{
    let mut piece = u64_to_le_bytes(bits);
    out.append(&mut piece);
}

/// Appends the bytes of the text `s` to `out`.
pub fn write_text(out: &mut Vec<u8>, s: &str)
    ensures
        final(out)@ == old(out)@ + text(s@),
        fits(s@),
{
    proof {
        reveal(text);
    }
    let body = s.as_bytes();
    write_varint(out, body.len() as u64);
    let mut piece = slice_to_vec(body);
    out.append(&mut piece);
    assert(out@ =~= old(out)@ + text(s@));
}

/// Appends the bytes of the text `o`, which may be absent, to `out`.
pub fn write_optional_text(out: &mut Vec<u8>, o: &Option<String>)
    ensures
        final(out)@ == old(out)@ + optional_text(views_of(*o)),
        views_of(*o) matches Some(s) ==> fits(s),
{
    proof {
        reveal(optional_text);
    }
    match o {
        None => {
            out.push(0);
            assert(out@ =~= old(out)@ + seq![0u8]);
        },
        Some(s) => {
            out.push(1);
            write_text(out, s.as_str());
            assert(out@ =~= old(out)@ + (seq![1u8] + text(s@)));
        },
    }
}

/// The view of a text that may be absent.
pub open spec fn views_of(o: Option<String>) -> Option<Seq<char>> {
    match o {
        None => None,
        Some(s) => Some(s@),
    }
}

/// Appends the bytes of the span `d` to `out`.
pub fn write_span(out: &mut Vec<u8>, d: &Duration)
    ensures
        final(out)@ == old(out)@ + span(*d),
        d.wf(),
{
    proof {
        reveal(span);
    }
    write_signed(out, d.whole_seconds());
    write_signed(out, d.subsec_nanoseconds() as i64);
    proof {
        use_type_invariant(d);
    }
    assert(out@ =~= old(out)@ + span(*d));
}

/// Reads the signed number that starts at `pos`.
pub fn read_signed(bytes: &[u8], pos: usize) -> (r: Option<(i64, usize)>)
    requires
        pos <= bytes.len(),
    ensures
        match signed_at(bytes@.skip(pos as int)) {
            Some((v, n)) => r == Some((v, (pos + n) as usize)) && 0 < n && pos + n <= bytes.len(),
            None => r is None,
        },
{
    proof {
        reveal(signed_at);
    }
    match read_varint(bytes, pos) {
        Some((n, next)) => Some((from_zigzag(n), next)),
        None => None,
    }
}

/// Reads the 32-bit number that starts at `pos`.
pub fn read_varint32(bytes: &[u8], pos: usize) -> (r: Option<(u32, usize)>)
    requires
        pos <= bytes.len(),
    ensures
        match varint32_at(bytes@.skip(pos as int)) {
            Some((v, n)) => r == Some((v, (pos + n) as usize)) && 0 < n && pos + n <= bytes.len(),
            None => r is None,
        },
{
    proof {
        reveal(varint32_at);
        reveal(varint_at);
    }
    if pos < bytes.len() && bytes[pos] == U64_BYTE {
        return None;
    }
    match read_varint(bytes, pos) {
        Some((n, next)) => {
            proof {
                let tail = bytes@.skip(pos as int);
                lemma_auto_spec_u16_to_from_le_bytes();
                lemma_auto_spec_u32_to_from_le_bytes();
                assert(n <= u32::MAX);
            }
            Some((n as u32, next))
        },
        None => None,
    }
}

/// Reads the byte at `pos`.
pub fn read_byte(bytes: &[u8], pos: usize) -> (r: Option<(u8, usize)>)
    requires
        pos <= bytes.len(),
    ensures
        match byte_at(bytes@.skip(pos as int)) {
            Some((v, n)) => r == Some((v, (pos + n) as usize)) && 0 < n && pos + n <= bytes.len(),
            None => r is None,
        },
{
    if pos < bytes.len() {
        Some((bytes[pos], pos + 1))
    } else {
        None
    }
}

/// Reads the 64 bits that start at `pos`.
pub fn read_bits(bytes: &[u8], pos: usize) -> (r: Option<(u64, usize)>)
    requires
        pos <= bytes.len(),
    ensures
        match bits_at(bytes@.skip(pos as int)) {
            Some((v, n)) => r == Some((v, (pos + n) as usize)) && 0 < n && pos + n <= bytes.len(),
            None => r is None,
        },
{
    proof {
        reveal(bits_at);
    }
    if bytes.len() - pos < 8 {
        return None;
    }
    let piece = &bytes[pos..pos + 8];
    assert(piece@ =~= bytes@.skip(pos as int).subrange(0, 8));
    Some((u64_from_le_bytes(piece), pos + 8))
}

/// Reads the text that starts at `pos`.
pub fn read_text(bytes: &[u8], pos: usize) -> (r: Option<(String, usize)>)
    requires
        pos <= bytes.len(),
    ensures
        match text_at(bytes@.skip(pos as int)) {
            Some((s, n)) => r matches Some(found) && found.0@ == s && found.1 == pos + n && 0 < n
                && pos + n <= bytes.len(),
            None => r is None,
        },
{
    proof {
        reveal(text_at);
    }
    let (n, start) = match read_varint(bytes, pos) {
        Some(found) => found,
        None => {
            return None;
        },
    };
    if n > (bytes.len() - start) as u64 {
        return None;
    }
    let end = start + n as usize;
    let piece = &bytes[start..end];
    assert(piece@ =~= bytes@.skip(pos as int).subrange(start - pos, start - pos + n));
    match str_from_utf8(piece) {
        Ok(s) => {
            proof {
                encode_utf8_decode_utf8(s@);
            }
            Some((s.to_owned(), end))
        },
        Err(_) => None,
    }
}

/// Reads the text that may be absent and starts at `pos`.
pub fn read_optional_text(bytes: &[u8], pos: usize) -> (r: Option<(Option<String>, usize)>)
    requires
        pos <= bytes.len(),
    ensures
        match optional_text_at(bytes@.skip(pos as int)) {
            Some((o, n)) => r matches Some(found) && views_of(found.0) == o && found.1 == pos + n
                && 0 < n && pos + n <= bytes.len(),
            None => r is None,
        },
{
    proof {
        reveal(optional_text_at);
    }
    if pos >= bytes.len() {
        return None;
    }
    let tag = bytes[pos];
    if tag == 0 {
        Some((None, pos + 1))
    } else if tag == 1 {
        assert(bytes@.skip(pos as int).skip(1) =~= bytes@.skip(pos + 1));
        match read_text(bytes, pos + 1) {
            Some((s, next)) => Some((Some(s), next)),
            None => None,
        }
    } else {
        None
    }
}

/// Reads the span that starts at `pos`.
pub fn read_span(bytes: &[u8], pos: usize) -> (r: Option<(Duration, usize)>)
    requires
        pos <= bytes.len(),
    ensures
        match span_at(bytes@.skip(pos as int)) {
            Some((d, n)) => r == Some((d, (pos + n) as usize)) && 0 < n && pos + n <= bytes.len()
                && d.wf(),
            None => r is None,
        },
{
    proof {
        reveal(span_at);
    }
    let (s, mid) = match read_signed(bytes, pos) {
        Some(found) => found,
        None => {
            return None;
        },
    };
    assert(bytes@.skip(pos as int).skip(mid - pos) =~= bytes@.skip(mid as int));
    let (n, next) = match read_signed(bytes, mid) {
        Some(found) => found,
        None => {
            return None;
        },
    };
    match Duration::from_parts(s, n) {
        Some(d) => Some((d, next)),
        None => None,
    }
}

/// The bytes of a span that is not negative: those of the signed span of
/// the same length. They are the span's bytes only where a signed span can
/// be as long.
#[verifier::opaque]
pub open spec fn elapsed(e: Elapsed) -> Seq<u8> {
    span(Duration::from_nanos(e@))
}

/// The span that is not negative at the front of `bytes`: a signed span is
/// read, and nothing is read where that is negative.
#[verifier::opaque]
pub open spec fn elapsed_at(bytes: Seq<u8>) -> Option<(Elapsed, int)> {
    match span_at(bytes) {
        Some((d, n)) => if d@ >= 0 {
            Some((Elapsed::from_nanos(d@), n))
        } else {
            None
        },
        None => None,
    }
}

/// Reading the bytes of a span that a signed span can match gives the span
/// back.
pub proof fn lemma_elapsed_roundtrip(e: Elapsed, rest: Seq<u8>)
    requires
        e.wf(),
        e.storable(),
    ensures
        elapsed_at(elapsed(e) + rest) == Some((e, elapsed(e).len() as int)),
{
    reveal(elapsed);
    reveal(elapsed_at);
    let d = Duration::from_nanos(e@);
    Duration::lemma_from_nanos(e@);
    lemma_span_roundtrip(d, rest);
    e.lemma_canonical();
}

/// Reads the span that is not negative and starts at `pos`.
pub fn read_elapsed(bytes: &[u8], pos: usize) -> (r: Option<(Elapsed, usize)>)
    requires
        pos <= bytes.len(),
    ensures
        match elapsed_at(bytes@.skip(pos as int)) {
            Some((e, n)) => r == Some((e, (pos + n) as usize)) && 0 < n && pos + n <= bytes.len()
                && e.wf() && e.storable(),
            None => r is None,
        },
{
    proof {
        reveal(elapsed_at);
    }
    let (d, next) = match read_span(bytes, pos) {
        Some(found) => found,
        None => {
            return None;
        },
    };
    match Elapsed::from_signed(&d) {
        Some(e) => Some((e, next)),
        None => None,
    }
}

} // verus!
