//! The frames that the processes exchange: the length in four bytes, the
//! protocol version in two, and the payload. The length, most significant
//! byte first like the version, counts the version and the payload.

use bytes::{Buf, BufMut, BytesMut};
use vstd::prelude::*;

verus! {

/// A growable byte buffer that is read from the front.
#[verifier::external_type_specification]
#[verifier::external_body]
pub struct ExBytesMut(bytes::BytesMut);

/// The bytes that a buffer holds.
pub uninterp spec fn buffered(buffer: BytesMut) -> Seq<u8>;

/// Sixteen bits, most significant byte first.
pub open spec fn be16(n: u16) -> Seq<u8> {
    seq![(n / 256) as u8, (n % 256) as u8]
}

/// Thirty-two bits, most significant byte first.
pub open spec fn be32(n: u32) -> Seq<u8> {
    seq![
        (n / 16777216) as u8,
        (n / 65536 % 256) as u8,
        (n / 256 % 256) as u8,
        (n % 256) as u8,
    ]
}

/// The number that two bytes stand for.
pub open spec fn num16(b: Seq<u8>) -> int {
    b[0] * 256 + b[1]
}

/// The number that four bytes stand for.
pub open spec fn num32(b: Seq<u8>) -> int {
    b[0] * 16777216 + b[1] * 65536 + b[2] * 256 + b[3]
}

/// `bytes::BytesMut::len`: the number of bytes held.
#[verifier::external_body]
fn buffer_len(buffer: &BytesMut) -> (n: usize)
    ensures
        n == buffered(*buffer).len(),
{
    buffer.len()
}

/// `bytes::Buf::get_u32`: takes four bytes off the front, most significant
/// first. It panics where fewer are there.
#[verifier::external_body]
fn get_u32(buffer: &mut BytesMut) -> (n: u32)
    requires
        buffered(*old(buffer)).len() >= 4,
    ensures
        n == num32(buffered(*old(buffer))),
        buffered(*final(buffer)) == buffered(*old(buffer)).skip(4),
{
    buffer.get_u32()
}

/// `bytes::Buf::get_u16`: takes two bytes off the front, most significant
/// first. It panics where fewer are there.
#[verifier::external_body]
fn get_u16(buffer: &mut BytesMut) -> (n: u16)
    requires
        buffered(*old(buffer)).len() >= 2,
    ensures
        n == num16(buffered(*old(buffer))),
        buffered(*final(buffer)) == buffered(*old(buffer)).skip(2),
{
    buffer.get_u16()
}

/// `bytes::BytesMut::split_to`: takes `at` bytes off the front. It panics
/// where fewer are there.
#[verifier::external_body]
fn split_to(buffer: &mut BytesMut, at: usize) -> (front: Vec<u8>)
    requires
        at <= buffered(*old(buffer)).len(),
    ensures
        front@ == buffered(*old(buffer)).take(at as int),
        buffered(*final(buffer)) == buffered(*old(buffer)).skip(at as int),
{
    buffer.split_to(at).to_vec()
}

/// `bytes::BytesMut::reserve`: makes room ahead of time and leaves the
/// bytes as they are. An allocation holds at most `isize::MAX` bytes.
#[verifier::external_body]
fn reserve(buffer: &mut BytesMut, additional: usize)
    requires
        buffered(*old(buffer)).len() + additional <= isize::MAX,
    ensures
        buffered(*final(buffer)) == buffered(*old(buffer)),
{
    buffer.reserve(additional)
}

/// `bytes::BufMut::put_u32`: appends four bytes, most significant first.
/// An allocation holds at most `isize::MAX` bytes.
#[verifier::external_body]
fn put_u32(buffer: &mut BytesMut, n: u32)
    requires
        buffered(*old(buffer)).len() + 4 <= isize::MAX,
    ensures
        buffered(*final(buffer)) == buffered(*old(buffer)) + be32(n),
{
    buffer.put_u32(n)
}

/// `bytes::BufMut::put_u16`: appends two bytes, most significant first. An
/// allocation holds at most `isize::MAX` bytes.
#[verifier::external_body]
fn put_u16(buffer: &mut BytesMut, n: u16)
    requires
        buffered(*old(buffer)).len() + 2 <= isize::MAX,
    ensures
        buffered(*final(buffer)) == buffered(*old(buffer)) + be16(n),
{
    buffer.put_u16(n)
}

/// `bytes::BufMut::put_slice`: appends bytes. An allocation holds at most
/// `isize::MAX` bytes.
#[verifier::external_body]
fn put_slice(buffer: &mut BytesMut, bytes: &[u8])
    requires
        buffered(*old(buffer)).len() + bytes@.len() <= isize::MAX,
    ensures
        buffered(*final(buffer)) == buffered(*old(buffer)) + bytes@,
{
    buffer.put_slice(bytes)
}

proof fn lemma_numbers(n: u32, v: u16)
    ensures
        num32(be32(n)) == n,
        num16(be16(v)) == v,
{
}

/// What is wrong with a frame.
#[derive(Clone, Copy, Debug, PartialEq, Eq, Structural)]
pub enum FrameError {
    /// The length leaves no room for the version.
    TooShort,
    /// The version is not supported.
    Version(u16),
    /// The length does not fit in four bytes.
    TooLarge,
    /// The bytes end inside the frame.
    Truncated,
}

/// The versions that a channel supports.
#[derive(Clone, Copy, Debug, PartialEq, Eq, Structural)]
pub struct Versions {
    pub min: u16,
    pub max: u16,
}

/// What a decoder waits for.
#[derive(Clone, Copy, Debug, PartialEq, Eq, Structural)]
pub enum DecodeState {
    Header,
    /// The version, of a frame of this length.
    Version(usize),
    /// The payload, of this length.
    Payload(usize),
}

/// The frame that carries a payload. The length keeps its low 32 bits.
pub open spec fn frame(version: u16, payload: Seq<u8>) -> Seq<u8> {
    be32(((2 + payload.len()) % 4294967296) as u32) + be16(version) + payload
}

/// What a decoder makes of the bytes before it.
pub struct Scan {
    /// What it waits for afterwards.
    pub state: DecodeState,
    /// The bytes that it leaves.
    pub rest: Seq<u8>,
    /// The payload, nothing where bytes are missing, or the fault.
    pub result: Result<Option<Seq<u8>>, FrameError>,
}

/// Reads a payload of length `n`.
pub open spec fn scan_payload(n: usize, bytes: Seq<u8>) -> Scan {
    if bytes.len() < n {
        Scan { state: DecodeState::Payload(n), rest: bytes, result: Ok(None) }
    } else {
        Scan {
            state: DecodeState::Payload(n),
            rest: bytes.skip(n as int),
            result: Ok(Some(bytes.take(n as int))),
        }
    }
}

/// Reads the version and the payload of a frame of length `n`.
pub open spec fn scan_version(n: usize, bytes: Seq<u8>, versions: Versions) -> Scan {
    if bytes.len() < 2 {
        Scan { state: DecodeState::Version(n), rest: bytes, result: Ok(None) }
    } else if !(versions.min <= num16(bytes) <= versions.max) {
        Scan {
            state: DecodeState::Version(n),
            rest: bytes.skip(2),
            result: Err(FrameError::Version(num16(bytes) as u16)),
        }
    } else {
        scan_payload((n - 2) as usize, bytes.skip(2))
    }
}

/// Reads a frame.
pub open spec fn scan_header(bytes: Seq<u8>, versions: Versions) -> Scan {
    if bytes.len() < 4 {
        Scan { state: DecodeState::Header, rest: bytes, result: Ok(None) }
    } else if num32(bytes) < 2 {
        Scan {
            state: DecodeState::Header,
            rest: bytes.skip(4),
            result: Err(FrameError::TooShort),
        }
    } else {
        scan_version(num32(bytes) as usize, bytes.skip(4), versions)
    }
}

/// Reads on from a state.
pub open spec fn scan(state: DecodeState, bytes: Seq<u8>, versions: Versions) -> Scan {
    match state {
        DecodeState::Header => scan_header(bytes, versions),
        DecodeState::Version(n) => scan_version(n, bytes, versions),
        DecodeState::Payload(n) => scan_payload(n, bytes),
    }
}

/// Whether a decoder can be in the state.
pub open spec fn sound(state: DecodeState) -> bool {
    match state {
        DecodeState::Version(n) => 2 <= n <= u32::MAX,
        DecodeState::Payload(n) => n + 2 <= u32::MAX,
        DecodeState::Header => true,
    }
}

/// The view of what a decoder returns.
pub open spec fn result_view(r: Result<Option<Vec<u8>>, FrameError>) -> Result<
    Option<Seq<u8>>,
    FrameError,
> {
    match r {
        Ok(Some(p)) => Ok(Some(p@)),
        Ok(None) => Ok(None),
        Err(e) => Err(e),
    }
}

/// Reads on from a state. Where a payload is returned, the state stays
/// until the payload has been understood.
pub fn decode(state: &mut DecodeState, src: &mut BytesMut, versions: Versions) -> (r: Result<
    Option<Vec<u8>>,
    FrameError,
>)
    requires
        sound(*old(state)),
    ensures
        sound(*final(state)),
        ({
            let s = scan(*old(state), buffered(*old(src)), versions);
            &&& *final(state) == s.state
            &&& buffered(*final(src)) == s.rest
            &&& result_view(r) == s.result
        }),
{
    match *state {
        DecodeState::Header => {
            if buffer_len(src) < 4 {
                return Ok(None);
            }
            let len: usize = get_u32(src) as usize;
            if len < 2 {
                return Err(FrameError::TooShort);
            }
            *state = DecodeState::Version(len);
        },
        _ => {},
    }
    match *state {
        DecodeState::Version(len) => {
            if buffer_len(src) < 2 {
                return Ok(None);
            }
            let version: u16 = get_u16(src);
            if version < versions.min || version > versions.max {
                return Err(FrameError::Version(version));
            }
            *state = DecodeState::Payload(len - 2);
        },
        _ => {},
    }
    match *state {
        DecodeState::Payload(len) => {
            if buffer_len(src) < len {
                return Ok(None);
            }
            Ok(Some(split_to(src, len)))
        },
        _ => Ok(None),
    }
}

/// Appends the frame of a payload.
pub fn append_frame(dst: &mut BytesMut, version: u16, payload: &[u8])
    requires
        buffered(*old(dst)).len() + 6 + payload@.len() <= isize::MAX,
    ensures
        buffered(*final(dst)) == buffered(*old(dst)) + frame(version, payload@),
{
    let ghost before = buffered(*dst);
    let total: usize = 2 + payload.len();
    reserve(dst, 4 + total);
    let wide: u64 = total as u64;
    let low: u32 = #[verifier::truncate]
    (wide as u32);
    proof {
        assert(low as u64 == wide % 4294967296) by (bit_vector)
            requires
                low == wide as u32,
        ;
    }
    put_u32(dst, low);
    put_u16(dst, version);
    put_slice(dst, payload);
    proof {
        assert(buffered(*dst) =~= before + frame(version, payload@));
    }
}

/// The four bytes of a number.
pub fn be32_bytes(n: u32) -> (r: Vec<u8>)
    ensures
        r@ == be32(n),
{
    let mut out: Vec<u8> = Vec::new();
    out.push((n / 16777216) as u8);
    out.push((n / 65536 % 256) as u8);
    out.push((n / 256 % 256) as u8);
    out.push((n % 256) as u8);
    proof {
        assert(out@ =~= be32(n));
    }
    out
}

/// The frame of a payload, unless its length does not fit in four bytes.
pub fn encode_frame(version: u16, payload: &[u8]) -> (r: Result<Vec<u8>, FrameError>)
    ensures
        match r {
            Ok(f) => 2 + payload@.len() <= u32::MAX && f@ == frame(version, payload@),
            Err(e) => 2 + payload@.len() > u32::MAX && e == FrameError::TooLarge,
        },
{
    if payload.len() > 4294967293 {
        return Err(FrameError::TooLarge);
    }
    let total: u32 = 2 + payload.len() as u32;
    let mut out: Vec<u8> = be32_bytes(total);
    out.push((version / 256) as u8);
    out.push((version % 256) as u8);
    let ghost head = out@;
    proof {
        assert(head =~= be32(((2 + payload@.len()) % 4294967296) as u32) + be16(version));
    }
    let mut i: usize = 0;
    while i < payload.len()
        invariant
            i <= payload@.len(),
            out@ == head + payload@.take(i as int),
        decreases payload@.len() - i,
    {
        out.push(payload[i]);
        i = i + 1;
        proof {
            assert(payload@.take(i as int) =~= payload@.take(i - 1).push(payload@[i - 1]));
            assert(out@ =~= head + payload@.take(i as int));
        }
    }
    proof {
        assert(payload@.take(payload@.len() as int) =~= payload@);
    }
    Ok(out)
}

/// The length of a frame, from its first four bytes.
pub fn frame_len(header: &[u8]) -> (r: Result<usize, FrameError>)
    requires
        header@.len() == 4,
    ensures
        r == (if num32(header@) < 2 {
            Err::<usize, FrameError>(FrameError::TooShort)
        } else {
            Ok(num32(header@) as usize)
        }),
{
    let n: u32 = header[0] as u32 * 16777216 + header[1] as u32 * 65536 + header[2] as u32 * 256
        + header[3] as u32;
    if n < 2 {
        Err(FrameError::TooShort)
    } else {
        Ok(n as usize)
    }
}

/// The length of the payload of a frame of length `len` whose version is in
/// these two bytes.
pub fn payload_len(len: usize, version: &[u8], versions: Versions) -> (r: Result<
    usize,
    FrameError,
>)
    requires
        len >= 2,
        version@.len() == 2,
    ensures
        r == (if versions.min <= num16(version@) <= versions.max {
            Ok::<usize, FrameError>((len - 2) as usize)
        } else {
            Err(FrameError::Version(num16(version@) as u16))
        }),
{
    let v: u16 = version[0] as u16 * 256 + version[1] as u16;
    if versions.min <= v && v <= versions.max {
        Ok(len - 2)
    } else {
        Err(FrameError::Version(v))
    }
}

/// What bytes that no more follow hold in front: a payload, or the fault,
/// where the bytes end inside the frame too.
pub open spec fn whole_frame(bytes: Seq<u8>, versions: Versions) -> Result<Seq<u8>, FrameError> {
    match scan_header(bytes, versions).result {
        Ok(Some(p)) => Ok(p),
        Ok(None) => Err(FrameError::Truncated),
        Err(e) => Err(e),
    }
}

/// The view of what reading a whole frame gave.
pub open spec fn frame_view(r: Result<Vec<u8>, FrameError>) -> Result<Seq<u8>, FrameError> {
    match r {
        Ok(p) => Ok(p@),
        Err(e) => Err(e),
    }
}

/// The payload of the frame that the bytes begin with; a fault where they
/// end inside it.
pub fn read_frame(bytes: &[u8], versions: Versions) -> (r: Result<Vec<u8>, FrameError>)
    ensures
        frame_view(r) == whole_frame(bytes@, versions),
{
    if bytes.len() < 4 {
        return Err(FrameError::Truncated);
    }
    let len: usize = match frame_len(vstd::slice::slice_subrange(bytes, 0, 4)) {
        Ok(n) => n,
        Err(e) => return Err(e),
    };
    if bytes.len() < 6 {
        return Err(FrameError::Truncated);
    }
    let n: usize = match payload_len(len, vstd::slice::slice_subrange(bytes, 4, 6), versions) {
        Ok(n) => n,
        Err(e) => return Err(e),
    };
    if bytes.len() - 6 < n {
        return Err(FrameError::Truncated);
    }
    let payload = vstd::slice::slice_to_vec(vstd::slice::slice_subrange(bytes, 6, 6 + n));
    proof {
        assert(payload@ =~= bytes@.skip(4).skip(2).take(n as int));
    }
    Ok(payload)
}

/// The numbers at the start of a frame.
proof fn lemma_start(h: Seq<u8>, w: Seq<u8>, tail: Seq<u8>)
    requires
        h.len() == 4,
        w.len() == 2,
    ensures
        ({
            let bytes = h + w + tail;
            &&& bytes.len() == 6 + tail.len()
            &&& num32(bytes) == num32(h)
            &&& num16(bytes.skip(4)) == num16(w)
            &&& bytes.skip(4).skip(2) == tail
        }),
{
    let bytes = h + w + tail;
    assert(bytes.skip(4) =~= w + tail);
    assert(bytes.skip(4).skip(2) =~= tail);
}

/// What a decoder makes of bytes that begin with a length and a version.
proof fn lemma_scan(bytes: Seq<u8>, n: u32, version: u16, tail: Seq<u8>, versions: Versions)
    requires
        n >= 2,
        bytes.len() == 6 + tail.len(),
        num32(bytes) == n,
        num16(bytes.skip(4)) == version,
        bytes.skip(4).skip(2) == tail,
    ensures
        scan(DecodeState::Header, bytes, versions) == (if versions.min <= version <= versions.max {
            scan_payload((n - 2) as usize, tail)
        } else {
            Scan {
                state: DecodeState::Version(n as usize),
                rest: tail,
                result: Err(FrameError::Version(version)),
            }
        }),
{
}

proof fn lemma_regroup(h: Seq<u8>, w: Seq<u8>, payload: Seq<u8>, rest: Seq<u8>)
    ensures
        h + w + payload + rest == h + w + (payload + rest),
{
    assert(h + w + payload + rest =~= h + w + (payload + rest));
}

/// What a decoder makes of a frame and what follows it.
proof fn lemma_frame(version: u16, payload: Seq<u8>, rest: Seq<u8>, versions: Versions)
    requires
        2 + payload.len() <= u32::MAX,
    ensures
        scan(DecodeState::Header, frame(version, payload) + rest, versions) == (if versions.min
            <= version <= versions.max {
            scan_payload(payload.len() as usize, payload + rest)
        } else {
            Scan {
                state: DecodeState::Version((2 + payload.len()) as usize),
                rest: payload + rest,
                result: Err(FrameError::Version(version)),
            }
        }),
{
    let n = (2 + payload.len()) as u32;
    let bytes = frame(version, payload) + rest;
    assert(be32(((2 + payload.len()) % 4294967296) as u32) == be32(n));
    lemma_regroup(be32(n), be16(version), payload, rest);
    lemma_numbers(n, version);
    lemma_start(be32(n), be16(version), payload + rest);
    lemma_scan(bytes, n, version, payload + rest, versions);
}

/// Law: a frame, whatever follows it, is read back as its payload, and what
/// follows is left.
pub proof fn law_round_trip(version: u16, payload: Seq<u8>, rest: Seq<u8>, versions: Versions)
    requires
        versions.min <= version <= versions.max,
        2 + payload.len() <= u32::MAX,
    ensures
        ({
            let s = scan(DecodeState::Header, frame(version, payload) + rest, versions);
            s.result == Ok::<Option<Seq<u8>>, FrameError>(Some(payload)) && s.rest == rest
        }),
{
    lemma_frame(version, payload, rest, versions);
    assert((payload + rest).take(payload.len() as int) =~= payload);
    assert((payload + rest).skip(payload.len() as int) =~= rest);
}

/// Law: a frame, whatever follows it, is read as its payload, and exactly
/// the frame is taken off; cut short anywhere, it is a fault.
pub proof fn law_whole_frame(
    version: u16,
    payload: Seq<u8>,
    rest: Seq<u8>,
    cut: int,
    versions: Versions,
)
    requires
        versions.min <= version <= versions.max,
        2 + payload.len() <= u32::MAX,
        0 <= cut < frame(version, payload).len(),
    ensures
        whole_frame(frame(version, payload) + rest, versions) == Ok::<Seq<u8>, FrameError>(payload),
        scan_header(frame(version, payload) + rest, versions).rest == rest,
        whole_frame(frame(version, payload).take(cut), versions) == Err::<Seq<u8>, FrameError>(
            FrameError::Truncated,
        ),
{
    law_round_trip(version, payload, rest, versions);
    let whole = frame(version, payload);
    let first = whole.take(cut);
    let more = whole.skip(cut);
    assert(first + more =~= whole);
    law_round_trip(version, payload, Seq::empty(), versions);
    assert(whole + Seq::<u8>::empty() =~= whole);
    if scan_header(first, versions).result != Ok::<Option<Seq<u8>>, FrameError>(None) {
        lemma_scan_extends(DecodeState::Header, first, more, versions);
        assert(more.len() > 0);
        assert(false);
    }
}

/// Law: a decoder that ran out of bytes loses none of them: once more have
/// come, it reads what it would have read had they been there at once.
pub proof fn law_nothing_is_lost(
    state: DecodeState,
    first: Seq<u8>,
    more: Seq<u8>,
    versions: Versions,
)
    requires
        sound(state),
        scan(state, first, versions).result == Ok::<Option<Seq<u8>>, FrameError>(None),
    ensures
        scan(
            scan(state, first, versions).state,
            scan(state, first, versions).rest + more,
            versions,
        ) == scan(state, first + more, versions),
{
    match state {
        DecodeState::Header => {
            if first.len() >= 4 {
                assert((first + more).skip(4) =~= first.skip(4) + more);
                assert(num32(first + more) == num32(first));
                lemma_version_resumes(num32(first) as usize, first.skip(4), more, versions);
            }
        },
        DecodeState::Version(n) => {
            lemma_version_resumes(n, first, more, versions);
        },
        DecodeState::Payload(n) => {},
    }
}

proof fn lemma_version_resumes(n: usize, first: Seq<u8>, more: Seq<u8>, versions: Versions)
    requires
        scan_version(n, first, versions).result == Ok::<Option<Seq<u8>>, FrameError>(None),
    ensures
        scan(
            scan_version(n, first, versions).state,
            scan_version(n, first, versions).rest + more,
            versions,
        ) == scan_version(n, first + more, versions),
{
    if first.len() >= 2 {
        assert((first + more).skip(2) =~= first.skip(2) + more);
        assert(num16(first + more) == num16(first));
    }
}

/// Law: a frame of an unsupported version is refused, however long it is.
pub proof fn law_version_is_checked(
    version: u16,
    payload: Seq<u8>,
    rest: Seq<u8>,
    versions: Versions,
)
    requires
        !(versions.min <= version <= versions.max),
        2 + payload.len() <= u32::MAX,
    ensures
        scan(DecodeState::Header, frame(version, payload) + rest, versions).result == Err::<
            Option<Seq<u8>>,
            FrameError,
        >(FrameError::Version(version)),
{
    lemma_frame(version, payload, rest, versions);
}

// ---------------------------------------------------------------------
// Streams
// ---------------------------------------------------------------------

/// A decoder after some calls.
#[verifier::ext_equal]
pub struct Stream {
    /// What it waits for.
    pub state: DecodeState,
    /// The bytes that it has left.
    pub buffer: Seq<u8>,
    /// The payloads that it has given, in order.
    pub payloads: Seq<Seq<u8>>,
    /// Whether it has met a fault.
    pub failed: bool,
}

/// The decoder after calls on the bytes before it until one gives nothing,
/// where each payload is understood: it gave `given` before.
pub open spec fn drained(
    state: DecodeState,
    bytes: Seq<u8>,
    given: Seq<Seq<u8>>,
    versions: Versions,
) -> Stream
    decreases
            bytes.len(),
            (if state == DecodeState::Header {
                0int
            } else {
                1
            }),
{
    let s = scan(state, bytes, versions);
    match s.result {
        Err(_) => Stream { state: s.state, buffer: s.rest, payloads: given, failed: true },
        Ok(None) => Stream { state: s.state, buffer: s.rest, payloads: given, failed: false },
        Ok(Some(p)) => drained(DecodeState::Header, s.rest, given.push(p), versions),
    }
}

/// A fresh decoder after it has been handed chunk after chunk, and called
/// until it gives nothing after each.
pub open spec fn received(chunks: Seq<Seq<u8>>, versions: Versions) -> Stream
    decreases chunks.len(),
{
    if chunks.len() == 0 {
        Stream {
            state: DecodeState::Header,
            buffer: Seq::empty(),
            payloads: Seq::empty(),
            failed: false,
        }
    } else {
        let before = received(chunks.drop_last(), versions);
        if before.failed {
            before
        } else {
            drained(before.state, before.buffer + chunks.last(), before.payloads, versions)
        }
    }
}

/// The bytes of chunks, one after the other.
pub open spec fn glued(chunks: Seq<Seq<u8>>) -> Seq<u8>
    decreases chunks.len(),
{
    if chunks.len() == 0 {
        Seq::empty()
    } else {
        glued(chunks.drop_last()) + chunks.last()
    }
}

/// The frames of payloads, one after the other.
pub open spec fn frames_of(version: u16, payloads: Seq<Seq<u8>>) -> Seq<u8>
    decreases payloads.len(),
{
    if payloads.len() == 0 {
        Seq::empty()
    } else {
        frame(version, payloads[0]) + frames_of(version, payloads.drop_first())
    }
}

proof fn lemma_num32(bytes: Seq<u8>)
    ensures
        0 <= num32(bytes) <= u32::MAX,
{
}

proof fn lemma_scan_is_sound(state: DecodeState, bytes: Seq<u8>, versions: Versions)
    requires
        sound(state),
    ensures
        sound(scan(state, bytes, versions).state),
{
    lemma_num32(bytes);
}

/// What a decoder has settled on does not change when more bytes follow.
proof fn lemma_scan_extends(
    state: DecodeState,
    first: Seq<u8>,
    more: Seq<u8>,
    versions: Versions,
)
    requires
        sound(state),
        scan(state, first, versions).result != Ok::<Option<Seq<u8>>, FrameError>(None),
    ensures
        scan(state, first + more, versions).result == scan(state, first, versions).result,
        scan(state, first + more, versions).rest == scan(state, first, versions).rest + more,
{
    match state {
        DecodeState::Header => {
            assert((first + more).skip(4) =~= first.skip(4) + more);
            assert(num32(first + more) == num32(first));
            if num32(first) >= 2 {
                lemma_version_extends(num32(first) as usize, first.skip(4), more, versions);
            }
        },
        DecodeState::Version(n) => {
            lemma_version_extends(n, first, more, versions);
        },
        DecodeState::Payload(n) => {
            lemma_payload_extends(n, first, more);
        },
    }
}

proof fn lemma_version_extends(n: usize, first: Seq<u8>, more: Seq<u8>, versions: Versions)
    requires
        scan_version(n, first, versions).result != Ok::<Option<Seq<u8>>, FrameError>(None),
    ensures
        scan_version(n, first + more, versions).result == scan_version(n, first, versions).result,
        scan_version(n, first + more, versions).rest == scan_version(n, first, versions).rest
            + more,
{
    assert((first + more).skip(2) =~= first.skip(2) + more);
    assert(num16(first + more) == num16(first));
    if versions.min <= num16(first) <= versions.max {
        lemma_payload_extends((n - 2) as usize, first.skip(2), more);
    }
}

proof fn lemma_payload_extends(n: usize, first: Seq<u8>, more: Seq<u8>)
    requires
        scan_payload(n, first).result != Ok::<Option<Seq<u8>>, FrameError>(None),
    ensures
        scan_payload(n, first + more).result == scan_payload(n, first).result,
        scan_payload(n, first + more).rest == scan_payload(n, first).rest + more,
{
    assert((first + more).take(n as int) =~= first.take(n as int));
    assert((first + more).skip(n as int) =~= first.skip(n as int) + more);
}

/// Law: a decoder that has given all it can goes on as if what follows had
/// been there from the start; a fault stays one whatever follows.
pub proof fn law_stream_resumes(
    state: DecodeState,
    first: Seq<u8>,
    more: Seq<u8>,
    given: Seq<Seq<u8>>,
    versions: Versions,
)
    requires
        sound(state),
    ensures
        ({
            let d = drained(state, first, given, versions);
            let all = drained(state, first + more, given, versions);
            &&& d.failed ==> all.failed
            &&& !d.failed ==> sound(d.state) && drained(
                d.state,
                d.buffer + more,
                d.payloads,
                versions,
            ) == all
        }),
    decreases
            first.len(),
            (if state == DecodeState::Header {
                0int
            } else {
                1
            }),
{
    let s = scan(state, first, versions);
    lemma_scan_is_sound(state, first, versions);
    match s.result {
        Err(_) => {
            lemma_scan_extends(state, first, more, versions);
        },
        Ok(None) => {
            law_nothing_is_lost(state, first, more, versions);
        },
        Ok(Some(p)) => {
            lemma_scan_extends(state, first, more, versions);
            law_stream_resumes(DecodeState::Header, s.rest, more, given.push(p), versions);
        },
    }
}

proof fn lemma_chunks(chunks: Seq<Seq<u8>>, versions: Versions)
    requires
        !drained(DecodeState::Header, glued(chunks), Seq::empty(), versions).failed,
    ensures
        received(chunks, versions) == drained(
            DecodeState::Header,
            glued(chunks),
            Seq::empty(),
            versions,
        ),
    decreases chunks.len(),
{
    if chunks.len() > 0 {
        let lead = glued(chunks.drop_last());
        law_stream_resumes(DecodeState::Header, lead, chunks.last(), Seq::empty(), versions);
        lemma_chunks(chunks.drop_last(), versions);
    }
}

proof fn lemma_drained_frames(
    version: u16,
    payloads: Seq<Seq<u8>>,
    given: Seq<Seq<u8>>,
    versions: Versions,
)
    requires
        versions.min <= version <= versions.max,
        forall|k: int| 0 <= k < payloads.len() ==> 2 + (#[trigger] payloads[k]).len() <= u32::MAX,
    ensures
        drained(DecodeState::Header, frames_of(version, payloads), given, versions) == (Stream {
            state: DecodeState::Header,
            buffer: Seq::empty(),
            payloads: given + payloads,
            failed: false,
        }),
    decreases payloads.len(),
{
    if payloads.len() == 0 {
        assert(given + payloads =~= given);
    } else {
        let tail = payloads.drop_first();
        assert(2 + payloads[0].len() <= u32::MAX);
        law_round_trip(version, payloads[0], frames_of(version, tail), versions);
        assert forall|k: int| 0 <= k < tail.len() implies 2 + (#[trigger] tail[k]).len()
            <= u32::MAX by {
            assert(2 + payloads[k + 1].len() <= u32::MAX);
        }
        lemma_drained_frames(version, tail, given.push(payloads[0]), versions);
        assert(given.push(payloads[0]) + tail =~= given + payloads);
    }
}

/// Law: frames that arrive in chunks, cut wherever they may be, are given as
/// their payloads, in order, without a fault, and nothing is left over.
pub proof fn law_frames_in_chunks(
    version: u16,
    payloads: Seq<Seq<u8>>,
    chunks: Seq<Seq<u8>>,
    versions: Versions,
)
    requires
        versions.min <= version <= versions.max,
        forall|k: int| 0 <= k < payloads.len() ==> 2 + (#[trigger] payloads[k]).len() <= u32::MAX,
        glued(chunks) == frames_of(version, payloads),
    ensures
        received(chunks, versions) == (Stream {
            state: DecodeState::Header,
            buffer: Seq::empty(),
            payloads,
            failed: false,
        }),
{
    lemma_drained_frames(version, payloads, Seq::empty(), versions);
    assert(Seq::<Seq<u8>>::empty() + payloads =~= payloads);
    lemma_chunks(chunks, versions);
}

/// Law: a frame is the length of what follows in four bytes, the version in
/// two, either with the highest byte first, and then the payload.
pub proof fn law_a_frame_is_laid_out(version: u16, payload: Seq<u8>)
    requires
        2 + payload.len() <= u32::MAX,
    ensures
        ({
            let f = frame(version, payload);
            &&& f.len() == 6 + payload.len()
            &&& f[0] * 0x1000000 + f[1] * 0x10000 + f[2] * 0x100 + f[3] == 2 + payload.len()
            &&& f[4] * 0x100 + f[5] == version
            &&& f.skip(6) == payload
        }),
{
    let f = frame(version, payload);
    assert(f.skip(6) =~= payload);
}

/// Law: numbers are read back from the bytes that they are written as.
pub proof fn law_numbers_are_read_back(n: u32, m: u16)
    ensures
        be32(n).len() == 4,
        num32(be32(n)) == n,
        be16(m).len() == 2,
        num16(be16(m)) == m,
{
}

} // verus!
