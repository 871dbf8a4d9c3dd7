use crate::errors::Error;
use crate::timeval::TimeVal;
use vstd::bytes::{
    lemma_auto_spec_u16_to_from_le_bytes, lemma_auto_spec_u32_to_from_le_bytes,
    spec_u16_from_le_bytes, spec_u16_to_le_bytes, spec_u32_from_le_bytes, spec_u32_to_le_bytes,
    u16_from_le_bytes, u16_to_le_bytes, u32_from_le_bytes, u32_to_le_bytes,
};
use vstd::prelude::*;
use vstd::slice::{slice_subrange, slice_to_vec};

verus! {

/// The eight frame kinds of the protocol, numbered 0 through 7 on the wire.
#[derive(Copy, Clone, Debug, PartialEq, Eq, Structural)]
pub enum MessageType {
    Base,
    CodecHeader,
    WireChunk,
    ServerSettings,
    Time,
    Hello,
    StreamTags,
    ClientInfo,
}

/// Hard cap on a frame's declared payload size: one MiB.
pub const MAX_PAYLOAD: u32 = 1_048_576;

/// Number of bytes of the fixed frame header.
pub const BASE_SIZE: usize = 26;

pub open spec fn spec_code_of_mtype(m: MessageType) -> u16 {
    match m {
        MessageType::Base => 0,
        MessageType::CodecHeader => 1,
        MessageType::WireChunk => 2,
        MessageType::ServerSettings => 3,
        MessageType::Time => 4,
        MessageType::Hello => 5,
        MessageType::StreamTags => 6,
        MessageType::ClientInfo => 7,
    }
}

pub open spec fn spec_mtype_of_code(c: u16) -> MessageType
    recommends
        c <= 7,
{
    if c == 0 {
        MessageType::Base
    } else if c == 1 {
        MessageType::CodecHeader
    } else if c == 2 {
        MessageType::WireChunk
    } else if c == 3 {
        MessageType::ServerSettings
    } else if c == 4 {
        MessageType::Time
    } else if c == 5 {
        MessageType::Hello
    } else if c == 6 {
        MessageType::StreamTags
    } else {
        MessageType::ClientInfo
    }
}

impl MessageType {
    pub fn code(self) -> (c: u16)
        ensures
            c == spec_code_of_mtype(self),
            c <= 7,
    {
        match self {
            MessageType::Base => 0,
            MessageType::CodecHeader => 1,
            MessageType::WireChunk => 2,
            MessageType::ServerSettings => 3,
            MessageType::Time => 4,
            MessageType::Hello => 5,
            MessageType::StreamTags => 6,
            MessageType::ClientInfo => 7,
        }
    }

    pub fn from_code(c: u16) -> (m: MessageType)
        requires
            c <= 7,
        ensures
            m == spec_mtype_of_code(c),
    {
        if c == 0 {
            MessageType::Base
        } else if c == 1 {
            MessageType::CodecHeader
        } else if c == 2 {
            MessageType::WireChunk
        } else if c == 3 {
            MessageType::ServerSettings
        } else if c == 4 {
            MessageType::Time
        } else if c == 5 {
            MessageType::Hello
        } else if c == 6 {
            MessageType::StreamTags
        } else {
            MessageType::ClientInfo
        }
    }
}

/// Codes below 8 map back to the type they encode.
pub proof fn lemma_mtype_code_roundtrip(m: MessageType)
    ensures
        spec_mtype_of_code(spec_code_of_mtype(m)) == m,
{
}

// ---------------------------------------------------------------------------
// Little-endian readers over byte sequences
// ---------------------------------------------------------------------------

pub open spec fn spec_u16_at(s: Seq<u8>, i: int) -> u16 {
    spec_u16_from_le_bytes(s.subrange(i, i + 2))
}

pub open spec fn spec_u32_at(s: Seq<u8>, i: int) -> u32 {
    spec_u32_from_le_bytes(s.subrange(i, i + 4))
}

/// The `i32` denoted by the same four little-endian bytes, two's complement.
pub open spec fn as_i32(u: u32) -> i32 {
    u as i32
}

pub open spec fn spec_i32_at(s: Seq<u8>, i: int) -> i32 {
    as_i32(spec_u32_at(s, i))
}

pub open spec fn spec_tv_at(s: Seq<u8>, i: int) -> TimeVal {
    TimeVal { sec: spec_i32_at(s, i), usec: spec_i32_at(s, i + 4) }
}

pub proof fn lemma_i32_u32_roundtrip(x: i32)
    ensures
        as_i32(x as u32) == x,
{
    assert((x as u32) as i32 == x) by (bit_vector);
}

pub fn u16_at(buf: &[u8], i: usize) -> (r: u16)
    requires
        i + 2 <= buf@.len(),
    ensures
        r == spec_u16_at(buf@, i as int),
{
    let n = buf.len();
    let s = slice_subrange(buf, i, i + 2);
    u16_from_le_bytes(s)
}

pub fn u32_at(buf: &[u8], i: usize) -> (r: u32)
    requires
        i + 4 <= buf@.len(),
    ensures
        r == spec_u32_at(buf@, i as int),
{
    let n = buf.len();
    let s = slice_subrange(buf, i, i + 4);
    u32_from_le_bytes(s)
}

pub fn i32_at(buf: &[u8], i: usize) -> (r: i32)
    requires
        i + 4 <= buf@.len(),
    ensures
        r == spec_i32_at(buf@, i as int),
{
    let u = u32_at(buf, i);
    #[verifier::truncate] (u as i32)
}

pub fn tv_at(buf: &[u8], i: usize) -> (r: TimeVal)
    requires
        i + 8 <= buf@.len(),
    ensures
        r == spec_tv_at(buf@, i as int),
{
    let n = buf.len();
    let sec = i32_at(buf, i);
    let usec = i32_at(buf, i + 4);
    TimeVal { sec, usec }
}

// ---------------------------------------------------------------------------
// Little-endian writers
// ---------------------------------------------------------------------------

/// A `TimeVal` on the wire: two little-endian signed 32-bit words.
pub open spec fn spec_encode_tv(t: TimeVal) -> Seq<u8> {
    spec_u32_to_le_bytes(t.sec as u32) + spec_u32_to_le_bytes(t.usec as u32)
}

pub fn push_u16(out: &mut Vec<u8>, x: u16)
    ensures
        final(out)@ == old(out)@ + spec_u16_to_le_bytes(x),
{
    let mut b = u16_to_le_bytes(x);
    out.append(&mut b);
}

pub fn push_u32(out: &mut Vec<u8>, x: u32)
    ensures
        final(out)@ == old(out)@ + spec_u32_to_le_bytes(x),
{
    let mut b = u32_to_le_bytes(x);
    out.append(&mut b);
}

pub fn push_tv(out: &mut Vec<u8>, t: TimeVal)
    ensures
        final(out)@ == old(out)@ + spec_encode_tv(t),
{
    push_u32(out, #[verifier::truncate] (t.sec as u32));
    push_u32(out, #[verifier::truncate] (t.usec as u32));
    assert(out@ =~= old(out)@ + spec_encode_tv(t)) by {
        lemma_auto_spec_u32_to_from_le_bytes();
    }
}

/// Parsing eight encoded bytes gives the `TimeVal` back.
pub proof fn lemma_tv_roundtrip(t: TimeVal, s: Seq<u8>, i: int)
    requires
        0 <= i,
        i + 8 <= s.len(),
        s.subrange(i, i + 8) == spec_encode_tv(t),
    ensures
        spec_tv_at(s, i) == t,
{
    lemma_auto_spec_u32_to_from_le_bytes();
    assert(s.subrange(i, i + 4) =~= spec_encode_tv(t).subrange(0, 4));
    assert(s.subrange(i + 4, i + 8) =~= spec_encode_tv(t).subrange(4, 8));
    assert(spec_encode_tv(t).subrange(0, 4) =~= spec_u32_to_le_bytes(t.sec as u32));
    assert(spec_encode_tv(t).subrange(4, 8) =~= spec_u32_to_le_bytes(t.usec as u32));
    lemma_i32_u32_roundtrip(t.sec);
    lemma_i32_u32_roundtrip(t.usec);
}

// ---------------------------------------------------------------------------
// Frame envelope
// ---------------------------------------------------------------------------

/// The fixed 26-byte frame header that precedes every payload.
#[derive(Copy, Clone, Debug, PartialEq, Eq, Structural)]
pub struct Base {
    pub mtype: MessageType,
    pub id: u16,
    pub refers_to: u16,
    pub sent_tv: TimeVal,
    pub received_tv: TimeVal,
    pub size: u32,
}

/// Meaning of 26 header bytes: an unknown type code is a malformed frame and
/// a declared payload size over the cap an oversized one.
pub open spec fn spec_parse_base(s: Seq<u8>) -> Result<Base, Error>
    recommends
        s.len() >= 26,
{
    let code = spec_u16_at(s, 0);
    if code > 7 {
        Err(Error::MalformedFrame)
    } else {
        let size = spec_u32_at(s, 22);
        if size > MAX_PAYLOAD {
            Err(Error::OversizedFrame)
        } else {
            Ok(
                Base {
                    mtype: spec_mtype_of_code(code),
                    id: spec_u16_at(s, 2),
                    refers_to: spec_u16_at(s, 4),
                    sent_tv: spec_tv_at(s, 6),
                    received_tv: spec_tv_at(s, 14),
                    size,
                },
            )
        }
    }
}

pub open spec fn spec_encode_base(b: Base) -> Seq<u8> {
    spec_u16_to_le_bytes(spec_code_of_mtype(b.mtype)) + spec_u16_to_le_bytes(b.id)
        + spec_u16_to_le_bytes(b.refers_to) + spec_encode_tv(b.sent_tv) + spec_encode_tv(
        b.received_tv,
    ) + spec_u32_to_le_bytes(b.size)
}

impl Base {
    /// Read the fixed header from the first 26 bytes of `buf`; further bytes
    /// are ignored.
    pub fn parse(buf: &[u8]) -> (r: Result<Base, Error>)
        requires
            buf@.len() >= 26,
        ensures
            r == spec_parse_base(buf@),
    {
        let code = u16_at(buf, 0);
        if code > 7 {
            return Err(Error::MalformedFrame);
        }
        let size = u32_at(buf, 22);
        if size > MAX_PAYLOAD {
            return Err(Error::OversizedFrame);
        }
        Ok(
            Base {
                mtype: MessageType::from_code(code),
                id: u16_at(buf, 2),
                refers_to: u16_at(buf, 4),
                sent_tv: tv_at(buf, 6),
                received_tv: tv_at(buf, 14),
                size,
            },
        )
    }

    /// A whole frame: this header followed by `payload`.
    pub fn as_buf(&self, payload: &[u8]) -> (r: Vec<u8>)
        ensures
            r@ == spec_encode_base(*self) + payload@,
    {
        let mut out: Vec<u8> = Vec::new();
        push_u16(&mut out, self.mtype.code());
        push_u16(&mut out, self.id);
        push_u16(&mut out, self.refers_to);
        push_tv(&mut out, self.sent_tv);
        push_tv(&mut out, self.received_tv);
        push_u32(&mut out, self.size);
        let mut p = slice_to_vec(payload);
        out.append(&mut p);
        assert(out@ =~= spec_encode_base(*self) + payload@);
        out
    }
}

/// Parsing an encoded header gives the header back, whatever follows it in
/// the buffer.
pub proof fn lemma_base_roundtrip(b: Base, ext: Seq<u8>)
    requires
        b.size <= MAX_PAYLOAD,
    ensures
        spec_parse_base(spec_encode_base(b) + ext) == Ok::<Base, Error>(b),
{
    lemma_auto_spec_u16_to_from_le_bytes();
    lemma_auto_spec_u32_to_from_le_bytes();
    let s = spec_encode_base(b) + ext;
    assert(s.subrange(0, 2) =~= spec_u16_to_le_bytes(spec_code_of_mtype(b.mtype)));
    assert(s.subrange(2, 4) =~= spec_u16_to_le_bytes(b.id));
    assert(s.subrange(4, 6) =~= spec_u16_to_le_bytes(b.refers_to));
    assert(s.subrange(6, 14) =~= spec_encode_tv(b.sent_tv));
    assert(s.subrange(14, 22) =~= spec_encode_tv(b.received_tv));
    assert(s.subrange(22, 26) =~= spec_u32_to_le_bytes(b.size));
    lemma_tv_roundtrip(b.sent_tv, s, 6);
    lemma_tv_roundtrip(b.received_tv, s, 14);
    lemma_mtype_code_roundtrip(b.mtype);
}

// ---------------------------------------------------------------------------
// Time payload
// ---------------------------------------------------------------------------

/// The eight-byte payload of a Time frame.
#[derive(Copy, Clone, Debug, PartialEq, Eq, Structural)]
pub struct Time {
    pub latency: TimeVal,
}

pub open spec fn spec_parse_time(s: Seq<u8>) -> Result<Time, Error> {
    if s.len() >= 8 {
        Ok(Time { latency: spec_tv_at(s, 0) })
    } else {
        Err(Error::MalformedPayload)
    }
}

pub open spec fn spec_encode_time(t: Time) -> Seq<u8> {
    spec_encode_tv(t.latency)
}

impl Time {
    pub fn parse(buf: &[u8]) -> (r: Result<Time, Error>)
        ensures
            r == spec_parse_time(buf@),
    {
        if buf.len() >= 8 {
            Ok(Time { latency: tv_at(buf, 0) })
        } else {
            Err(Error::MalformedPayload)
        }
    }

    /// A complete Time frame carrying `latency`, stamped with the caller's
    /// send and receive times.
    pub fn as_buf(id: u16, sent_tv: TimeVal, received_tv: TimeVal, latency: TimeVal) -> (r: Vec<
        u8,
    >)
        ensures
            r@ == spec_encode_base(
                Base {
                    mtype: MessageType::Time,
                    id,
                    refers_to: 0,
                    sent_tv,
                    received_tv,
                    size: 8,
                },
            ) + spec_encode_time(Time { latency }),
    {
        let mut payload: Vec<u8> = Vec::new();
        push_tv(&mut payload, latency);
        let b = Base {
            mtype: MessageType::Time,
            id,
            refers_to: 0,
            sent_tv,
            received_tv,
            size: 8,
        };
        b.as_buf(payload.as_slice())
    }
}

/// Trailing bytes after the eight of the payload do not change the parse.
pub proof fn lemma_time_roundtrip(t: Time, ext: Seq<u8>)
    ensures
        spec_parse_time(spec_encode_time(t) + ext) == Ok::<Time, Error>(t),
{
    lemma_auto_spec_u32_to_from_le_bytes();
    let s = spec_encode_time(t) + ext;
    assert(s.subrange(0, 8) =~= spec_encode_tv(t.latency));
    lemma_tv_roundtrip(t.latency, s, 0);
}

// ---------------------------------------------------------------------------
// WireChunk payload
// ---------------------------------------------------------------------------

/// One timestamped block of compressed audio.
#[derive(Clone, Debug)]
pub struct WireChunk {
    pub timestamp: TimeVal,
    pub payload: Vec<u8>,
}

pub open spec fn spec_parse_wire_chunk(s: Seq<u8>) -> Result<(TimeVal, Seq<u8>), Error> {
    if s.len() >= 12 {
        let size = spec_u32_at(s, 8);
        if 12 + size <= s.len() {
            Ok((spec_tv_at(s, 0), s.subrange(12, 12 + size)))
        } else {
            Err(Error::MalformedPayload)
        }
    } else {
        Err(Error::MalformedPayload)
    }
}

pub open spec fn spec_encode_wire_chunk(timestamp: TimeVal, payload: Seq<u8>) -> Seq<u8>
    recommends
        payload.len() <= u32::MAX,
{
    spec_encode_tv(timestamp) + spec_u32_to_le_bytes(payload.len() as u32) + payload
}

impl WireChunk {
    /// Read the timestamp and the audio block; bytes beyond the block's
    /// declared size are ignored.
    pub fn parse(buf: &[u8]) -> (r: Result<WireChunk, Error>)
        ensures
            match r {
                Ok(wc) => spec_parse_wire_chunk(buf@) == Ok::<_, Error>(
                    (wc.timestamp, wc.payload@),
                ),
                Err(e) => spec_parse_wire_chunk(buf@) == Err::<(TimeVal, Seq<u8>), Error>(e),
            },
    {
        if buf.len() < 12 {
            return Err(Error::MalformedPayload);
        }
        let size = u32_at(buf, 8);
        if size as usize > buf.len() - 12 {
            return Err(Error::MalformedPayload);
        }
        let timestamp = tv_at(buf, 0);
        let payload = slice_to_vec(slice_subrange(buf, 12, 12 + size as usize));
        Ok(WireChunk { timestamp, payload })
    }

    /// The chunk's wire payload: timestamp, block size, block.
    pub fn as_buf(&self) -> (r: Vec<u8>)
        requires
            self.payload@.len() <= u32::MAX,
        ensures
            r@ == spec_encode_wire_chunk(self.timestamp, self.payload@),
    {
        let mut out: Vec<u8> = Vec::new();
        push_tv(&mut out, self.timestamp);
        push_u32(&mut out, self.payload.len() as u32);
        let mut p = slice_to_vec(self.payload.as_slice());
        out.append(&mut p);
        assert(out@ =~= spec_encode_wire_chunk(self.timestamp, self.payload@));
        out
    }
}

/// Bytes past the 26 of the header never change its parse.
pub proof fn lemma_parse_base_ignores_trailing(s: Seq<u8>, ext: Seq<u8>)
    requires
        s.len() >= 26,
    ensures
        spec_parse_base(s + ext) == spec_parse_base(s),
{
    let t = s + ext;
    assert(t.subrange(0, 2) =~= s.subrange(0, 2));
    assert(t.subrange(2, 4) =~= s.subrange(2, 4));
    assert(t.subrange(4, 6) =~= s.subrange(4, 6));
    assert(t.subrange(6, 10) =~= s.subrange(6, 10));
    assert(t.subrange(10, 14) =~= s.subrange(10, 14));
    assert(t.subrange(14, 18) =~= s.subrange(14, 18));
    assert(t.subrange(18, 22) =~= s.subrange(18, 22));
    assert(t.subrange(22, 26) =~= s.subrange(22, 26));
}

/// Bytes past the eight of a Time payload never change a successful parse.
pub proof fn lemma_parse_time_ignores_trailing(s: Seq<u8>, ext: Seq<u8>)
    requires
        spec_parse_time(s) is Ok,
    ensures
        spec_parse_time(s + ext) == spec_parse_time(s),
{
    let t = s + ext;
    assert(t.subrange(0, 4) =~= s.subrange(0, 4));
    assert(t.subrange(4, 8) =~= s.subrange(4, 8));
}

/// Bytes past a chunk's declared block never change a successful parse.
pub proof fn lemma_parse_wire_chunk_ignores_trailing(s: Seq<u8>, ext: Seq<u8>)
    requires
        spec_parse_wire_chunk(s) is Ok,
    ensures
        spec_parse_wire_chunk(s + ext) == spec_parse_wire_chunk(s),
{
    let t = s + ext;
    assert(t.subrange(0, 4) =~= s.subrange(0, 4));
    assert(t.subrange(4, 8) =~= s.subrange(4, 8));
    assert(t.subrange(8, 12) =~= s.subrange(8, 12));
    let size = spec_u32_at(s, 8) as int;
    assert(t.subrange(12, 12 + size) =~= s.subrange(12, 12 + size));
}

// ---------------------------------------------------------------------------
// Inbound dispatch
// ---------------------------------------------------------------------------

/// A typed message a server can push, as named by a frame header.
#[derive(Debug)]
pub enum ServerMessage {
    ServerSettings(crate::settings::ServerSettings),
    CodecHeader(crate::codec::CodecHeader),
    WireChunk(WireChunk),
    Time(Time),
}

impl Base {
    /// Interpret `payload` under this header's type.  Frame kinds a server
    /// never sends are malformed here.
    pub fn decode(&self, payload: &[u8]) -> (r: Result<ServerMessage, Error>)
        ensures
            match self.mtype {
                MessageType::ServerSettings => match r {
                    Ok(m) => m matches ServerMessage::ServerSettings(s)
                        && crate::settings::spec_parse_server_settings(payload@) == Ok::<
                        crate::settings::ServerSettings,
                        Error,
                    >(s),
                    Err(e) => crate::settings::spec_parse_server_settings(payload@) == Err::<
                        crate::settings::ServerSettings,
                        Error,
                    >(e),
                },
                MessageType::CodecHeader => match r {
                    Ok(m) => m matches ServerMessage::CodecHeader(ch)
                        && crate::codec::spec_parse_codec_header(payload@) == Ok::<
                        crate::codec::CodecHeaderView,
                        Error,
                    >(ch@),
                    Err(e) => crate::codec::spec_parse_codec_header(payload@) == Err::<
                        crate::codec::CodecHeaderView,
                        Error,
                    >(e),
                },
                MessageType::WireChunk => match r {
                    Ok(m) => m matches ServerMessage::WireChunk(wc) && spec_parse_wire_chunk(
                        payload@,
                    ) == Ok::<(TimeVal, Seq<u8>), Error>((wc.timestamp, wc.payload@)),
                    Err(e) => spec_parse_wire_chunk(payload@) == Err::<
                        (TimeVal, Seq<u8>),
                        Error,
                    >(e),
                },
                MessageType::Time => match r {
                    Ok(m) => m matches ServerMessage::Time(t) && spec_parse_time(payload@)
                        == Ok::<Time, Error>(t),
                    Err(e) => spec_parse_time(payload@) == Err::<Time, Error>(e),
                },
                _ => r == Err::<ServerMessage, Error>(Error::MalformedFrame),
            },
    {
        match self.mtype {
            MessageType::ServerSettings => match crate::settings::ServerSettings::parse(payload) {
                Ok(s) => Ok(ServerMessage::ServerSettings(s)),
                Err(e) => Err(e),
            },
            MessageType::CodecHeader => match crate::codec::CodecHeader::parse(payload) {
                Ok(ch) => Ok(ServerMessage::CodecHeader(ch)),
                Err(e) => Err(e),
            },
            MessageType::WireChunk => match WireChunk::parse(payload) {
                Ok(wc) => Ok(ServerMessage::WireChunk(wc)),
                Err(e) => Err(e),
            },
            MessageType::Time => match Time::parse(payload) {
                Ok(t) => Ok(ServerMessage::Time(t)),
                Err(e) => Err(e),
            },
            _ => Err(Error::MalformedFrame),
        }
    }
}

/// Encoding a chunk and parsing the bytes back, with any trailing garbage,
/// recovers timestamp and audio block exactly.
pub proof fn lemma_wire_chunk_roundtrip(timestamp: TimeVal, payload: Seq<u8>, ext: Seq<u8>)
    requires
        payload.len() <= u32::MAX,
    ensures
        spec_parse_wire_chunk(spec_encode_wire_chunk(timestamp, payload) + ext) == Ok::<
            (TimeVal, Seq<u8>),
            Error,
        >((timestamp, payload)),
{
    lemma_auto_spec_u32_to_from_le_bytes();
    let s = spec_encode_wire_chunk(timestamp, payload) + ext;
    assert(s.subrange(0, 8) =~= spec_encode_tv(timestamp));
    assert(s.subrange(8, 12) =~= spec_u32_to_le_bytes(payload.len() as u32));
    lemma_tv_roundtrip(timestamp, s, 0);
    assert(s.subrange(12, 12 + payload.len() as u32) =~= payload);
}

} // verus!
