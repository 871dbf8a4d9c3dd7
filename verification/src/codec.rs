use crate::errors::Error;
use crate::proto::{spec_u16_at, spec_u32_at, u16_at, u32_at};
use vstd::bytes::{
    lemma_auto_spec_u16_to_from_le_bytes, lemma_auto_spec_u32_to_from_le_bytes,
    spec_u16_to_le_bytes, spec_u32_to_le_bytes,
};
use vstd::prelude::*;
use vstd::slice::{slice_index_get, slice_subrange, slice_to_vec};

verus! {

/// Stream parameters of an Opus header: marker, rate, depth, channels at
/// fixed little-endian offsets.
#[derive(Copy, Clone, Debug, PartialEq, Eq, Structural)]
pub struct OpusMetadata {
    pub sample_rate: u32,
    pub bit_depth: u16,
    pub channel_count: u16,
}

/// Stream parameters pulled from the fixed offsets of a WAV-style RIFF
/// header.
#[derive(Copy, Clone, Debug, PartialEq, Eq, Structural)]
pub struct PcmMetadata {
    pub channel_count: u16,
    pub audio_rate: u32,
    pub _bit_depth: u16,
}

/// Stream parameters packed into the big-endian bitfield of a FLAC
/// STREAMINFO block.
#[derive(Copy, Clone, Debug, PartialEq, Eq, Structural)]
pub struct FlacMetadata {
    pub sample_rate: u32,
    pub bit_depth: u16,
    pub channel_count: u16,
}

/// Parsed codec parameters; codecs the session does not interpret keep their
/// raw header bytes.
#[derive(Clone, Debug)]
pub enum CodecMetadata {
    Opaque(Vec<u8>),
    Flac(FlacMetadata),
    Pcm(PcmMetadata),
    Opus(OpusMetadata),
}

/// The mathematical shape of `CodecMetadata`.
pub enum MetaView {
    Opaque(Seq<u8>),
    Flac(FlacMetadata),
    Pcm(PcmMetadata),
    Opus(OpusMetadata),
}

impl View for CodecMetadata {
    type V = MetaView;

    open spec fn view(&self) -> MetaView {
        match self {
            CodecMetadata::Opaque(v) => MetaView::Opaque(v@),
            CodecMetadata::Flac(m) => MetaView::Flac(*m),
            CodecMetadata::Pcm(m) => MetaView::Pcm(*m),
            CodecMetadata::Opus(m) => MetaView::Opus(*m),
        }
    }
}

/// A codec announcement: the codec's name and its parsed parameters.
#[derive(Clone, Debug)]
pub struct CodecHeader {
    pub codec: Vec<u8>,
    pub metadata: CodecMetadata,
}

/// The mathematical shape of `CodecHeader`.
pub struct CodecHeaderView {
    pub codec: Seq<u8>,
    pub metadata: MetaView,
}

impl View for CodecHeader {
    type V = CodecHeaderView;

    open spec fn view(&self) -> CodecHeaderView {
        CodecHeaderView { codec: self.codec@, metadata: self.metadata@ }
    }
}

pub open spec fn opus_name() -> Seq<u8> {
    seq![111u8, 112u8, 117u8, 115u8]
}

pub open spec fn flac_name() -> Seq<u8> {
    seq![102u8, 108u8, 97u8, 99u8]
}

pub open spec fn pcm_name() -> Seq<u8> {
    seq![112u8, 99u8, 109u8]
}

pub open spec fn ogg_name() -> Seq<u8> {
    seq![111u8, 103u8, 103u8]
}

// ---------------------------------------------------------------------------
// Per-codec payload meaning
// ---------------------------------------------------------------------------

pub open spec fn spec_parse_opus(s: Seq<u8>) -> Result<OpusMetadata, Error> {
    if s.len() >= 12 {
        Ok(
            OpusMetadata {
                sample_rate: spec_u32_at(s, 4),
                bit_depth: spec_u16_at(s, 8),
                channel_count: spec_u16_at(s, 10),
            },
        )
    } else {
        Err(Error::MalformedPayload)
    }
}

/// A PCM header must carry the RIFF magic and format tag 1 (uncompressed);
/// channels, rate and depth sit at fixed offsets.
pub open spec fn spec_parse_pcm(s: Seq<u8>) -> Result<PcmMetadata, Error> {
    if s.len() >= 36 && s[0] == 82 && s[1] == 73 && s[2] == 70 && s[3] == 70 && spec_u16_at(s, 20)
        == 1 {
        Ok(
            PcmMetadata {
                channel_count: spec_u16_at(s, 22),
                audio_rate: spec_u32_at(s, 24),
                _bit_depth: spec_u16_at(s, 34),
            },
        )
    } else {
        Err(Error::MalformedPayload)
    }
}

/// The big-endian 32-bit word at offset `i`.
pub open spec fn spec_u32_be_at(s: Seq<u8>, i: int) -> u32 {
    ((s[i] as u32) << 24) | ((s[i + 1] as u32) << 16) | ((s[i + 2] as u32) << 8) | (s[i
        + 3] as u32)
}

/// Rate, channels and depth unpacked from the STREAMINFO bitfield that
/// starts 18 bytes into the payload (4 magic bytes plus 14 of the block).
pub open spec fn spec_parse_flac(s: Seq<u8>) -> Result<FlacMetadata, Error> {
    if s.len() >= 22 {
        let bf = spec_u32_be_at(s, 18);
        Ok(
            FlacMetadata {
                sample_rate: (bf & 0x0fff_f000) >> 12,
                bit_depth: (bf & 0x1f) as u16,
                channel_count: ((bf & 0x300) >> 8) as u16,
            },
        )
    } else {
        Err(Error::MalformedPayload)
    }
}

/// Meaning of a CodecHeader payload: a length-prefixed codec name, then a
/// length-prefixed codec-specific block, parsed per codec.
pub open spec fn spec_parse_codec_header(s: Seq<u8>) -> Result<CodecHeaderView, Error> {
    if s.len() < 8 {
        Err(Error::MalformedPayload)
    } else {
        let nlen = spec_u32_at(s, 0);
        if 4 + nlen + 4 > s.len() {
            Err(Error::MalformedPayload)
        } else {
            let name = s.subrange(4, 4 + nlen);
            let plen = spec_u32_at(s, 4 + nlen);
            if 8 + nlen + plen > s.len() {
                Err(Error::MalformedPayload)
            } else {
                let p = s.subrange(8 + nlen, 8 + nlen + plen);
                if name == opus_name() {
                    match spec_parse_opus(p) {
                        Ok(m) => Ok(CodecHeaderView { codec: name, metadata: MetaView::Opus(m) }),
                        Err(e) => Err(e),
                    }
                } else if name == flac_name() {
                    match spec_parse_flac(p) {
                        Ok(m) => Ok(CodecHeaderView { codec: name, metadata: MetaView::Flac(m) }),
                        Err(e) => Err(e),
                    }
                } else if name == pcm_name() {
                    match spec_parse_pcm(p) {
                        Ok(m) => Ok(CodecHeaderView { codec: name, metadata: MetaView::Pcm(m) }),
                        Err(e) => Err(e),
                    }
                } else if name == ogg_name() {
                    Ok(CodecHeaderView { codec: name, metadata: MetaView::Opaque(p) })
                } else {
                    Err(Error::UnsupportedCodec)
                }
            }
        }
    }
}

// ---------------------------------------------------------------------------
// Executable parsers
// ---------------------------------------------------------------------------

pub fn byte_at(buf: &[u8], i: usize) -> (r: u8)
    requires
        i < buf@.len(),
    ensures
        r == buf@[i as int],
{
    *slice_index_get(buf, i)
}

fn parse_opus(buf: &[u8]) -> (r: Result<OpusMetadata, Error>)
    ensures
        r == spec_parse_opus(buf@),
{
    if buf.len() >= 12 {
        Ok(
            OpusMetadata {
                sample_rate: u32_at(buf, 4),
                bit_depth: u16_at(buf, 8),
                channel_count: u16_at(buf, 10),
            },
        )
    } else {
        Err(Error::MalformedPayload)
    }
}

fn parse_pcm(buf: &[u8]) -> (r: Result<PcmMetadata, Error>)
    ensures
        r == spec_parse_pcm(buf@),
{
    if buf.len() >= 36 && byte_at(buf, 0) == 82 && byte_at(buf, 1) == 73 && byte_at(buf, 2) == 70
        && byte_at(buf, 3) == 70 && u16_at(buf, 20) == 1 {
        Ok(
            PcmMetadata {
                channel_count: u16_at(buf, 22),
                audio_rate: u32_at(buf, 24),
                _bit_depth: u16_at(buf, 34),
            },
        )
    } else {
        Err(Error::MalformedPayload)
    }
}

pub fn u32_be_at(buf: &[u8], i: usize) -> (r: u32)
    requires
        i + 4 <= buf@.len(),
    ensures
        r == spec_u32_be_at(buf@, i as int),
{
    let n = buf.len();
    let b0 = byte_at(buf, i);
    let b1 = byte_at(buf, i + 1);
    let b2 = byte_at(buf, i + 2);
    let b3 = byte_at(buf, i + 3);
    ((b0 as u32) << 24u32) | ((b1 as u32) << 16u32) | ((b2 as u32) << 8u32) | (b3 as u32)
}

fn parse_flac(buf: &[u8]) -> (r: Result<FlacMetadata, Error>)
    ensures
        r == spec_parse_flac(buf@),
{
    if buf.len() >= 22 {
        let bf = u32_be_at(buf, 18);
        Ok(
            FlacMetadata {
                sample_rate: (bf & 0x0fff_f000) >> 12u32,
                bit_depth: (bf & 0x1f) as u16,
                channel_count: ((bf & 0x300) >> 8u32) as u16,
            },
        )
    } else {
        Err(Error::MalformedPayload)
    }
}

impl CodecHeader {
    /// Read a codec announcement; bytes beyond the inner declared lengths
    /// are ignored.
    pub fn parse(buf: &[u8]) -> (r: Result<CodecHeader, Error>)
        ensures
            match r {
                Ok(ch) => spec_parse_codec_header(buf@) == Ok::<CodecHeaderView, Error>(ch@),
                Err(e) => spec_parse_codec_header(buf@) == Err::<CodecHeaderView, Error>(e),
            },
    {
        let n = buf.len();
        if n < 8 {
            return Err(Error::MalformedPayload);
        }
        let nlen = u32_at(buf, 0);
        if nlen as usize > n - 8 {
            return Err(Error::MalformedPayload);
        }
        let name = slice_subrange(buf, 4, 4 + nlen as usize);
        let plen = u32_at(buf, 4 + nlen as usize);
        if plen as usize > n - 8 - nlen as usize {
            return Err(Error::MalformedPayload);
        }
        let p = slice_subrange(buf, 8 + nlen as usize, 8 + nlen as usize + plen as usize);
        if is_name4(name, 111, 112, 117, 115) {
            assert(name@ == opus_name());
            match parse_opus(p) {
                Ok(m) => Ok(
                    CodecHeader { codec: slice_to_vec(name), metadata: CodecMetadata::Opus(m) },
                ),
                Err(e) => Err(e),
            }
        } else if is_name4(name, 102, 108, 97, 99) {
            assert(name@ == flac_name());
            match parse_flac(p) {
                Ok(m) => Ok(
                    CodecHeader { codec: slice_to_vec(name), metadata: CodecMetadata::Flac(m) },
                ),
                Err(e) => Err(e),
            }
        } else if is_name3(name, 112, 99, 109) {
            assert(name@ == pcm_name());
            match parse_pcm(p) {
                Ok(m) => Ok(
                    CodecHeader { codec: slice_to_vec(name), metadata: CodecMetadata::Pcm(m) },
                ),
                Err(e) => Err(e),
            }
        } else if is_name3(name, 111, 103, 103) {
            assert(name@ == ogg_name());
            Ok(
                CodecHeader {
                    codec: slice_to_vec(name),
                    metadata: CodecMetadata::Opaque(slice_to_vec(p)),
                },
            )
        } else {
            Err(Error::UnsupportedCodec)
        }
    }

    /// The codec's declared channel count; meaningless for an opaque codec.
    pub fn channels(&self) -> (r: usize)
        requires
            !(self.metadata@ is Opaque),
        ensures
            r == spec_channels(self.metadata@),
    {
        self.metadata.channels()
    }
}

/// True exactly when `buf` is the four given bytes.
fn is_name4(buf: &[u8], a: u8, b: u8, c: u8, d: u8) -> (r: bool)
    ensures
        r == (buf@ == seq![a, b, c, d]),
{
    let n = buf.len();
    if n == 4 && byte_at(buf, 0) == a && byte_at(buf, 1) == b && byte_at(buf, 2) == c && byte_at(
        buf,
        3,
    ) == d {
        assert(buf@ =~= seq![a, b, c, d]);
        true
    } else {
        assert(buf@ != seq![a, b, c, d]) by {
            if buf@ =~= seq![a, b, c, d] {
                assert(buf@.len() == 4);
                assert(buf@[0] == a && buf@[1] == b && buf@[2] == c && buf@[3] == d);
            }
        }
        false
    }
}

/// True exactly when `buf` is the three given bytes.
fn is_name3(buf: &[u8], a: u8, b: u8, c: u8) -> (r: bool)
    ensures
        r == (buf@ == seq![a, b, c]),
{
    let n = buf.len();
    if n == 3 && byte_at(buf, 0) == a && byte_at(buf, 1) == b && byte_at(buf, 2) == c {
        assert(buf@ =~= seq![a, b, c]);
        true
    } else {
        assert(buf@ != seq![a, b, c]) by {
            if buf@ =~= seq![a, b, c] {
                assert(buf@.len() == 3);
                assert(buf@[0] == a && buf@[1] == b && buf@[2] == c);
            }
        }
        false
    }
}

// ---------------------------------------------------------------------------
// Encoders and round trips
// ---------------------------------------------------------------------------

/// A 32-bit word as four big-endian bytes.
pub open spec fn spec_u32_be_bytes(x: u32) -> Seq<u8> {
    seq![
        (x >> 24) as u8,
        ((x >> 16) & 0xff) as u8,
        ((x >> 8) & 0xff) as u8,
        (x & 0xff) as u8,
    ]
}

pub fn push_u32_be(out: &mut Vec<u8>, x: u32)
    ensures
        final(out)@ == old(out)@ + spec_u32_be_bytes(x),
{
    out.push((x >> 24u32) as u8);
    out.push(#[verifier::truncate] (((x >> 16u32) & 0xff) as u8));
    out.push(#[verifier::truncate] (((x >> 8u32) & 0xff) as u8));
    out.push(#[verifier::truncate] ((x & 0xff) as u8));
    assert(final(out)@ =~= old(out)@ + spec_u32_be_bytes(x));
}

pub proof fn lemma_u32_be_roundtrip(x: u32, s: Seq<u8>, i: int)
    requires
        0 <= i,
        i + 4 <= s.len(),
        s.subrange(i, i + 4) == spec_u32_be_bytes(x),
    ensures
        spec_u32_be_at(s, i) == x,
{
    let b0 = (x >> 24) as u8;
    let b1 = ((x >> 16) & 0xff) as u8;
    let b2 = ((x >> 8) & 0xff) as u8;
    let b3 = (x & 0xff) as u8;
    assert(s[i] == b0 && s[i + 1] == b1 && s[i + 2] == b2 && s[i + 3] == b3);
    assert(((b0 as u32) << 24) | ((b1 as u32) << 16) | ((b2 as u32) << 8) | (b3 as u32) == x)
        by (bit_vector)
        requires
            b0 == (x >> 24) as u8,
            b1 == ((x >> 16) & 0xff) as u8,
            b2 == ((x >> 8) & 0xff) as u8,
            b3 == (x & 0xff) as u8,
    ;
}

/// The STREAMINFO word that carries rate, channels and depth.
pub open spec fn spec_flac_bitfield(r: u32, c: u32, d: u32) -> u32
    recommends
        r < 0x10000,
        c < 4,
        d < 32,
{
    ((r << 12) | (c << 8)) | d
}

pub open spec fn spec_encode_opus(m: OpusMetadata) -> Seq<u8> {
    spec_u32_to_le_bytes(0) + spec_u32_to_le_bytes(m.sample_rate) + spec_u16_to_le_bytes(
        m.bit_depth,
    ) + spec_u16_to_le_bytes(m.channel_count)
}

pub open spec fn spec_encode_pcm(m: PcmMetadata) -> Seq<u8> {
    seq![82u8, 73u8, 70u8, 70u8] + spec_u32_to_le_bytes(36) + seq![87u8, 65u8, 86u8, 69u8]
        + seq![102u8, 109u8, 116u8, 32u8] + spec_u32_to_le_bytes(16) + spec_u16_to_le_bytes(1)
        + spec_u16_to_le_bytes(m.channel_count) + spec_u32_to_le_bytes(m.audio_rate)
        + spec_u32_to_le_bytes(0) + spec_u16_to_le_bytes(0) + spec_u16_to_le_bytes(m._bit_depth)
}

pub open spec fn spec_encode_flac(m: FlacMetadata) -> Seq<u8>
    recommends
        m.sample_rate < 0x10000,
        m.channel_count < 4,
        m.bit_depth < 32,
{
    seq![102u8, 76u8, 97u8, 67u8] + seq![
        0u8, 0u8, 0u8, 0u8, 0u8, 0u8, 0u8,
        0u8, 0u8, 0u8, 0u8, 0u8, 0u8, 0u8,
    ] + spec_u32_be_bytes(
        spec_flac_bitfield(m.sample_rate, m.channel_count as u32, m.bit_depth as u32),
    )
}

/// The codec-specific block a header's metadata denotes.
pub open spec fn spec_meta_payload(m: MetaView) -> Seq<u8> {
    match m {
        MetaView::Opus(o) => spec_encode_opus(o),
        MetaView::Pcm(p) => spec_encode_pcm(p),
        MetaView::Flac(f) => spec_encode_flac(f),
        MetaView::Opaque(p) => p,
    }
}

pub open spec fn spec_meta_name(m: MetaView) -> Seq<u8> {
    match m {
        MetaView::Opus(_) => opus_name(),
        MetaView::Pcm(_) => pcm_name(),
        MetaView::Flac(_) => flac_name(),
        MetaView::Opaque(_) => ogg_name(),
    }
}

/// A header whose name agrees with its parsed metadata and whose fields are
/// representable on the wire.
pub open spec fn wf_codec_header(v: CodecHeaderView) -> bool {
    &&& v.codec == spec_meta_name(v.metadata)
    &&& match v.metadata {
        MetaView::Flac(f) => f.sample_rate < 0x10000 && f.channel_count < 4 && f.bit_depth < 32,
        MetaView::Opaque(p) => p.len() <= u32::MAX,
        _ => true,
    }
}

pub open spec fn spec_encode_codec_header(v: CodecHeaderView) -> Seq<u8>
    recommends
        wf_codec_header(v),
{
    let name = spec_meta_name(v.metadata);
    let p = spec_meta_payload(v.metadata);
    spec_u32_to_le_bytes(name.len() as u32) + name + spec_u32_to_le_bytes(p.len() as u32) + p
}

impl CodecHeader {
    /// The header's wire payload: length-prefixed name, then length-prefixed
    /// codec block.
    pub fn as_buf(&self) -> (r: Vec<u8>)
        requires
            wf_codec_header(self@),
        ensures
            r@ == spec_encode_codec_header(self@),
    {
        let mut p: Vec<u8> = Vec::new();
        match &self.metadata {
            CodecMetadata::Opus(o) => {
                crate::proto::push_u32(&mut p, 0);
                crate::proto::push_u32(&mut p, o.sample_rate);
                crate::proto::push_u16(&mut p, o.bit_depth);
                crate::proto::push_u16(&mut p, o.channel_count);
            },
            CodecMetadata::Pcm(m) => {
                p.push(82);
                p.push(73);
                p.push(70);
                p.push(70);
                crate::proto::push_u32(&mut p, 36);
                p.push(87);
                p.push(65);
                p.push(86);
                p.push(69);
                p.push(102);
                p.push(109);
                p.push(116);
                p.push(32);
                crate::proto::push_u32(&mut p, 16);
                crate::proto::push_u16(&mut p, 1);
                crate::proto::push_u16(&mut p, m.channel_count);
                crate::proto::push_u32(&mut p, m.audio_rate);
                crate::proto::push_u32(&mut p, 0);
                crate::proto::push_u16(&mut p, 0);
                crate::proto::push_u16(&mut p, m._bit_depth);
            },
            CodecMetadata::Flac(f) => {
                p.push(102);
                p.push(76);
                p.push(97);
                p.push(67);
                let mut i: usize = 0;
                while i < 14
                    invariant
                        i <= 14,
                        p@.len() == 4 + i,
                        p@ =~= seq![102u8, 76u8, 97u8, 67u8] + Seq::new(i as nat, |j: int| 0u8),
                    decreases 14 - i,
                {
                    p.push(0);
                    assert(p@ =~= seq![102u8, 76u8, 97u8, 67u8] + Seq::new(
                        (i + 1) as nat,
                        |j: int| 0u8,
                    ));
                    i += 1;
                }
                let bf: u32 = ((f.sample_rate << 12u32) | ((f.channel_count as u32) << 8u32)) | (
                f.bit_depth as u32);
                push_u32_be(&mut p, bf);
                assert(p@ =~= spec_encode_flac(*f)) by {
                    assert(Seq::new(14nat, |j: int| 0u8) =~= seq![
                        0u8, 0u8, 0u8, 0u8, 0u8, 0u8, 0u8,
                        0u8, 0u8, 0u8, 0u8, 0u8, 0u8, 0u8,
                    ]);
                }
            },
            CodecMetadata::Opaque(raw) => {
                let mut c = slice_to_vec(raw.as_slice());
                p.append(&mut c);
            },
        }
        assert(p@ == spec_meta_payload(self@.metadata));
        let mut out: Vec<u8> = Vec::new();
        let name = &self.codec;
        crate::proto::push_u32(&mut out, name.len() as u32);
        let mut nv = slice_to_vec(name.as_slice());
        out.append(&mut nv);
        crate::proto::push_u32(&mut out, p.len() as u32);
        out.append(&mut p);
        assert(out@ =~= spec_encode_codec_header(self@));
        out
    }
}

/// Opus parameters survive encoding and parsing.
pub proof fn lemma_opus_roundtrip(m: OpusMetadata)
    ensures
        spec_parse_opus(spec_encode_opus(m)) == Ok::<OpusMetadata, Error>(m),
{
    lemma_auto_spec_u16_to_from_le_bytes();
    lemma_auto_spec_u32_to_from_le_bytes();
    let s = spec_encode_opus(m);
    assert(s.subrange(4, 8) =~= spec_u32_to_le_bytes(m.sample_rate));
    assert(s.subrange(8, 10) =~= spec_u16_to_le_bytes(m.bit_depth));
    assert(s.subrange(10, 12) =~= spec_u16_to_le_bytes(m.channel_count));
}

/// PCM parameters survive encoding into the canonical RIFF header and
/// parsing back.
pub proof fn lemma_pcm_roundtrip(m: PcmMetadata)
    ensures
        spec_parse_pcm(spec_encode_pcm(m)) == Ok::<PcmMetadata, Error>(m),
{
    lemma_auto_spec_u16_to_from_le_bytes();
    lemma_auto_spec_u32_to_from_le_bytes();
    let s = spec_encode_pcm(m);
    assert(s.len() == 36);
    assert(s[0] == 82 && s[1] == 73 && s[2] == 70 && s[3] == 70);
    assert(s.subrange(20, 22) =~= spec_u16_to_le_bytes(1));
    assert(s.subrange(22, 24) =~= spec_u16_to_le_bytes(m.channel_count));
    assert(s.subrange(24, 28) =~= spec_u32_to_le_bytes(m.audio_rate));
    assert(s.subrange(34, 36) =~= spec_u16_to_le_bytes(m._bit_depth));
}

/// FLAC parameters in the bitfield's ranges survive encoding and parsing.
pub proof fn lemma_flac_roundtrip(m: FlacMetadata)
    requires
        m.sample_rate < 0x10000,
        m.channel_count < 4,
        m.bit_depth < 32,
    ensures
        spec_parse_flac(spec_encode_flac(m)) == Ok::<FlacMetadata, Error>(m),
{
    let s = spec_encode_flac(m);
    let r: u32 = m.sample_rate;
    let c: u32 = m.channel_count as u32;
    let d: u32 = m.bit_depth as u32;
    let bf = spec_flac_bitfield(r, c, d);
    assert(s.len() == 22);
    assert(s.subrange(18, 22) =~= spec_u32_be_bytes(bf));
    lemma_u32_be_roundtrip(bf, s, 18);
    assert((((((r << 12) | (c << 8)) | d) & 0x0fff_f000) >> 12) == r && ((((((r << 12) | (c << 8))
        | d) & 0x300) >> 8)) == c && (((((r << 12) | (c << 8)) | d) & 0x1f)) == d) by (bit_vector)
        requires
            r < 0x10000,
            c < 4,
            d < 32,
    ;
    assert((bf & 0x300) >> 8 == c && c < 4);
    assert((bf & 0x1f) == d && d < 32);
    assert(((bf & 0x300) >> 8) as u16 == m.channel_count);
    assert((bf & 0x1f) as u16 == m.bit_depth);
    assert((bf & 0x0fff_f000) >> 12 == m.sample_rate);
}

/// Encoding any well-formed codec header and parsing the bytes back, with
/// any trailing garbage, recovers the header exactly.
pub proof fn lemma_codec_header_roundtrip(v: CodecHeaderView, ext: Seq<u8>)
    requires
        wf_codec_header(v),
    ensures
        spec_parse_codec_header(spec_encode_codec_header(v) + ext) == Ok::<CodecHeaderView, Error>(
            v,
        ),
{
    lemma_auto_spec_u16_to_from_le_bytes();
    lemma_auto_spec_u32_to_from_le_bytes();
    let name = spec_meta_name(v.metadata);
    let p = spec_meta_payload(v.metadata);
    let s = spec_encode_codec_header(v) + ext;
    let nlen = name.len() as int;
    let plen = p.len() as int;
    assert(plen <= u32::MAX) by {
        match v.metadata {
            MetaView::Opus(_) => {
                assert(p.len() == 12);
            },
            MetaView::Flac(_) => {
                assert(p.len() == 22);
            },
            MetaView::Pcm(_) => {
                assert(p.len() == 36);
            },
            MetaView::Opaque(_) => {
            },
        }
    }
    assert(s.subrange(0, 4) =~= spec_u32_to_le_bytes(name.len() as u32));
    assert(spec_u32_at(s, 0) == nlen);
    assert(s.subrange(4, 4 + nlen) =~= name);
    assert(s.subrange(4 + nlen, 8 + nlen) =~= spec_u32_to_le_bytes(p.len() as u32));
    assert(spec_u32_at(s, 4 + nlen) == plen);
    assert(s.subrange(8 + nlen, 8 + nlen + plen) =~= p);
    match v.metadata {
        MetaView::Opus(m) => {
            lemma_opus_roundtrip(m);
            assert(name != flac_name() && name != pcm_name() && name != ogg_name());
        },
        MetaView::Flac(m) => {
            lemma_flac_roundtrip(m);
            assert(name != opus_name() && name != pcm_name() && name != ogg_name());
        },
        MetaView::Pcm(m) => {
            lemma_pcm_roundtrip(m);
            assert(name != opus_name() && name != flac_name() && name != ogg_name());
        },
        MetaView::Opaque(_) => {
            assert(name != opus_name() && name != flac_name() && name != pcm_name());
        },
    }
}

/// Bytes past the two declared lengths of a codec announcement never
/// change a successful parse.
pub proof fn lemma_parse_codec_header_ignores_trailing(s: Seq<u8>, ext: Seq<u8>)
    requires
        spec_parse_codec_header(s) is Ok,
    ensures
        spec_parse_codec_header(s + ext) == spec_parse_codec_header(s),
{
    let t = s + ext;
    assert(t.subrange(0, 4) =~= s.subrange(0, 4));
    let nlen = spec_u32_at(s, 0) as int;
    assert(t.subrange(4, 4 + nlen) =~= s.subrange(4, 4 + nlen));
    assert(t.subrange(4 + nlen, 8 + nlen) =~= s.subrange(4 + nlen, 8 + nlen));
    let plen = spec_u32_at(s, 4 + nlen) as int;
    assert(t.subrange(8 + nlen, 8 + nlen + plen) =~= s.subrange(8 + nlen, 8 + nlen + plen));
}

// ---------------------------------------------------------------------------
// Accessors
// ---------------------------------------------------------------------------

pub open spec fn spec_channels(m: MetaView) -> usize
    recommends
        !(m is Opaque),
{
    match m {
        MetaView::Opus(o) => o.channel_count as usize,
        MetaView::Pcm(p) => p.channel_count as usize,
        MetaView::Flac(f) => f.channel_count as usize,
        MetaView::Opaque(_) => 0,
    }
}

pub open spec fn spec_rate(m: MetaView) -> usize
    recommends
        !(m is Opaque),
{
    match m {
        MetaView::Opus(o) => o.sample_rate as usize,
        MetaView::Pcm(p) => p.audio_rate as usize,
        MetaView::Flac(f) => f.sample_rate as usize,
        MetaView::Opaque(_) => 0,
    }
}

impl CodecMetadata {
    /// Channel count of a parsed codec.
    pub fn channels(&self) -> (r: usize)
        requires
            !(self@ is Opaque),
        ensures
            r == spec_channels(self@),
    {
        match self {
            CodecMetadata::Opus(o) => o.channel_count as usize,
            CodecMetadata::Pcm(p) => p.channel_count as usize,
            CodecMetadata::Flac(f) => f.channel_count as usize,
            CodecMetadata::Opaque(_) => 0,
        }
    }

    /// Sample rate of a parsed codec.
    pub fn rate(&self) -> (r: usize)
        requires
            !(self@ is Opaque),
        ensures
            r == spec_rate(self@),
    {
        match self {
            CodecMetadata::Opus(o) => o.sample_rate as usize,
            CodecMetadata::Pcm(p) => p.audio_rate as usize,
            CodecMetadata::Flac(f) => f.sample_rate as usize,
            CodecMetadata::Opaque(_) => 0,
        }
    }
}

// ---------------------------------------------------------------------------
// Equality (hand-written: the opaque variant owns a byte vector)
// ---------------------------------------------------------------------------

fn bytes_eq(a: &[u8], b: &[u8]) -> (r: bool)
    ensures
        r == (a@ == b@),
{
    let n = a.len();
    if n != b.len() {
        assert(a@ != b@) by {
            if a@ =~= b@ {
            }
        }
        return false;
    }
    let mut i: usize = 0;
    while i < n
        invariant
            n == a@.len() == b@.len(),
            i <= n,
            forall|j: int| 0 <= j < i ==> a@[j] == b@[j],
        decreases n - i,
    {
        if byte_at(a, i) != byte_at(b, i) {
            return false;
        }
        i += 1;
    }
    assert(a@ =~= b@);
    true
}

impl PartialEq for CodecMetadata {
    fn eq(&self, other: &CodecMetadata) -> (r: bool) {
        match (self, other) {
            (CodecMetadata::Opaque(a), CodecMetadata::Opaque(b)) => bytes_eq(
                a.as_slice(),
                b.as_slice(),
            ),
            (CodecMetadata::Flac(a), CodecMetadata::Flac(b)) => a == b,
            (CodecMetadata::Pcm(a), CodecMetadata::Pcm(b)) => a == b,
            (CodecMetadata::Opus(a), CodecMetadata::Opus(b)) => a == b,
            _ => false,
        }
    }
}

impl vstd::std_specs::cmp::PartialEqSpecImpl for CodecMetadata {
    open spec fn obeys_eq_spec() -> bool {
        true
    }

    open spec fn eq_spec(&self, other: &CodecMetadata) -> bool {
        self@ == other@
    }
}

impl PartialEq for CodecHeader {
    fn eq(&self, other: &CodecHeader) -> (r: bool) {
        bytes_eq(self.codec.as_slice(), other.codec.as_slice()) && self.metadata.eq(&other.metadata)
    }
}

impl vstd::std_specs::cmp::PartialEqSpecImpl for CodecHeader {
    open spec fn obeys_eq_spec() -> bool {
        true
    }

    open spec fn eq_spec(&self, other: &CodecHeader) -> bool {
        self@.codec == other@.codec && self@.metadata == other@.metadata
    }
}

} // verus!
