use crate::codec::{CodecHeader, CodecMetadata};
use crate::errors::Error;
use crate::proto::spec_u16_at;
use vstd::prelude::*;

verus! {

/// A compressed-audio decoder: fills `out` with interleaved 16-bit samples
/// and says how many it wrote.
pub trait Decode {
    fn decode_sample(&mut self, buf: &[u8], out: &mut Vec<i16>) -> (r: Result<usize, Error>)
        ensures
            final(out)@.len() == old(out)@.len(),
            r matches Ok(n) ==> n <= final(out)@.len(),
    ;
}

/// The `i16` the same two little-endian bytes denote.
pub open spec fn as_i16(u: u16) -> i16 {
    u as i16
}

/// Sample `k` of a raw little-endian PCM byte stream.
pub open spec fn spec_pcm_sample(s: Seq<u8>, k: int) -> i16 {
    as_i16(spec_u16_at(s, 2 * k))
}

/// The passthrough decoder for uncompressed streams: bytes are already
/// little-endian 16-bit samples.
pub struct NoOpDecoder;

impl Decode for NoOpDecoder {
    /// Reinterpret pairs of bytes as samples; a buffer too large for `out`
    /// is a decode failure that leaves `out` unchanged.
    fn decode_sample(&mut self, buf: &[u8], out: &mut Vec<i16>) -> (r: Result<usize, Error>)
        ensures
            final(out)@.len() == old(out)@.len(),
            r matches Ok(n) ==> n <= final(out)@.len(),
            buf@.len() / 2 <= old(out)@.len() ==> {
                &&& r == Ok::<usize, Error>((buf@.len() / 2) as usize)
                &&& forall|k: int|
                    0 <= k < buf@.len() / 2 ==> final(out)@[k] == spec_pcm_sample(buf@, k)
                &&& forall|k: int|
                    buf@.len() / 2 <= k < final(out)@.len() ==> final(out)@[k] == old(out)@[k]
            },
            buf@.len() / 2 > old(out)@.len() ==> r == Err::<usize, Error>(Error::DecodeFailed)
                && final(out)@ == old(out)@,
    {
        let bl = buf.len();
        let n = bl / 2;
        if n > out.len() {
            return Err(Error::DecodeFailed);
        }
        let mut k: usize = 0;
        while k < n
            invariant
                k <= n,
                n == buf@.len() / 2,
                n <= out@.len(),
                out@.len() == old(out)@.len(),
                2 * n <= buf@.len(),
                buf@.len() <= usize::MAX,
                forall|j: int| 0 <= j < k ==> out@[j] == spec_pcm_sample(buf@, j),
                forall|j: int| k <= j < out@.len() ==> out@[j] == old(out)@[j],
            decreases n - k,
        {
            let u = crate::proto::u16_at(buf, 2 * k);
            let v: i16 = #[verifier::truncate] (u as i16);
            out.set(k, v);
            k += 1;
        }
        Ok(n)
    }
}

/// Streaming state of a FLAC decoder: a reusable block buffer.  The block
/// decoding itself runs through an outside streaming reader and lives with
/// the unverified audio plumbing.
pub struct FlacDecoder {
    pub dec_buf: Vec<i32>,
}

impl FlacDecoder {
    pub fn new() -> (r: FlacDecoder)
        ensures
            r.dec_buf@.len() == 0,
    {
        FlacDecoder { dec_buf: Vec::new() }
    }
}

/// The decoders the verified library drives itself.  Codecs that need an
/// outside streaming decoder are refused here and handled by the caller.
pub enum Decoder {
    PCM(NoOpDecoder),
}

impl Decoder {
    /// A decoder for the announced codec, where the library has one.
    pub fn new(ch: &CodecHeader) -> (r: Result<Decoder, Error>)
        ensures
            r is Ok <==> ch.metadata@ is Pcm,
    {
        match &ch.metadata {
            CodecMetadata::Pcm(_) => Ok(Decoder::PCM(NoOpDecoder)),
            _ => Err(Error::UnsupportedCodec),
        }
    }

    /// Decode one chunk into `out`, returning the number of samples.
    pub fn decode_sample(&mut self, buf: &[u8], out: &mut Vec<i16>) -> (r: Result<usize, Error>)
        ensures
            final(out)@.len() == old(out)@.len(),
            r matches Ok(n) ==> n <= final(out)@.len(),
            *old(self) is PCM ==> {
                &&& buf@.len() / 2 <= old(out)@.len() ==> {
                    &&& r == Ok::<usize, Error>((buf@.len() / 2) as usize)
                    &&& forall|k: int|
                        0 <= k < buf@.len() / 2 ==> final(out)@[k] == spec_pcm_sample(buf@, k)
                    &&& forall|k: int|
                        buf@.len() / 2 <= k < final(out)@.len() ==> final(out)@[k] == old(
                            out,
                        )@[k]
                }
                &&& buf@.len() / 2 > old(out)@.len() ==> r == Err::<usize, Error>(
                    Error::DecodeFailed,
                ) && final(out)@ == old(out)@
            },
    {
        match self {
            Decoder::PCM(d) => d.decode_sample(buf, out),
        }
    }
}

} // verus!
