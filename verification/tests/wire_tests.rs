use snapclient::codec::{CodecHeader, CodecMetadata, FlacMetadata, OpusMetadata, PcmMetadata};
use snapclient::errors::Error;
use snapclient::proto::{Base, MessageType, ServerMessage, Time, WireChunk};
use snapclient::timeval::TimeVal;

#[test]
fn base_round_trip_with_trailing_bytes() {
    let b = Base {
        mtype: MessageType::WireChunk,
        id: 7,
        refers_to: 3,
        sent_tv: TimeVal { sec: -5, usec: 999_999 },
        received_tv: TimeVal { sec: 123, usec: 456 },
        size: 42,
    };
    let mut frame = b.as_buf(&[]);
    assert_eq!(frame.len(), 26);
    frame.push(0xAA);
    frame.push(0xBB);
    assert_eq!(Base::parse(frame.as_slice()).unwrap(), b);
}

#[test]
fn base_rejects_unknown_type_and_oversize() {
    let mut buf = vec![0u8; 26];
    buf[0] = 8;
    assert_eq!(Base::parse(buf.as_slice()), Err(Error::MalformedFrame));
    let mut big = vec![0u8; 26];
    big[0] = 2;
    // 2 MiB declared payload, over the one-MiB cap.
    big[22..26].copy_from_slice(&u32::to_le_bytes(2 * 1024 * 1024));
    assert_eq!(Base::parse(big.as_slice()), Err(Error::OversizedFrame));
}

#[test]
fn time_frame_round_trip() {
    let sent = TimeVal { sec: 1, usec: 2 };
    let recv = TimeVal { sec: 3, usec: 4 };
    let lat = TimeVal { sec: -1, usec: 999_000 };
    let frame = Time::as_buf(9, sent, recv, lat);
    assert_eq!(frame.len(), 34);
    let b = Base::parse(&frame[0..26]).unwrap();
    assert_eq!(b.mtype, MessageType::Time);
    assert_eq!(b.id, 9);
    assert_eq!(b.refers_to, 0);
    assert_eq!(b.sent_tv, sent);
    assert_eq!(b.received_tv, recv);
    assert_eq!(b.size, 8);
    assert_eq!(Time::parse(&frame[26..]).unwrap(), Time { latency: lat });
}

#[test]
fn time_payload_too_short() {
    assert_eq!(Time::parse(&[1, 2, 3]), Err(Error::MalformedPayload));
}

#[test]
fn wire_chunk_round_trip_and_trailing() {
    let wc = WireChunk {
        timestamp: TimeVal { sec: 100, usec: 200 },
        payload: vec![9, 8, 7, 6, 5],
    };
    let mut buf = wc.as_buf();
    assert_eq!(buf.len(), 17);
    buf.push(0xFF);
    let parsed = WireChunk::parse(buf.as_slice()).unwrap();
    assert_eq!(parsed.timestamp, wc.timestamp);
    assert_eq!(parsed.payload, vec![9, 8, 7, 6, 5]);
}

#[test]
fn wire_chunk_truncated_block() {
    // Declares 5 bytes of audio but carries only 2.
    let mut buf = vec![0u8; 12];
    buf[8..12].copy_from_slice(&u32::to_le_bytes(5));
    buf.push(1);
    buf.push(2);
    assert_eq!(
        WireChunk::parse(buf.as_slice()).err().unwrap(),
        Error::MalformedPayload
    );
}

#[test]
fn opus_header_round_trip() {
    let ch = CodecHeader {
        codec: b"opus".to_vec(),
        metadata: CodecMetadata::Opus(OpusMetadata {
            sample_rate: 48000,
            bit_depth: 16,
            channel_count: 2,
        }),
    };
    let buf = ch.as_buf();
    assert_eq!(CodecHeader::parse(buf.as_slice()).unwrap(), ch);
}

#[test]
fn flac_header_round_trip() {
    let ch = CodecHeader {
        codec: b"flac".to_vec(),
        metadata: CodecMetadata::Flac(FlacMetadata {
            sample_rate: 44100,
            bit_depth: 16,
            channel_count: 1,
        }),
    };
    let buf = ch.as_buf();
    assert_eq!(CodecHeader::parse(buf.as_slice()).unwrap(), ch);
}

#[test]
fn flac_bitfield_unpacks() {
    // 22-byte payload: magic, 14 block bytes, then the big-endian word
    // packing rate 48000, channels 2, depth 16.
    let bf: u32 = (48000u32 << 12) | (2u32 << 8) | 16;
    let mut payload = vec![102, 76, 97, 67];
    payload.extend_from_slice(&[0u8; 14]);
    payload.extend_from_slice(&bf.to_be_bytes());
    let mut buf = u32::to_le_bytes(4).to_vec();
    buf.extend_from_slice(b"flac");
    buf.extend_from_slice(&u32::to_le_bytes(payload.len() as u32));
    buf.extend_from_slice(&payload);
    let ch = CodecHeader::parse(buf.as_slice()).unwrap();
    match ch.metadata {
        CodecMetadata::Flac(f) => {
            assert_eq!(f.sample_rate, 48000);
            assert_eq!(f.channel_count, 2);
            assert_eq!(f.bit_depth, 16);
        }
        _ => panic!("expected flac metadata"),
    }
}

#[test]
fn ogg_header_is_kept_opaque() {
    let ch = CodecHeader {
        codec: b"ogg".to_vec(),
        metadata: CodecMetadata::Opaque(vec![1, 2, 3, 4]),
    };
    let buf = ch.as_buf();
    assert_eq!(CodecHeader::parse(buf.as_slice()).unwrap(), ch);
}

#[test]
fn unknown_codec_is_refused() {
    let mut buf = u32::to_le_bytes(3).to_vec();
    buf.extend_from_slice(b"mp3");
    buf.extend_from_slice(&u32::to_le_bytes(0));
    assert_eq!(
        CodecHeader::parse(buf.as_slice()).err().unwrap(),
        Error::UnsupportedCodec
    );
}

#[test]
fn pcm_bad_magic_is_malformed() {
    let mut buf = u32::to_le_bytes(3).to_vec();
    buf.extend_from_slice(b"pcm");
    buf.extend_from_slice(&u32::to_le_bytes(36));
    let mut riff = vec![0u8; 36];
    riff[0..4].copy_from_slice(b"RIFX");
    buf.extend_from_slice(&riff);
    assert_eq!(
        CodecHeader::parse(buf.as_slice()).err().unwrap(),
        Error::MalformedPayload
    );
}

#[test]
fn decode_dispatches_by_type() {
    let lat = TimeVal { sec: 4, usec: 5 };
    let frame = Time::as_buf(1, lat, lat, lat);
    let b = Base::parse(&frame[0..26]).unwrap();
    match b.decode(&frame[26..]).unwrap() {
        ServerMessage::Time(t) => assert_eq!(t.latency, lat),
        _ => panic!("expected a time message"),
    }
    // A Hello frame is never server-to-client.
    let hello_hdr = Base {
        mtype: MessageType::Hello,
        id: 0,
        refers_to: 0,
        sent_tv: TimeVal { sec: 0, usec: 0 },
        received_tv: TimeVal { sec: 0, usec: 0 },
        size: 0,
    };
    assert_eq!(hello_hdr.decode(&[]).err().unwrap(), Error::MalformedFrame);
}
