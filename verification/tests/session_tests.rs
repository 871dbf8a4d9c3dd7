use snapclient::decoder::{Decode, Decoder, FlacDecoder, NoOpDecoder};
use snapclient::errors::Error;
use snapclient::filter::LatencyFilter;
use snapclient::hello::ClientHello;
use snapclient::codec::{CodecHeader, CodecMetadata, PcmMetadata};
use snapclient::proto::{Base, MessageType, Time};
use snapclient::session::{playback_step, Client, Message, PlaybackAction, Session};
use snapclient::settings::ServerSettings;
use snapclient::timeval::TimeVal;

#[test]
fn filter_median_small_windows() {
    let mut f = LatencyFilter::new();
    assert_eq!(f.current_usec(), 1000);
    assert!(!f.synchronized());
    f.push_sample(5);
    assert_eq!(f.current_usec(), 5);
    f.push_sample(1);
    // Window [5, 1]: sorted [1, 5], element at index 1.
    assert_eq!(f.current_usec(), 5);
    f.push_sample(9);
    // Window [5, 1, 9]: sorted [1, 5, 9], element at index 1.
    assert_eq!(f.current_usec(), 5);
    f.push_sample(3);
    // Window [5, 1, 9, 3]: sorted [1, 3, 5, 9], element at index 2.
    assert_eq!(f.current_usec(), 5);
}

#[test]
fn filter_evicts_oldest_beyond_capacity() {
    let mut f = LatencyFilter::new();
    for v in 0..11i64 {
        f.push_sample(v);
    }
    // Window holds 1..=10; sorted the same; element at index 5 is 6.
    assert!(f.synchronized());
    assert_eq!(f.len(), 10);
    assert_eq!(f.current_usec(), 6);
    // A spike at one end moves the median by at most one rank.
    f.push_sample(1_000_000);
    assert_eq!(f.current_usec(), 7);
}

#[test]
fn probe_policy() {
    let mut s = Session::new();
    let ms2 = TimeVal { sec: 0, usec: 2000 };
    let us500 = TimeVal { sec: 0, usec: 500 };
    let sec2 = TimeVal { sec: 2, usec: 0 };
    // Empty window: always due.
    assert!(s.probe_due(us500));
    // Partly filled window: due after a millisecond.
    let b = Base {
        mtype: MessageType::Time,
        id: 0,
        refers_to: 0,
        sent_tv: TimeVal { sec: 0, usec: 0 },
        received_tv: TimeVal { sec: 0, usec: 0 },
        size: 8,
    };
    s.handle_time(&b, Time { latency: TimeVal { sec: 0, usec: 0 } }, TimeVal { sec: 0, usec: 0 });
    assert!(!s.probe_due(us500));
    assert!(s.probe_due(ms2));
    // Full window: once a second.
    for _ in 0..10 {
        s.handle_time(
            &b,
            Time { latency: TimeVal { sec: 0, usec: 0 } },
            TimeVal { sec: 0, usec: 0 },
        );
    }
    assert!(s.synchronized());
    assert!(!s.probe_due(ms2));
    assert!(s.probe_due(sec2));
}

#[test]
fn time_probe_frames_and_ids() {
    let mut s = Session::new();
    let now = TimeVal { sec: 1, usec: 500 };
    let probe = s.time_probe(now);
    assert_eq!(probe.len(), 34);
    let b = Base::parse(&probe[0..26]).unwrap();
    assert_eq!(b.mtype, MessageType::Time);
    assert_eq!(b.id, 0);
    assert_eq!(b.sent_tv, now);
    assert_eq!(b.received_tv, now);
    assert_eq!(b.size, 8);
    assert_eq!(Time::parse(&probe[26..]).unwrap().latency, now);
    let probe2 = s.time_probe(now);
    assert_eq!(Base::parse(&probe2[0..26]).unwrap().id, 1);
}

#[test]
fn time_echo_updates_offset() {
    let mut s = Session::new();
    let b = Base {
        mtype: MessageType::Time,
        id: 0,
        refers_to: 0,
        sent_tv: TimeVal { sec: 0, usec: 700 },
        received_tv: TimeVal { sec: 0, usec: 600 },
        size: 8,
    };
    let t = Time { latency: TimeVal { sec: 0, usec: 50 } };
    let recv_ts = TimeVal { sec: 0, usec: 1000 };
    // Sample: ((600 - 0) + (1000 - 700)) / 2 + 50 = 500.
    s.handle_time(&b, t, recv_ts);
    assert_eq!(s.latency_to_server(), TimeVal { sec: 0, usec: 500 });
}

#[test]
fn wire_chunk_deadline_and_drop() {
    let s = Session::new();
    // Fresh session: offset 1000 us, server buffer 999_999 us, no latency.
    let ts = TimeVal { sec: 10, usec: 0 };
    let aud = s
        .handle_wire_chunk(ts, TimeVal { sec: 0, usec: 0 })
        .unwrap();
    assert_eq!(aud, TimeVal { sec: 10, usec: 998_999 });
    // The same chunk observed too late is dropped.
    assert_eq!(s.handle_wire_chunk(ts, TimeVal { sec: 11, usec: 0 }), None);
}

#[test]
fn settings_change_the_deadline() {
    let mut s = Session::new();
    let ss = ServerSettings { bufferMs: 500, latency: 100, muted: false, volume: 50 };
    s.handle_server_settings(&ss);
    let ts = TimeVal { sec: 10, usec: 0 };
    let aud = s
        .handle_wire_chunk(ts, TimeVal { sec: 0, usec: 0 })
        .unwrap();
    // 10s - 1000us + 500ms - 100ms = 10.399000s.
    assert_eq!(aud, TimeVal { sec: 10, usec: 399_000 });
}

#[test]
fn handle_frame_dispatch() {
    let mut s = Session::new();
    let ss = ServerSettings { bufferMs: 500, latency: 0, muted: false, volume: 100 };
    let payload = ss.as_buf();
    let hdr = Base {
        mtype: MessageType::ServerSettings,
        id: 0,
        refers_to: 0,
        sent_tv: TimeVal { sec: 0, usec: 0 },
        received_tv: TimeVal { sec: 0, usec: 0 },
        size: payload.len() as u32,
    };
    match s
        .handle_frame(&hdr, payload.as_slice(), TimeVal { sec: 0, usec: 0 })
        .unwrap()
    {
        Message::ServerSettings(got) => assert_eq!(got, ss),
        _ => panic!("expected a settings message"),
    }
    let bad = Base { mtype: MessageType::StreamTags, ..hdr };
    assert_eq!(
        s.handle_frame(&bad, &[], TimeVal { sec: 0, usec: 0 }).err().unwrap(),
        Error::MalformedFrame
    );
}

#[test]
fn playback_decisions() {
    let now = TimeVal { sec: 10, usec: 0 };
    // Past deadline: dropped.
    assert_eq!(
        playback_step(TimeVal { sec: 9, usec: 999_999 }, now, 5),
        PlaybackAction::DropLate
    );
    // Within the sink latency: played.
    assert_eq!(
        playback_step(TimeVal { sec: 10, usec: 4_000 }, now, 5),
        PlaybackAction::Play
    );
    // Beyond the sink latency: waits.
    assert_eq!(
        playback_step(TimeVal { sec: 10, usec: 7_000 }, now, 5),
        PlaybackAction::Wait
    );
    // A second or more out always waits.
    assert_eq!(
        playback_step(TimeVal { sec: 12, usec: 0 }, now, 5),
        PlaybackAction::Wait
    );
    // A sink reporting zero latency is clamped to one millisecond.
    assert_eq!(
        playback_step(TimeVal { sec: 10, usec: 900 }, now, 0),
        PlaybackAction::Play
    );
    // Exactly on the deadline plays.
    assert_eq!(playback_step(now, now, 0), PlaybackAction::Play);
}

#[test]
fn pcm_passthrough_decodes_bytes() {
    let mut d = NoOpDecoder;
    let mut out = vec![0i16; 8];
    let n = d
        .decode_sample(&[1, 0, 255, 255, 0, 128], &mut out)
        .unwrap();
    assert_eq!(n, 3);
    assert_eq!(&out[0..3], &[1, -1, -32768]);
    // A buffer too small for the chunk is a decode failure.
    let mut small = vec![0i16; 1];
    assert_eq!(
        d.decode_sample(&[1, 0, 2, 0], &mut small),
        Err(Error::DecodeFailed)
    );
}

#[test]
fn decoder_construction_by_codec() {
    let pcm = CodecHeader {
        codec: b"pcm".to_vec(),
        metadata: CodecMetadata::Pcm(PcmMetadata {
            channel_count: 2,
            audio_rate: 48000,
            _bit_depth: 16,
        }),
    };
    let mut d = Decoder::new(&pcm).unwrap();
    let mut out = vec![0i16; 4];
    assert_eq!(d.decode_sample(&[7, 0], &mut out), Ok(1));
    let opus = CodecHeader {
        codec: b"opus".to_vec(),
        metadata: CodecMetadata::Opus(snapclient::codec::OpusMetadata {
            sample_rate: 48000,
            bit_depth: 16,
            channel_count: 2,
        }),
    };
    assert_eq!(Decoder::new(&opus).err().unwrap(), Error::UnsupportedCodec);
    let f = FlacDecoder::new();
    assert_eq!(f.dec_buf.len(), 0);
}

#[test]
fn hello_frame_bytes() {
    let h = ClientHello {
        MAC: b"11:22:33:44:55:66".to_vec(),
        HostName: b"framework".to_vec(),
        Version: b"0.17.1".to_vec(),
        ClientName: b"CoolClient".to_vec(),
        OS: b"linux".to_vec(),
        Arch: b"x86_64".to_vec(),
        Instance: 1,
        ID: b"11:22:33:44:55:66".to_vec(),
        SnapStreamProtocolVersion: 2,
    };
    let frame = h.as_buf();
    let b = Base::parse(&frame[0..26]).unwrap();
    assert_eq!(b.mtype, MessageType::Hello);
    assert_eq!(b.size as usize, frame.len() - 26);
    let expected_json = format!(
        "{{\"MAC\":\"11:22:33:44:55:66\",\"HostName\":\"framework\",\"Version\":\"0.17.1\",\"ClientName\":\"CoolClient\",\"OS\":\"linux\",\"Arch\":\"x86_64\",\"Instance\":1,\"ID\":\"11:22:33:44:55:66\",\"SnapStreamProtocolVersion\":2}}"
    );
    assert_eq!(&frame[26..30], &u32::to_le_bytes(expected_json.len() as u32));
    assert_eq!(&frame[30..], expected_json.as_bytes());
}

#[test]
fn hello_escapes_special_bytes() {
    let h = ClientHello {
        MAC: b"a\"b\\c\x01".to_vec(),
        HostName: b"h".to_vec(),
        Version: b"v".to_vec(),
        ClientName: b"c".to_vec(),
        OS: b"o".to_vec(),
        Arch: b"a".to_vec(),
        Instance: 0,
        ID: b"i".to_vec(),
        SnapStreamProtocolVersion: 2,
    };
    let frame = h.as_buf();
    let json = String::from_utf8(frame[30..].to_vec()).unwrap();
    assert!(json.contains("a\\\"b\\\\c\\u0001"));
}

#[test]
fn client_holds_identity() {
    let c = Client::new(b"aa:bb".to_vec(), b"host".to_vec());
    assert_eq!(c.mac, b"aa:bb".to_vec());
    assert_eq!(c.hostname, b"host".to_vec());
}
