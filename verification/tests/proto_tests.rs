use snapclient::codec::{CodecHeader, CodecMetadata, PcmMetadata};
use snapclient::proto::{Base, MessageType, Time};
use snapclient::settings::ServerSettings;
use snapclient::timeval::TimeVal;

#[test]
fn test_sub_timeval() {
    let tv1 = TimeVal { sec: 0, usec: 10 };
    let tv2 = TimeVal { sec: 0, usec: 11 };

    let diff = tv1.sub(tv2);
    assert_eq!(diff, TimeVal { sec: -1, usec: 999_999 });
    // The magnitude of a one-microsecond deficit is one microsecond.
    let expected = TimeVal { sec: 0, usec: 1 };
    assert_eq!(diff.abs(), expected);
}

#[test]
fn test_pcm_ch() {
    let expected = CodecHeader {
        codec: b"pcm".to_vec(),
        metadata: CodecMetadata::Pcm(PcmMetadata {
            channel_count: 2,
            audio_rate: 48000,
            _bit_depth: 16,
        }),
    };
    let buf: Vec<u8> = vec![
        3, 0, 0, 0, 112, 99, 109, 44, 0, 0, 0, 82, 73, 70, 70, 36, 0, 0, 0, 87, 65, 86, 69, 102,
        109, 116, 32, 16, 0, 0, 0, 1, 0, 2, 0, 128, 187, 0, 0, 0, 238, 2, 0, 4, 0, 16, 0, 100, 97,
        116, 97, 0, 0, 0, 0,
    ];

    assert_eq!(CodecHeader::parse(buf.as_slice()).unwrap(), expected);
}

#[test]
fn test_serversettings() {
    let expected = ServerSettings {
        bufferMs: 500,
        latency: 0,
        muted: false,
        volume: 100,
    };
    let buf = &[
        55, 0, 0, 0, 123, 34, 98, 117, 102, 102, 101, 114, 77, 115, 34, 58, 53, 48, 48, 44, 34,
        108, 97, 116, 101, 110, 99, 121, 34, 58, 48, 44, 34, 109, 117, 116, 101, 100, 34, 58, 102,
        97, 108, 115, 101, 44, 34, 118, 111, 108, 117, 109, 101, 34, 58, 49, 48, 48, 125,
    ];
    assert_eq!(ServerSettings::parse(buf.as_slice()).unwrap(), expected);
    let str_ = r#"{"x":7,"bufferMs":500,"latency":0,"muted":false,"volume":100}"#;
    let len_buf = u32::to_le_bytes(str_.len() as u32);
    let buf2 = [&len_buf, str_.as_bytes()].concat();
    assert_eq!(ServerSettings::parse(buf2.as_slice()).unwrap(), expected);
}

#[test]
fn test_time() {
    let expected = Time {
        latency: TimeVal {
            sec: 1067689,
            usec: 404697,
        },
    };
    let buf = &[169, 74, 16, 0, 217, 44, 6, 0];

    assert_eq!(Time::parse(buf.as_slice()).unwrap(), expected);
}

#[test]
fn test_base() {
    let exp_ss = Base {
        mtype: MessageType::ServerSettings,
        id: 0,
        refers_to: 0,
        sent_tv: TimeVal {
            sec: 1068174,
            usec: 804592,
        },
        received_tv: TimeVal {
            sec: 1068174,
            usec: 804587,
        },
        size: 59,
    };
    let buf_ss = &[
        3, 0, 0, 0, 0, 0, 142, 76, 16, 0, 240, 70, 12, 0, 142, 76, 16, 0, 235, 70, 12, 0, 59, 0,
        0, 0,
    ];
    assert_eq!(Base::parse(buf_ss.as_slice()).unwrap(), exp_ss);

    let exp_ch = Base {
        mtype: MessageType::CodecHeader,
        id: 0,
        refers_to: 0,
        sent_tv: TimeVal {
            sec: 1068174,
            usec: 804624,
        },
        received_tv: TimeVal {
            sec: 990760,
            usec: 73212,
        },
        size: 55,
    };
    let buf_ch = &[
        1, 0, 0, 0, 0, 0, 142, 76, 16, 0, 16, 71, 12, 0, 40, 30, 15, 0, 252, 29, 1, 0, 55, 0, 0,
        0,
    ];
    assert_eq!(Base::parse(buf_ch.as_slice()).unwrap(), exp_ch);

    let exp_t = Base {
        mtype: MessageType::Time,
        id: 0,
        refers_to: 0,
        sent_tv: TimeVal {
            sec: 1068174,
            usec: 804885,
        },
        received_tv: TimeVal {
            sec: 1068174,
            usec: 804868,
        },
        size: 8,
    };
    let buf_t = &[
        4, 0, 0, 0, 0, 0, 142, 76, 16, 0, 21, 72, 12, 0, 142, 76, 16, 0, 4, 72, 12, 0, 8, 0, 0, 0,
    ];
    assert_eq!(Base::parse(buf_t.as_slice()).unwrap(), exp_t);

    let exp_wc = Base {
        mtype: MessageType::WireChunk,
        id: 0,
        refers_to: 0,
        sent_tv: TimeVal {
            sec: 1068174,
            usec: 805506,
        },
        received_tv: TimeVal {
            sec: 1068174,
            usec: 805500,
        },
        size: 5772,
    };
    let buf_wc = &[
        2, 0, 0, 0, 0, 0, 142, 76, 16, 0, 130, 74, 12, 0, 142, 76, 16, 0, 124, 74, 12, 0, 140, 22,
        0, 0,
    ];
    assert_eq!(Base::parse(buf_wc.as_slice()).unwrap(), exp_wc);
}
