use snapclient::errors::Error;
use snapclient::settings::ServerSettings;

fn payload_of(json: &str) -> Vec<u8> {
    let mut v = u32::to_le_bytes(json.len() as u32).to_vec();
    v.extend_from_slice(json.as_bytes());
    v
}

#[test]
fn canonical_encode_bytes() {
    let ss = ServerSettings { bufferMs: 500, latency: -20, muted: true, volume: 100 };
    let expected_json = r#"{"bufferMs":500,"latency":-20,"muted":true,"volume":100}"#;
    assert_eq!(ss.as_buf(), payload_of(expected_json));
}

#[test]
fn encode_parse_round_trip() {
    let cases = [
        ServerSettings { bufferMs: 0, latency: 0, muted: false, volume: 0 },
        ServerSettings { bufferMs: 500, latency: -1, muted: true, volume: 255 },
        ServerSettings { bufferMs: u32::MAX, latency: i32::MIN, muted: false, volume: 7 },
        ServerSettings { bufferMs: 1, latency: i32::MAX, muted: true, volume: 100 },
    ];
    for ss in cases {
        let buf = ss.as_buf();
        assert_eq!(ServerSettings::parse(buf.as_slice()).unwrap(), ss);
    }
}

#[test]
fn whitespace_is_tolerated() {
    let json = "{ \"bufferMs\" : 250 ,\n\t\"latency\": -3, \"muted\" : false , \"volume\": 42 }";
    let ss = ServerSettings::parse(payload_of(json).as_slice()).unwrap();
    assert_eq!(ss, ServerSettings { bufferMs: 250, latency: -3, muted: false, volume: 42 });
}

#[test]
fn unknown_members_are_skipped() {
    // Nested objects, arrays and tricky strings under unknown keys.
    let json = r#"{"x":{"a":[1,2,{"b":"}\"]"}]},"bufferMs":500,"y":"quote \" brace }","latency":0,"z":null,"muted":false,"volume":100}"#;
    let ss = ServerSettings::parse(payload_of(json).as_slice()).unwrap();
    assert_eq!(ss, ServerSettings { bufferMs: 500, latency: 0, muted: false, volume: 100 });
}

#[test]
fn missing_member_is_malformed() {
    let json = r#"{"bufferMs":500,"latency":0,"muted":false}"#;
    assert_eq!(
        ServerSettings::parse(payload_of(json).as_slice()),
        Err(Error::MalformedPayload)
    );
    assert_eq!(ServerSettings::parse(payload_of("{}").as_slice()), Err(Error::MalformedPayload));
}

#[test]
fn duplicate_member_is_malformed() {
    let json = r#"{"bufferMs":500,"bufferMs":600,"latency":0,"muted":false,"volume":1}"#;
    assert_eq!(
        ServerSettings::parse(payload_of(json).as_slice()),
        Err(Error::MalformedPayload)
    );
}

#[test]
fn out_of_range_values_are_malformed() {
    let too_big_volume = r#"{"bufferMs":500,"latency":0,"muted":false,"volume":256}"#;
    assert_eq!(
        ServerSettings::parse(payload_of(too_big_volume).as_slice()),
        Err(Error::MalformedPayload)
    );
    let too_big_buffer = r#"{"bufferMs":4294967296,"latency":0,"muted":false,"volume":1}"#;
    assert_eq!(
        ServerSettings::parse(payload_of(too_big_buffer).as_slice()),
        Err(Error::MalformedPayload)
    );
    let bad_bool = r#"{"bufferMs":500,"latency":0,"muted":maybe,"volume":1}"#;
    assert_eq!(
        ServerSettings::parse(payload_of(bad_bool).as_slice()),
        Err(Error::MalformedPayload)
    );
}

#[test]
fn trailing_garbage_inside_window_is_malformed() {
    let json = r#"{"bufferMs":500,"latency":0,"muted":false,"volume":100}x"#;
    assert_eq!(
        ServerSettings::parse(payload_of(json).as_slice()),
        Err(Error::MalformedPayload)
    );
}

#[test]
fn payload_bytes_past_declared_length_are_ignored() {
    let json = r#"{"bufferMs":500,"latency":0,"muted":false,"volume":100}"#;
    let mut buf = payload_of(json);
    buf.extend_from_slice(&[0xDE, 0xAD, 0xBE, 0xEF]);
    let ss = ServerSettings::parse(buf.as_slice()).unwrap();
    assert_eq!(ss.bufferMs, 500);
    assert_eq!(ss.volume, 100);
}

#[test]
fn short_length_prefix_is_malformed() {
    assert_eq!(ServerSettings::parse(&[1, 2, 3]), Err(Error::MalformedPayload));
    // Declared JSON length exceeds what the payload holds.
    let buf = u32::to_le_bytes(100).to_vec();
    assert_eq!(ServerSettings::parse(buf.as_slice()), Err(Error::MalformedPayload));
}
