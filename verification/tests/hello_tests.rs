use snapclient::errors::Error;
use snapclient::hello::ClientHello;

fn sample_hello() -> ClientHello {
    ClientHello {
        MAC: b"11:22:33:44:55:66".to_vec(),
        HostName: b"framework".to_vec(),
        Version: b"0.17.1".to_vec(),
        ClientName: b"CoolClient".to_vec(),
        OS: b"linux".to_vec(),
        Arch: b"x86_64".to_vec(),
        Instance: 1,
        ID: b"11:22:33:44:55:66".to_vec(),
        SnapStreamProtocolVersion: 2,
    }
}

fn assert_hello_eq(a: &ClientHello, b: &ClientHello) {
    assert_eq!(a.MAC, b.MAC);
    assert_eq!(a.HostName, b.HostName);
    assert_eq!(a.Version, b.Version);
    assert_eq!(a.ClientName, b.ClientName);
    assert_eq!(a.OS, b.OS);
    assert_eq!(a.Arch, b.Arch);
    assert_eq!(a.Instance, b.Instance);
    assert_eq!(a.ID, b.ID);
    assert_eq!(a.SnapStreamProtocolVersion, b.SnapStreamProtocolVersion);
}

#[test]
fn hello_parse_round_trip() {
    let h = sample_hello();
    let frame = h.as_buf();
    // The payload follows the 26 header bytes.
    let parsed = ClientHello::parse(&frame[26..]).unwrap();
    assert_hello_eq(&parsed, &h);
}

#[test]
fn hello_round_trip_with_escapes_and_trailing() {
    let mut h = sample_hello();
    h.MAC = b"a\"b\\c\x01\x1f".to_vec();
    h.HostName = vec![];
    h.Instance = 255;
    let frame = h.as_buf();
    let mut payload = frame[26..].to_vec();
    payload.extend_from_slice(&[1, 2, 3]);
    let parsed = ClientHello::parse(&payload).unwrap();
    assert_hello_eq(&parsed, &h);
}

#[test]
fn hello_parse_rejects_other_shapes() {
    // Fields out of the canonical order.
    let json = br#"{"HostName":"h","MAC":"m","Version":"v","ClientName":"c","OS":"o","Arch":"a","Instance":1,"ID":"i","SnapStreamProtocolVersion":2}"#;
    let mut payload = u32::to_le_bytes(json.len() as u32).to_vec();
    payload.extend_from_slice(json);
    assert_eq!(ClientHello::parse(&payload).err().unwrap(), Error::MalformedPayload);
    // Truncated payload.
    assert_eq!(ClientHello::parse(&[1, 2]).err().unwrap(), Error::MalformedPayload);
}
