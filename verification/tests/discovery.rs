use roborockutil::discovery::{
    accept, discover, discovery_packet, is_token, probe_target, Datagram, Error, ProbeTarget,
    Response, Source, LISTEN_TIMEOUT_MS, MI_DISCOVER_UDP_PORT,
};
use roborockutil::frame::Frame;

fn reply(device_id: u32, stamp: u32, token: &[u8; 16]) -> Frame {
    Frame { reserved: 0, device_id, stamp, checksum_or_token: *token, payload: Vec::new() }
}

fn datagram(ip: [u8; 4], frame: &Frame) -> Datagram {
    Datagram { source: Source::V4(ip), data: frame.encode().unwrap() }
}

#[test]
fn defaults_of_the_protocol() {
    assert_eq!(MI_DISCOVER_UDP_PORT, 54321);
    assert_eq!(LISTEN_TIMEOUT_MS, 2000);
}

#[test]
fn probe_bytes() {
    let mut expected = vec![0x21, 0x31, 0x00, 0x20];
    expected.extend_from_slice(&[0xff; 28]);
    assert_eq!(discovery_packet(), expected);
}

#[test]
fn probe_goes_to_the_device_or_to_everyone() {
    assert_eq!(
        probe_target(Some([192, 168, 8, 1])),
        ProbeTarget { ip: [192, 168, 8, 1], broadcast: false }
    );
    assert_eq!(probe_target(None), ProbeTarget { ip: [255, 255, 255, 255], broadcast: true });
}

#[test]
fn token_is_letters_and_digits() {
    assert!(is_token(b"0123456789abcdef"));
    assert!(is_token(b"AZaz09AZaz09AZaz"));
    assert!(!is_token(&[0; 16]));
    assert!(!is_token(&[0xff; 16]));
    assert!(!is_token(b"0123456789abcde "));
    assert!(!is_token(b"/123456789abcdef"));
    assert!(!is_token(b":123456789abcdef"));
    assert!(!is_token(b"@123456789abcdef"));
    assert!(!is_token(b"[123456789abcdef"));
    assert!(!is_token(b"`123456789abcdef"));
    assert!(!is_token(b"{123456789abcdef"));
    assert!(!is_token(b"0123456789abcd\xc3\xa9"));
}

#[test]
fn reply_of_a_device_is_accepted() {
    let mut bytes = vec![
        0x21, 0x31, 0x00, 0x20, 0x00, 0x00, 0x00, 0x00, 0x03, 0x9c, 0x8f, 0x1a, 0x00, 0x01, 0xe2,
        0x40,
    ];
    bytes.extend_from_slice(b"Kq3vT8mZ0pLw5XyB");
    let found = accept(&Datagram { source: Source::V4([192, 168, 8, 1]), data: bytes });
    assert_eq!(
        found,
        Some(Response {
            ip: [192, 168, 8, 1],
            packet: Frame {
                reserved: 0,
                device_id: 0x039c_8f1a,
                stamp: 123456,
                checksum_or_token: *b"Kq3vT8mZ0pLw5XyB",
                payload: Vec::new(),
            },
        })
    );
}

#[test]
fn reply_with_payload_is_passed_over() {
    let mut frame = reply(1, 2, b"0123456789abcdef");
    frame.payload = vec![0];
    assert_eq!(accept(&datagram([10, 0, 0, 1], &frame)), None);
}

#[test]
fn reply_with_reserved_field_is_passed_over() {
    let mut frame = reply(1, 2, b"0123456789abcdef");
    frame.reserved = 1;
    assert_eq!(accept(&datagram([10, 0, 0, 1], &frame)), None);
    assert_eq!(
        accept(&Datagram { source: Source::V4([10, 0, 0, 1]), data: discovery_packet() }),
        None
    );
}

#[test]
fn reply_without_token_is_passed_over() {
    assert_eq!(accept(&datagram([10, 0, 0, 1], &reply(1, 2, &[0; 16]))), None);
    assert_eq!(accept(&datagram([10, 0, 0, 1], &reply(1, 2, b"0123456789abcde-"))), None);
}

#[test]
fn reply_from_another_kind_of_address_is_passed_over() {
    let data = reply(1, 2, b"0123456789abcdef").encode().unwrap();
    assert_eq!(accept(&Datagram { source: Source::Other, data }), None);
}

#[test]
fn datagram_that_is_no_frame_is_passed_over() {
    let mut data = reply(1, 2, b"0123456789abcdef").encode().unwrap();
    data.push(0);
    assert_eq!(accept(&Datagram { source: Source::V4([10, 0, 0, 1]), data }), None);
    assert_eq!(accept(&Datagram { source: Source::V4([10, 0, 0, 1]), data: Vec::new() }), None);
}

#[test]
fn no_datagram_is_no_response() {
    assert_eq!(discover(&[]), Err(Error::NoResponse));
}

#[test]
fn only_unfit_datagrams_is_no_response() {
    let mut with_payload = reply(1, 2, b"0123456789abcdef");
    with_payload.payload = vec![1, 2, 3];
    let datagrams = vec![
        datagram([10, 0, 0, 1], &with_payload),
        datagram([10, 0, 0, 2], &reply(1, 2, &[0; 16])),
        Datagram { source: Source::V4([10, 0, 0, 3]), data: vec![1, 2, 3] },
        Datagram { source: Source::V4([10, 0, 0, 4]), data: discovery_packet() },
    ];
    assert_eq!(discover(&datagrams), Err(Error::NoResponse));
}

#[test]
fn devices_come_in_the_order_of_arrival() {
    let first = reply(11, 100, b"aaaaaaaaaaaaaaaa");
    let second = reply(22, 200, b"bbbbbbbbbbbbbbbb");
    let third = reply(33, 300, b"cccccccccccccccc");
    let mut garbled = reply(44, 400, b"dddddddddddddddd");
    garbled.reserved = 0xffff_ffff;
    let datagrams = vec![
        datagram([10, 0, 0, 3], &third),
        Datagram { source: Source::V4([10, 0, 0, 9]), data: vec![0x21, 0x31] },
        datagram([10, 0, 0, 1], &first),
        datagram([10, 0, 0, 4], &garbled),
        datagram([10, 0, 0, 2], &second),
        datagram([10, 0, 0, 1], &first),
    ];
    assert_eq!(
        discover(&datagrams),
        Ok(vec![
            Response { ip: [10, 0, 0, 3], packet: third },
            Response { ip: [10, 0, 0, 1], packet: first.clone() },
            Response { ip: [10, 0, 0, 2], packet: second },
            Response { ip: [10, 0, 0, 1], packet: first },
        ])
    );
}

#[test]
fn discovery_errors_as_text() {
    assert_eq!(Error::NoResponse.description(), "No response received");
    assert_eq!(Error::NoResponse.message(), "No response received");
    let error = Error::Socket("address in use".to_string());
    assert_eq!(error.description(), "Socket error");
    assert_eq!(error.message(), "Socket error: address in use");
}
