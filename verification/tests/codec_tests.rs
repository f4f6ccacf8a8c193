use kvs::codec::{decode_request, decode_response, encode_request, encode_response};
use kvs::protocol::{Request, Response};
use kvs::wire::{encode_header, make_frame, parse_header};

fn request_round_trips(req: Request) -> Request {
    let bytes = encode_request(&req).expect("request should encode");
    decode_request(&bytes).expect("encoding should decode")
}

fn response_round_trips(resp: Response) -> Response {
    let bytes = encode_response(&resp).expect("response should encode");
    decode_response(&bytes).expect("encoding should decode")
}

#[test]
fn round_trip_get_request() {
    let back = request_round_trips(Request::Get { key: "alpha".to_string() });
    assert!(matches!(back, Request::Get { key } if key == "alpha"));
}

#[test]
fn round_trip_scan_request() {
    let back = request_round_trips(Request::Scan { key: "pre".to_string() });
    assert!(matches!(back, Request::Scan { key } if key == "pre"));
}

#[test]
fn round_trip_put_request() {
    let back = request_round_trips(Request::Put {
        key: "k".to_string(),
        value: "v".to_string(),
    });
    assert!(matches!(back, Request::Put { key, value } if key == "k" && value == "v"));
}

#[test]
fn round_trip_remove_request() {
    let back = request_round_trips(Request::Remove { key: "gone".to_string() });
    assert!(matches!(back, Request::Remove { key } if key == "gone"));
}

#[test]
fn round_trip_empty_key_request() {
    let back = request_round_trips(Request::Get { key: String::new() });
    assert!(matches!(back, Request::Get { key } if key.is_empty()));
}

#[test]
fn round_trip_unicode_request() {
    let back = request_round_trips(Request::Put {
        key: "clé\u{1F511}".to_string(),
        value: "värde".to_string(),
    });
    assert!(
        matches!(back, Request::Put { key, value } if key == "clé\u{1F511}" && value == "värde")
    );
}

#[test]
fn round_trip_get_response_present() {
    let back = response_round_trips(Response::Get(Some("seen".to_string())));
    assert!(matches!(back, Response::Get(Some(v)) if v == "seen"));
}

#[test]
fn round_trip_get_response_absent() {
    let back = response_round_trips(Response::Get(None));
    assert!(matches!(back, Response::Get(None)));
}

#[test]
fn round_trip_scan_response() {
    let back = response_round_trips(Response::Scan(vec![
        "a".to_string(),
        "ab".to_string(),
        "abc".to_string(),
    ]));
    match back {
        Response::Scan(values) => {
            assert_eq!(values, vec!["a".to_string(), "ab".to_string(), "abc".to_string()]);
        }
        _ => panic!("scan response expected"),
    }
}

#[test]
fn round_trip_scan_response_empty() {
    let back = response_round_trips(Response::Scan(Vec::new()));
    match back {
        Response::Scan(values) => assert!(values.is_empty()),
        _ => panic!("scan response expected"),
    }
}

#[test]
fn round_trip_put_response() {
    assert!(matches!(response_round_trips(Response::Put), Response::Put));
}

#[test]
fn round_trip_remove_response() {
    assert!(matches!(response_round_trips(Response::Remove), Response::Remove));
}

#[test]
fn round_trip_error_response() {
    let back = response_round_trips(Response::Error("Key not found".to_string()));
    assert!(matches!(back, Response::Error(m) if m == "Key not found"));
}

#[test]
fn decode_request_rejects_empty() {
    assert!(decode_request(&Vec::new()).is_none());
}

#[test]
fn decode_request_rejects_unknown_tag() {
    let bytes = vec![9u8, 0, 0, 0, 0];
    assert!(decode_request(&bytes).is_none());
}

#[test]
fn decode_request_rejects_truncated_length() {
    let bytes = vec![0u8, 0, 0];
    assert!(decode_request(&bytes).is_none());
}

#[test]
fn decode_request_rejects_truncated_payload() {
    // a get whose declared key length exceeds the bytes present
    let bytes = vec![0u8, 0, 0, 0, 5, b'a', b'b'];
    assert!(decode_request(&bytes).is_none());
}

#[test]
fn decode_request_rejects_trailing_bytes() {
    let mut bytes = encode_request(&Request::Get { key: "a".to_string() }).unwrap();
    bytes.push(0);
    assert!(decode_request(&bytes).is_none());
}

#[test]
fn decode_request_rejects_invalid_utf8() {
    // a get whose one-byte key is not valid UTF-8
    let bytes = vec![0u8, 0, 0, 0, 1, 0xFF];
    assert!(decode_request(&bytes).is_none());
}

#[test]
fn decode_response_rejects_garbage() {
    assert!(decode_response(&vec![7u8]).is_none());
    assert!(decode_response(&vec![0u8]).is_none());
    assert!(decode_response(&vec![0u8, 2]).is_none());
    assert!(decode_response(&vec![2u8, 0]).is_none());
}

#[test]
fn header_round_trips() {
    for n in [0u32, 1, 255, 256, 65_536, 0xDEAD_BEEF, u32::MAX] {
        let header = encode_header(n);
        let arr: [u8; 4] = header.as_slice().try_into().unwrap();
        assert_eq!(parse_header(&arr), n);
    }
}

#[test]
fn header_is_big_endian() {
    assert_eq!(encode_header(0x0102_0304), vec![1u8, 2, 3, 4]);
}

#[test]
fn frame_carries_exact_payload() {
    // frame integrity for several payload lengths, zero included
    for len in [0usize, 1, 2, 300] {
        let payload: Vec<u8> = (0..len).map(|i| (i % 251) as u8).collect();
        let frame = make_frame(payload.clone());
        assert_eq!(frame.len(), 4 + len);
        let arr: [u8; 4] = frame[0..4].try_into().unwrap();
        assert_eq!(parse_header(&arr) as usize, len);
        assert_eq!(&frame[4..], payload.as_slice());
    }
}
