use kvs::codec::{decode_response, encode_request};
use kvs::engine::{KvsEngine, MemStore};
use kvs::error::KvsError;
use kvs::protocol::{Request, Response};
use kvs::server::{conn_step, handle_request, ConnEvent, ConnState, KvsServer};
use kvs::wire::{encode_header, parse_header};

/// One request/response exchange on a simulated connection: the payload the
/// peer would send, through the server's per-frame step, back to the
/// decoded response.
fn exchange(server: &mut KvsServer<MemStore>, req: Request) -> Response {
    let payload = encode_request(&req).expect("request should encode");
    let frame = server.serve_frame(&payload).expect("connection should survive");
    let arr: [u8; 4] = frame[0..4].try_into().unwrap();
    let len = parse_header(&arr) as usize;
    assert_eq!(frame.len(), 4 + len, "frame length prefix must be exact");
    let body: Vec<u8> = frame[4..].to_vec();
    decode_response(&body).expect("server must answer a well-formed response")
}

#[test]
fn set_then_get_same_connection() {
    let mut server = KvsServer::new(MemStore::new());
    let ack = exchange(
        &mut server,
        Request::Put { key: "a".to_string(), value: "1".to_string() },
    );
    assert!(matches!(ack, Response::Put));
    let got = exchange(&mut server, Request::Get { key: "a".to_string() });
    assert!(matches!(got, Response::Get(Some(v)) if v == "1"));
}

#[test]
fn get_never_set_is_absent_not_error() {
    let mut server = KvsServer::new(MemStore::new());
    let got = exchange(&mut server, Request::Get { key: "missing".to_string() });
    assert!(matches!(got, Response::Get(None)));
}

#[test]
fn set_remove_get_is_absent() {
    let mut server = KvsServer::new(MemStore::new());
    exchange(
        &mut server,
        Request::Put { key: "k".to_string(), value: "v".to_string() },
    );
    let removed = exchange(&mut server, Request::Remove { key: "k".to_string() });
    assert!(matches!(removed, Response::Remove));
    let got = exchange(&mut server, Request::Get { key: "k".to_string() });
    assert!(matches!(got, Response::Get(None)));
}

#[test]
fn remove_absent_key_is_error_response() {
    let mut server = KvsServer::new(MemStore::new());
    let resp = exchange(&mut server, Request::Remove { key: "ghost".to_string() });
    assert!(matches!(resp, Response::Error(m) if m == "Key not found"));
}

#[test]
fn overwrite_replaces_value() {
    let mut server = KvsServer::new(MemStore::new());
    exchange(
        &mut server,
        Request::Put { key: "k".to_string(), value: "old".to_string() },
    );
    exchange(
        &mut server,
        Request::Put { key: "k".to_string(), value: "new".to_string() },
    );
    let got = exchange(&mut server, Request::Get { key: "k".to_string() });
    assert!(matches!(got, Response::Get(Some(v)) if v == "new"));
}

#[test]
fn scan_empty_store_is_empty_list_not_error() {
    let mut server = KvsServer::new(MemStore::new());
    let resp = exchange(&mut server, Request::Scan { key: "anything".to_string() });
    match resp {
        Response::Scan(values) => assert!(values.is_empty()),
        other => panic!("expected a scan response, got {:?}", other),
    }
}

#[test]
fn scan_matches_prefixes_in_insertion_order() {
    let mut server = KvsServer::new(MemStore::new());
    for (k, v) in [("apple", "1"), ("banana", "2"), ("apricot", "3")] {
        exchange(
            &mut server,
            Request::Put { key: k.to_string(), value: v.to_string() },
        );
    }
    let resp = exchange(&mut server, Request::Scan { key: "ap".to_string() });
    match resp {
        Response::Scan(values) => {
            assert_eq!(values, vec!["apple".to_string(), "apricot".to_string()]);
        }
        other => panic!("expected a scan response, got {:?}", other),
    }
}

#[test]
fn decode_failure_terminates_only_that_connection() {
    // connections A and B share one server; A sends garbage and is dropped,
    // B still completes a set and a get
    let mut server = KvsServer::new(MemStore::new());
    let garbage: Vec<u8> = vec![0xFF, 0x00, 0xAB];
    assert!(server.serve_frame(&garbage).is_none(), "A must be terminated");
    let ack = exchange(
        &mut server,
        Request::Put { key: "b".to_string(), value: "still here".to_string() },
    );
    assert!(matches!(ack, Response::Put));
    let got = exchange(&mut server, Request::Get { key: "b".to_string() });
    assert!(matches!(got, Response::Get(Some(v)) if v == "still here"));
}

#[test]
fn decode_failure_leaves_store_untouched() {
    let mut server = KvsServer::new(MemStore::new());
    exchange(
        &mut server,
        Request::Put { key: "k".to_string(), value: "v".to_string() },
    );
    let truncated: Vec<u8> = vec![2u8, 0, 0, 0, 9, b'k'];
    assert!(server.serve_frame(&truncated).is_none());
    let got = exchange(&mut server, Request::Get { key: "k".to_string() });
    assert!(matches!(got, Response::Get(Some(v)) if v == "v"));
}

#[test]
fn interleaved_connections_on_disjoint_keys_read_their_own_writes() {
    // two clients' traffic interleaved arbitrarily on one store: each sees
    // its own writes on its own keys
    let mut server = KvsServer::new(MemStore::new());
    exchange(
        &mut server,
        Request::Put { key: "a:x".to_string(), value: "1".to_string() },
    );
    exchange(
        &mut server,
        Request::Put { key: "b:x".to_string(), value: "9".to_string() },
    );
    exchange(
        &mut server,
        Request::Put { key: "b:y".to_string(), value: "8".to_string() },
    );
    exchange(&mut server, Request::Remove { key: "b:x".to_string() });
    let got_a = exchange(&mut server, Request::Get { key: "a:x".to_string() });
    assert!(matches!(got_a, Response::Get(Some(v)) if v == "1"));
    let got_b = exchange(&mut server, Request::Get { key: "b:y".to_string() });
    assert!(matches!(got_b, Response::Get(Some(v)) if v == "8"));
}

#[test]
fn memstore_capabilities_direct() {
    let mut store = MemStore::new();
    assert!(store.get(&"k".to_string()).is_none());
    store.set("k".to_string(), "v".to_string());
    assert_eq!(store.get(&"k".to_string()), Some("v".to_string()));
    assert!(store.remove(&"k".to_string()).is_ok());
    assert!(store.get(&"k".to_string()).is_none());
    assert!(matches!(
        store.remove(&"k".to_string()),
        Err(KvsError::KeyNotFound)
    ));
    assert!(store.scan(&"".to_string()).is_empty());
}

#[test]
fn connection_state_machine_serves_one_request() {
    let mut store = MemStore::new();
    let payload = encode_request(&Request::Put {
        key: "s".to_string(),
        value: "1".to_string(),
    })
    .unwrap();
    let header: [u8; 4] = encode_header(payload.len() as u32).as_slice().try_into().unwrap();

    let (state, frame) = conn_step(ConnState::AwaitHeader, &mut store, ConnEvent::HeaderBytes(header));
    assert!(frame.is_none());
    assert!(matches!(state, ConnState::AwaitPayload { len } if len as usize == payload.len()));

    let (state, frame) = conn_step(state, &mut store, ConnEvent::PayloadBytes(payload));
    assert!(matches!(state, ConnState::AwaitHeader));
    let frame = frame.expect("one response frame per request");
    let arr: [u8; 4] = frame[0..4].try_into().unwrap();
    let body: Vec<u8> = frame[4..4 + parse_header(&arr) as usize].to_vec();
    assert!(matches!(decode_response(&body).unwrap(), Response::Put));
    assert_eq!(store.get(&"s".to_string()), Some("1".to_string()));
}

#[test]
fn connection_state_machine_closes_on_bad_payload_and_disconnect() {
    let mut store = MemStore::new();
    // a garbage payload of the announced length closes the connection
    let (state, frame) = conn_step(
        ConnState::AwaitPayload { len: 3 },
        &mut store,
        ConnEvent::PayloadBytes(vec![0xFF, 0xFF, 0xFF]),
    );
    assert!(matches!(state, ConnState::Closed));
    assert!(frame.is_none());
    // a disconnect closes from any state
    let (state, frame) = conn_step(ConnState::AwaitHeader, &mut store, ConnEvent::Disconnected);
    assert!(matches!(state, ConnState::Closed));
    assert!(frame.is_none());
    // the failed connection never touched the store
    assert!(store.get(&"s".to_string()).is_none());
}

#[test]
fn handle_request_converts_engine_error() {
    let mut store = MemStore::new();
    let resp = handle_request(&mut store, Request::Remove { key: "nope".to_string() });
    assert!(matches!(resp, Response::Error(m) if m == "Key not found"));
}
