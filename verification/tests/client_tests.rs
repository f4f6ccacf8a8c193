use kvs::client::{
    interpret_get, interpret_remove, interpret_scan, interpret_set, request_frame,
};
use kvs::codec::{decode_request, decode_response};
use kvs::engine::MemStore;
use kvs::error::KvsError;
use kvs::protocol::{Request, Response};
use kvs::server::KvsServer;
use kvs::wire::parse_header;

#[test]
fn request_frame_wraps_the_encoding() {
    let frame = request_frame(&Request::Get { key: "k".to_string() }).unwrap();
    let arr: [u8; 4] = frame[0..4].try_into().unwrap();
    let len = parse_header(&arr) as usize;
    assert_eq!(frame.len(), 4 + len);
    let payload: Vec<u8> = frame[4..].to_vec();
    let back = decode_request(&payload).unwrap();
    assert!(matches!(back, Request::Get { key } if key == "k"));
}

#[test]
fn interpret_get_returns_value() {
    let r = interpret_get(Some(Response::Get(Some("v".to_string()))));
    assert_eq!(r.unwrap(), Some("v".to_string()));
}

#[test]
fn interpret_get_returns_absent() {
    let r = interpret_get(Some(Response::Get(None)));
    assert_eq!(r.unwrap(), None);
}

#[test]
fn interpret_get_surfaces_server_error() {
    let r = interpret_get(Some(Response::Error("boom".to_string())));
    assert!(matches!(r, Err(KvsError::StringError(m)) if m == "boom"));
}

#[test]
fn interpret_get_rejects_wrong_tag() {
    let r = interpret_get(Some(Response::Put));
    assert!(matches!(r, Err(e) if e.message() == "Invalid response"));
}

#[test]
fn interpret_get_rejects_missing_response() {
    let r = interpret_get(None);
    assert!(matches!(r, Err(e) if e.message() == "No response received"));
}

#[test]
fn interpret_set_acknowledges() {
    assert!(interpret_set(Some(Response::Put)).is_ok());
    assert!(interpret_set(Some(Response::Remove)).is_err());
    assert!(interpret_set(None).is_err());
}

#[test]
fn interpret_remove_acknowledges() {
    assert!(interpret_remove(Some(Response::Remove)).is_ok());
    assert!(interpret_remove(Some(Response::Get(None))).is_err());
}

#[test]
fn interpret_scan_returns_list_even_empty() {
    let r = interpret_scan(Some(Response::Scan(Vec::new())));
    assert_eq!(r.unwrap(), Vec::<String>::new());
    let r2 = interpret_scan(Some(Response::Scan(vec!["k".to_string()])));
    assert_eq!(r2.unwrap(), vec!["k".to_string()]);
    assert!(interpret_scan(Some(Response::Put)).is_err());
}

#[test]
fn key_not_found_message() {
    assert_eq!(KvsError::KeyNotFound.message(), "Key not found");
    assert_eq!(
        KvsError::StringError("custom".to_string()).message(),
        "custom"
    );
}

/// A full loopback of the client's calls through the server's per-frame
/// step, with no socket in between.
fn call(server: &mut KvsServer<MemStore>, req: Request) -> Option<Response> {
    let frame = request_frame(&req)?;
    let arr: [u8; 4] = frame[0..4].try_into().unwrap();
    let len = parse_header(&arr) as usize;
    let payload: Vec<u8> = frame[4..4 + len].to_vec();
    let resp_frame = server.serve_frame(&payload)?;
    let rarr: [u8; 4] = resp_frame[0..4].try_into().unwrap();
    let rlen = parse_header(&rarr) as usize;
    let rbody: Vec<u8> = resp_frame[4..4 + rlen].to_vec();
    decode_response(&rbody)
}

#[test]
fn loopback_client_session() {
    let mut server = KvsServer::new(MemStore::new());
    let set = interpret_set(call(
        &mut server,
        Request::Put { key: "city".to_string(), value: "Ulm".to_string() },
    ));
    assert!(set.is_ok());
    let got = interpret_get(call(&mut server, Request::Get { key: "city".to_string() }));
    assert_eq!(got.unwrap(), Some("Ulm".to_string()));
    let scanned = interpret_scan(call(&mut server, Request::Scan { key: "ci".to_string() }));
    assert_eq!(scanned.unwrap(), vec!["city".to_string()]);
    let removed = interpret_remove(call(
        &mut server,
        Request::Remove { key: "city".to_string() },
    ));
    assert!(removed.is_ok());
    let gone = interpret_get(call(&mut server, Request::Get { key: "city".to_string() }));
    assert_eq!(gone.unwrap(), None);
    let twice = interpret_remove(call(
        &mut server,
        Request::Remove { key: "city".to_string() },
    ));
    assert!(matches!(twice, Err(KvsError::StringError(m)) if m == "Key not found"));
}
