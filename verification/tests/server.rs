use percas::metrics::{Operation, Outcome};
use percas::proxy::RouteDest;
use percas::server::{
    delete, delete_success, dispatch, get, get_not_found, get_success, operation_of, put,
    put_bad_request, put_success, storage_key, temporary_redirect, too_many_requests, Dispatch,
    Method, Payload, Reply,
};

fn text(r: &Reply) -> String {
    match &r.payload {
        Payload::Text(t) => t.clone(),
        other => panic!("unexpected payload {other:?}"),
    }
}

#[test]
fn replies_carry_their_status() {
    let r = too_many_requests();
    assert_eq!((r.status, text(&r).as_str()), (429, "429 Too Many Requests"));
    assert!(r.location.is_none());
    let r = temporary_redirect("http://b:7654/k");
    assert_eq!((r.status, text(&r).as_str()), (307, "307 Temporary Redirect"));
    assert_eq!(r.location.as_deref(), Some("http://b:7654/k"));
    let r = get_not_found();
    assert_eq!((r.status, text(&r).as_str()), (404, "404 Not Found"));
    let r = put_success();
    assert_eq!((r.status, text(&r).as_str()), (201, "201 Created"));
    let r = put_bad_request();
    assert_eq!((r.status, text(&r).as_str()), (400, "400 Bad Request"));
    let r = delete_success();
    assert_eq!(r.status, 204);
    assert!(matches!(r.payload, Payload::Empty));
    let r = get_success(b"value".to_vec());
    assert_eq!(r.status, 200);
    assert!(matches!(r.payload, Payload::Bytes(ref b) if b == &vec![0x76, 0x61, 0x6c, 0x75, 0x65]));
}

#[test]
fn get_answers_with_the_value_or_a_miss() {
    let s = get(Some(b"value".to_vec()));
    assert_eq!(s.reply.status, 200);
    assert!(matches!(s.reply.payload, Payload::Bytes(ref b) if b == b"value"));
    assert_eq!((s.operation, s.status, s.bytes), (Operation::Get, Outcome::Success, Some(5)));
    let s = get(None);
    assert_eq!(s.reply.status, 404);
    assert_eq!((s.operation, s.status, s.bytes), (Operation::Get, Outcome::NotFound, None));
}

#[test]
fn put_answers_created_or_bad_request() {
    let s = put(Some(5));
    assert_eq!(s.reply.status, 201);
    assert_eq!((s.operation, s.status, s.bytes), (Operation::Put, Outcome::Success, Some(5)));
    let s = put(None);
    assert_eq!(s.reply.status, 400);
    assert_eq!((s.operation, s.status, s.bytes), (Operation::Put, Outcome::Failure, None));
}

#[test]
fn delete_answers_no_content() {
    let s = delete();
    assert_eq!(s.reply.status, 204);
    assert_eq!((s.operation, s.status, s.bytes), (Operation::Delete, Outcome::Success, None));
}

#[test]
fn put_get_delete_scenario() {
    let mut cache: std::collections::HashMap<Vec<u8>, Vec<u8>> = std::collections::HashMap::new();
    let key = storage_key(b"/k");
    assert_eq!(get(cache.get(&key).cloned()).reply.status, 404);
    cache.insert(key.clone(), b"v".to_vec());
    assert_eq!(put(Some(1)).reply.status, 201);
    let s = get(cache.get(&key).cloned());
    assert_eq!(s.reply.status, 200);
    assert!(matches!(s.reply.payload, Payload::Bytes(ref b) if b == b"v"));
    cache.remove(&key);
    assert_eq!(delete().reply.status, 204);
    assert_eq!(get(cache.get(&key).cloned()).reply.status, 404);
}

#[test]
fn the_key_is_the_decoded_path_after_the_leading_slash() {
    assert_eq!(storage_key(b"/key"), b"key".to_vec());
    assert_eq!(storage_key(b"/multiple/level/key"), b"multiple/level/key".to_vec());
    assert_eq!(storage_key(b"/a%2Fb"), b"a/b".to_vec());
    assert_eq!(storage_key(b"/a%2fb%20c"), b"a/b c".to_vec());
    assert_eq!(storage_key(b"/caf%C3%A9"), "café".as_bytes().to_vec());
    assert_eq!(storage_key(b"/a+b"), b"a+b".to_vec());
    assert_eq!(storage_key(b"/"), b"".to_vec());
    assert_eq!(storage_key(b""), b"".to_vec());
    assert_eq!(storage_key(b"//x"), b"/x".to_vec());
    assert_eq!(storage_key(b"key"), b"key".to_vec());
    assert_eq!(storage_key(b"/%00%ff"), vec![0x00, 0xff]);
}

#[test]
fn a_percent_without_two_digits_stands_for_itself() {
    assert_eq!(storage_key(b"/100%"), b"100%".to_vec());
    assert_eq!(storage_key(b"/%4"), b"%4".to_vec());
    assert_eq!(storage_key(b"/%zz"), b"%zz".to_vec());
    assert_eq!(storage_key(b"/%4z"), b"%4z".to_vec());
    assert_eq!(storage_key(b"/%%41"), b"%A".to_vec());
    assert_eq!(storage_key(b"/%4%41"), b"%4A".to_vec());
    assert_eq!(storage_key(b"/%g1%41"), b"%g1A".to_vec());
    assert_eq!(storage_key(b"/%2541"), b"%41".to_vec());
}

#[test]
fn dispatch_serves_local_keys_and_redirects_the_others() {
    assert!(matches!(dispatch(RouteDest::Local, Method::Get, "/k"), Dispatch::Local));
    for (method, op) in [
        (Method::Get, Operation::Get),
        (Method::Put, Operation::Put),
        (Method::Delete, Operation::Delete),
        (Method::Other, Operation::Unknown),
    ] {
        assert_eq!(operation_of(method), op);
        let d = dispatch(
            RouteDest::RemoteAddr("http://10.0.0.2:7654".to_string()),
            method,
            "/multiple/level/key",
        );
        match d {
            Dispatch::Redirect(s) => {
                assert_eq!(s.reply.status, 307);
                assert_eq!(
                    s.reply.location.as_deref(),
                    Some("http://10.0.0.2:7654/multiple/level/key")
                );
                assert_eq!(text(&s.reply), "307 Temporary Redirect");
                assert_eq!((s.operation, s.status, s.bytes), (op, Outcome::Redirect, None));
            }
            Dispatch::Local => panic!("expected a redirect"),
        }
    }
}
