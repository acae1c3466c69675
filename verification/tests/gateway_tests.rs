use kv_gateway::gateway::error_response;
use kv_gateway::gateway::respond_get;
use kv_gateway::gateway::respond_set;
use kv_gateway::gateway::GatewayError;
use kv_gateway::gateway::GatewayState;
use kv_gateway::gateway::GetRequest;
use kv_gateway::gateway::SetRequest;
use kv_gateway::store::BackendError;
use kv_gateway::store::MemStore;
use kv_gateway::store::StoreApi;

#[test]
fn set_then_get_round_trip() {
    let mut store = MemStore::new();
    assert!(store.set(&b"k".to_vec(), &b"v".to_vec()).is_ok());
    let got = store.get(&b"k".to_vec());
    assert_eq!(got.ok(), Some(b"v".to_vec()));
}

#[test]
fn set_overwrites_prior_value() {
    let mut store = MemStore::new();
    assert!(store.set(&b"k".to_vec(), &b"first".to_vec()).is_ok());
    assert!(store.set(&b"k".to_vec(), &b"second".to_vec()).is_ok());
    assert_eq!(store.get(&b"k".to_vec()).ok(), Some(b"second".to_vec()));
}

#[test]
fn set_leaves_other_keys_alone() {
    let mut store = MemStore::new();
    assert!(store.set(&b"a".to_vec(), &b"1".to_vec()).is_ok());
    assert!(store.set(&b"b".to_vec(), &b"2".to_vec()).is_ok());
    assert_eq!(store.get(&b"a".to_vec()).ok(), Some(b"1".to_vec()));
    assert_eq!(store.get(&b"b".to_vec()).ok(), Some(b"2".to_vec()));
}

#[test]
fn get_on_never_written_key_fails() {
    let mut store = MemStore::new();
    let got = store.get(&b"missing".to_vec());
    let err = got.err().expect("a key never written must fail");
    assert!(!err.detail.is_empty());
}

#[test]
fn handler_round_trip_scenario() {
    let mut gw = GatewayState::new(MemStore::new());
    let post = gw.handle_set_body(&b"{\"key\":\"a\",\"value\":\"1\"}".to_vec());
    assert_eq!(post.status, 200);
    assert_eq!(post.body, b"null".to_vec());
    let get = gw.handle_get_body(&b"{\"key\":\"a\"}".to_vec());
    assert_eq!(get.status, 200);
    assert_eq!(get.body, b"{\"key\":\"a\",\"value\":\"1\"}".to_vec());
}

#[test]
fn handler_get_missing_key_is_500_with_detail() {
    let mut gw = GatewayState::new(MemStore::new());
    let reply = gw.handle_get_body(&b"{\"key\":\"missing\"}".to_vec());
    assert_eq!(reply.status, 500);
    assert_eq!(
        reply.body,
        b"\"Failed to retrieve value: key not found\"".to_vec()
    );
}

#[test]
fn handler_malformed_get_body_is_400() {
    let mut gw = GatewayState::new(MemStore::new());
    let reply = gw.handle_get_body(&b"{oops".to_vec());
    assert_eq!(reply.status, 400);
    assert_eq!(reply.body, b"\"Invalid request body\"".to_vec());
}

#[test]
fn handler_malformed_set_body_is_400() {
    let mut gw = GatewayState::new(MemStore::new());
    let reply = gw.handle_set_body(&b"{\"key\":\"a\"}".to_vec());
    assert_eq!(reply.status, 400);
    assert_eq!(reply.body, b"\"Invalid request body\"".to_vec());
    let get = gw.handle_get_body(&b"{\"key\":\"a\"}".to_vec());
    assert_eq!(get.status, 500);
}

#[test]
fn typed_handlers_round_trip() {
    let mut gw = GatewayState::new(MemStore::new());
    let post = gw.set_value(&SetRequest { key: b"k".to_vec(), value: b"v\"w".to_vec() });
    assert_eq!(post.status, 200);
    let get = gw.get_value(&GetRequest { key: b"k".to_vec() });
    assert_eq!(get.status, 200);
    assert_eq!(get.body, b"{\"key\":\"k\",\"value\":\"v\\\"w\"}".to_vec());
}

#[test]
fn unreachable_backend_maps_to_500_on_both_routes() {
    let failure = || BackendError { detail: b"connection refused".to_vec() };
    let get = respond_get(&b"k".to_vec(), Err(failure()));
    assert_eq!(get.status, 500);
    assert_eq!(
        get.body,
        b"\"Failed to retrieve value: connection refused\"".to_vec()
    );
    let set = respond_set(Err(failure()));
    assert_eq!(set.status, 500);
    assert_eq!(
        set.body,
        b"\"Failed to retrieve value: connection refused\"".to_vec()
    );
}

#[test]
fn lock_failure_maps_to_generic_500() {
    let reply = error_response(&GatewayError::LockFailure);
    assert_eq!(reply.status, 500);
    assert_eq!(reply.body, b"\"Internal server error\"".to_vec());
}

#[test]
fn backend_failure_detail_is_escaped_in_body() {
    let err = BackendError { detail: b"broken \"pipe\"\n".to_vec() };
    let reply = error_response(&GatewayError::BackendFailure(err));
    assert_eq!(reply.status, 500);
    assert_eq!(
        reply.body,
        b"\"Failed to retrieve value: broken \\\"pipe\\\"\\n\"".to_vec()
    );
}
