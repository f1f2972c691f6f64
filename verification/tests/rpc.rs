use solana_validator::accounts::account::{random_pubkey, Account};
use solana_validator::accounts::store::AccountsDB;
use solana_validator::rpc::handler::{JsonValue, RpcError, RpcHandler, RpcId, RpcRequest, RpcResponse};
use solana_validator::rpc::server::{find_json_body, http_bad_request, http_ok_response};

fn request(method: &str, params: Option<JsonValue>) -> RpcRequest {
    RpcRequest { jsonrpc: "2.0".to_string(), method: method.to_string(), params, id: Some(RpcId::Number(1)) }
}

fn field<'a>(v: &'a JsonValue, key: &str) -> &'a JsonValue {
    match v {
        JsonValue::Object(fields) => &fields.iter().find(|(k, _)| k == key).expect("field present").1,
        _ => panic!("expected an object"),
    }
}

fn key_param(key: &[u8; 32]) -> Option<JsonValue> {
    Some(JsonValue::Array(vec![JsonValue::Str(hex::encode(key))]))
}

#[test]
fn test_get_health() {
    let handler = RpcHandler::new(AccountsDB::new(), [0u8; 32]);
    let resp = handler.handle(&request("getHealth", None));
    assert!(resp.result.is_some());
    match resp.result.unwrap() {
        JsonValue::Str(s) => assert_eq!(s, "ok"),
        _ => panic!("expected a string"),
    }
}

#[test]
fn test_get_version() {
    let handler = RpcHandler::new(AccountsDB::new(), [0u8; 32]);
    let resp = handler.handle(&request("getVersion", None));
    let result = resp.result.unwrap();
    match field(&result, "solana-core") {
        JsonValue::Str(s) => assert_eq!(s, "0.1.0-custom"),
        _ => panic!("expected a string"),
    }
}

#[test]
fn test_method_not_found() {
    let handler = RpcHandler::new(AccountsDB::new(), [0u8; 32]);
    let resp = handler.handle(&request("nonExistentMethod", None));
    assert!(resp.error.is_some());
    let err = resp.error.unwrap();
    assert_eq!(err.code, -32601);
    assert_eq!(err.message, "Method not found: nonExistentMethod");
}

#[test]
fn test_get_account_info() {
    let mut db = AccountsDB::new();
    let key = random_pubkey();
    let acc = Account::new_system_account(key, 1_000_000);
    db.store(key, &acc);
    let handler = RpcHandler::new(db, [0u8; 32]);

    let resp = handler.handle(&request("getAccountInfo", key_param(&key)));
    let result = resp.result.unwrap();
    assert!(matches!(field(&result, "lamports"), JsonValue::Number(1_000_000)));
}

#[test]
fn test_get_balance() {
    let mut db = AccountsDB::new();
    let key = random_pubkey();
    let acc = Account::new_system_account(key, 500);
    db.store(key, &acc);
    let handler = RpcHandler::new(db, [0u8; 32]);

    let resp = handler.handle(&request("getBalance", key_param(&key)));
    let result = resp.result.unwrap();
    assert!(matches!(field(&result, "lamports"), JsonValue::Number(500)));
}

// Bad or missing keys are invalid parameters; an unknown account has no
// info and a zero balance.
#[test]
fn account_params_errors() {
    let handler = RpcHandler::new(AccountsDB::new(), [0u8; 32]);
    let resp = handler.handle(&request("getBalance", None));
    let err = resp.error.unwrap();
    assert_eq!(err.code, -32602);
    assert_eq!(err.message, "Missing pubkey parameter");

    let bad = Some(JsonValue::Array(vec![JsonValue::Str("zz".to_string())]));
    let err = handler.handle(&request("getAccountInfo", bad)).error.unwrap();
    assert_eq!(err.message, "Invalid pubkey");

    let short = Some(JsonValue::Array(vec![JsonValue::Str("abcd".to_string())]));
    let err = handler.handle(&request("getAccountInfo", short)).error.unwrap();
    assert_eq!(err.message, "Invalid pubkey");

    let unknown = [9u8; 32];
    let resp = handler.handle(&request("getAccountInfo", key_param(&unknown)));
    assert!(matches!(resp.result, Some(JsonValue::Null)));
    let resp = handler.handle(&request("getBalance", key_param(&unknown)));
    assert!(matches!(field(&resp.result.unwrap(), "lamports"), JsonValue::Number(0)));
}

// Upper-case hex keys are accepted too.
#[test]
fn upper_case_key_accepted() {
    let mut db = AccountsDB::new();
    let key = [0xABu8; 32];
    db.store(key, &Account::new_system_account(key, 12));
    let handler = RpcHandler::new(db, [0u8; 32]);
    let p = Some(JsonValue::Array(vec![JsonValue::Str(hex::encode_upper(key))]));
    let resp = handler.handle(&request("getBalance", p));
    assert!(matches!(field(&resp.result.unwrap(), "lamports"), JsonValue::Number(12)));
}

// Slot-based answers follow the slot set.
#[test]
fn slot_and_epoch_info() {
    let mut handler = RpcHandler::new(AccountsDB::new(), [1u8; 32]);
    handler.update_slot(432_005);
    let resp = handler.handle(&request("getSlot", None));
    assert!(matches!(resp.result, Some(JsonValue::Number(432_005))));
    let resp = handler.handle(&request("getEpochInfo", None));
    let r = resp.result.unwrap();
    assert!(matches!(field(&r, "epoch"), JsonValue::Number(1)));
    assert!(matches!(field(&r, "slotIndex"), JsonValue::Number(5)));
    assert!(matches!(field(&r, "slotsInEpoch"), JsonValue::Number(432_000)));
    let resp = handler.handle(&request("getIdentity", None));
    match field(&resp.result.unwrap(), "identity") {
        JsonValue::Str(s) => assert_eq!(s, &"01".repeat(32)),
        _ => panic!("expected a string"),
    }
}

// The response echoes the request's id.
#[test]
fn response_echoes_id() {
    let handler = RpcHandler::new(AccountsDB::new(), [0u8; 32]);
    let mut req = request("getTransaction", None);
    req.id = Some(RpcId::Str("abc".to_string()));
    let resp = handler.handle(&req);
    assert!(matches!(resp.id, Some(RpcId::Str(ref s)) if s == "abc"));
    assert!(matches!(resp.result, Some(JsonValue::Null)));
    assert_eq!(resp.jsonrpc, "2.0");
}

#[test]
fn response_constructors() {
    let ok = RpcResponse::success(None, JsonValue::Bool(true));
    assert!(ok.error.is_none());
    let e = RpcResponse::error(None, RpcError::internal_error("boom"));
    assert_eq!(e.error.unwrap().code, -32603);
    assert_eq!(RpcError::invalid_params("p").message, "p");
}

// The body starts after the blank line ending the headers, or at a bare `{`.
#[test]
fn json_body_is_found() {
    let req = b"POST / HTTP/1.1\r\nHost: x\r\n\r\n{\"a\":1}";
    assert_eq!(find_json_body(req), Some(28));
    assert_eq!(find_json_body(b"{\"a\":1}"), Some(0));
    assert_eq!(find_json_body(b"garbage"), None);
    assert_eq!(find_json_body(b""), None);
    assert_eq!(find_json_body(b"\r\n\r\n"), Some(4));
}

// The HTTP answer frames the JSON with its length in bytes.
#[test]
fn http_framing() {
    let r = http_ok_response("{\"x\":\"\u{e9}\"}");
    assert_eq!(r, "HTTP/1.1 200 OK\r\nContent-Type: application/json\r\nContent-Length: 10\r\n\r\n{\"x\":\"\u{e9}\"}");
    assert_eq!(http_bad_request(), "HTTP/1.1 400 Bad Request\r\n\r\n");
}
