//! JSON-RPC 2.0 requests and the answer the validator gives to each method.

use crate::accounts::account::{AccountView, Pubkey};
use crate::accounts::store::AccountsDB;
use crate::crypto::{hex_decode, hex_decoded, hex_encode, hex_lower};
use vstd::prelude::*;
use vstd::string::StringExecFns;

verus! {

/// Slots in an epoch, as reported by `getEpochInfo`.
pub const SLOTS_PER_EPOCH: u64 = 432000;

/// A JSON value.
#[derive(Debug)]
pub enum JsonValue {
    Null,
    Bool(bool),
    Number(u64),
    Str(String),
    Array(Vec<JsonValue>),
    Object(Vec<(String, JsonValue)>),
}

/// A request id: a number, a string, null, or any other JSON value kept as
/// its JSON text.
#[derive(Debug)]
pub enum RpcId {
    Number(u64),
    Str(String),
    Null,
    Other(String),
}

impl Clone for RpcId {
    fn clone(&self) -> (r: Self)
        ensures
            r == *self,
    {
        match self {
            RpcId::Number(n) => RpcId::Number(*n),
            RpcId::Str(s) => RpcId::Str(s.clone()),
            RpcId::Null => RpcId::Null,
            RpcId::Other(s) => RpcId::Other(s.clone()),
        }
    }
}

/// A JSON-RPC 2.0 request.
#[derive(Debug)]
pub struct RpcRequest {
    pub jsonrpc: String,
    pub method: String,
    pub params: Option<JsonValue>,
    pub id: Option<RpcId>,
}

/// A JSON-RPC 2.0 response.
#[derive(Debug)]
pub struct RpcResponse {
    pub jsonrpc: String,
    pub result: Option<JsonValue>,
    pub error: Option<RpcError>,
    pub id: Option<RpcId>,
}

/// A JSON-RPC error.
#[derive(Debug)]
pub struct RpcError {
    pub code: i32,
    pub message: String,
    pub data: Option<JsonValue>,
}

/// The code for an unknown method.
pub const METHOD_NOT_FOUND: i32 = -32601;

/// The code for bad parameters.
pub const INVALID_PARAMS: i32 = -32602;

/// The code for an internal failure.
pub const INTERNAL_ERROR: i32 = -32603;

/// `v` is the JSON string `t`.
pub open spec fn is_text(v: JsonValue, t: Seq<char>) -> bool {
    v matches JsonValue::Str(s) && s@ == t
}

/// Field `i` of an object's fields has key `key`.
pub open spec fn key_at(fields: Seq<(String, JsonValue)>, i: int, key: Seq<char>) -> bool {
    fields[i].0@ == key
}

/// The text of `s` followed by that of `t`.
fn concat(s: &str, t: &str) -> (r: String)
    ensures
        r@ == s@ + t@,
{
    let mut r = String::from_str(s);
    r.append(t);
    r
}

impl RpcError {
    /// The error for an unknown method, naming it.
    pub fn method_not_found(method: &str) -> (e: Self)
        ensures
            e.code == METHOD_NOT_FOUND,
            e.message@ == "Method not found: "@ + method@,
            e.data is None,
    {
        RpcError { code: METHOD_NOT_FOUND, message: concat("Method not found: ", method), data: None }
    }

    /// The error for bad parameters.
    pub fn invalid_params(msg: &str) -> (e: Self)
        ensures
            e.code == INVALID_PARAMS,
            e.message@ == msg@,
            e.data is None,
    {
        RpcError { code: INVALID_PARAMS, message: String::from_str(msg), data: None }
    }

    /// The error for an internal failure.
    pub fn internal_error(msg: &str) -> (e: Self)
        ensures
            e.code == INTERNAL_ERROR,
            e.message@ == msg@,
            e.data is None,
    {
        RpcError { code: INTERNAL_ERROR, message: String::from_str(msg), data: None }
    }
}

impl RpcResponse {
    /// A successful response.
    pub fn success(id: Option<RpcId>, result: JsonValue) -> (r: Self)
        ensures
            r.jsonrpc@ == "2.0"@,
            r.result == Some(result),
            r.error is None,
            r.id == id,
    {
        RpcResponse { jsonrpc: String::from_str("2.0"), result: Some(result), error: None, id }
    }

    /// An error response.
    pub fn error(id: Option<RpcId>, error: RpcError) -> (r: Self)
        ensures
            r.jsonrpc@ == "2.0"@,
            r.result is None,
            r.error == Some(error),
            r.id == id,
    {
        RpcResponse { jsonrpc: String::from_str("2.0"), result: None, error: Some(error), id }
    }
}

/// What the handler answers from: the accounts, the current slot and the
/// validator's identity.
pub struct HandlerView {
    pub accounts: Map<Pubkey, AccountView>,
    pub slot: u64,
    pub identity: Pubkey,
}

/// The JSON-RPC method handler.
pub struct RpcHandler {
    accounts: AccountsDB,
    slot: u64,
    identity: Pubkey,
}

impl View for RpcHandler {
    type V = HandlerView;

    closed spec fn view(&self) -> HandlerView {
        HandlerView { accounts: self.accounts@.accounts, slot: self.slot, identity: self.identity }
    }
}

/// The first parameter, when the parameters are an array whose first
/// element is a string.
pub open spec fn first_param(params: Option<JsonValue>) -> Option<Seq<char>> {
    match params {
        Some(JsonValue::Array(items)) => if items@.len() > 0 {
            match items@[0] {
                JsonValue::Str(s) => Some(s@),
                _ => None,
            }
        } else {
            None
        },
        _ => None,
    }
}

/// The key a parameter names: 32 bytes in hex.
pub open spec fn param_key(p: Seq<char>) -> Option<Seq<u8>> {
    match hex_decoded(p) {
        Some(b) => if b.len() == 32 {
            Some(b)
        } else {
            None
        },
        None => None,
    }
}

/// `resp` is an error response with `code` and `message`, echoing `id`.
pub open spec fn is_error(resp: RpcResponse, id: Option<RpcId>, code: i32, message: Seq<char>) -> bool {
    &&& resp.jsonrpc@ == "2.0"@
    &&& resp.id == id
    &&& resp.result is None
    &&& resp.error matches Some(e) && e.code == code && e.message@ == message && e.data is None
}

/// `resp` is a successful response echoing `id`.
pub open spec fn is_success(resp: RpcResponse, id: Option<RpcId>) -> bool {
    &&& resp.jsonrpc@ == "2.0"@
    &&& resp.id == id
    &&& resp.error is None
    &&& resp.result is Some
}

/// The result a response carries.
pub open spec fn result_of(resp: RpcResponse) -> JsonValue {
    resp.result->0
}

/// The account stored under the key whose bytes are `k`.
pub open spec fn account_for(accounts: Map<Pubkey, AccountView>, k: Seq<u8>) -> Option<AccountView> {
    let key = choose|key: Pubkey| key@ == k;
    if accounts.contains_key(key) {
        Some(accounts[key])
    } else {
        None
    }
}

/// The `getVersion` result.
pub open spec fn version_result(v: JsonValue) -> bool {
    v matches JsonValue::Object(f) && {
        &&& f@.len() == 2
        &&& key_at(f@, 0, "solana-core"@) && is_text(f@[0].1, "0.1.0-custom"@)
        &&& key_at(f@, 1, "feature-set"@) && is_text(f@[1].1, "custom-validator"@)
    }
}

/// The `getIdentity` result: the identity in lowercase hex.
pub open spec fn identity_result(v: JsonValue, identity: Pubkey) -> bool {
    v matches JsonValue::Object(f) && {
        &&& f@.len() == 1
        &&& key_at(f@, 0, "identity"@) && is_text(f@[0].1, hex_lower(identity@))
    }
}

/// The `getClusterNodes` result: this validator alone.
pub open spec fn cluster_result(v: JsonValue, identity: Pubkey) -> bool {
    v matches JsonValue::Array(nodes) && nodes@.len() == 1 && (nodes@[0] matches JsonValue::Object(f) && {
        &&& f@.len() == 7
        &&& key_at(f@, 0, "pubkey"@) && is_text(f@[0].1, hex_lower(identity@))
        &&& key_at(f@, 1, "gossip"@) && is_text(f@[1].1, "127.0.0.1:8000"@)
        &&& key_at(f@, 2, "tpu"@) && is_text(f@[2].1, "127.0.0.1:8001"@)
        &&& key_at(f@, 3, "rpc"@) && is_text(f@[3].1, "127.0.0.1:8002"@)
        &&& key_at(f@, 4, "version"@) && is_text(f@[4].1, "0.1.0-custom"@)
        &&& key_at(f@, 5, "featureSet"@) && f@[5].1 == JsonValue::Number(0)
        &&& key_at(f@, 6, "shredVersion"@) && f@[6].1 == JsonValue::Number(0)
    })
}

/// The `getAccountInfo` result for a stored account.
pub open spec fn account_info_result(v: JsonValue, a: AccountView) -> bool {
    v matches JsonValue::Object(f) && {
        &&& f@.len() == 4
        &&& key_at(f@, 0, "lamports"@) && f@[0].1 == JsonValue::Number(a.lamports)
        &&& key_at(f@, 1, "owner"@) && is_text(f@[1].1, hex_lower(a.owner))
        &&& key_at(f@, 2, "executable"@) && f@[2].1 == JsonValue::Bool(a.executable)
        &&& key_at(f@, 3, "rentEpoch"@) && f@[3].1 == JsonValue::Number(a.rent_epoch)
    }
}

/// The `getBalance` result.
pub open spec fn balance_result(v: JsonValue, lamports: u64) -> bool {
    v matches JsonValue::Object(f) && {
        &&& f@.len() == 1
        &&& key_at(f@, 0, "lamports"@) && f@[0].1 == JsonValue::Number(lamports)
    }
}

/// The `getEpochInfo` result for a slot.
pub open spec fn epoch_result(v: JsonValue, slot: u64) -> bool {
    v matches JsonValue::Object(f) && {
        &&& f@.len() == 7
        &&& key_at(f@, 0, "slot"@) && f@[0].1 == JsonValue::Number(slot)
        &&& key_at(f@, 1, "epoch"@) && f@[1].1 == JsonValue::Number((slot / SLOTS_PER_EPOCH) as u64)
        &&& key_at(f@, 2, "slotIndex"@) && f@[2].1 == JsonValue::Number((slot % SLOTS_PER_EPOCH) as u64)
        &&& key_at(f@, 3, "slotsInEpoch"@) && f@[3].1 == JsonValue::Number(SLOTS_PER_EPOCH)
        &&& key_at(f@, 4, "absoluteSlot"@) && f@[4].1 == JsonValue::Number(slot)
        &&& key_at(f@, 5, "blockHeight"@) && f@[5].1 == JsonValue::Number(slot)
        &&& key_at(f@, 6, "transactionCount"@) && f@[6].1 == JsonValue::Number(0)
    }
}

/// The answer to a request naming an account: an error if the first
/// parameter is missing or not a 32-byte hex key; else, for
/// `getAccountInfo` (`info`), the account's fields or null, and for
/// `getBalance`, its balance or zero.
pub open spec fn keyed_answer(h: HandlerView, req: RpcRequest, resp: RpcResponse, info: bool) -> bool {
    match first_param(req.params) {
        None => is_error(resp, req.id, INVALID_PARAMS, "Missing pubkey parameter"@),
        Some(p) => match param_key(p) {
            None => is_error(resp, req.id, INVALID_PARAMS, "Invalid pubkey"@),
            Some(k) => {
                &&& is_success(resp, req.id)
                &&& if info {
                    match account_for(h.accounts, k) {
                        Some(a) => account_info_result(result_of(resp), a),
                        None => result_of(resp) == JsonValue::Null,
                    }
                } else {
                    balance_result(
                        result_of(resp),
                        match account_for(h.accounts, k) {
                            Some(a) => a.lamports,
                            None => 0,
                        },
                    )
                }
            },
        },
    }
}

/// The answer to each method.
pub open spec fn answers(h: HandlerView, req: RpcRequest, resp: RpcResponse) -> bool {
    let m = req.method@;
    if m == "getHealth"@ {
        is_success(resp, req.id) && is_text(result_of(resp), "ok"@)
    } else if m == "getVersion"@ {
        is_success(resp, req.id) && version_result(result_of(resp))
    } else if m == "getIdentity"@ {
        is_success(resp, req.id) && identity_result(result_of(resp), h.identity)
    } else if m == "getSlot"@ || m == "getBlockHeight"@ {
        is_success(resp, req.id) && result_of(resp) == JsonValue::Number(h.slot)
    } else if m == "getClusterNodes"@ {
        is_success(resp, req.id) && cluster_result(result_of(resp), h.identity)
    } else if m == "getAccountInfo"@ {
        keyed_answer(h, req, resp, true)
    } else if m == "getBalance"@ {
        keyed_answer(h, req, resp, false)
    } else if m == "getAccountCount"@ {
        is_success(resp, req.id) && result_of(resp) == JsonValue::Number(h.accounts.dom().len() as u64)
    } else if m == "sendTransaction"@ {
        is_success(resp, req.id) && is_text(result_of(resp), "transaction_received"@)
    } else if m == "getTransaction"@ {
        is_success(resp, req.id) && result_of(resp) == JsonValue::Null
    } else if m == "getEpochInfo"@ {
        is_success(resp, req.id) && epoch_result(result_of(resp), h.slot)
    } else {
        is_error(resp, req.id, METHOD_NOT_FOUND, "Method not found: "@ + m)
    }
}

/// Whether `s` holds the text `t`.
fn text_is(s: &String, t: &str) -> (b: bool)
    ensures
        b == (s@ == t@),
{
    let lit = String::from_str(t);
    *s == lit
}

/// A text value.
fn text(t: &str) -> (v: JsonValue)
    ensures
        is_text(v, t@),
{
    JsonValue::Str(String::from_str(t))
}

/// A field of an object.
fn field(key: &str, value: JsonValue) -> (f: (String, JsonValue))
    ensures
        f.0@ == key@,
        f.1 == value,
{
    (String::from_str(key), value)
}

/// The 32-byte key held in a vector of 32 bytes.
fn key_from(bytes: &Vec<u8>) -> (key: Pubkey)
    requires
        bytes@.len() == 32,
    ensures
        key@ == bytes@,
{
    let mut key = [0u8; 32];
    let mut i: usize = 0;
    while i < 32
        invariant
            bytes@.len() == 32,
            i <= 32,
            forall|j: int| 0 <= j < i ==> key@[j] == bytes@[j],
        decreases 32 - i,
    {
        key.set(i, bytes[i]);
        i = i + 1;
    }
    assert(key@ =~= bytes@);
    key
}

/// The key named by the first parameter, or the error to answer with.
fn requested_key(req: &RpcRequest) -> (r: Result<Pubkey, RpcError>)
    ensures
        match r {
            Ok(key) => first_param(req.params) matches Some(p) && param_key(p) == Some(key@),
            Err(e) => e.code == INVALID_PARAMS && e.data is None && match first_param(req.params) {
                None => e.message@ == "Missing pubkey parameter"@,
                Some(p) => param_key(p) is None && e.message@ == "Invalid pubkey"@,
            },
        },
{
    let param = match &req.params {
        Some(JsonValue::Array(items)) => {
            if items.len() > 0 {
                match &items[0] {
                    JsonValue::Str(s) => Some(s),
                    _ => None,
                }
            } else {
                None
            }
        },
        _ => None,
    };
    let text = match param {
        Some(s) => s,
        None => {
            return Err(RpcError::invalid_params("Missing pubkey parameter"));
        },
    };
    match hex_decode(text.as_str()) {
        Ok(bytes) => {
            if bytes.len() == 32 {
                Ok(key_from(&bytes))
            } else {
                Err(RpcError::invalid_params("Invalid pubkey"))
            }
        },
        Err(_) => Err(RpcError::invalid_params("Invalid pubkey")),
    }
}

impl RpcHandler {
    /// The database is well formed.
    pub closed spec fn wf(&self) -> bool {
        self.accounts.wf()
    }

    /// A handler over the accounts for the validator `identity`, at slot 0.
    pub fn new(accounts: AccountsDB, identity: Pubkey) -> (h: Self)
        requires
            accounts.wf(),
        ensures
            h.wf(),
            h@.accounts == accounts@.accounts,
            h@.slot == 0,
            h@.identity == identity,
    {
        RpcHandler { accounts, slot: 0, identity }
    }

    /// Answers a request.
    pub fn handle(&self, request: &RpcRequest) -> (resp: RpcResponse)
        requires
            self.wf(),
        ensures
            answers(self@, *request, resp),
    {
        let m = &request.method;
        let id = match &request.id {
            Some(i) => Some(i.clone()),
            None => None,
        };
        if text_is(m, "getHealth") {
            RpcResponse::success(id, text("ok"))
        } else if text_is(m, "getVersion") {
            let mut f: Vec<(String, JsonValue)> = Vec::new();
            f.push(field("solana-core", text("0.1.0-custom")));
            f.push(field("feature-set", text("custom-validator")));
            RpcResponse::success(id, JsonValue::Object(f))
        } else if text_is(m, "getIdentity") {
            let mut f: Vec<(String, JsonValue)> = Vec::new();
            f.push(field("identity", JsonValue::Str(hex_encode(&self.identity))));
            RpcResponse::success(id, JsonValue::Object(f))
        } else if text_is(m, "getSlot") || text_is(m, "getBlockHeight") {
            RpcResponse::success(id, JsonValue::Number(self.slot))
        } else if text_is(m, "getClusterNodes") {
            let mut f: Vec<(String, JsonValue)> = Vec::new();
            f.push(field("pubkey", JsonValue::Str(hex_encode(&self.identity))));
            f.push(field("gossip", text("127.0.0.1:8000")));
            f.push(field("tpu", text("127.0.0.1:8001")));
            f.push(field("rpc", text("127.0.0.1:8002")));
            f.push(field("version", text("0.1.0-custom")));
            f.push(field("featureSet", JsonValue::Number(0)));
            f.push(field("shredVersion", JsonValue::Number(0)));
            let mut nodes: Vec<JsonValue> = Vec::new();
            nodes.push(JsonValue::Object(f));
            RpcResponse::success(id, JsonValue::Array(nodes))
        } else if text_is(m, "getAccountInfo") {
            let key = match requested_key(request) {
                Ok(k) => k,
                Err(e) => {
                    return RpcResponse::error(id, e);
                },
            };
            proof {
                let chosen = choose|k: Pubkey| k@ == key@;
                assert(exists|k: Pubkey| k@ == key@) by {
                    assert(key@ == key@);
                }
                crate::crypto::lemma_array32_eq(key, chosen);
            }
            match self.accounts.load(&key) {
                Some(account) => {
                    let mut f: Vec<(String, JsonValue)> = Vec::new();
                    f.push(field("lamports", JsonValue::Number(account.lamports)));
                    f.push(field("owner", JsonValue::Str(hex_encode(&account.owner))));
                    f.push(field("executable", JsonValue::Bool(account.executable)));
                    f.push(field("rentEpoch", JsonValue::Number(account.rent_epoch)));
                    RpcResponse::success(id, JsonValue::Object(f))
                },
                None => RpcResponse::success(id, JsonValue::Null),
            }
        } else if text_is(m, "getBalance") {
            let key = match requested_key(request) {
                Ok(k) => k,
                Err(e) => {
                    return RpcResponse::error(id, e);
                },
            };
            proof {
                let chosen = choose|k: Pubkey| k@ == key@;
                assert(exists|k: Pubkey| k@ == key@) by {
                    assert(key@ == key@);
                }
                crate::crypto::lemma_array32_eq(key, chosen);
            }
            let balance = match self.accounts.load(&key) {
                Some(account) => account.lamports,
                None => 0,
            };
            let mut f: Vec<(String, JsonValue)> = Vec::new();
            f.push(field("lamports", JsonValue::Number(balance)));
            RpcResponse::success(id, JsonValue::Object(f))
        } else if text_is(m, "getAccountCount") {
            RpcResponse::success(id, JsonValue::Number(self.accounts.account_count()))
        } else if text_is(m, "sendTransaction") {
            RpcResponse::success(id, text("transaction_received"))
        } else if text_is(m, "getTransaction") {
            RpcResponse::success(id, JsonValue::Null)
        } else if text_is(m, "getEpochInfo") {
            let slot = self.slot;
            let mut f: Vec<(String, JsonValue)> = Vec::new();
            f.push(field("slot", JsonValue::Number(slot)));
            f.push(field("epoch", JsonValue::Number(slot / SLOTS_PER_EPOCH)));
            f.push(field("slotIndex", JsonValue::Number(slot % SLOTS_PER_EPOCH)));
            f.push(field("slotsInEpoch", JsonValue::Number(SLOTS_PER_EPOCH)));
            f.push(field("absoluteSlot", JsonValue::Number(slot)));
            f.push(field("blockHeight", JsonValue::Number(slot)));
            f.push(field("transactionCount", JsonValue::Number(0)));
            RpcResponse::success(id, JsonValue::Object(f))
        } else {
            RpcResponse::error(id, RpcError::method_not_found(m.as_str()))
        }
    }

    /// Sets the current slot.
    pub fn update_slot(&mut self, slot: u64)
        ensures
            final(self)@ == (HandlerView { slot, ..old(self)@ }),
            final(self).wf() == old(self).wf(),
    {
        self.slot = slot;
    }

    /// The accounts answered from.
    pub fn accounts(&self) -> (db: &AccountsDB)
        ensures
            db@.accounts == self@.accounts,
            self.wf() ==> db.wf(),
    {
        &self.accounts
    }
}

} // verus!
