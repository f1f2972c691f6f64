//! Account data structures, their hash, and their storage encoding.

use crate::crypto::{append_bytes, append_u64_le, sha256, sha256_digest};
use vstd::bytes::{
    lemma_auto_spec_u32_to_from_le_bytes, lemma_auto_spec_u64_to_from_le_bytes,
    spec_u32_from_le_bytes, spec_u32_to_le_bytes, spec_u64_from_le_bytes, spec_u64_to_le_bytes,
};
use vstd::prelude::*;
use vstd::slice::{slice_subrange, slice_to_vec};

verus! {

/// Account public key (32 bytes).
pub type Pubkey = [u8; 32];

/// Account state.
#[derive(Debug)]
pub struct Account {
    /// Balance in lamports.
    pub lamports: u64,
    /// Owner program.
    pub owner: Pubkey,
    /// Whether the account is a program.
    pub executable: bool,
    /// Epoch at which rent was last calculated.
    pub rent_epoch: u64,
    /// Payload.
    pub data: AccountData,
}

/// Account payload.
#[derive(Debug)]
pub enum AccountData {
    /// A wallet: balance only.
    System,
    /// Executable code.
    Program(Vec<u8>),
    /// A token account.
    Token { mint: Pubkey, authority: Pubkey, amount: u64 },
    /// Generic data.
    Data(Vec<u8>),
}

/// An account's payload as values.
pub enum AccountDataView {
    System,
    Program(Seq<u8>),
    Token { mint: Seq<u8>, authority: Seq<u8>, amount: u64 },
    Data(Seq<u8>),
}

/// An account as values.
pub struct AccountView {
    pub lamports: u64,
    pub owner: Seq<u8>,
    pub executable: bool,
    pub rent_epoch: u64,
    pub data: AccountDataView,
}

impl View for AccountData {
    type V = AccountDataView;

    open spec fn view(&self) -> AccountDataView {
        match self {
            AccountData::System => AccountDataView::System,
            AccountData::Program(code) => AccountDataView::Program(code@),
            AccountData::Token { mint, authority, amount } => AccountDataView::Token {
                mint: mint@,
                authority: authority@,
                amount: *amount,
            },
            AccountData::Data(d) => AccountDataView::Data(d@),
        }
    }
}

impl View for Account {
    type V = AccountView;

    open spec fn view(&self) -> AccountView {
        AccountView {
            lamports: self.lamports,
            owner: self.owner@,
            executable: self.executable,
            rent_epoch: self.rent_epoch,
            data: self.data@,
        }
    }
}

impl AccountView {
    /// Keys are 32 bytes long.
    pub open spec fn wf(self) -> bool {
        &&& self.owner.len() == 32
        &&& match self.data {
            AccountDataView::Token { mint, authority, .. } => mint.len() == 32 && authority.len() == 32,
            AccountDataView::Program(c) => c.len() <= u64::MAX,
            AccountDataView::Data(d) => d.len() <= u64::MAX,
            AccountDataView::System => true,
        }
    }
}

/// The view of an account in memory is well formed: its byte strings have
/// lengths that fit a `usize`.
pub fn account_view_wf(a: &Account)
    ensures
        a@.wf(),
{
    match &a.data {
        AccountData::Program(code) => {
            let _n = code.len();
        },
        AccountData::Data(d) => {
            let _n = d.len();
        },
        _ => {},
    }
}

impl Clone for AccountData {
    fn clone(&self) -> (r: Self)
        ensures
            r@ == self@,
    {
        match self {
            AccountData::System => AccountData::System,
            AccountData::Program(code) => {
                let c = code.clone();
                assert(c@ =~= code@);
                AccountData::Program(c)
            },
            AccountData::Token { mint, authority, amount } => AccountData::Token {
                mint: *mint,
                authority: *authority,
                amount: *amount,
            },
            AccountData::Data(d) => {
                let c = d.clone();
                assert(c@ =~= d@);
                AccountData::Data(c)
            },
        }
    }
}

impl Clone for Account {
    fn clone(&self) -> (r: Self)
        ensures
            r@ == self@,
    {
        Account {
            lamports: self.lamports,
            owner: self.owner,
            executable: self.executable,
            rent_epoch: self.rent_epoch,
            data: self.data.clone(),
        }
    }
}

/// An account's owner key is 32 bytes, as are the keys of a token payload.
pub proof fn lemma_owner_len(a: Account)
    ensures
        a@.owner.len() == 32,
        a@.data matches AccountDataView::Token { mint, authority, .. } ==> mint.len() == 32
            && authority.len() == 32,
{
}

/// The system program's id.
pub open spec fn spec_system_program_id() -> Seq<u8> {
    Seq::new(32, |i: int| 1u8)
}

/// The token program's id.
pub open spec fn spec_token_program_id() -> Seq<u8> {
    Seq::new(32, |i: int| 2u8)
}

/// The system program id: 32 bytes of 1.
pub fn system_program_id() -> (id: Pubkey)
    ensures
        id@ == spec_system_program_id(),
{
    let id = [1u8; 32];
    assert(id@ =~= spec_system_program_id());
    id
}

/// The token program id: 32 bytes of 2.
pub fn token_program_id() -> (id: Pubkey)
    ensures
        id@ == spec_token_program_id(),
{
    let id = [2u8; 32];
    assert(id@ =~= spec_token_program_id());
    id
}

/// 32 random bytes from the thread-local generator of `rand`.
///
/// Trusted: nothing is stated about the bytes.
#[verifier::external_body]
fn random_bytes32() -> [u8; 32] {
    let mut key = [0u8; 32];
    rand::Rng::fill(&mut rand::rng(), &mut key);
    key
}

/// A random public key (for tests and tools).
pub fn random_pubkey() -> Pubkey {
    random_bytes32()
}

/// The ASCII bytes of the payload tags used in the account hash.
pub open spec fn tag_system() -> Seq<u8> {
    seq![115u8, 121u8, 115u8, 116u8, 101u8, 109u8]
}

pub open spec fn tag_program() -> Seq<u8> {
    seq![112u8, 114u8, 111u8, 103u8, 114u8, 97u8, 109u8]
}

pub open spec fn tag_token() -> Seq<u8> {
    seq![116u8, 111u8, 107u8, 101u8, 110u8]
}

pub open spec fn tag_data() -> Seq<u8> {
    seq![100u8, 97u8, 116u8, 97u8]
}

/// One byte for a flag: 1 or 0.
pub open spec fn bool_byte(b: bool) -> u8 {
    if b { 1u8 } else { 0u8 }
}

/// The bytes hashed for an account: lamports, owner, executable flag and
/// rent epoch, then a tag naming the payload and the payload itself.
pub open spec fn account_hash_input(a: AccountView) -> Seq<u8> {
    spec_u64_to_le_bytes(a.lamports) + a.owner + seq![bool_byte(a.executable)]
        + spec_u64_to_le_bytes(a.rent_epoch) + match a.data {
        AccountDataView::System => tag_system(),
        AccountDataView::Program(code) => tag_program() + code,
        AccountDataView::Token { mint, authority, amount } => tag_token() + mint + authority
            + spec_u64_to_le_bytes(amount),
        AccountDataView::Data(d) => tag_data() + d,
    }
}

/// The hash of an account.
pub open spec fn spec_account_hash(a: AccountView) -> Seq<u8> {
    sha256(account_hash_input(a))
}

/// The hash of an account is the SHA-256 of its lamports and rent epoch
/// as little-endian bytes around its owner and executable flag, then a tag
/// naming its payload and the payload: a token account's mint, authority
/// and, last, its amount as 8 little-endian bytes.
pub proof fn lemma_account_hash_layout(a: AccountView)
    requires
        a.wf(),
    ensures
        spec_account_hash(a) == sha256(account_hash_input(a)),
        ({
            let inp = account_hash_input(a);
            &&& inp.subrange(0, 8) == spec_u64_to_le_bytes(a.lamports)
            &&& inp.subrange(8, 40) == a.owner
            &&& inp[40] == (if a.executable {
                1u8
            } else {
                0u8
            })
            &&& inp.subrange(41, 49) == spec_u64_to_le_bytes(a.rent_epoch)
            &&& match a.data {
                AccountDataView::System => inp.len() == 55 && inp.subrange(49, 55) == tag_system(),
                AccountDataView::Program(code) => inp.len() == 56 + code.len() && inp.subrange(49, 56)
                    == tag_program() && inp.subrange(56, inp.len() as int) == code,
                AccountDataView::Token { mint, authority, amount } => {
                    &&& inp.len() == 126
                    &&& inp.subrange(49, 54) == tag_token()
                    &&& inp.subrange(54, 86) == mint
                    &&& inp.subrange(86, 118) == authority
                    &&& inp.subrange(118, 126) == spec_u64_to_le_bytes(amount)
                },
                AccountDataView::Data(d) => inp.len() == 53 + d.len() && inp.subrange(49, 53) == tag_data()
                    && inp.subrange(53, inp.len() as int) == d,
            }
        }),
{
    lemma_auto_spec_u64_to_from_le_bytes();
    let inp = account_hash_input(a);
    let head = spec_u64_to_le_bytes(a.lamports) + a.owner + seq![bool_byte(a.executable)]
        + spec_u64_to_le_bytes(a.rent_epoch);
    assert(head.len() == 49);
    assert(inp.subrange(0, 8) =~= spec_u64_to_le_bytes(a.lamports));
    assert(inp.subrange(8, 40) =~= a.owner);
    assert(inp[40] == bool_byte(a.executable));
    assert(inp.subrange(41, 49) =~= spec_u64_to_le_bytes(a.rent_epoch));
    match a.data {
        AccountDataView::System => {
            assert(inp.subrange(49, 55) =~= tag_system());
        },
        AccountDataView::Program(code) => {
            assert(inp.subrange(49, 56) =~= tag_program());
            assert(inp.subrange(56, inp.len() as int) =~= code);
        },
        AccountDataView::Token { mint, authority, amount } => {
            assert(inp.subrange(49, 54) =~= tag_token());
            assert(inp.subrange(54, 86) =~= mint);
            assert(inp.subrange(86, 118) =~= authority);
            assert(inp.subrange(118, 126) =~= spec_u64_to_le_bytes(amount));
        },
        AccountDataView::Data(d) => {
            assert(inp.subrange(49, 53) =~= tag_data());
            assert(inp.subrange(53, inp.len() as int) =~= d);
        },
    }
}

/// Two token accounts that differ only in their amount have different
/// hash inputs.
pub proof fn lemma_token_amount_in_hash(a: AccountView, b: AccountView)
    requires
        a.wf(),
        b.wf(),
        a.data is Token,
        b.data is Token,
        a.data->Token_amount != b.data->Token_amount,
    ensures
        account_hash_input(a) != account_hash_input(b),
{
    lemma_auto_spec_u64_to_from_le_bytes();
    lemma_account_hash_layout(a);
    lemma_account_hash_layout(b);
    if account_hash_input(a) == account_hash_input(b) {
        assert(spec_u64_to_le_bytes(a.data->Token_amount) == spec_u64_to_le_bytes(b.data->Token_amount));
        assert(spec_u64_from_le_bytes(spec_u64_to_le_bytes(a.data->Token_amount)) == a.data->Token_amount);
    }
}

/// The size a payload counts for: its bytes, or 72 for a token account.
pub open spec fn spec_data_size(d: AccountDataView) -> int {
    match d {
        AccountDataView::System => 0,
        AccountDataView::Program(code) => code.len() as int,
        AccountDataView::Token { .. } => 72,
        AccountDataView::Data(d) => d.len() as int,
    }
}

impl Account {
    /// A wallet with `lamports`, owned by the system program.
    pub fn new_system_account(_pubkey: Pubkey, lamports: u64) -> (a: Self)
        ensures
            a@ == (AccountView {
                lamports,
                owner: spec_system_program_id(),
                executable: false,
                rent_epoch: 0,
                data: AccountDataView::System,
            }),
    {
        Account {
            lamports,
            owner: system_program_id(),
            executable: false,
            rent_epoch: 0,
            data: AccountData::System,
        }
    }

    /// An executable account holding `code`.
    pub fn new_program_account(_pubkey: Pubkey, owner: Pubkey, code: Vec<u8>) -> (a: Self)
        ensures
            a@ == (AccountView {
                lamports: 0,
                owner: owner@,
                executable: true,
                rent_epoch: 0,
                data: AccountDataView::Program(code@),
            }),
    {
        Account { lamports: 0, owner, executable: true, rent_epoch: 0, data: AccountData::Program(code) }
    }

    /// A token account owned by the token program.
    pub fn new_token_account(_pubkey: Pubkey, mint: Pubkey, authority: Pubkey, amount: u64) -> (a: Self)
        ensures
            a@ == (AccountView {
                lamports: 0,
                owner: spec_token_program_id(),
                executable: false,
                rent_epoch: 0,
                data: AccountDataView::Token { mint: mint@, authority: authority@, amount },
            }),
    {
        Account {
            lamports: 0,
            owner: token_program_id(),
            executable: false,
            rent_epoch: 0,
            data: AccountData::Token { mint, authority, amount },
        }
    }

    /// The account's hash, used as a Merkle leaf.
    pub fn hash(&self) -> (h: [u8; 32])
        ensures
            h@ == spec_account_hash(self@),
    {
        let mut buf: Vec<u8> = Vec::new();
        append_u64_le(&mut buf, self.lamports);
        append_bytes(&mut buf, self.owner.as_slice());
        let flag: [u8; 1] = [if self.executable { 1u8 } else { 0u8 }];
        assert(flag@ =~= seq![bool_byte(self.executable)]);
        append_bytes(&mut buf, flag.as_slice());
        append_u64_le(&mut buf, self.rent_epoch);
        match &self.data {
            AccountData::System => {
                let tag: [u8; 6] = [115u8, 121u8, 115u8, 116u8, 101u8, 109u8];
                assert(tag@ =~= tag_system());
                append_bytes(&mut buf, tag.as_slice());
            },
            AccountData::Program(code) => {
                let tag: [u8; 7] = [112u8, 114u8, 111u8, 103u8, 114u8, 97u8, 109u8];
                assert(tag@ =~= tag_program());
                append_bytes(&mut buf, tag.as_slice());
                append_bytes(&mut buf, code.as_slice());
            },
            AccountData::Token { mint, authority, amount } => {
                let tag: [u8; 5] = [116u8, 111u8, 107u8, 101u8, 110u8];
                assert(tag@ =~= tag_token());
                append_bytes(&mut buf, tag.as_slice());
                append_bytes(&mut buf, mint.as_slice());
                append_bytes(&mut buf, authority.as_slice());
                append_u64_le(&mut buf, *amount);
            },
            AccountData::Data(d) => {
                let tag: [u8; 4] = [100u8, 97u8, 116u8, 97u8];
                assert(tag@ =~= tag_data());
                append_bytes(&mut buf, tag.as_slice());
                append_bytes(&mut buf, d.as_slice());
            },
        }
        assert(buf@ =~= account_hash_input(self@));
        sha256_digest(buf.as_slice())
    }

    /// Size in bytes: 49 bytes of header plus the payload size.
    pub fn size(&self) -> (n: usize)
        requires
            49 + spec_data_size(self.data@) <= usize::MAX,
        ensures
            n == 49 + spec_data_size(self.data@),
    {
        let data_size: usize = match &self.data {
            AccountData::System => 0,
            AccountData::Program(code) => code.len(),
            AccountData::Token { .. } => 32 + 32 + 8,
            AccountData::Data(d) => d.len(),
        };
        8 + 32 + 1 + 8 + data_size
    }
}

// ---------------------------------------------------------------------------
// Storage encoding.
//
// Fixed-width little-endian integers; keys as their 32 raw bytes; the flag as
// one byte 0 or 1; the payload as a 4-byte variant index (System 0, Program 1,
// Token 2, Data 3) followed by its fields, byte strings prefixed by their
// 8-byte length.
// ---------------------------------------------------------------------------

/// The encoding of a payload.
pub open spec fn spec_encode_data(d: AccountDataView) -> Seq<u8> {
    match d {
        AccountDataView::System => spec_u32_to_le_bytes(0),
        AccountDataView::Program(code) => spec_u32_to_le_bytes(1) + spec_u64_to_le_bytes(
            code.len() as u64,
        ) + code,
        AccountDataView::Token { mint, authority, amount } => spec_u32_to_le_bytes(2) + mint
            + authority + spec_u64_to_le_bytes(amount),
        AccountDataView::Data(x) => spec_u32_to_le_bytes(3) + spec_u64_to_le_bytes(x.len() as u64)
            + x,
    }
}

/// The encoding of an account.
pub open spec fn spec_encode_account(a: AccountView) -> Seq<u8> {
    spec_u64_to_le_bytes(a.lamports) + a.owner + seq![bool_byte(a.executable)]
        + spec_u64_to_le_bytes(a.rent_epoch) + spec_encode_data(a.data)
}

/// The little-endian u64 at `pos`.
pub open spec fn u64_at(b: Seq<u8>, pos: int) -> u64 {
    spec_u64_from_le_bytes(b.subrange(pos, pos + 8))
}

/// Decodes a payload of variant `tag` starting at `pos`.
pub open spec fn spec_decode_data(b: Seq<u8>, tag: u32, pos: int) -> Option<AccountDataView> {
    if tag == 0 {
        Some(AccountDataView::System)
    } else if tag == 1 || tag == 3 {
        if pos + 8 <= b.len() {
            let n = u64_at(b, pos);
            if n <= b.len() - (pos + 8) {
                let bytes = b.subrange(pos + 8, pos + 8 + n);
                if tag == 1 {
                    Some(AccountDataView::Program(bytes))
                } else {
                    Some(AccountDataView::Data(bytes))
                }
            } else {
                None
            }
        } else {
            None
        }
    } else if tag == 2 {
        if pos + 72 <= b.len() {
            Some(
                AccountDataView::Token {
                    mint: b.subrange(pos, pos + 32),
                    authority: b.subrange(pos + 32, pos + 64),
                    amount: u64_at(b, pos + 64),
                },
            )
        } else {
            None
        }
    } else {
        None
    }
}

/// Decodes an account from the start of `b`; trailing bytes are ignored.
pub open spec fn spec_decode_account(b: Seq<u8>) -> Option<AccountView> {
    if b.len() < 53 || b[40] > 1 {
        None
    } else {
        match spec_decode_data(b, spec_u32_from_le_bytes(b.subrange(49, 53)), 53) {
            Some(d) => Some(
                AccountView {
                    lamports: u64_at(b, 0),
                    owner: b.subrange(8, 40),
                    executable: b[40] == 1,
                    rent_epoch: u64_at(b, 41),
                    data: d,
                },
            ),
            None => None,
        }
    }
}

/// Decoding what was encoded gives back the account, whatever follows it.
pub proof fn lemma_decode_encode(a: AccountView, rest: Seq<u8>)
    requires
        a.wf(),
    ensures
        spec_decode_account(spec_encode_account(a) + rest) == Some(a),
{
    lemma_auto_spec_u64_to_from_le_bytes();
    lemma_auto_spec_u32_to_from_le_bytes();
    let b = spec_encode_account(a) + rest;
    let le_l = spec_u64_to_le_bytes(a.lamports);
    let le_r = spec_u64_to_le_bytes(a.rent_epoch);
    assert(b.subrange(0, 8) =~= le_l);
    assert(b.subrange(8, 40) =~= a.owner);
    assert(b[40] == bool_byte(a.executable));
    assert(b.subrange(41, 49) =~= le_r);
    let d = spec_encode_data(a.data);
    assert(b.subrange(49, b.len() as int) =~= d + rest);
    let tag_bytes = d.subrange(0, 4);
    assert(b.subrange(49, 53) =~= tag_bytes);
    match a.data {
        AccountDataView::System => {
            assert(tag_bytes =~= spec_u32_to_le_bytes(0));
        },
        AccountDataView::Program(code) => {
            assert(tag_bytes =~= spec_u32_to_le_bytes(1));
            assert(b.subrange(53, 61) =~= spec_u64_to_le_bytes(code.len() as u64));
            assert(b.subrange(61, 61 + code.len() as int) =~= code);
        },
        AccountDataView::Token { mint, authority, amount } => {
            assert(tag_bytes =~= spec_u32_to_le_bytes(2));
            assert(b.subrange(53, 85) =~= mint);
            assert(b.subrange(85, 117) =~= authority);
            assert(b.subrange(117, 125) =~= spec_u64_to_le_bytes(amount));
        },
        AccountDataView::Data(x) => {
            assert(tag_bytes =~= spec_u32_to_le_bytes(3));
            assert(b.subrange(53, 61) =~= spec_u64_to_le_bytes(x.len() as u64));
            assert(b.subrange(61, 61 + x.len() as int) =~= x);
        },
    }
}

/// Appends the 32 bytes of a key.
fn append_key(buf: &mut Vec<u8>, key: &Pubkey)
    ensures
        final(buf)@ == old(buf)@ + key@,
{
    append_bytes(buf, key.as_slice());
}

/// Appends a byte string prefixed by its length.
fn append_len_prefixed(buf: &mut Vec<u8>, data: &Vec<u8>)
    ensures
        final(buf)@ == old(buf)@ + spec_u64_to_le_bytes(data@.len() as u64) + data@,
{
    append_u64_le(buf, data.len() as u64);
    append_bytes(buf, data.as_slice());
}

/// The storage encoding of an account.
pub fn encode_account(a: &Account) -> (out: Vec<u8>)
    ensures
        out@ == spec_encode_account(a@),
{
    let mut buf: Vec<u8> = Vec::new();
    append_u64_le(&mut buf, a.lamports);
    append_key(&mut buf, &a.owner);
    let flag: [u8; 1] = [if a.executable { 1u8 } else { 0u8 }];
    assert(flag@ =~= seq![bool_byte(a.executable)]);
    append_bytes(&mut buf, flag.as_slice());
    append_u64_le(&mut buf, a.rent_epoch);
    let ghost head = buf@;
    match &a.data {
        AccountData::System => {
            let t = vstd::bytes::u32_to_le_bytes(0);
            append_bytes(&mut buf, t.as_slice());
        },
        AccountData::Program(code) => {
            let t = vstd::bytes::u32_to_le_bytes(1);
            append_bytes(&mut buf, t.as_slice());
            append_len_prefixed(&mut buf, code);
        },
        AccountData::Token { mint, authority, amount } => {
            let t = vstd::bytes::u32_to_le_bytes(2);
            append_bytes(&mut buf, t.as_slice());
            append_key(&mut buf, mint);
            append_key(&mut buf, authority);
            append_u64_le(&mut buf, *amount);
        },
        AccountData::Data(d) => {
            let t = vstd::bytes::u32_to_le_bytes(3);
            append_bytes(&mut buf, t.as_slice());
            append_len_prefixed(&mut buf, d);
        },
    }
    assert(buf@ =~= spec_encode_account(a@));
    buf
}

/// The 32 bytes at `pos` as a key.
fn read_key(b: &[u8], pos: usize) -> (key: Pubkey)
    requires
        pos + 32 <= b@.len(),
    ensures
        key@ == b@.subrange(pos as int, pos + 32),
{
    let len = b.len();
    let mut key = [0u8; 32];
    let mut i: usize = 0;
    while i < 32
        invariant
            i <= 32,
            pos + 32 <= b@.len(),
            len == b@.len(),
            key@.len() == 32,
            forall|j: int| 0 <= j < i ==> key@[j] == b@[pos + j],
        decreases 32 - i,
    {
        key[i] = b[pos + i];
        i = i + 1;
    }
    assert(key@ =~= b@.subrange(pos as int, pos + 32));
    key
}

/// The little-endian u64 at `pos`.
fn read_u64(b: &[u8], pos: usize) -> (x: u64)
    requires
        pos + 8 <= b@.len(),
    ensures
        x == u64_at(b@, pos as int),
{
    let _len = b.len();
    vstd::bytes::u64_from_le_bytes(slice_subrange(b, pos, pos + 8))
}

/// Decodes an account from the start of `b` (trailing bytes are ignored);
/// `None` when the bytes are too short, the flag byte is not 0 or 1, the
/// payload variant is unknown, or a length runs past the end.
pub fn decode_account(b: &[u8]) -> (r: Option<Account>)
    ensures
        match r {
            Some(a) => spec_decode_account(b@) == Some(a@),
            None => spec_decode_account(b@) is None,
        },
{
    if b.len() < 53 || b[40] > 1 {
        return None;
    }
    let lamports = read_u64(b, 0);
    let owner = read_key(b, 8);
    let executable = b[40] == 1;
    let rent_epoch = read_u64(b, 41);
    let tag = vstd::bytes::u32_from_le_bytes(slice_subrange(b, 49, 53));
    let data = if tag == 0 {
        AccountData::System
    } else if tag == 1 || tag == 3 {
        if b.len() < 61 {
            return None;
        }
        let n = read_u64(b, 53);
        if n > (b.len() - 61) as u64 {
            return None;
        }
        let end = 61 + n as usize;
        let bytes = slice_to_vec(slice_subrange(b, 61, end));
        if tag == 1 {
            AccountData::Program(bytes)
        } else {
            AccountData::Data(bytes)
        }
    } else if tag == 2 {
        if b.len() < 125 {
            return None;
        }
        let mint = read_key(b, 53);
        let authority = read_key(b, 85);
        let amount = read_u64(b, 117);
        AccountData::Token { mint, authority, amount }
    } else {
        return None;
    };
    Some(Account { lamports, owner, executable, rent_epoch, data })
}

} // verus!
