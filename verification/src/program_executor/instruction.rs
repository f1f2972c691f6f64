//! Instructions, account metadata, results, and the byte encodings of the
//! system and token program instructions.

use crate::accounts::account::Pubkey;
use crate::accounts::account::u64_at;
use crate::program_executor::InstructionError;
use vstd::bytes::{lemma_auto_spec_u64_to_from_le_bytes, spec_u64_to_le_bytes};
use vstd::prelude::*;
use vstd::slice::slice_subrange;
use vstd::string::StringExecFns;

verus! {

/// An instruction for the program runtime.
#[derive(Debug, Clone)]
pub struct Instruction {
    /// Program to invoke.
    pub program_id: Pubkey,
    /// Accounts the instruction operates on.
    pub account_metas: Vec<AccountMeta>,
    /// Instruction data.
    pub data: Vec<u8>,
}

/// Account metadata for an instruction.
#[derive(Debug, Clone, Copy)]
pub struct AccountMeta {
    /// Index into the transaction's account list.
    pub index: usize,
    /// Whether the account signed.
    pub is_signer: bool,
    /// Whether the account is writable.
    pub is_writable: bool,
}

impl AccountMeta {
    pub fn new(index: usize, is_signer: bool, is_writable: bool) -> (m: Self)
        ensures
            m == (AccountMeta { index, is_signer, is_writable }),
    {
        AccountMeta { index, is_signer, is_writable }
    }

    pub fn readonly(index: usize) -> (m: Self)
        ensures
            m == (AccountMeta { index, is_signer: false, is_writable: false }),
    {
        AccountMeta { index, is_signer: false, is_writable: false }
    }

    pub fn writable(index: usize) -> (m: Self)
        ensures
            m == (AccountMeta { index, is_signer: false, is_writable: true }),
    {
        AccountMeta { index, is_signer: false, is_writable: true }
    }

    pub fn signer_writable(index: usize) -> (m: Self)
        ensures
            m == (AccountMeta { index, is_signer: true, is_writable: true }),
    {
        AccountMeta { index, is_signer: true, is_writable: true }
    }
}

/// Result of executing an instruction.
#[derive(Debug, Clone)]
pub struct InstructionResult {
    pub success: bool,
    pub compute_units_consumed: u64,
    pub return_data: Option<Vec<u8>>,
    pub error: Option<InstructionError>,
    pub logs: Vec<String>,
}

impl InstructionResult {
    pub fn success(compute_units: u64) -> (r: Self)
        ensures
            r.success,
            r.compute_units_consumed == compute_units,
            r.return_data is None,
            r.error is None,
            r.logs@.len() == 0,
    {
        InstructionResult {
            success: true,
            compute_units_consumed: compute_units,
            return_data: None,
            error: None,
            logs: Vec::new(),
        }
    }

    pub fn with_log(self, msg: String) -> (r: Self)
        ensures
            r.success == self.success,
            r.compute_units_consumed == self.compute_units_consumed,
            r.return_data == self.return_data,
            r.error == self.error,
            r.logs@ == self.logs@.push(msg),
    {
        let mut r = self;
        r.logs.push(msg);
        r
    }

    pub fn with_return_data(self, data: Vec<u8>) -> (r: Self)
        ensures
            r.success == self.success,
            r.compute_units_consumed == self.compute_units_consumed,
            r.return_data == Some(data),
            r.error == self.error,
            r.logs == self.logs,
    {
        let mut r = self;
        r.return_data = Some(data);
        r
    }

    pub fn failure(error: InstructionError, compute_units: u64) -> (r: Self)
        ensures
            !r.success,
            r.compute_units_consumed == compute_units,
            r.return_data is None,
            r.error == Some(error),
            r.logs@.len() == 0,
    {
        InstructionResult {
            success: false,
            compute_units_consumed: compute_units,
            return_data: None,
            error: Some(error),
            logs: Vec::new(),
        }
    }

    pub fn add_log(&mut self, msg: String)
        ensures
            final(self).logs@ == old(self).logs@.push(msg),
            final(self).success == old(self).success,
            final(self).compute_units_consumed == old(self).compute_units_consumed,
            final(self).error == old(self).error,
            final(self).return_data == old(self).return_data,
    {
        self.logs.push(msg);
    }
}

/// System program instructions.
#[derive(Debug, Clone, Copy)]
pub enum SystemInstruction {
    /// Move lamports between accounts.
    Transfer { lamports: u64 },
    /// Create an account.
    CreateAccount { lamports: u64, space: u64, owner: Pubkey },
    /// Assign an account to a program.
    Assign { owner: Pubkey },
    /// Initialize a nonce account.
    NonceInitialize,
}

/// A system instruction as values.
pub enum SystemInstructionView {
    Transfer { lamports: u64 },
    CreateAccount { lamports: u64, space: u64, owner: Seq<u8> },
    Assign { owner: Seq<u8> },
    NonceInitialize,
}

impl View for SystemInstruction {
    type V = SystemInstructionView;

    open spec fn view(&self) -> SystemInstructionView {
        match self {
            SystemInstruction::Transfer { lamports } => SystemInstructionView::Transfer { lamports: *lamports },
            SystemInstruction::CreateAccount { lamports, space, owner } => SystemInstructionView::CreateAccount {
                lamports: *lamports,
                space: *space,
                owner: owner@,
            },
            SystemInstruction::Assign { owner } => SystemInstructionView::Assign { owner: owner@ },
            SystemInstruction::NonceInitialize => SystemInstructionView::NonceInitialize,
        }
    }
}

/// The encoding of a system instruction: a tag byte (Transfer 2,
/// CreateAccount 0, Assign 1, NonceInitialize 7) and the fields,
/// integers little-endian.
pub open spec fn spec_system_to_data(ix: SystemInstructionView) -> Seq<u8> {
    match ix {
        SystemInstructionView::Transfer { lamports } => seq![2u8] + spec_u64_to_le_bytes(lamports),
        SystemInstructionView::CreateAccount { lamports, space, owner } => seq![0u8]
            + spec_u64_to_le_bytes(lamports) + spec_u64_to_le_bytes(space) + owner,
        SystemInstructionView::Assign { owner } => seq![1u8] + owner,
        SystemInstructionView::NonceInitialize => seq![7u8],
    }
}

/// What `from_data` makes of the bytes; `None` is an invalid-data error.
pub open spec fn spec_system_from_data(data: Seq<u8>) -> Option<SystemInstructionView> {
    if data.len() == 0 {
        None
    } else if data[0] == 2 {
        if data.len() < 9 {
            None
        } else {
            Some(SystemInstructionView::Transfer { lamports: u64_at(data, 1) })
        }
    } else if data[0] == 0 {
        if data.len() < 33 {
            None
        } else {
            Some(
                SystemInstructionView::CreateAccount {
                    lamports: u64_at(data, 1),
                    space: u64_at(data, 9),
                    owner: data.subrange(17, 49),
                },
            )
        }
    } else if data[0] == 1 {
        if data.len() < 33 {
            None
        } else {
            Some(SystemInstructionView::Assign { owner: data.subrange(1, 33) })
        }
    } else {
        None
    }
}

/// Inputs on which `SystemInstruction::from_data` reads past the end: a
/// CreateAccount tag with 33 to 48 bytes.
pub open spec fn system_data_overruns(data: Seq<u8>) -> bool {
    data.len() >= 33 && data.len() < 49 && data[0] == 0
}

/// Decoding the encoding of any system instruction other than
/// NonceInitialize gives it back. (NonceInitialize encodes as tag 7, which
/// the decoder does not accept.)
pub proof fn lemma_system_roundtrip(ix: SystemInstructionView)
    requires
        !(ix is NonceInitialize),
        ix matches SystemInstructionView::CreateAccount { owner, .. } ==> owner.len() == 32,
        ix matches SystemInstructionView::Assign { owner } ==> owner.len() == 32,
    ensures
        spec_system_from_data(spec_system_to_data(ix)) == Some(ix),
        !system_data_overruns(spec_system_to_data(ix)),
{
    lemma_auto_spec_u64_to_from_le_bytes();
    let d = spec_system_to_data(ix);
    match ix {
        SystemInstructionView::Transfer { lamports } => {
            assert(d.subrange(1, 9) =~= spec_u64_to_le_bytes(lamports));
        },
        SystemInstructionView::CreateAccount { lamports, space, owner } => {
            assert(d.subrange(1, 9) =~= spec_u64_to_le_bytes(lamports));
            assert(d.subrange(9, 17) =~= spec_u64_to_le_bytes(space));
            assert(d.subrange(17, 49) =~= owner);
        },
        SystemInstructionView::Assign { owner } => {
            assert(d.subrange(1, 33) =~= owner);
        },
        SystemInstructionView::NonceInitialize => {},
    }
}

/// An invalid-data error with the given message.
fn invalid_data(msg: &str) -> (e: InstructionError)
    ensures
        e matches InstructionError::InvalidInstructionData(m) && m@ == msg@,
{
    InstructionError::InvalidInstructionData(String::from_str(msg))
}

/// The little-endian u64 at `pos`.
fn read_u64_at(data: &[u8], pos: usize) -> (x: u64)
    requires
        pos + 8 <= data@.len(),
    ensures
        x == u64_at(data@, pos as int),
{
    let _n = data.len();
    vstd::bytes::u64_from_le_bytes(slice_subrange(data, pos, pos + 8))
}

/// The 32 bytes at `pos`.
fn read_key_at(data: &[u8], pos: usize) -> (key: Pubkey)
    requires
        pos + 32 <= data@.len(),
    ensures
        key@ == data@.subrange(pos as int, pos + 32),
{
    let n = data.len();
    let mut key = [0u8; 32];
    let mut i: usize = 0;
    while i < 32
        invariant
            i <= 32,
            n == data@.len(),
            pos + 32 <= data@.len(),
            key@.len() == 32,
            forall|j: int| 0 <= j < i ==> key@[j] == data@[pos + j],
        decreases 32 - i,
    {
        key[i] = data[pos + i];
        i = i + 1;
    }
    assert(key@ =~= data@.subrange(pos as int, pos + 32));
    key
}

fn push_u64_le(out: &mut Vec<u8>, x: u64)
    ensures
        final(out)@ == old(out)@ + spec_u64_to_le_bytes(x),
{
    crate::crypto::append_u64_le(out, x);
}

impl SystemInstruction {
    /// Decodes instruction data.
    pub fn from_data(data: &[u8]) -> (r: Result<Self, InstructionError>)
        requires
            !system_data_overruns(data@),
        ensures
            match r {
                Ok(ix) => spec_system_from_data(data@) == Some(ix@),
                Err(e) => spec_system_from_data(data@) is None && e is InvalidInstructionData,
            },
    {
        if data.len() == 0 {
            return Err(invalid_data("Empty instruction data"));
        }
        let tag = data[0];
        if tag == 2 {
            if data.len() < 9 {
                return Err(invalid_data("Transfer requires 8 bytes"));
            }
            let lamports = read_u64_at(data, 1);
            Ok(SystemInstruction::Transfer { lamports })
        } else if tag == 0 {
            if data.len() < 33 {
                return Err(invalid_data("CreateAccount requires 32 bytes"));
            }
            let lamports = read_u64_at(data, 1);
            let space = read_u64_at(data, 9);
            let owner = read_key_at(data, 17);
            Ok(SystemInstruction::CreateAccount { lamports, space, owner })
        } else if tag == 1 {
            if data.len() < 33 {
                return Err(invalid_data("Assign requires 32 bytes"));
            }
            let owner = read_key_at(data, 1);
            Ok(SystemInstruction::Assign { owner })
        } else {
            let mut msg = String::from_str("Unknown system instruction: ");
            msg.append(tag.to_string().as_str());
            Err(InstructionError::InvalidInstructionData(msg))
        }
    }

    /// Encodes the instruction.
    pub fn to_data(&self) -> (data: Vec<u8>)
        ensures
            data@ == spec_system_to_data(self@),
    {
        let mut data: Vec<u8> = Vec::new();
        match self {
            SystemInstruction::Transfer { lamports } => {
                data.push(2u8);
                push_u64_le(&mut data, *lamports);
            },
            SystemInstruction::CreateAccount { lamports, space, owner } => {
                data.push(0u8);
                push_u64_le(&mut data, *lamports);
                push_u64_le(&mut data, *space);
                crate::crypto::append_bytes(&mut data, owner.as_slice());
            },
            SystemInstruction::Assign { owner } => {
                data.push(1u8);
                crate::crypto::append_bytes(&mut data, owner.as_slice());
            },
            SystemInstruction::NonceInitialize => {
                data.push(7u8);
            },
        }
        assert(data@ =~= spec_system_to_data(self@));
        data
    }
}

/// Token program instructions.
#[derive(Debug, Clone, Copy, PartialEq, Eq)]
pub enum TokenInstruction {
    /// Initialize a token account.
    InitializeAccount,
    /// Transfer tokens.
    Transfer { amount: u64 },
    /// Mint tokens.
    MintTo { amount: u64 },
    /// Burn tokens.
    Burn { amount: u64 },
}

/// The encoding of a token instruction: a tag byte (InitializeAccount 0,
/// Transfer 3, MintTo 7, Burn 8) and the amount, little-endian.
pub open spec fn spec_token_to_data(ix: TokenInstruction) -> Seq<u8> {
    match ix {
        TokenInstruction::InitializeAccount => seq![0u8],
        TokenInstruction::Transfer { amount } => seq![3u8] + spec_u64_to_le_bytes(amount),
        TokenInstruction::MintTo { amount } => seq![7u8] + spec_u64_to_le_bytes(amount),
        TokenInstruction::Burn { amount } => seq![8u8] + spec_u64_to_le_bytes(amount),
    }
}

/// What `from_data` makes of the bytes; `None` is an invalid-data error.
pub open spec fn spec_token_from_data(data: Seq<u8>) -> Option<TokenInstruction> {
    if data.len() == 0 {
        None
    } else if data[0] == 0 {
        Some(TokenInstruction::InitializeAccount)
    } else if data[0] == 3 || data[0] == 7 || data[0] == 8 {
        if data.len() < 9 {
            None
        } else if data[0] == 3 {
            Some(TokenInstruction::Transfer { amount: u64_at(data, 1) })
        } else if data[0] == 7 {
            Some(TokenInstruction::MintTo { amount: u64_at(data, 1) })
        } else {
            Some(TokenInstruction::Burn { amount: u64_at(data, 1) })
        }
    } else {
        None
    }
}

/// Decoding the encoding of a token instruction gives it back.
pub proof fn lemma_token_roundtrip(ix: TokenInstruction)
    ensures
        spec_token_from_data(spec_token_to_data(ix)) == Some(ix),
{
    lemma_auto_spec_u64_to_from_le_bytes();
    let d = spec_token_to_data(ix);
    match ix {
        TokenInstruction::InitializeAccount => {},
        TokenInstruction::Transfer { amount } => {
            assert(d.subrange(1, 9) =~= spec_u64_to_le_bytes(amount));
        },
        TokenInstruction::MintTo { amount } => {
            assert(d.subrange(1, 9) =~= spec_u64_to_le_bytes(amount));
        },
        TokenInstruction::Burn { amount } => {
            assert(d.subrange(1, 9) =~= spec_u64_to_le_bytes(amount));
        },
    }
}

impl TokenInstruction {
    /// Decodes instruction data.
    pub fn from_data(data: &[u8]) -> (r: Result<Self, InstructionError>)
        ensures
            match r {
                Ok(ix) => spec_token_from_data(data@) == Some(ix),
                Err(e) => spec_token_from_data(data@) is None && e is InvalidInstructionData,
            },
    {
        if data.len() == 0 {
            return Err(invalid_data("Empty token instruction"));
        }
        let tag = data[0];
        if tag == 0 {
            Ok(TokenInstruction::InitializeAccount)
        } else if tag == 3 {
            if data.len() < 9 {
                return Err(invalid_data("Transfer requires 8 bytes"));
            }
            Ok(TokenInstruction::Transfer { amount: read_u64_at(data, 1) })
        } else if tag == 7 {
            if data.len() < 9 {
                return Err(invalid_data("MintTo requires 8 bytes"));
            }
            Ok(TokenInstruction::MintTo { amount: read_u64_at(data, 1) })
        } else if tag == 8 {
            if data.len() < 9 {
                return Err(invalid_data("Burn requires 8 bytes"));
            }
            Ok(TokenInstruction::Burn { amount: read_u64_at(data, 1) })
        } else {
            let mut msg = String::from_str("Unknown token instruction: ");
            msg.append(tag.to_string().as_str());
            Err(InstructionError::InvalidInstructionData(msg))
        }
    }

    /// Encodes the instruction.
    pub fn to_data(&self) -> (data: Vec<u8>)
        ensures
            data@ == spec_token_to_data(*self),
    {
        let mut data: Vec<u8> = Vec::new();
        match self {
            TokenInstruction::InitializeAccount => {
                data.push(0u8);
            },
            TokenInstruction::Transfer { amount } => {
                data.push(3u8);
                push_u64_le(&mut data, *amount);
            },
            TokenInstruction::MintTo { amount } => {
                data.push(7u8);
                push_u64_le(&mut data, *amount);
            },
            TokenInstruction::Burn { amount } => {
                data.push(8u8);
                push_u64_le(&mut data, *amount);
            },
        }
        assert(data@ =~= spec_token_to_data(*self));
        data
    }
}

} // verus!
