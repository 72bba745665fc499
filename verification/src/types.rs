//! The values that requests, replies and results are made of.
use vstd::prelude::*;

verus! {

/// A 256-bit unsigned integer, as its upper and its lower half.
#[derive(Clone, Copy, Debug, PartialEq, Eq, Structural)]
pub struct U256 {
    pub high: u128,
    pub low: u128,
}

impl U256 {
    /// The number.
    pub open spec fn value(self) -> nat {
        self.high as nat * 0x1_0000_0000_0000_0000_0000_0000_0000_0000 + self.low as nat
    }

    /// The given number.
    pub open spec fn of(n: u64) -> U256 {
        U256 { high: 0, low: n as u128 }
    }

    /// A 64-bit integer as a 256-bit one.
    pub fn from_u64(n: u64) -> (r: U256)
        ensures
            r == U256::of(n),
            r.value() == n,
    {
        U256 { high: 0, low: n as u128 }
    }

    /// Whether the number is smaller than another.
    pub fn less_than(self, other: U256) -> (r: bool)
        ensures
            r == (self.value() < other.value()),
    {
        self.high < other.high || (self.high == other.high && self.low < other.low)
    }
}

/// A number in a request or a result.
#[derive(Clone, Copy, Debug, PartialEq, Eq, Structural)]
pub struct Quantity(pub u64);

/// The address of an account.
#[derive(Clone, Copy, Debug, PartialEq, Eq)]
pub struct Address {
    pub bytes: [u8; 20],
}

impl Default for Address {
    fn default() -> (a: Self)
        ensures
            forall|i: int| 0 <= i < 20 ==> a.bytes@[i] == 0,
    {
        Address { bytes: [0u8; 20] }
    }
}

/// A block named by its number or by its place in the chain.
#[derive(Clone, Copy, Debug, PartialEq, Eq, Structural)]
pub enum BlockTags {
    Number(Quantity),
    Latest,
    Safe,
    Finalized,
}

/// The key of a block in the database: the number of a finalized block, or the number and the
/// identifier of a proposed one.
#[derive(Clone, Copy, Debug, PartialEq, Eq)]
pub enum BlockKey {
    Finalized(u64),
    Proposed(u64, [u8; 32]),
}

/// What is read of a block header.
#[derive(Clone, Copy, Debug, PartialEq, Eq, Structural)]
pub struct Header {
    pub number: u64,
    pub gas_limit: u64,
    pub gas_used: u64,
    pub base_fee_per_gas: Option<u64>,
}

impl Header {
    /// The base fee, zero where the block has none.
    pub open spec fn base_fee_spec(self) -> u64 {
        match self.base_fee_per_gas {
            Some(fee) => fee,
            None => 0,
        }
    }

    /// The base fee, zero where the block has none.
    pub fn base_fee(&self) -> (fee: u64)
        ensures
            self.base_fee_per_gas matches Some(held) ==> fee == held,
            self.base_fee_per_gas is None ==> fee == 0,
            fee == self.base_fee_spec(),
    {
        match self.base_fee_per_gas {
            Some(fee) => fee,
            None => 0,
        }
    }
}

/// What a transaction is addressed to.
#[derive(Clone, Copy, Debug, PartialEq, Eq)]
pub enum TxKind {
    Create,
    Call(Address),
}

/// What is read of a transaction built from a call request.
#[derive(Debug, PartialEq, Eq)]
pub struct Transaction {
    pub gas_limit: u64,
    pub kind: TxKind,
    pub input: Vec<u8>,
}

/// The input bytes of a call request, under either of two names.
#[derive(Debug, PartialEq, Eq)]
pub struct CallInput {
    pub input: Option<Vec<u8>>,
    pub data: Option<Vec<u8>>,
}

/// What is read or set of a call request.
#[derive(Debug, PartialEq, Eq)]
pub struct CallRequest {
    pub from: Option<Address>,
    pub gas: Option<U256>,
    pub input: CallInput,
    pub chain_id: Option<u64>,
}

/// Why the execution of a transaction failed.
#[derive(Clone, Copy, Debug, PartialEq, Eq, Structural)]
pub enum EthCallResult {
    OutOfGas,
    OtherError,
}

/// What is read of a successful execution.
#[derive(Clone, Copy, Debug, PartialEq, Eq, Structural)]
pub struct SuccessCallResult {
    pub gas_used: u64,
    pub gas_refund: u64,
}

/// What is read of a failed execution.
#[derive(Debug, PartialEq, Eq)]
pub struct FailureCallResult {
    pub error_code: EthCallResult,
    pub message: String,
    pub data: Option<String>,
}

/// The outcome of executing a transaction.
#[derive(Debug, PartialEq, Eq)]
pub enum CallResult {
    Success(SuccessCallResult),
    Failure(FailureCallResult),
    Other,
}

/// The errors that requests are answered with.
#[derive(Debug, PartialEq, Eq)]
pub enum JsonRpcError {
    EthCall { message: String, data: Option<String> },
    Internal { message: String },
    InvalidParams,
    BlockNotFound,
    InvalidChainId { expected: u64, got: u64 },
    Custom { message: String },
}

/// The answer to a request.
pub type JsonRpcResult<T> = Result<T, JsonRpcError>;

impl JsonRpcError {
    /// A failed execution with the given message and data.
    pub open spec fn is_eth_call_error(self, text: Seq<char>, with: Option<String>) -> bool {
        self matches JsonRpcError::EthCall { message, data } && message@ == text && data == with
    }

    /// An internal error with the given message.
    pub open spec fn is_internal_error(self, text: Seq<char>) -> bool {
        self matches JsonRpcError::Internal { message } && message@ == text
    }

    /// An error that has only a message.
    pub open spec fn is_custom(self, text: Seq<char>) -> bool {
        self matches JsonRpcError::Custom { message } && message@ == text
    }

    /// A failed execution with the given message and data.
    pub fn eth_call_error(text: &str, data: Option<String>) -> (e: JsonRpcError)
        ensures
            e.is_eth_call_error(text@, data),
    {
        JsonRpcError::EthCall { message: text.to_string(), data }
    }

    /// An internal error with the given message.
    pub fn internal_error(text: &str) -> (e: JsonRpcError)
        ensures
            e.is_internal_error(text@),
    {
        JsonRpcError::Internal { message: text.to_string() }
    }

    /// An error that has only a message.
    pub fn custom(text: &str) -> (e: JsonRpcError)
        ensures
            e.is_custom(text@),
    {
        JsonRpcError::Custom { message: text.to_string() }
    }
}

/// The base fee of a header is the one that it holds, whole, and zero where it holds none.
pub proof fn law_base_fee(header: Header, fee: u64)
    requires
        call_ensures(Header::base_fee, (&header,), fee) || fee == header.base_fee_spec(),
    ensures
        header.base_fee_per_gas matches Some(held) ==> fee == held,
        header.base_fee_per_gas is None ==> fee == 0,
{
}

/// A 64-bit integer keeps its value as a 256-bit one.
pub proof fn law_widened(n: u64, wide: U256)
    requires
        call_ensures(U256::from_u64, (n,), wide) || wide == U256::of(n),
    ensures
        wide.high == 0,
        wide.low == n,
        wide.value() == n,
{
}

/// 256-bit integers are ordered by their upper halves, and by their lower ones where those are
/// equal; so are their values, which differ where the integers do.
pub proof fn law_less_than(a: U256, b: U256, less: bool)
    requires
        call_ensures(U256::less_than, (a, b), less),
    ensures
        a.high < b.high ==> less,
        a.high > b.high ==> !less,
        a.high == b.high ==> less == (a.low < b.low),
        less == (a.value() < b.value()),
        a.value() == b.value() ==> a == b,
{
}

/// The account in whose name nothing in particular is sent has an address of zeros.
pub proof fn law_default_address(address: Address)
    requires
        call_ensures(<Address as Default>::default, (), address),
    ensures
        forall|i: int| 0 <= i < 20 ==> address.bytes@[i] == 0,
{
}

/// Errors hold the message, and the data, that they are made with.
pub proof fn law_errors_hold_their_message(
    text: &str,
    data: Option<String>,
    failed: JsonRpcError,
    internal: JsonRpcError,
    other: JsonRpcError,
)
    requires
        call_ensures(JsonRpcError::eth_call_error, (text, data), failed),
        call_ensures(JsonRpcError::internal_error, (text,), internal),
        call_ensures(JsonRpcError::custom, (text,), other),
    ensures
        failed matches JsonRpcError::EthCall { message, data: with } && message@ == text@ && with
            == data,
        internal matches JsonRpcError::Internal { message } && message@ == text@,
        other matches JsonRpcError::Custom { message } && message@ == text@,
{
}

} // verus!
