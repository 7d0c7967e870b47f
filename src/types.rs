use vstd::prelude::*;
use crate::address::Address;

verus! {

/// How a call into a native contract failed.
#[derive(Clone, Copy, Debug, PartialEq, Eq, Structural)]
pub enum ContractError {
    /// The selector or the arguments of the input could not be read.
    DecodeError,
    /// The caller is not the authority of record for the operation.
    AuthorizationError,
    /// No native contract is bound to the address called.
    NotFoundError,
    /// The contract holds no usable state at the height of the call.
    Internal,
}

/// A call into a native contract.
pub struct CallParams {
    /// The contract called.
    pub code_address: Address,
    /// The account that makes the call.
    pub sender: Address,
    /// A four-byte selector followed by word-encoded arguments.
    pub input: Vec<u8>,
    pub gas_limit: u64,
    pub read_only: bool,
}

/// The block in which a call runs.
pub struct Context {
    pub block_number: u64,
}

/// An event: the emitting address, its indexed topics and its data.
pub struct Log {
    pub address: Address,
    pub topics: Vec<Vec<u8>>,
    pub data: Vec<u8>,
}

/// What a successful call hands back: return data, the gas figure and the events.
pub struct ExecutionResult {
    pub return_data: Vec<u8>,
    pub gas: u64,
    pub logs: Vec<Log>,
}

/// The views of the topics of a log.
pub open spec fn topics_of(l: Log) -> Seq<Seq<u8>> {
    l.topics@.map_values(|t: Vec<u8>| t@)
}

/// The big-endian number in the first four bytes of `input`.
pub open spec fn selector_of(input: Seq<u8>) -> int {
    input[0] * 0x1000000 + input[1] * 0x10000 + input[2] * 0x100 + input[3]
}

/// The selector of a call: the first four bytes of its input, big-endian;
/// `None` where the input is shorter.
pub fn extract_selector(input: &Vec<u8>) -> (r: Option<u32>)
    ensures
        r is Some <==> input@.len() >= 4,
        r matches Some(v) ==> v == selector_of(input@),
{
    if input.len() < 4 {
        return None;
    }
    let v: u32 = (input[0] as u32) * 0x1000000 + (input[1] as u32) * 0x10000 + (input[2] as u32)
        * 0x100 + (input[3] as u32);
    Some(v)
}

} // verus!
