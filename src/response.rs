use crate::codec::append_bytes;
use crate::error::{IggyError, error_code};
use vstd::prelude::*;
use vstd::bytes::{spec_u32_to_le_bytes, u32_to_le_bytes};

verus! {

/// A response frame: status as four little-endian bytes (0 for success, else
/// the error code), payload length likewise, then the payload.
pub open spec fn spec_response_bytes(status: u32, payload: Seq<u8>) -> Seq<u8> {
    spec_u32_to_le_bytes(status) + spec_u32_to_le_bytes(payload.len() as u32) + payload
}

/// The response frame of a successful command.
pub fn ok_response(payload: &[u8]) -> (r: Vec<u8>)
    requires
        payload@.len() <= u32::MAX,
    ensures
        r@ == spec_response_bytes(0, payload@),
{
    let mut out = u32_to_le_bytes(0);
    append_bytes(&mut out, u32_to_le_bytes(payload.len() as u32).as_slice());
    append_bytes(&mut out, payload);
    out
}

/// The response frame of a failed command: its error code and no payload.
pub fn error_response(error: IggyError) -> (r: Vec<u8>)
    ensures
        r@ == spec_response_bytes(error_code(error), Seq::empty()),
{
    let mut out = u32_to_le_bytes(error.as_code());
    append_bytes(&mut out, u32_to_le_bytes(0).as_slice());
    assert(out@ =~= out@ + Seq::<u8>::empty());
    out
}

/// The response frame of a command's result.
pub fn response_for(result: &Result<Vec<u8>, IggyError>) -> (r: Vec<u8>)
    requires
        result matches Ok(p) ==> p@.len() <= u32::MAX,
    ensures
        result matches Ok(p) ==> r@ == spec_response_bytes(0, p@),
        result matches Err(e) ==> r@ == spec_response_bytes(error_code(*e), Seq::empty()),
{
    match result {
        Ok(payload) => ok_response(payload.as_slice()),
        Err(e) => error_response(*e),
    }
}

} // verus!
