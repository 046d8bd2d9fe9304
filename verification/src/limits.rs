use vstd::prelude::*;

verus! {

/// The cap on an inbound request body: a batch larger than this is
/// rejected by the transport before decoding.
pub const MAX_RECEIVE_BYTES: usize = 20_971_520;

/// The cap on an outbound response message on the streaming transport.
pub const MAX_SEND_BYTES: usize = 10_485_760;

} // verus!
