//! A client for a slotted, versioned chunk store shared by cooperating
//! signers: the wire form of the messages they exchange, the version
//! bookkeeping that guards each write, and the decoding and filtering of what
//! reads bring back.
use vstd::prelude::*;

pub mod slot_cache;
pub mod wire;
pub mod message;
pub mod client;
pub mod laws;
pub mod contract_key;

verus! {

} // verus!
