//! Identifiers that documents and changes carry as opaque byte strings.
use vstd::prelude::*;

verus! {

/// The id of an actor: a byte string, written with its length in front.
#[derive(Debug, PartialEq, Eq)]
pub struct ActorId(pub Vec<u8>);

/// The hash of a change: thirty-two bytes.
#[derive(Debug, Clone, Copy, PartialEq, Eq)]
pub struct ChangeHash(pub [u8; 32]);

/// The number of bytes in a change hash.
pub const HASH_LEN: usize = 32;

} // verus!
