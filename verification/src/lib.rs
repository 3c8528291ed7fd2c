//! DKIM signature verification as a deterministic, side-effect-free computation.
//!
//! Every function here works on plain byte strings and returns plain values, so
//! that the whole verification can run inside a constrained execution
//! environment. The public contracts are stated over `Seq<u8>` models of the
//! inputs.

pub mod bytes;
pub mod canon;
pub mod canon_laws;
pub mod crypto;
pub mod dns;
pub mod key;
pub mod message;
pub mod outcome;
pub mod signature;
pub mod signing;
pub mod tags;
pub mod verify;
pub mod verify_laws;
