//! Errors of the client layer (keystore, pairing), wrapping those of the layers below.

use vstd::prelude::*;

verus! {

/// Errors from the client layer.
#[derive(Debug)]
pub enum Error {
    /// Failure reading or writing the device keystore.
    Store(String),
    /// An error from the transport / Noise layer.
    Transport(crate::frame::Error),
    /// An error from the stanza codec.
    Codec(crate::node::Error),
    /// An error from the protobuf layer.
    Proto(crate::pb::Error),
    /// A pairing step failed (bad lengths, bad MAC or signature, malformed JID).
    Pairing(&'static str),
}

} // verus!
