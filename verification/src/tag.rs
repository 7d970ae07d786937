//! Tag/marker byte values used by the binary node codec.

use vstd::prelude::*;

verus! {

/// Empty list (also the single-byte token for the empty string).
pub const LIST_EMPTY: u8 = 0;
/// End of stream marker; never valid as a node description.
pub const STREAM_END: u8 = 2;
/// First double-byte dictionary marker.
pub const DICTIONARY_0: u8 = 236;
/// Last double-byte dictionary marker.
pub const DICTIONARY_3: u8 = 239;
/// Agent/device-addressed JID.
pub const AD_JID: u8 = 247;
/// List with an 8-bit size.
pub const LIST_8: u8 = 248;
/// List with a 16-bit big-endian size.
pub const LIST_16: u8 = 249;
/// `user@server` JID pair.
pub const JID_PAIR: u8 = 250;
/// Packed uppercase hex run.
pub const HEX_8: u8 = 251;
/// Binary blob with an 8-bit length.
pub const BINARY_8: u8 = 252;
/// Binary blob with a 20-bit length.
pub const BINARY_20: u8 = 253;
/// Binary blob with a 32-bit length.
pub const BINARY_32: u8 = 254;
/// Packed numeric run.
pub const NIBBLE_8: u8 = 255;

} // verus!
