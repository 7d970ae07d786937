//! A WhatsApp multi-device protocol library: the binary-XMPP node codec, the length-framed
//! Noise transport, the protobuf wire types, the Signal ratchet primitives and the companion
//! pairing flows.

pub mod bytes;
pub mod frame;
pub mod tag;
pub mod token;
pub mod node;
pub mod codec;
pub mod pb;
pub mod adv;
pub mod message;
pub mod handshake;
pub mod client_payload;
pub mod b64lite;
pub mod crypto;
pub mod pcrypto;
pub mod xeddsa;
pub mod ratchet;
pub mod noise;
pub mod decimal;
pub mod text;
pub mod client;
pub mod jid;
pub mod device;
pub mod pairing;
pub mod phone;
pub mod session;
pub mod stanza;
pub mod link;
pub mod snow_handshake;
