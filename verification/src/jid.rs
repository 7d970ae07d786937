//! JID parsing, enough to pull the user and device numbers for the login payload.
//!
//! Our own device JID after pairing looks like `user[.agent][:device]@server`, e.g.
//! `447700900123:23@s.whatsapp.net` (device 23) or `447700900123.0:23@s.whatsapp.net`.

use vstd::prelude::*;
use vstd::string::StringSliceAdditionalSpecFns;
use vstd::utf8::*;
use crate::bytes::copy_range;
use crate::client::Error;
use crate::decimal::{parse_uint, parse_uint_spec};
use crate::node::sbytes;
use crate::text::{find_byte, find_from, lemma_ascii_split, lemma_find_from, string_of};

verus! {

/// A parsed JID.
#[derive(Clone, Debug, PartialEq, Eq)]
pub struct Jid {
    pub user: u64,
    pub agent: u8,
    pub device: u16,
    pub server: String,
}

/// The model of a parsed JID (the server by its UTF-8 bytes).
pub struct JidV {
    pub user: u64,
    pub agent: u8,
    pub device: u16,
    pub server: Seq<u8>,
}

/// Why a JID does not parse.
pub enum JidErr {
    MissingAt,
    DeviceNotNumeric,
    UserNotNumeric,
}

/// The user part before `.agent`, and the agent (zero when absent or not a number).
pub open spec fn split_agent(before: Seq<u8>) -> (Seq<u8>, nat) {
    match find_from(before, 46, 0) {
        Some(d) => (
            before.subrange(0, d),
            match parse_uint_spec(before.subrange(d + 1, before.len() as int), 255) {
                Some(a) => a,
                None => 0,
            },
        ),
        None => (before, 0),
    }
}

/// The JID that the text with UTF-8 bytes `b` parses to. The text splits at the first `@` into
/// user part and server; the user part at its first `:` into the rest and the device number; the
/// rest at its first `.` into the user number and the agent.
pub open spec fn sp_parse_jid(b: Seq<u8>) -> Result<JidV, JidErr> {
    match find_from(b, 64, 0) {
        None => Err(JidErr::MissingAt),
        Some(at) => {
            let user_part = b.subrange(0, at);
            let server = b.subrange(at + 1, b.len() as int);
            let (before, dev) = match find_from(user_part, 58, 0) {
                Some(c) => (user_part.subrange(0, c), parse_uint_spec(user_part.subrange(c + 1, user_part.len() as int), 65535)),
                None => (user_part, Some(0nat)),
            };
            match dev {
                None => Err(JidErr::DeviceNotNumeric),
                Some(device) => {
                    let (user_str, agent) = split_agent(before);
                    match parse_uint_spec(user_str, u64::MAX as nat) {
                        None => Err(JidErr::UserNotNumeric),
                        Some(user) => Ok(JidV { user: user as u64, agent: agent as u8, device: device as u16, server }),
                    }
                },
            }
        },
    }
}

/// Parse a JID. The user part must be numeric (our own account JID always is).
pub fn parse_jid(s: &str) -> (r: Result<Jid, Error>)
    ensures
        sp_parse_jid(s.spec_bytes()) matches Ok(v) ==> r matches Ok(j) && j.user == v.user && j.agent == v.agent
            && j.device == v.device && sbytes(j.server) == v.server,
        sp_parse_jid(s.spec_bytes()) matches Err(JidErr::MissingAt) ==> (r matches Err(Error::Pairing(m)) && m == "jid missing '@'"),
        sp_parse_jid(s.spec_bytes()) matches Err(JidErr::DeviceNotNumeric) ==> (r matches Err(Error::Pairing(m)) && m == "jid device not numeric"),
        sp_parse_jid(s.spec_bytes()) matches Err(JidErr::UserNotNumeric) ==> (r matches Err(Error::Pairing(m)) && m == "jid user not numeric"),
{
    let b = s.as_bytes();
    proof {
        encode_utf8_valid_utf8(s@);
        lemma_find_from(b@, 64, 0);
    }
    let at = match find_byte(b, 64) {
        Some(i) => i,
        None => return Err(Error::Pairing("jid missing '@'")),
    };
    let user_part = copy_range(b, 0, at);
    proof {
        lemma_ascii_split(b@, at as int);
    }
    let blen = b.len();
    let server_bytes = copy_range(b, at + 1, blen);
    let server = string_of(server_bytes.as_slice());
    let (before_end, device) = match find_byte(user_part.as_slice(), 58) {
        Some(c) => {
            proof {
                lemma_find_from(user_part@, 58, 0);
            }
            let tail = copy_range(user_part.as_slice(), c + 1, user_part.len());
            let d = match parse_uint(tail.as_slice(), 65535) {
                Some(d) => d as u16,
                None => return Err(Error::Pairing("jid device not numeric")),
            };
            (c, d)
        },
        None => (at, 0u16),
    };
    let before = copy_range(user_part.as_slice(), 0, before_end);
    assert(before_end == at ==> before@ =~= user_part@);
    let (user_end, agent) = match find_byte(before.as_slice(), 46) {
        Some(d) => {
            proof {
                lemma_find_from(before@, 46, 0);
            }
            let tail = copy_range(before.as_slice(), d + 1, before.len());
            let a = match parse_uint(tail.as_slice(), 255) {
                Some(a) => a as u8,
                None => 0u8,
            };
            (d, a)
        },
        None => (before_end, 0u8),
    };
    let user_str = copy_range(before.as_slice(), 0, user_end);
    assert(user_end == before_end ==> user_str@ =~= before@);
    let user = match parse_uint(user_str.as_slice(), u64::MAX) {
        Some(u) => u,
        None => return Err(Error::Pairing("jid user not numeric")),
    };
    Ok(Jid { user, agent, device, server })
}

} // verus!
