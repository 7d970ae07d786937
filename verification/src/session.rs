//! The kept session: the device identity and, once paired, the account state needed to log back
//! in as a linked device.

use vstd::prelude::*;
use crate::device::DeviceIdentity;

verus! {

/// The paired-account state, filled in after a successful pairing.
#[derive(Clone, Debug)]
pub struct Account {
    /// Our own device JID, e.g. `447700900123:23@s.whatsapp.net`.
    pub jid: String,
    /// The `@lid` addressing JID, if the server gave one.
    pub lid: Option<String>,
    /// The account (phone) identity public key from the signed device identity.
    pub account_signature_key: Vec<u8>,
    /// Our self-signed device identity (it proves this device is authorized).
    pub signed_device_identity: Vec<u8>,
    pub push_name: Option<String>,
    pub platform: Option<String>,
    pub business_name: Option<String>,
}

/// A full session: the device identity and the paired account, if any.
#[derive(Clone, Debug)]
pub struct Session {
    pub device: DeviceIdentity,
    pub account: Option<Account>,
}

impl Session {
    /// A fresh, unpaired session for a new device identity.
    pub fn new(device: DeviceIdentity) -> (r: Session)
        ensures
            r.device == device,
            r.account is None,
    {
        Session { device, account: None }
    }

    /// Whether this session has completed pairing (and can log in instead of registering).
    pub fn is_paired(&self) -> (r: bool)
        ensures
            r == self.account is Some,
    {
        self.account.is_some()
    }
}

} // verus!
