use crate::table::KeyedTable;
use crate::tokens::{base64_url_encoded, kept, valid_at, PairingTokens, TokenView, TOKEN_LIFETIME_SECS};
use vstd::prelude::*;

verus! {

/// A paired device. Times are Unix seconds.
pub struct PairedDevice {
    pub device_id: String,
    /// Base64 SEC1 P-256 public key.
    pub public_key: String,
    pub device_name: String,
    pub paired_at: i64,
    pub last_seen: Option<i64>,
}

/// What an audit-log line records.
#[derive(Debug, Clone, Copy, PartialEq, Eq, Structural)]
pub enum AuditAction {
    Pair,
    AuthOk,
    AuthFail,
    Revoke,
}

impl AuditAction {
    pub fn as_str(self) -> (r: &'static str)
        ensures
            self == AuditAction::Pair ==> r@ == "pair"@,
            self == AuditAction::AuthOk ==> r@ == "auth_ok"@,
            self == AuditAction::AuthFail ==> r@ == "auth_fail"@,
            self == AuditAction::Revoke ==> r@ == "revoke"@,
    {
        match self {
            AuditAction::Pair => "pair",
            AuditAction::AuthOk => "auth_ok",
            AuditAction::AuthFail => "auth_fail",
            AuditAction::Revoke => "revoke",
        }
    }
}

#[derive(Debug, Clone, Copy, PartialEq, Eq, Structural)]
pub enum DeviceError {
    /// No device is paired under this id.
    NotPaired,
}

/// Paired devices keyed by device id, and the outstanding pairing tokens.
pub struct DeviceStore {
    devices: KeyedTable<PairedDevice>,
    tokens: PairingTokens,
}

impl DeviceStore {
    pub closed spec fn wf(&self) -> bool {
        self.devices.wf()
    }

    pub closed spec fn devices(&self) -> Map<Seq<char>, PairedDevice> {
        self.devices.view()
    }

    pub closed spec fn tokens(&self) -> TokenView {
        self.tokens.view()
    }

    pub fn new(tokens: PairingTokens) -> (r: DeviceStore)
        ensures
            r.wf(),
            r.devices() == Map::<Seq<char>, PairedDevice>::empty(),
            r.tokens() == tokens.view(),
    {
        DeviceStore { devices: KeyedTable::new(), tokens }
    }

    /// The pairing tokens, for storing.
    pub fn pairing_tokens(&self) -> (r: &PairingTokens)
        ensures
            r.view() == self.tokens(),
    {
        &self.tokens
    }

    /// Replaces the pairing tokens, as when they are reloaded from storage.
    pub fn set_pairing_tokens(&mut self, tokens: PairingTokens)
        requires
            old(self).wf(),
        ensures
            final(self).wf(),
            final(self).devices() == old(self).devices(),
            final(self).tokens() == tokens.view(),
    {
        self.tokens = tokens;
    }

    /// Pairs a device (replacing any earlier pairing under the same id) at `now`.
    pub fn add_device(
        &mut self,
        device_id: String,
        public_key: String,
        device_name: String,
        now: i64,
    ) -> (r: AuditAction)
        requires
            old(self).wf(),
        ensures
            final(self).wf(),
            r == AuditAction::Pair,
            final(self).tokens() == old(self).tokens(),
            final(self).devices().dom() == old(self).devices().dom().insert(device_id@),
            forall|k: Seq<char>|
                k != device_id@ && #[trigger] old(self).devices().contains_key(k)
                    ==> final(self).devices()[k] == old(self).devices()[k],
            ({
                let d = final(self).devices()[device_id@];
                &&& d.device_id@ == device_id@
                &&& d.public_key@ == public_key@
                &&& d.device_name@ == device_name@
                &&& d.paired_at == now
                &&& d.last_seen is None
            }),
    {
        let key = device_id.clone();
        let device = PairedDevice { device_id, public_key, device_name, paired_at: now, last_seen: None };
        let _ = self.devices.insert(key, device);
        assert(final(self).devices().dom() =~= old(self).devices().dom().insert(key@));
        AuditAction::Pair
    }

    /// Puts back a device record as it was stored.
    pub fn restore_device(&mut self, device: PairedDevice)
        requires
            old(self).wf(),
        ensures
            final(self).wf(),
            final(self).tokens() == old(self).tokens(),
            final(self).devices() == old(self).devices().insert(device.device_id@, device),
    {
        let key = device.device_id.clone();
        let _ = self.devices.insert(key, device);
    }

    /// The stored public key of a device.
    pub fn get_public_key(&self, device_id: &String) -> (r: Result<String, DeviceError>)
        requires
            self.wf(),
        ensures
            !self.devices().contains_key(device_id@) ==> r == Err::<String, DeviceError>(
                DeviceError::NotPaired,
            ),
            self.devices().contains_key(device_id@) ==> r is Ok && r->Ok_0@
                == self.devices()[device_id@].public_key@,
    {
        match self.devices.get(device_id) {
            Some(d) => Ok(d.public_key.clone()),
            None => Err(DeviceError::NotPaired),
        }
    }

    /// Books an authentication attempt: a success stamps the device's `last_seen`.
    pub fn record_auth(&mut self, device_id: &String, success: bool, now: i64) -> (r: AuditAction)
        requires
            old(self).wf(),
        ensures
            final(self).wf(),
            r == if success { AuditAction::AuthOk } else { AuditAction::AuthFail },
            final(self).tokens() == old(self).tokens(),
            final(self).devices().dom() == old(self).devices().dom(),
            forall|k: Seq<char>|
                (k != device_id@ || !success) && #[trigger] old(self).devices().contains_key(k)
                    ==> final(self).devices()[k] == old(self).devices()[k],
            success && old(self).devices().contains_key(device_id@) ==> {
                let (o, n) = (old(self).devices()[device_id@], final(self).devices()[device_id@]);
                &&& n.last_seen == Some(now)
                &&& n.device_id == o.device_id
                &&& n.public_key == o.public_key
                &&& n.device_name == o.device_name
                &&& n.paired_at == o.paired_at
            },
    {
        if !success {
            return AuditAction::AuthFail;
        }
        match self.devices.remove(device_id) {
            Some(d) => {
                let updated = PairedDevice {
                    device_id: d.device_id,
                    public_key: d.public_key,
                    device_name: d.device_name,
                    paired_at: d.paired_at,
                    last_seen: Some(now),
                };
                let _ = self.devices.insert(device_id.clone(), updated);
                assert(final(self).devices().dom() =~= old(self).devices().dom());
            },
            None => {
                assert(final(self).devices() =~= old(self).devices());
            },
        }
        AuditAction::AuthOk
    }

    /// The paired devices.
    pub fn list_devices(&self) -> (r: Vec<&PairedDevice>)
        requires
            self.wf(),
        ensures
            r@.len() == self.devices().len(),
            forall|k: Seq<char>|
                self.devices().contains_key(k) ==> exists|i: int|
                    0 <= i < r@.len() && #[trigger] *r@[i] == self.devices()[k],
    {
        self.devices.values()
    }

    /// Unpairs a device.
    pub fn revoke_device(&mut self, device_id: &String) -> (r: Result<AuditAction, DeviceError>)
        requires
            old(self).wf(),
        ensures
            final(self).wf(),
            final(self).tokens() == old(self).tokens(),
            final(self).devices() == old(self).devices().remove(device_id@),
            old(self).devices().contains_key(device_id@) ==> r == Ok::<AuditAction, DeviceError>(
                AuditAction::Revoke,
            ),
            !old(self).devices().contains_key(device_id@) ==> r == Err::<AuditAction, DeviceError>(
                DeviceError::NotPaired,
            ),
    {
        match self.devices.remove(device_id) {
            Some(_) => Ok(AuditAction::Revoke),
            None => Err(DeviceError::NotPaired),
        }
    }

    /// Issues a single-use pairing token made of 32 random bytes, valid for
    /// `TOKEN_LIFETIME_SECS` from `now`.
    pub fn create_pairing_token(&mut self, random: &[u8; 32], now: u64) -> (r: String)
        requires
            old(self).wf(),
        ensures
            final(self).wf(),
            final(self).devices() == old(self).devices(),
            r@ == base64_url_encoded(random@),
            final(self).tokens() == old(self).tokens().push(
                (
                    r@,
                    if now <= u64::MAX - TOKEN_LIFETIME_SECS {
                        (now + TOKEN_LIFETIME_SECS) as u64
                    } else {
                        u64::MAX
                    },
                ),
            ),
    {
        self.tokens.create_pairing_token(random, now)
    }

    /// Validates and consumes a pairing token.
    pub fn validate_pairing_token(&mut self, token: &String, now: u64) -> (r: bool)
        requires
            old(self).wf(),
        ensures
            final(self).wf(),
            final(self).devices() == old(self).devices(),
            r == valid_at(old(self).tokens(), token@, now),
            final(self).tokens() == kept(old(self).tokens(), Some(token@), now),
    {
        self.tokens.validate_pairing_token(token, now)
    }
}

} // verus!
