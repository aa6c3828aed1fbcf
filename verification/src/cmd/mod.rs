//! CTAP2 commands. Each submodule builds the requests of one command and reads its responses;
//! the caller carries them to the device and back.

use crate::cmd::make_credential::CredProtect;
use crate::error::Error;
use crate::outside::memory;
use crate::text;
use vstd::prelude::*;

pub mod get_assertion;
pub mod get_info;
pub mod get_next_assertion;
pub mod make_credential;
pub mod reset;

verus! {

/// COSE algorithms this crate will ask the authenticator for.
#[derive(Copy, Clone, Debug, PartialEq, Eq, Structural)]
pub enum Algorithm {
    /// ECDSA P-256 / SHA-256, COSE `-7`.
    Es256,
    /// `EdDSA` Ed25519, COSE `-8`.
    EdDsa,
}

/// The COSE identifier of an algorithm.
pub open spec fn cose_id_of(algorithm: Algorithm) -> i32 {
    match algorithm {
        Algorithm::Es256 => -7i32,
        Algorithm::EdDsa => -8i32,
    }
}

impl Algorithm {
    /// Wire-level COSE algorithm identifier.
    pub fn cose_id(self) -> (r: i32)
        ensures
            r == cose_id_of(self),
    {
        match self {
            Algorithm::Es256 => -7,
            Algorithm::EdDsa => -8,
        }
    }
}

impl From<Algorithm> for i32 {
    fn from(algorithm: Algorithm) -> (r: i32) {
        algorithm.cose_id()
    }
}

impl vstd::std_specs::convert::FromSpecImpl<Algorithm> for i32 {
    open spec fn obeys_from_spec() -> bool {
        true
    }

    open spec fn from_spec(algorithm: Algorithm) -> i32 {
        cose_id_of(algorithm)
    }
}

/// Parsed `authenticatorGetInfo` response. Absent values are `None` or empty.
#[derive(Clone, Debug, Default)]
pub struct AuthenticatorInfo {
    /// `versions` (0x01): protocol versions, e.g. `"FIDO_2_0"`, `"FIDO_2_1"`.
    pub versions: Vec<String>,
    /// `extensions` (0x02): extension names the device understands.
    pub extensions: Vec<String>,
    /// `aaguid` (0x03): 16-byte authenticator model identifier.
    pub aaguid: [u8; 16],
    /// `options` (0x04): capability flags such as `rk`, `up`, `uv`, `plat`, `clientPin`.
    /// Missing keys mean the option isn't supported.
    pub options: Vec<(String, bool)>,
    /// `maxMsgSize` (0x05).
    pub max_msg_size: Option<u32>,
    /// `pinProtocols` (0x06): PIN protocol versions supported, ordered by device preference.
    /// Empty if `clientPin` is unsupported.
    pub pin_protocols: Vec<u8>,
    /// `maxCredentialCountInList` (0x07).
    pub max_credential_count_in_list: Option<u32>,
    /// `maxCredentialIdLength` (0x08).
    pub max_credential_id_length: Option<u32>,
    /// `transports` (0x09): `"usb"`, `"nfc"`, `"ble"`, `"internal"`.
    pub transports: Vec<String>,
    /// `algorithms` (0x0A): COSE algorithm ids the device will sign with.
    pub algorithms: Vec<i32>,
    /// `maxSerializedLargeBlobArray` (0x0B).
    pub max_serialized_large_blob_array: Option<u32>,
    /// `forcePINChange` (0x0C).
    pub force_pin_change: bool,
    /// `minPINLength` (0x0D).
    pub min_pin_length: Option<u32>,
    /// `firmwareVersion` (0x0E).
    pub firmware_version: Option<u32>,
    /// `maxCredBlobLength` (0x0F).
    pub max_cred_blob_length: Option<u32>,
    /// `maxRPIDsForSetMinPINLength` (0x10).
    pub max_rp_ids_for_set_min_pin_length: Option<u32>,
    /// `preferredPlatformUvAttempts` (0x11).
    pub preferred_platform_uv_attempts: Option<u32>,
    /// `uvModality` (0x12).
    pub uv_modality: Option<u32>,
    /// `remainingDiscoverableCredentials` (0x14).
    pub remaining_discoverable_credentials: Option<u32>,
}

/// What an [`AuthenticatorInfo`] says.
pub struct Info {
    pub versions: Seq<Seq<char>>,
    pub extensions: Seq<Seq<char>>,
    pub aaguid: Seq<u8>,
    pub options: Seq<(Seq<char>, bool)>,
    pub max_msg_size: Option<u32>,
    pub pin_protocols: Seq<u8>,
    pub max_credential_count_in_list: Option<u32>,
    pub max_credential_id_length: Option<u32>,
    pub transports: Seq<Seq<char>>,
    pub algorithms: Seq<i32>,
    pub max_serialized_large_blob_array: Option<u32>,
    pub force_pin_change: bool,
    pub min_pin_length: Option<u32>,
    pub firmware_version: Option<u32>,
    pub max_cred_blob_length: Option<u32>,
    pub max_rp_ids_for_set_min_pin_length: Option<u32>,
    pub preferred_platform_uv_attempts: Option<u32>,
    pub uv_modality: Option<u32>,
    pub remaining_discoverable_credentials: Option<u32>,
}

/// The characters of each string.
pub open spec fn texts(strings: Seq<String>) -> Seq<Seq<char>> {
    Seq::new(strings.len(), |i: int| strings[i]@)
}

/// The characters of each name, with its flag.
pub open spec fn flags(options: Seq<(String, bool)>) -> Seq<(Seq<char>, bool)> {
    Seq::new(options.len(), |i: int| (options[i].0@, options[i].1))
}

impl View for AuthenticatorInfo {
    type V = Info;

    open spec fn view(&self) -> Info {
        Info {
            versions: texts(self.versions@),
            extensions: texts(self.extensions@),
            aaguid: self.aaguid@,
            options: flags(self.options@),
            max_msg_size: self.max_msg_size,
            pin_protocols: self.pin_protocols@,
            max_credential_count_in_list: self.max_credential_count_in_list,
            max_credential_id_length: self.max_credential_id_length,
            transports: texts(self.transports@),
            algorithms: self.algorithms@,
            max_serialized_large_blob_array: self.max_serialized_large_blob_array,
            force_pin_change: self.force_pin_change,
            min_pin_length: self.min_pin_length,
            firmware_version: self.firmware_version,
            max_cred_blob_length: self.max_cred_blob_length,
            max_rp_ids_for_set_min_pin_length: self.max_rp_ids_for_set_min_pin_length,
            preferred_platform_uv_attempts: self.preferred_platform_uv_attempts,
            uv_modality: self.uv_modality,
            remaining_discoverable_credentials: self.remaining_discoverable_credentials,
        }
    }
}

/// The flag of the first option with the given name.
pub open spec fn option_named(options: Seq<(Seq<char>, bool)>, name: Seq<char>) -> Option<bool>
    decreases options.len(),
{
    if options.len() == 0 {
        None
    } else if options[0].0 == name {
        Some(options[0].1)
    } else {
        option_named(options.drop_first(), name)
    }
}

/// Whether some bytes hold the given one.
fn holds(bytes: &Vec<u8>, wanted: u8) -> (r: bool)
    ensures
        r == bytes@.contains(wanted),
{
    let mut i: usize = 0;
    while i < bytes.len()
        invariant
            i <= bytes.len(),
            forall|j: int| 0 <= j < i ==> bytes@[j] != wanted,
        decreases bytes.len() - i,
    {
        if bytes[i] == wanted {
            assert(bytes@[i as int] == wanted);
            return true;
        }
        i += 1;
    }
    false
}

impl AuthenticatorInfo {
    /// Read a named option, returning `None` if the device didn't advertise it.
    pub fn option(&self, name: &str) -> (r: Option<bool>)
        ensures
            r == option_named(self@.options, name@),
    {
        let mut i: usize = 0;
        assert(self@.options.skip(0) =~= self@.options);
        while i < self.options.len()
            invariant
                i <= self.options.len(),
                option_named(self@.options, name@) == option_named(
                    self@.options.skip(i as int),
                    name@,
                ),
            decreases self.options.len() - i,
        {
            assert(self@.options.skip(i as int).drop_first() =~= self@.options.skip(i + 1));
            if text::same_text(self.options[i].0.as_str(), name) {
                return Some(self.options[i].1);
            }
            i += 1;
        }
        None
    }

    /// True iff a client PIN is currently set on the device.
    pub fn client_pin_set(&self) -> (r: bool)
        ensures
            r == (option_named(self@.options, "clientPin"@) == Some(true)),
    {
        match self.option("clientPin") {
            Some(set) => set,
            None => false,
        }
    }

    /// True iff the device advertises the `hmac-secret` extension.
    pub fn hmac_secret(&self) -> (r: bool)
        ensures
            r == self@.extensions.contains("hmac-secret"@),
    {
        let mut i: usize = 0;
        while i < self.extensions.len()
            invariant
                i <= self.extensions.len(),
                forall|j: int| 0 <= j < i ==> self@.extensions[j] != "hmac-secret"@,
            decreases self.extensions.len() - i,
        {
            if text::same_text(self.extensions[i].as_str(), "hmac-secret") {
                assert(self@.extensions[i as int] == "hmac-secret"@);
                return true;
            }
            i += 1;
        }
        false
    }

    /// True iff the device accepts PIN protocol v1 commands. CTAP2.0 devices that don't
    /// advertise `pinProtocols` are treated as v1.
    pub fn supports_pin_protocol_v1(&self) -> (r: bool)
        ensures
            r == (self@.pin_protocols.len() == 0 || self@.pin_protocols.contains(1u8)),
    {
        self.pin_protocols.len() == 0 || holds(&self.pin_protocols, 1)
    }

    /// True iff the device advertises PIN protocol v2. The crate does not implement v2 yet;
    /// this is exposed so callers can detect v2-only devices and fail early rather than time
    /// out on a v1 exchange.
    pub fn supports_pin_protocol_v2(&self) -> (r: bool)
        ensures
            r == self@.pin_protocols.contains(2u8),
    {
        holds(&self.pin_protocols, 2)
    }
}

/// Options for registering a credential.
#[derive(Clone, Debug)]
pub struct MakeCredentialOptions<'a> {
    /// Algorithm to request.
    pub algorithm: Algorithm,
    /// PIN, when the device requires one. UV stays off with and without it: hmac-secret outputs
    /// that are scoped to UV differ from those that are not.
    pub pin: Option<&'a str>,
    /// Ask the device to create a resident (discoverable) credential.
    pub resident_key: bool,
    /// `credProtect` policy level to apply to the credential. `None` leaves the device's
    /// default in place.
    pub cred_protect: Option<CredProtect>,
    /// Up to 32 bytes of arbitrary data to store on the device alongside the credential.
    /// Retrievable on every assertion without a second touch.
    pub cred_blob: Option<&'a [u8]>,
    /// Request the per-credential large-blob key from the device. Returned in
    /// [`Credential::large_blob_key`](make_credential::Credential::large_blob_key) when the
    /// device supports the extension.
    pub large_blob_key: bool,
    /// Ask the device to report its current `minPinLength` value in the extensions echo.
    pub min_pin_length: bool,
}

impl<'a> Default for MakeCredentialOptions<'a> {
    /// ES256, no PIN, not resident, and no optional extension.
    fn default() -> (r: MakeCredentialOptions<'a>)
        ensures
            r == (MakeCredentialOptions {
                algorithm: Algorithm::Es256,
                pin: None,
                resident_key: false,
                cred_protect: None,
                cred_blob: None,
                large_blob_key: false,
                min_pin_length: false,
            }),
    {
        MakeCredentialOptions {
            algorithm: Algorithm::Es256,
            pin: None,
            resident_key: false,
            cred_protect: None,
            cred_blob: None,
            large_blob_key: false,
            min_pin_length: false,
        }
    }
}

/// Where a command of several exchanges stands.
pub enum Turn<S, T> {
    /// Send the payload, and hand the response body to the state.
    Send(Vec<u8>, S),
    /// The command is over.
    Done(Result<T, Error>),
}

/// 32-byte hmac-secret output, wiped on drop.
pub struct HmacSecret(pub [u8; 32]);

impl View for HmacSecret {
    type V = Seq<u8>;

    open spec fn view(&self) -> Seq<u8> {
        self.0@
    }
}

impl Drop for HmacSecret {
    fn drop(&mut self)
        ensures
            final(self)@ == Seq::new(32, |i: int| 0u8),
        opens_invariants none
        no_unwind
    {
        memory::wipe_array(&mut self.0);
    }
}

} // verus!
