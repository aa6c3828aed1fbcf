# ctap-fido2

A CTAP2 client for FIDO2 authenticators over USB HID, with its protocol verified in
[Verus](https://github.com/verus-lang/verus).

The library enumerates HID authenticators, creates credentials, runs assertions, and reads the
`hmac-secret` extension. It holds no device: each command is a payload to send and a response to
read, and a command of several exchanges is a state that takes one response at a time.

## Layout

- `src/` is the verified library.
  - `hid` cuts messages into CTAPHID reports and puts replies together; `hid::laws` states what
    holds of whole exchanges.
  - `cbor` holds CBOR items and looks fields up in them.
  - `pin` is PIN protocol v1: key agreement, session, token.
  - `cose` is credential public keys and signature verification.
  - `cmd` is one module per CTAP2 command.
  - `device` decides which devices are listed.
  - `outside` is every call into another crate. Its contracts are taken on trust; everything else
    is proved from them.
- `app/` owns the HID handles: opening, reading, writing, logging.
- `tests/` runs the library against known values and a played device.

## Example

```rust
use app::{list_devices, Authenticator};
use ctap_fido2::cmd::get_assertion::HmacSecretRequest;
use ctap_fido2::MakeCredentialOptions;

let info = list_devices()?
    .into_iter()
    .next()
    .expect("plug a security key in first");
let mut auth = Authenticator::open(&info)?;

let cdh = [0xAB; 32];
let credential = auth.make_credential("example.com", &cdh, &MakeCredentialOptions::default())?;
// Persist `credential.id` and `credential.public_key.as_cose_bytes()` together.

let salt = [0xCD; 32];
let response = auth.get_hmac_secret(&HmacSecretRequest {
    rp_id: "example.com",
    client_data_hash: &cdh,
    cred_id: &credential.id,
    salt: &salt,
    salt2: None,
    pin: None,
    public_key: Some(&credential.public_key),
    request_cred_blob: false,
})?;
// `response.secret.0` is the 32-byte hmac-secret output, zeroized on drop.
```

Pass `None` for the PIN only on keys without one set.

## Debugging

`app` uses the `log` crate; any backend at `trace` level shows frame-level chatter.

## License

MIT.
