//! `makeCredential`: what is asked, and what an answer says.

use crate::cbor;
use crate::cbor::CborValue;
use crate::cmd;
use crate::cmd::get_assertion;
use crate::cmd::make_credential;
use crate::cmd::make_credential::{
    CredProtect, Credential, CredentialCall, CredentialData, CredentialExtensions,
    CredentialFields, FieldData, Registration,
};
use crate::cmd::{Algorithm, MakeCredentialOptions, Turn};
use crate::cose;
use crate::error;
use crate::error::Fault;
use crate::laws::assertion;
use crate::outside::{base64_text, digest, item};
use crate::pin;
use crate::pin::PinExchange;
use vstd::prelude::*;

verus! {

/// The numbers of a registration: its command, the algorithms and the protection levels.
pub proof fn law_registration_numbers(algorithm: Algorithm, policy: CredProtect)
    ensures
        make_credential::COMMAND == 1,
        cmd::cose_id_of(algorithm) == (match algorithm {
            Algorithm::Es256 => -7int,
            Algorithm::EdDsa => -8int,
        }),
        make_credential::level_of(policy) == (match policy {
            CredProtect::UvOptional => 1int,
            CredProtect::UvOptionalWithList => 2int,
            CredProtect::UvRequired => 3int,
        }),
{
}

/// A registration asks for the algorithm that its options name, and for no other: under 4 stands
/// one map, with -7 for ES256 or -8 for EdDSA under "alg" and the type of credentials.
pub proof fn law_registration_asks_for_the_algorithm(
    registration: Registration<'_>,
    token: Option<Seq<u8>>,
)
    ensures
        cbor::field(
            make_credential::parameters(registration, token),
            CborValue::Integer(4),
        ) matches Some(CborValue::Array(list)) && list.len() == 1 && {
            &&& registration.options.algorithm == Algorithm::Es256 ==> cbor::field(
                list[0],
                CborValue::Text("alg"@),
            ) == Some(CborValue::Integer(-7))
            &&& registration.options.algorithm == Algorithm::EdDsa ==> cbor::field(
                list[0],
                CborValue::Text("alg"@),
            ) == Some(CborValue::Integer(-8))
            &&& cbor::field(list[0], CborValue::Text("type"@)) == Some(
                CborValue::Text("public-key"@),
            )
            &&& list[0] matches CborValue::Mapping(entries)
            &&& entries.len() == 2
            &&& entries[0].0 == CborValue::Text("alg"@)
        },
{
    reveal_strlit("alg");
    reveal_strlit("type");
    assert("alg"@.len() == 3 && "type"@.len() == 4);
    make_credential::law_parameters_by_number(registration, token, 4);
    let entries = make_credential::algorithm_entity(registration.options.algorithm)->Mapping_0;
    cbor::lemma_position_is(entries, CborValue::Text("alg"@), 0);
    cbor::lemma_position_is(entries, CborValue::Text("type"@), 1);
}

/// A registration is for the given client data hash, relying party and user, each under its
/// number; where there is a token, the hash is authenticated under it, and the protocol's number
/// follows. Nothing stands under 5.
pub proof fn law_registration_request_by_number(
    registration: Registration<'_>,
    token: Option<Seq<u8>>,
)
    ensures
        ({
            let map = make_credential::parameters(registration, token);
            &&& cbor::field(map, CborValue::Integer(1)) == Some(
                CborValue::Bytes(registration.client_data_hash@),
            )
            &&& cbor::field(map, CborValue::Integer(2)) matches Some(party)
            &&& cbor::field(party, CborValue::Text("id"@)) == Some(
                CborValue::Text(registration.rp_id@),
            )
            &&& party is Mapping && party->Mapping_0.len() == 1
            &&& cbor::field(map, CborValue::Integer(3)) matches Some(user)
            &&& cbor::field(user, CborValue::Text("id"@)) == Some(
                CborValue::Bytes(registration.user_id@),
            )
            &&& cbor::field(user, CborValue::Text("name"@)) == Some(
                CborValue::Text(registration.user_name@),
            )
            &&& user is Mapping && user->Mapping_0.len() == 2 && user->Mapping_0[0].0
                == CborValue::Text("id"@)
            &&& cbor::field(map, CborValue::Integer(5)) is None
            &&& match token {
                Some(token) => cbor::field(map, CborValue::Integer(8)) == Some(
                    CborValue::Bytes(
                        digest::hmac_sha256_tag(registration.client_data_hash@, token).take(16),
                    ),
                ) && cbor::field(map, CborValue::Integer(9)) == Some(CborValue::Integer(1)),
                None => cbor::field(map, CborValue::Integer(8)) is None && cbor::field(
                    map,
                    CborValue::Integer(9),
                ) is None,
            }
        }),
{
    reveal_strlit("id");
    reveal_strlit("name");
    assert("id"@.len() == 2 && "name"@.len() == 4);
    make_credential::law_parameters_by_number(registration, token, 1);
    make_credential::law_parameters_by_number(registration, token, 2);
    make_credential::law_parameters_by_number(registration, token, 3);
    make_credential::law_parameters_by_number(registration, token, 5);
    make_credential::law_parameters_by_number(registration, token, 8);
    make_credential::law_parameters_by_number(registration, token, 9);
    let party = make_credential::party_entity(registration.rp_id@)->Mapping_0;
    let user = make_credential::user_entity(
        registration.user_id@,
        registration.user_name@,
    )->Mapping_0;
    cbor::lemma_position_is(party, CborValue::Text("id"@), 0);
    cbor::lemma_position_is(user, CborValue::Text("id"@), 0);
    cbor::lemma_position_is(user, CborValue::Text("name"@), 1);
}

/// The parameters of a registration stand in the order of their numbers, which go from 1 to 9.
pub proof fn law_registration_request_in_order(
    registration: Registration<'_>,
    token: Option<Seq<u8>>,
)
    ensures
        make_credential::parameters(registration, token) matches CborValue::Mapping(entries) && {
            &&& entries.len() == (if token is Some {
                8int
            } else {
                6int
            })
            &&& forall|i: int|
                0 <= i < entries.len() ==> (#[trigger] entries[i]).0 is Integer && 1
                    <= entries[i].0->Integer_0 <= 9
            &&& forall|i: int, j: int|
                0 <= i < j < entries.len() ==> (#[trigger] entries[i]).0->Integer_0 < (
                #[trigger] entries[j]).0->Integer_0
        },
{
    let entries = make_credential::parameters(registration, token)->Mapping_0;
    let base = make_credential::base_entries(registration);
    let proofs = make_credential::pin_entries(registration.client_data_hash@, token);
    assert forall|i: int| 0 <= i < entries.len() implies (#[trigger] entries[i]).0
        == CborValue::Integer(
        if i < 4 {
            i + 1
        } else {
            i + 2
        },
    ) by {
        if i < base.len() {
            assert(entries[i] == base[i]);
        } else {
            assert(entries[i] == proofs[i - base.len()]);
        }
    }
}

/// The place of an extension in a registration.
pub open spec fn place(key: CborValue) -> int {
    if key == CborValue::Text("hmac-secret"@) {
        0
    } else if key == CborValue::Text("credProtect"@) {
        1
    } else if key == CborValue::Text("credBlob"@) {
        2
    } else if key == CborValue::Text("largeBlobKey"@) {
        3
    } else if key == CborValue::Text("minPinLength"@) {
        4
    } else {
        5
    }
}

proof fn lemma_places()
    ensures
        place(CborValue::Text("hmac-secret"@)) == 0,
        place(CborValue::Text("credProtect"@)) == 1,
        place(CborValue::Text("credBlob"@)) == 2,
        place(CborValue::Text("largeBlobKey"@)) == 3,
        place(CborValue::Text("minPinLength"@)) == 4,
{
    reveal_strlit("hmac-secret");
    reveal_strlit("credProtect");
    reveal_strlit("credBlob");
    reveal_strlit("largeBlobKey");
    reveal_strlit("minPinLength");
    assert("hmac-secret"@[0] == 'h' && "credProtect"@[4] == 'P' && "credBlob"@[4] == 'B');
    assert("credProtect"@[0] == 'c' && "credBlob"@[0] == 'c');
    assert("largeBlobKey"@[0] == 'l' && "minPinLength"@[0] == 'm');
}

/// The extensions of a registration are `hmac-secret`, always, and each other one exactly as the
/// options ask for it: the protection level by its number, the blob byte for byte, and the two
/// flags set to true. They stand in one order, and nothing else stands with them.
pub proof fn law_registration_extensions(registration: Registration<'_>, token: Option<Seq<u8>>)
    ensures
        ({
            let map = make_credential::parameters(registration, token);
            let options = registration.options;
            &&& cbor::field(map, CborValue::Integer(6)) matches Some(extensions)
            &&& cbor::field(extensions, CborValue::Text("hmac-secret"@)) == Some(
                CborValue::Bool(true),
            )
            &&& cbor::field(extensions, CborValue::Text("credProtect"@)) == (
            match options.cred_protect {
                Some(CredProtect::UvOptional) => Some(CborValue::Integer(1)),
                Some(CredProtect::UvOptionalWithList) => Some(CborValue::Integer(2)),
                Some(CredProtect::UvRequired) => Some(CborValue::Integer(3)),
                None => None,
            })
            &&& cbor::field(extensions, CborValue::Text("credBlob"@)) == (match options.cred_blob {
                Some(blob) => Some(CborValue::Bytes(blob@)),
                None => None,
            })
            &&& cbor::field(extensions, CborValue::Text("largeBlobKey"@)) == (
            if options.large_blob_key {
                Some(CborValue::Bool(true))
            } else {
                None
            })
            &&& cbor::field(extensions, CborValue::Text("minPinLength"@)) == (
            if options.min_pin_length {
                Some(CborValue::Bool(true))
            } else {
                None
            })
            &&& extensions matches CborValue::Mapping(entries)
            &&& forall|i: int| 0 <= i < entries.len() ==> place((#[trigger] entries[i]).0) < 5
            &&& forall|i: int, j: int|
                0 <= i < j < entries.len() ==> place((#[trigger] entries[i]).0) < place(
                    (#[trigger] entries[j]).0,
                )
        }),
{
    lemma_places();
    make_credential::law_parameters_by_number(registration, token, 6);
    let options = *registration.options;
    let first = seq![(CborValue::Text("hmac-secret"@), CborValue::Bool(true))];
    let protect = make_credential::protect_entries(options);
    let blob = make_credential::blob_entries(options);
    let large = make_credential::flag_entries("largeBlobKey"@, options.large_blob_key);
    let length = make_credential::flag_entries("minPinLength"@, options.min_pin_length);
    let entries = make_credential::extensions_for(options)->Mapping_0;
    assert(entries =~= first + protect + blob + large + length);
    lemma_run_of_one(first);
    lemma_run_of_one(protect);
    lemma_run_of_one(blob);
    lemma_run_of_one(large);
    lemma_run_of_one(length);
    lemma_lookup(first, protect, blob, large, length, CborValue::Text("hmac-secret"@));
    lemma_lookup(first, protect, blob, large, length, CborValue::Text("credProtect"@));
    lemma_lookup(first, protect, blob, large, length, CborValue::Text("credBlob"@));
    lemma_lookup(first, protect, blob, large, length, CborValue::Text("largeBlobKey"@));
    lemma_lookup(first, protect, blob, large, length, CborValue::Text("minPinLength"@));
    let a = first.len() as int;
    let b = a + protect.len();
    let c = b + blob.len();
    let d = c + large.len();
    assert forall|i: int| 0 <= i < entries.len() implies place((#[trigger] entries[i]).0) == (if i
        < a {
        0
    } else if i < b {
        1
    } else if i < c {
        2
    } else if i < d {
        3
    } else {
        4int
    }) by {
        if i < a {
            assert(entries[i] == first[i]);
        } else if i < b {
            assert(entries[i] == protect[i - a]);
        } else if i < c {
            assert(entries[i] == blob[i - b]);
        } else if i < d {
            assert(entries[i] == large[i - c]);
        } else {
            assert(entries[i] == length[i - d]);
        }
    }
}

/// A lookup among at most one entry.
proof fn lemma_run_of_one(entries: Seq<(CborValue, CborValue)>)
    requires
        entries.len() <= 1,
    ensures
        forall|key: CborValue| #[trigger]
            cbor::entry(entries, key) == (if entries.len() == 1 && entries[0].0 == key {
                Some(entries[0].1)
            } else {
                None
            }),
{
    assert forall|key: CborValue| #[trigger]
        cbor::entry(entries, key) == (if entries.len() == 1 && entries[0].0 == key {
            Some(entries[0].1)
        } else {
            None
        }) by {
        if entries.len() == 1 && entries[0].0 == key {
            cbor::lemma_position_is(entries, key, 0);
        } else {
            cbor::lemma_position_is(entries, key, entries.len() as int);
        }
    }
}

/// A lookup in five runs of entries looks in each in turn.
proof fn lemma_lookup(
    a: Seq<(CborValue, CborValue)>,
    b: Seq<(CborValue, CborValue)>,
    c: Seq<(CborValue, CborValue)>,
    d: Seq<(CborValue, CborValue)>,
    e: Seq<(CborValue, CborValue)>,
    key: CborValue,
)
    ensures
        cbor::entry(a + b + c + d + e, key) == (if cbor::entry(a, key) is Some {
            cbor::entry(a, key)
        } else if cbor::entry(b, key) is Some {
            cbor::entry(b, key)
        } else if cbor::entry(c, key) is Some {
            cbor::entry(c, key)
        } else if cbor::entry(d, key) is Some {
            cbor::entry(d, key)
        } else {
            cbor::entry(e, key)
        }),
{
    cbor::lemma_entry_in_runs(a, b, key);
    cbor::lemma_entry_in_runs(a + b, c, key);
    cbor::lemma_entry_in_runs(a + b + c, d, key);
    cbor::lemma_entry_in_runs(a + b + c + d, e, key);
}

/// The options of a registration turn `uv` off, always, and `rk` on exactly where a resident
/// credential is asked for; there is no other.
pub proof fn law_registration_options(registration: Registration<'_>, token: Option<Seq<u8>>)
    ensures
        ({
            let map = make_credential::parameters(registration, token);
            &&& cbor::field(map, CborValue::Integer(7)) matches Some(chosen)
            &&& cbor::field(chosen, CborValue::Text("uv"@)) == Some(CborValue::Bool(false))
            &&& cbor::field(chosen, CborValue::Text("rk"@)) == (
            if registration.options.resident_key {
                Some(CborValue::Bool(true))
            } else {
                None
            })
            &&& chosen matches CborValue::Mapping(entries)
            &&& entries.len() == (if registration.options.resident_key {
                2int
            } else {
                1int
            })
            &&& entries[0].0 == CborValue::Text("uv"@)
        }),
{
    reveal_strlit("uv");
    reveal_strlit("rk");
    assert("uv"@[0] == 'u' && "rk"@[0] == 'r');
    make_credential::law_parameters_by_number(registration, token, 7);
    let options = *registration.options;
    let entries = make_credential::options_for(options)->Mapping_0;
    cbor::lemma_position_is(entries, CborValue::Text("uv"@), 0);
    cbor::lemma_position_is(entries, CborValue::Text("rk"@), 1);
}

/// A blob is refused exactly where it is longer than 32 bytes.
pub proof fn law_blob_limit(options: MakeCredentialOptions<'_>)
    ensures
        options.cred_blob is None ==> !make_credential::blob_too_long(options),
        options.cred_blob matches Some(blob) ==> make_credential::blob_too_long(options) == (
        blob@.len() > 32),
{
}

/// A registration is for what it was made for, and its user has a name of eight characters.
pub proof fn law_registrations_are_for_what_is_given(
    registration: Registration<'_>,
    rp_id: &str,
    client_data_hash: &[u8; 32],
    options: &MakeCredentialOptions<'_>,
)
    requires
        make_credential::is_registration(registration, rp_id, client_data_hash, options),
    ensures
        registration.rp_id@ == rp_id@,
        registration.client_data_hash@ == client_data_hash@,
        registration.options == options,
        registration.user_name@.len() == 8,
{
    let name = choose|name: Seq<u8>|
        name.len() == 6 && registration.user_name@ == #[trigger] base64_text::base64_text(name);
    assert(base64_text::base64_text(name).len() == 8);
}

/// The echo of a registration goes by the last entry of each name: whether the blob was stored,
/// the protection level where it fits a byte, and the shortest PIN where it fits 32 bits.
pub proof fn law_echo_goes_by_the_last_entry(
    entries: Seq<(CborValue, CborValue)>,
    at: int,
    level: u8,
    length: u32,
)
    requires
        0 <= at < entries.len(),
        forall|j: int| at < j < entries.len() ==> (#[trigger] entries[j]).0 != entries[at].0,
    ensures
        ({
            let echo = make_credential::echo_of_item(CborValue::Mapping(entries));
            let (name, value) = entries[at];
            &&& name == CborValue::Text("credBlob"@) ==> echo.cred_blob_set == (value
                == CborValue::Bool(true))
            &&& name == CborValue::Text("credProtect"@) ==> (echo.cred_protect == Some(level)
                <==> value == CborValue::Integer(level as int))
            &&& name == CborValue::Text("minPinLength"@) ==> (echo.min_pin_length == Some(length)
                <==> value == CborValue::Integer(length as int))
        }),
    decreases entries.len(),
{
    lemma_places();
    if at < entries.len() - 1 {
        let fewer = entries.drop_last();
        assert(fewer[at] == entries[at]);
        assert forall|j: int| at < j < fewer.len() implies (#[trigger] fewer[j]).0
            != fewer[at].0 by {
            assert(fewer[j] == entries[j]);
        }
        law_echo_goes_by_the_last_entry(fewer, at, level, length);
        assert(entries.last() == entries[entries.len() - 1]);
    }
}

/// What no entry names is not in the echo, and what is no map echoes nothing.
pub proof fn law_echo_of_what_is_not_there(value: CborValue)
    ensures
        ({
            let echo = make_credential::echo_of_item(value);
            let named = |name: Seq<char>|
                match value {
                    CborValue::Mapping(entries) => exists|i: int|
                        0 <= i < entries.len() && (#[trigger] entries[i]).0 == CborValue::Text(
                            name,
                        ),
                    _ => false,
                };
            &&& !named("credBlob"@) ==> !echo.cred_blob_set
            &&& !named("credProtect"@) ==> echo.cred_protect is None
            &&& !named("minPinLength"@) ==> echo.min_pin_length is None
        }),
{
    if let CborValue::Mapping(entries) = value {
        lemma_echo_not_named(entries);
    }
}

proof fn lemma_echo_not_named(entries: Seq<(CborValue, CborValue)>)
    ensures
        ({
            let echo = make_credential::echo_of(entries);
            let named = |name: Seq<char>|
                exists|i: int|
                    0 <= i < entries.len() && (#[trigger] entries[i]).0 == CborValue::Text(name);
            &&& !named("credBlob"@) ==> !echo.cred_blob_set
            &&& !named("credProtect"@) ==> echo.cred_protect is None
            &&& !named("minPinLength"@) ==> echo.min_pin_length is None
        }),
    decreases entries.len(),
{
    if entries.len() > 0 {
        let fewer = entries.drop_last();
        lemma_echo_not_named(fewer);
        assert(entries.last() == entries[entries.len() - 1]);
        assert forall|name: Seq<char>|
            (exists|i: int|
                0 <= i < fewer.len() && (#[trigger] fewer[i]).0 == CborValue::Text(
                    name,
                )) implies #[trigger] is_named(entries, name) by {
            let i = choose|i: int|
                0 <= i < fewer.len() && (#[trigger] fewer[i]).0 == CborValue::Text(name);
            assert(entries[i] == fewer[i]);
        }
        assert(is_named(entries, "credBlob"@) || !is_named(entries, "credBlob"@));
        assert(is_named(entries, "credProtect"@) || !is_named(entries, "credProtect"@));
        assert(is_named(entries, "minPinLength"@) || !is_named(entries, "minPinLength"@));
    }
}

spec fn is_named(entries: Seq<(CborValue, CborValue)>, name: Seq<char>) -> bool {
    exists|i: int| 0 <= i < entries.len() && (#[trigger] entries[i]).0 == CborValue::Text(name)
}

/// What some `authData` attests: with the flag 0x40 in its byte 32, the id starts at byte 55 and
/// has the length in the bytes 53 and 54; the key is the accepted item behind it, byte for byte;
/// and with the flag 0x80 whatever follows the key must be one item, whose echo is told.
pub proof fn law_attested_credential_by_bytes(auth_data: Seq<u8>)
    ensures
        ({
            let found = make_credential::attested_in(auth_data);
            let id_end = 55 + auth_data[53] * 256 + auth_data[54];
            let told = |fault: Fault|
                found == Err::<(Seq<u8>, Seq<u8>, CredentialExtensions), Fault>(fault);
            if auth_data.len() < 55 {
                told(Fault::Parse("authData too short for attested credential"@))
            } else if auth_data[32] & 0x40 == 0 {
                told(Fault::Parse("authData missing AT flag, no attested credential data"@))
            } else if id_end > auth_data.len() {
                told(Fault::Parse("credential id length exceeds authData"@))
            } else {
                match item::leading_item(auth_data.skip(id_end)) {
                    None => told(Fault::Cbor(None)),
                    Some((cose_key, used)) => match cose::validated(cose_key) {
                        Err(fault) => told(fault),
                        Ok(_) => {
                            let end = id_end + used;
                            let rest = cbor::whole_item(auth_data.skip(end));
                            if auth_data[32] & 0x80 != 0 && end < auth_data.len() && rest is Err {
                                told(rest->Err_0)
                            } else {
                                found matches Ok((id, key, echo)) && id == auth_data.subrange(
                                    55,
                                    id_end,
                                ) && key == auth_data.subrange(id_end, end) && (if auth_data[32]
                                    & 0x80 != 0 && end < auth_data.len() {
                                    echo == make_credential::echo_of_item(rest->Ok_0)
                                } else {
                                    !echo.cred_blob_set && echo.cred_protect is None
                                        && echo.min_pin_length is None
                                })
                            }
                        },
                    },
                }
            }
        }),
{
    assertion::lemma_flags(auth_data[32]);
}

/// A response is read by its fields: the format under 1, `authData` under 2, the statement under
/// 3 and the large-blob key under 4. The first three must be there, and the first two of their
/// kind.
pub proof fn law_registration_response_by_fields(map: CborValue)
    requires
        map matches CborValue::Mapping(entries) ==> forall|i: int, j: int|
            0 <= i < j < entries.len() ==> (#[trigger] entries[i]).0 != (#[trigger] entries[j]).0,
    ensures
        ({
            let found = make_credential::fields_of(map);
            let told = |text: Seq<char>| found == Err::<FieldData, Fault>(Fault::Parse(text));
            let fmt = cbor::field(map, CborValue::Integer(1));
            let auth_data = cbor::field(map, CborValue::Integer(2));
            let statement = cbor::field(map, CborValue::Integer(3));
            let blob_key = cbor::field(map, CborValue::Integer(4));
            if !(map is Mapping) {
                told("makeCredential response not a CBOR map"@)
            } else if !(fmt is Some && fmt->0 is Text) {
                told("makeCredential response missing fmt"@)
            } else if !(auth_data is Some && auth_data->0 is Bytes) {
                told("makeCredential response missing authData"@)
            } else if statement is None {
                told("makeCredential response missing attStmt"@)
            } else {
                found matches Ok(fields) && fmt == Some(CborValue::Text(fields.fmt)) && auth_data
                    == Some(CborValue::Bytes(fields.auth_data)) && statement == Some(
                    fields.statement,
                ) && match fields.large_blob_key {
                    Some(key) => blob_key == Some(CborValue::Bytes(key)),
                    None => !(blob_key is Some && blob_key->0 is Bytes),
                }
            }
        }),
{
    if let CborValue::Mapping(entries) = map {
        assert(cbor::distinct_keys(entries));
        get_assertion::law_fields_by_number(entries, 1);
        get_assertion::law_fields_by_number(entries, 2);
        get_assertion::law_fields_by_number(entries, 3);
        get_assertion::law_fields_by_number(entries, 4);
    }
}

/// The fields of a response are seen as they are.
pub proof fn law_fields_are_seen_as_they_are(fields: CredentialFields)
    ensures
        fields@.fmt == fields.fmt@,
        fields@.auth_data == fields.auth_data@,
        fields@.statement == fields.statement@,
        match fields.large_blob_key {
            Some(key) => fields@.large_blob_key == Some(key@),
            None => fields@.large_blob_key is None,
        },
{
}

/// A credential holds the fields of the response and what its `authData` attests; the first
/// failure on the way is the one that is told.
pub proof fn law_credential_of_a_response(response: Seq<u8>)
    ensures
        ({
            let found = make_credential::credential_in(response);
            let told = |fault: Fault| found == Err::<CredentialData, Fault>(fault);
            match cbor::whole_item(response) {
                Err(fault) => told(fault),
                Ok(map) => match make_credential::fields_of(map) {
                    Err(fault) => told(fault),
                    Ok(fields) => match make_credential::attested_in(fields.auth_data) {
                        Err(fault) => told(fault),
                        Ok((id, key, echo)) => found matches Ok(data) && data.id == id
                            && data.public_key == key && data.extensions == echo && data.fmt
                            == fields.fmt && data.auth_data == fields.auth_data && data.statement
                            == fields.statement && data.large_blob_key == fields.large_blob_key,
                    },
                },
            }
        }),
{
}

/// A credential is held field by field; its statement reads back as the item it was.
pub proof fn law_credentials_hold_what_was_said(credential: Credential, data: CredentialData)
    requires
        make_credential::holds(credential, data),
    ensures
        credential.id@ == data.id,
        credential.public_key@ == data.public_key,
        credential.attestation.fmt@ == data.fmt,
        credential.attestation.auth_data@ == data.auth_data,
        !cbor::has_nan(data.statement) ==> credential.attestation.att_stmt@ == item::item_bytes(
            data.statement,
        ),
        cbor::restorable(data.statement, 256) ==> item::leading_item(
            credential.attestation.att_stmt@,
        ) == Some((data.statement, credential.attestation.att_stmt@.len())),
        match credential.large_blob_key {
            Some(key) => data.large_blob_key == Some(key@),
            None => data.large_blob_key is None,
        },
        credential.extensions.cred_blob_set == data.extensions.cred_blob_set,
        credential.extensions.cred_protect == data.extensions.cred_protect,
        credential.extensions.min_pin_length == data.extensions.min_pin_length,
{
}

/// What was asked for comes back as the device sent it, and so does all that is not asked for by
/// an option; what an option would have asked for does not.
pub proof fn law_requested_fields_come_back(
    data: CredentialData,
    options: MakeCredentialOptions<'_>,
)
    ensures
        ({
            let kept = make_credential::as_requested(data, options);
            &&& kept.id == data.id
            &&& kept.public_key == data.public_key
            &&& kept.fmt == data.fmt
            &&& kept.auth_data == data.auth_data
            &&& kept.statement == data.statement
            &&& kept.extensions.cred_blob_set == data.extensions.cred_blob_set
            &&& kept.large_blob_key == (if options.large_blob_key {
                data.large_blob_key
            } else {
                None
            })
            &&& kept.extensions.cred_protect == (if options.cred_protect is Some {
                data.extensions.cred_protect
            } else {
                None
            })
            &&& kept.extensions.min_pin_length == (if options.min_pin_length {
                data.extensions.min_pin_length
            } else {
                None
            })
        }),
{
}

/// A registration goes out as command one with its parameters, unless its blob is too long.
pub proof fn law_registration_is_asked_for(
    registration: Registration<'_>,
    token: Option<Seq<u8>>,
    turn: Turn<CredentialCall<'_>, Credential>,
)
    requires
        make_credential::asks_for_credential(registration, token, turn),
    ensures
        if registration.options.cred_blob matches Some(blob) && blob@.len() > 32 {
            turn matches Turn::Done(Err(err)) && err@ == Fault::Pin("credBlob exceeds 32 bytes"@)
        } else {
            turn matches Turn::Send(payload, CredentialCall::Registering(options)) && options
                == registration.options && payload@.len() > 0 && payload@[0] == 1 && cbor::decoded(
                payload@.skip(1),
            ) == Some(make_credential::parameters(registration, token))
        },
{
}

/// A run of `makeCredential` goes through its stages in turn: with a PIN the session and the
/// token, then the registration, and the credential in its answer.
pub proof fn law_credential_call_in_turn(
    call: CredentialCall<'_>,
    response: Seq<u8>,
    turn: Turn<CredentialCall<'_>, Credential>,
)
    requires
        make_credential::credential_step(call, response, turn),
    ensures
        match call {
            CredentialCall::Pin(PinExchange::Agreeing(agreement), pin, registration) => match
            pin::established(agreement@, response) {
                Err(fault) => turn matches Turn::Done(Err(err)) && error::reports(err, fault),
                Ok(session) => assertion::sends_pin_command(
                    turn,
                    pin::token_parameters(session, pin@),
                ) && (turn matches Turn::Send(
                    _,
                    CredentialCall::Pin(PinExchange::Exchanging(held), same_pin, same_registration),
                ) && held@ == session && same_pin == pin && same_registration == registration),
            },
            CredentialCall::Pin(PinExchange::Exchanging(session), _, registration) => match
            pin::token_in(session@.shared, response) {
                Err(fault) => turn matches Turn::Done(Err(err)) && error::reports(err, fault),
                Ok(token) => make_credential::asks_for_credential(registration, Some(token), turn),
            },
            CredentialCall::Registering(options) => match make_credential::credential_in(response) {
                Err(fault) => turn matches Turn::Done(Err(err)) && error::reports(err, fault),
                Ok(data) => turn matches Turn::Done(Ok(credential)) && make_credential::holds(
                    credential,
                    make_credential::as_requested(data, *options),
                ),
            },
        },
{
}

} // verus!
