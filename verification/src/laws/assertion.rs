//! `getAssertion`: what is asked, and what an answer says.

use crate::cbor;
use crate::cbor::CborValue;
use crate::cmd::get_assertion;
use crate::cmd::get_assertion::{
    Assertion, AssertionCall, AssertionData, AssertionOptions, AssertionQuery, AssertionRequest,
    HmacOutput, HmacSecretCall, HmacSecretRequest, HmacSecretResponse, HmacSecretStage, User,
};
use crate::cmd::{HmacSecret, Turn};
use crate::cose;
use crate::error;
use crate::error::Fault;
use crate::laws::pins;
use crate::outside::digest;
use crate::outside::item;
use crate::pin;
use crate::pin::{cbc, PinExchange, PinToken, Session};
use vstd::prelude::*;

verus! {

/// Whether some text is exactly what a field holds: the text that stands there, or nothing where
/// none does.
pub open spec fn is_text_of(text: Option<String>, field: Option<CborValue>) -> bool {
    match text {
        Some(held) => field == Some(CborValue::Text(held@)),
        None => !(field matches Some(CborValue::Text(_))),
    }
}

/// Whether some bytes are exactly what a field holds.
pub open spec fn is_bytes_of(bytes: Option<Vec<u8>>, field: Option<CborValue>) -> bool {
    match bytes {
        Some(held) => field == Some(CborValue::Bytes(held@)),
        None => !(field matches Some(CborValue::Bytes(_))),
    }
}

/// A user comes out exactly where the entity holds a handle, whatever else it holds: with that
/// handle, and with the name and the display name where they are there as text.
pub proof fn law_user_comes_with_the_handle(
    entries: Seq<(CborValue, CborValue)>,
    user: Option<User>,
)
    requires
        forall|i: int, j: int|
            0 <= i < j < entries.len() ==> (#[trigger] entries[i]).0 != (#[trigger] entries[j]).0,
        get_assertion::user_view(user) == get_assertion::user_in(
            Some(CborValue::Mapping(entries)),
        ),
    ensures
        ({
            let map = CborValue::Mapping(entries);
            match user {
                Some(user) => {
                    &&& cbor::field(map, CborValue::Text("id"@)) == Some(CborValue::Bytes(user.id@))
                    &&& is_text_of(user.name, cbor::field(map, CborValue::Text("name"@)))
                    &&& is_text_of(
                        user.display_name,
                        cbor::field(map, CborValue::Text("displayName"@)),
                    )
                },
                None => !(cbor::field(map, CborValue::Text("id"@)) matches Some(
                    CborValue::Bytes(_),
                )),
            }
        }),
{
    reveal_strlit("id");
    reveal_strlit("name");
    reveal_strlit("displayName");
    let id = CborValue::Text("id"@);
    let name = CborValue::Text("name"@);
    let shown = CborValue::Text("displayName"@);
    assert("id"@.len() == 2 && "name"@.len() == 4 && "displayName"@.len() == 11);
    assert(cbor::distinct_keys(entries));
    cbor::law_take_leaves_the_rest(entries, id, name);
    cbor::law_take_leaves_the_rest(entries, id, shown);
    cbor::law_take_leaves_the_rest(cbor::without(entries, id), name, shown);
}

/// What is no map is no user.
pub proof fn law_user_is_a_map(value: Option<CborValue>)
    ensures
        !(value matches Some(CborValue::Mapping(_))) ==> get_assertion::user_in(value) is None,
{
}

/// An assertion is what its fields say: the credential's id in the descriptor under 1, `authData`
/// under 2, the signature under 3, the user under 4 and the count under 5.
pub proof fn law_assertion_by_fields(
    entries: Seq<(CborValue, CborValue)>,
    assertion: Assertion,
    n: u32,
)
    requires
        forall|i: int, j: int|
            0 <= i < j < entries.len() ==> (#[trigger] entries[i]).0 != (#[trigger] entries[j]).0,
        get_assertion::assertion_of(CborValue::Mapping(entries)) == Ok::<AssertionData, Fault>(
            assertion@,
        ),
    ensures
        ({
            let map = CborValue::Mapping(entries);
            &&& is_bytes_of(
                assertion.credential_id,
                match cbor::field(map, CborValue::Integer(1)) {
                    Some(descriptor) => cbor::field(descriptor, CborValue::Text("id"@)),
                    None => None,
                },
            )
            &&& cbor::field(map, CborValue::Integer(2)) == Some(
                CborValue::Bytes(assertion.auth_data@),
            )
            &&& cbor::field(map, CborValue::Integer(3)) == Some(
                CborValue::Bytes(assertion.signature@),
            )
            &&& get_assertion::user_view(assertion.user) == get_assertion::user_in(
                cbor::field(map, CborValue::Integer(4)),
            )
            &&& assertion.number_of_credentials == Some(n) <==> cbor::field(
                map,
                CborValue::Integer(5),
            ) == Some(CborValue::Integer(n as int))
        }),
{
    assert(cbor::distinct_keys(entries));
    get_assertion::law_fields_by_number(entries, 1);
    get_assertion::law_fields_by_number(entries, 2);
    get_assertion::law_fields_by_number(entries, 3);
    get_assertion::law_fields_by_number(entries, 4);
    get_assertion::law_fields_by_number(entries, 5);
}

/// A response gives an assertion exactly where it is a map with byte strings under 2 and 3.
pub proof fn law_when_an_assertion_comes(map: CborValue)
    requires
        map matches CborValue::Mapping(entries) ==> forall|i: int, j: int|
            0 <= i < j < entries.len() ==> (#[trigger] entries[i]).0 != (#[trigger] entries[j]).0,
    ensures
        !(map is Mapping) ==> get_assertion::assertion_of(map) == Err::<AssertionData, Fault>(
            Fault::Parse("getAssertion response not a CBOR map"@),
        ),
        map is Mapping ==> {
            let auth_data = cbor::field(map, CborValue::Integer(2)) matches Some(
                CborValue::Bytes(_),
            );
            let signature = cbor::field(map, CborValue::Integer(3)) matches Some(
                CborValue::Bytes(_),
            );
            &&& auth_data && signature ==> get_assertion::assertion_of(map) is Ok
            &&& !auth_data ==> get_assertion::assertion_of(map) == Err::<AssertionData, Fault>(
                Fault::Parse("getAssertion response missing authData"@),
            )
            &&& auth_data && !signature ==> get_assertion::assertion_of(map) == Err::<
                AssertionData,
                Fault,
            >(Fault::Parse("getAssertion response missing signature"@))
        },
{
    if let CborValue::Mapping(entries) = map {
        assert(cbor::distinct_keys(entries));
        get_assertion::law_fields_by_number(entries, 2);
        get_assertion::law_fields_by_number(entries, 3);
    }
}

/// A response says what its one item says, and fails as decoding it fails.
pub proof fn law_assertion_of_a_response(response: Seq<u8>)
    ensures
        get_assertion::assertion_in(response) == (match cbor::whole_item(response) {
            Ok(map) => get_assertion::assertion_of(map),
            Err(fault) => Err::<AssertionData, Fault>(fault),
        }),
{
}

/// An assertion is seen by its own fields.
pub proof fn law_assertions_are_seen_by_their_fields(assertion: Assertion)
    ensures
        assertion@.auth_data == assertion.auth_data@,
        assertion@.signature == assertion.signature@,
        assertion.credential_id is None ==> assertion@.credential_id is None,
        assertion.credential_id matches Some(id) ==> assertion@.credential_id == Some(id@),
{
}

/// Whether an item is the descriptor of a credential: its id and the type of credentials, in this
/// order, and no more.
pub open spec fn describes(item: CborValue, id: Seq<u8>) -> bool {
    &&& cbor::field(item, CborValue::Text("id"@)) == Some(CborValue::Bytes(id))
    &&& cbor::field(item, CborValue::Text("type"@)) == Some(CborValue::Text("public-key"@))
    &&& item matches CborValue::Mapping(entries)
    &&& entries.len() == 2
    &&& entries[0].0 == CborValue::Text("id"@)
}

proof fn lemma_descriptor(id: Seq<u8>)
    ensures
        describes(get_assertion::descriptor(id), id),
{
    reveal_strlit("id");
    reveal_strlit("type");
    assert("id"@.len() == 2 && "type"@.len() == 4);
    let entries = get_assertion::descriptor(id)->Mapping_0;
    cbor::lemma_position_is(entries, CborValue::Text("id"@), 0);
    cbor::lemma_position_is(entries, CborValue::Text("type"@), 1);
}

/// Every parameter of an assertion stands under its number: the relying party, the client data
/// hash, the descriptor of each allowed credential in turn, the extensions, `up` turned off where
/// the assertion is silent, and, where there is a token, the hash authenticated under it and the
/// protocol's number. Nothing else stands there.
pub proof fn law_assertion_request_by_number(query: AssertionQuery)
    ensures
        ({
            let map = get_assertion::parameters(query);
            &&& cbor::field(map, CborValue::Integer(1)) == Some(CborValue::Text(query.rp_id))
            &&& cbor::field(map, CborValue::Integer(2)) == Some(
                CborValue::Bytes(query.client_data_hash),
            )
            &&& if query.allow_list.len() == 0 {
                cbor::field(map, CborValue::Integer(3)) is None
            } else {
                cbor::field(map, CborValue::Integer(3)) matches Some(CborValue::Array(list))
                    && list.len() == query.allow_list.len() && forall|i: int|
                    0 <= i < list.len() ==> describes(#[trigger] list[i], query.allow_list[i])
            }
            &&& cbor::field(map, CborValue::Integer(4)) == query.extensions
            &&& match query.options {
                AssertionOptions::Interactive => cbor::field(map, CborValue::Integer(5)) is None,
                AssertionOptions::Silent => cbor::field(map, CborValue::Integer(5)) == Some(
                    CborValue::Mapping(seq![(CborValue::Text("up"@), CborValue::Bool(false))]),
                ),
            }
            &&& match query.pin_token {
                Some(token) => cbor::field(map, CborValue::Integer(6)) == Some(
                    CborValue::Bytes(
                        digest::hmac_sha256_tag(query.client_data_hash, token).take(16),
                    ),
                ) && cbor::field(map, CborValue::Integer(7)) == Some(CborValue::Integer(1)),
                None => cbor::field(map, CborValue::Integer(6)) is None && cbor::field(
                    map,
                    CborValue::Integer(7),
                ) is None,
            }
        }),
{
    get_assertion::law_parameters_by_number(query, 1);
    get_assertion::law_parameters_by_number(query, 2);
    get_assertion::law_parameters_by_number(query, 3);
    get_assertion::law_parameters_by_number(query, 4);
    get_assertion::law_parameters_by_number(query, 5);
    get_assertion::law_parameters_by_number(query, 6);
    get_assertion::law_parameters_by_number(query, 7);
    let list = get_assertion::descriptors(query.allow_list);
    assert forall|i: int| 0 <= i < list.len() implies describes(
        #[trigger] list[i],
        query.allow_list[i],
    ) by {
        lemma_descriptor(query.allow_list[i]);
    }
}

/// The parameters of an assertion stand in the order of their numbers, which go from 1 to 7.
pub proof fn law_assertion_request_in_order(query: AssertionQuery)
    ensures
        get_assertion::parameters(query) matches CborValue::Mapping(entries) && {
            &&& forall|i: int|
                0 <= i < entries.len() ==> (#[trigger] entries[i]).0 is Integer && 1
                    <= entries[i].0->Integer_0 <= 7
            &&& forall|i: int, j: int|
                0 <= i < j < entries.len() ==> (#[trigger] entries[i]).0->Integer_0 < (
                #[trigger] entries[j]).0->Integer_0
        },
{
    let entries = get_assertion::parameters(query)->Mapping_0;
    let fixed = seq![
        (CborValue::Integer(1), CborValue::Text(query.rp_id)),
        (CborValue::Integer(2), CborValue::Bytes(query.client_data_hash)),
    ];
    let listed = fixed + get_assertion::allow_list_entries(query);
    let extended = listed + get_assertion::extension_entries(query);
    let optioned = extended + get_assertion::option_entries(query);
    assert(entries =~= optioned + get_assertion::pin_entries(query));
    assert forall|i: int| 0 <= i < listed.len() implies (#[trigger] listed[i]).0
        == CborValue::Integer(i + 1) by {}
    assert forall|i: int| 0 <= i < extended.len() implies (#[trigger] extended[i]).0
        == CborValue::Integer(
        if i < listed.len() {
            i + 1
        } else {
            4
        },
    ) by {
        if i < listed.len() {
            assert(extended[i] == listed[i]);
        }
    }
    assert forall|i: int| 0 <= i < optioned.len() implies (#[trigger] optioned[i]).0
        == CborValue::Integer(
        if i < listed.len() {
            i + 1
        } else if i < extended.len() {
            4
        } else {
            5
        },
    ) by {
        if i < extended.len() {
            assert(optioned[i] == extended[i]);
        }
    }
    assert forall|i: int| 0 <= i < entries.len() implies (#[trigger] entries[i]).0
        == CborValue::Integer(
        if i < listed.len() {
            i + 1
        } else if i < extended.len() {
            4
        } else if i < optioned.len() {
            5
        } else {
            6 + i - optioned.len()
        },
    ) by {
        if i < optioned.len() {
            assert(entries[i] == optioned[i]);
        }
    }
}

/// A request for an assertion is command two, and whoever reads behind it finds the parameters,
/// as long as the caller's extensions read back.
pub proof fn law_assertion_request_layout(payload: Seq<u8>, query: AssertionQuery)
    requires
        get_assertion::is_request(payload, query),
    ensures
        payload.len() > 0,
        payload[0] == 2,
        (query.extensions is None || !cbor::has_nan(query.extensions->0)) ==> payload == seq![2u8]
            + item::item_bytes(get_assertion::parameters(query)),
        (query.extensions is None || cbor::restorable(query.extensions->0, 255))
            ==> item::leading_item(payload.skip(1)) == Some(
            (get_assertion::parameters(query), (payload.len() - 1) as nat),
        ),
        get_assertion::COMMAND == 2,
{
}

/// What an assertion asks for is what its request says.
pub proof fn law_requests_are_asked_as_they_are(
    request: AssertionRequest<'_>,
    token: Option<Seq<u8>>,
    held: Option<&PinToken>,
)
    ensures
        ({
            let query = get_assertion::query_of(request, token);
            &&& query.rp_id == request.rp_id@
            &&& query.client_data_hash == request.client_data_hash@
            &&& query.allow_list.len() == request.allow_list@.len()
            &&& forall|i: int|
                0 <= i < query.allow_list.len() ==> #[trigger] query.allow_list[i]
                    == request.allow_list@[i]@
            &&& match request.extensions {
                Some(value) => query.extensions == Some(value@),
                None => query.extensions is None,
            }
            &&& query.options == AssertionOptions::Interactive
            &&& query.pin_token == token
        }),
        match held {
            Some(token) => get_assertion::token_view(held) == Some(token@),
            None => get_assertion::token_view(held) is None,
        },
{
}

/// The ids of an allow list are those of its credentials, in turn.
pub proof fn law_ids_of_an_allow_list(allow_list: Seq<&[u8]>, i: int)
    ensures
        get_assertion::ids(allow_list).len() == allow_list.len(),
        0 <= i < allow_list.len() ==> get_assertion::ids(allow_list)[i] == allow_list[i]@,
{
}

/// An `hmac-secret` request is seen by its own fields.
pub proof fn law_hmac_requests_are_seen_by_their_fields(req: HmacSecretRequest<'_>)
    ensures
        req@.rp_id == req.rp_id@,
        req@.client_data_hash == req.client_data_hash@,
        req@.cred_id == req.cred_id@,
        req@.salt == req.salt@,
        match req.salt2 {
            Some(salt2) => req@.salt2 == Some(salt2@),
            None => req@.salt2 is None,
        },
        match req.pin {
            Some(pin) => req@.pin == Some(pin@),
            None => req@.pin is None,
        },
        match req.public_key {
            Some(key) => req@.public_key == Some(key@),
            None => req@.public_key is None,
        },
        req@.request_cred_blob == req.request_cred_blob,
{
}

/// An `hmac-secret` call asserts the named credential and no other: under 3 stands the one
/// descriptor with its id, under 1 the relying party, under 2 the client data hash, and under 6
/// and 7 the PIN parameters exactly where there is a token. The device asks for a touch.
pub proof fn law_hmac_call_names_the_credential(
    session: Session,
    req: HmacSecretRequest<'_>,
    token: Option<Seq<u8>>,
)
    ensures
        ({
            let map = get_assertion::parameters(
                get_assertion::hmac_assertion(session, req@, token),
            );
            &&& cbor::field(map, CborValue::Integer(1)) == Some(CborValue::Text(req.rp_id@))
            &&& cbor::field(map, CborValue::Integer(2)) == Some(
                CborValue::Bytes(req.client_data_hash@),
            )
            &&& cbor::field(map, CborValue::Integer(3)) == Some(
                CborValue::Array(
                    seq![
                        CborValue::Mapping(
                            seq![
                                (CborValue::Text("id"@), CborValue::Bytes(req.cred_id@)),
                                (CborValue::Text("type"@), CborValue::Text("public-key"@)),
                            ],
                        ),
                    ],
                ),
            )
            &&& cbor::field(map, CborValue::Integer(4)) is Some
            &&& cbor::field(map, CborValue::Integer(5)) is None
            &&& match token {
                Some(token) => cbor::field(map, CborValue::Integer(6)) == Some(
                    CborValue::Bytes(
                        digest::hmac_sha256_tag(req.client_data_hash@, token).take(16),
                    ),
                ) && cbor::field(map, CborValue::Integer(7)) == Some(CborValue::Integer(1)),
                None => cbor::field(map, CborValue::Integer(6)) is None && cbor::field(
                    map,
                    CborValue::Integer(7),
                ) is None,
            }
        }),
{
    let query = get_assertion::hmac_assertion(session, req@, token);
    law_assertion_request_by_number(query);
    get_assertion::law_parameters_by_number(query, 3);
    assert(get_assertion::descriptors(query.allow_list) =~= seq![
        get_assertion::descriptor(req.cred_id@),
    ]);
}

/// The extensions of an `hmac-secret` call are `hmac-secret` and, where the blob is asked for,
/// `credBlob` set to true; no more.
pub proof fn law_hmac_call_extensions(
    session: Session,
    req: HmacSecretRequest<'_>,
    token: Option<Seq<u8>>,
)
    ensures
        ({
            let map = get_assertion::parameters(
                get_assertion::hmac_assertion(session, req@, token),
            );
            cbor::field(map, CborValue::Integer(4)) matches Some(extensions) && {
                &&& cbor::field(extensions, CborValue::Text("hmac-secret"@)) == Some(
                    get_assertion::hmac_input(session, req@),
                )
                &&& cbor::field(extensions, CborValue::Text("credBlob"@)) == (
                if req.request_cred_blob {
                    Some(CborValue::Bool(true))
                } else {
                    None
                })
                &&& extensions matches CborValue::Mapping(entries)
                &&& entries.len() == (if req.request_cred_blob {
                    2int
                } else {
                    1int
                })
                &&& entries[0].0 == CborValue::Text("hmac-secret"@)
            }
        }),
{
    reveal_strlit("hmac-secret");
    reveal_strlit("credBlob");
    assert("hmac-secret"@.len() == 11 && "credBlob"@.len() == 8);
    law_assertion_request_by_number(get_assertion::hmac_assertion(session, req@, token));
    let entries = get_assertion::hmac_extensions(session, req@)->Mapping_0;
    cbor::lemma_position_is(entries, CborValue::Text("hmac-secret"@), 0);
    if req.request_cred_blob {
        cbor::lemma_position_is(entries, CborValue::Text("credBlob"@), 1);
    } else {
        cbor::lemma_position_is(entries, CborValue::Text("credBlob"@), 1);
    }
}

/// The salts of a request: the first, and behind it the second where there is one.
pub open spec fn salts_of(req: HmacSecretRequest<'_>) -> Seq<u8> {
    match req.salt2 {
        Some(salt2) => req.salt@ + salt2@,
        None => req.salt@,
    }
}

/// The input of `hmac-secret` is the platform's key, the salts encrypted under the shared secret,
/// the first sixteen bytes of their tag under it, and protocol one, in this order. The device
/// that decrypts it finds the salts.
pub proof fn law_hmac_input_seals_the_salts(
    session: Session,
    req: HmacSecretRequest<'_>,
    key: CborValue,
)
    ensures
        ({
            let sealed = cbc::encrypted(session.shared, Seq::new(16, |i: int| 0u8), salts_of(req));
            &&& cbor::field(get_assertion::hmac_input(session, req@), key) == (if key
                == CborValue::Integer(1) {
                Some(pin::agreement_key(session.x, session.y))
            } else if key == CborValue::Integer(2) {
                Some(CborValue::Bytes(sealed))
            } else if key == CborValue::Integer(3) {
                Some(CborValue::Bytes(digest::hmac_sha256_tag(sealed, session.shared).take(16)))
            } else if key == CborValue::Integer(4) {
                Some(CborValue::Integer(1))
            } else {
                None
            })
            &&& pins::undone(session.shared) ==> cbc::decrypted(
                session.shared,
                Seq::new(16, |i: int| 0u8),
                sealed,
            ) == salts_of(req)
            &&& get_assertion::hmac_input(session, req@) matches CborValue::Mapping(entries)
            &&& entries.len() == 4
            &&& entries[0].0 == CborValue::Integer(1)
            &&& entries[1].0 == CborValue::Integer(2)
            &&& entries[2].0 == CborValue::Integer(3)
        }),
{
    assert(cbc::zero_block() =~= Seq::new(16, |i: int| 0u8));
    let entries = get_assertion::hmac_input(session, req@)->Mapping_0;
    if key == CborValue::Integer(1) {
        cbor::lemma_position_is(entries, key, 0);
    } else if key == CborValue::Integer(2) {
        cbor::lemma_position_is(entries, key, 1);
    } else if key == CborValue::Integer(3) {
        cbor::lemma_position_is(entries, key, 2);
    } else if key == CborValue::Integer(4) {
        cbor::lemma_position_is(entries, key, 3);
    } else {
        cbor::lemma_position_is(entries, key, 4);
    }
    pins::law_cbc_is_undone(session.shared, Seq::new(16, |i: int| 0u8), salts_of(req));
}

/// Where the extensions in some `authData` are: nowhere without the flag 0x80; behind the 37
/// bytes of the head; or, with the flag 0x40, behind the item that follows the credential's id,
/// whose length stands in the bytes 53 and 54.
pub proof fn law_extensions_by_bytes(auth_data: Seq<u8>)
    ensures
        ({
            let found = get_assertion::extensions_in(auth_data);
            let key_start = 55 + auth_data[53] * 256 + auth_data[54];
            if auth_data.len() < 37 {
                found == Err::<CborValue, Fault>(Fault::Parse("authData truncated before flags"@))
            } else if auth_data[32] & 0x80 == 0 {
                found == Err::<CborValue, Fault>(Fault::MissingExtension("hmac-secret"@))
            } else if auth_data[32] & 0x40 == 0 {
                found == cbor::whole_item(auth_data.skip(37))
            } else if auth_data.len() < 55 {
                found == Err::<CborValue, Fault>(
                    Fault::Parse("authData truncated in attested credential"@),
                )
            } else if key_start > auth_data.len() {
                found == Err::<CborValue, Fault>(Fault::Parse("credId length exceeds authData"@))
            } else {
                match item::leading_item(auth_data.skip(key_start)) {
                    Some((_, used)) => found == cbor::whole_item(auth_data.skip(key_start + used)),
                    None => found == Err::<CborValue, Fault>(Fault::Cbor(None)),
                }
            }
        }),
{
    lemma_flags(auth_data[32]);
}

/// The two flags by their bits.
pub proof fn lemma_flags(flags: u8)
    ensures
        get_assertion::has_attested(flags) == (flags & 0x40 != 0),
        get_assertion::has_extensions(flags) == (flags & 0x80 != 0),
{
    assert((flags & 0x40 != 0) == (flags / 64 % 2 == 1)) by (bit_vector);
    assert((flags & 0x80 != 0) == (flags >= 128)) by (bit_vector);
}

/// The outputs come out of an assertion that the key, where there is one, has signed together
/// with the client data hash: the first 32 bytes of what was sealed under `hmac-secret`, and the
/// next 32 exactly where a second salt was sent; and the blob, where it was asked for and is
/// there.
pub proof fn law_outputs_are_what_was_sealed(
    shared: Seq<u8>,
    req: HmacSecretRequest<'_>,
    auth_data: Seq<u8>,
    signature: Seq<u8>,
    response: HmacSecretResponse,
)
    requires
        get_assertion::outputs_in(shared, req@, auth_data, signature) == Ok::<HmacOutput, Fault>(
            response@,
        ),
    ensures
        req.public_key matches Some(key) ==> cose::verified(
            cbor::decoded(key@)->0,
            auth_data + req.client_data_hash@,
            signature,
        ) is Ok,
        get_assertion::extensions_in(auth_data) matches Ok(extensions) && (cbor::field(
            extensions,
            CborValue::Text("hmac-secret"@),
        ) matches Some(CborValue::Bytes(sealed)) && {
            let plain = cbc::decrypted(shared, Seq::new(16, |i: int| 0u8), sealed);
            &&& sealed.len() == 64 || (sealed.len() == 32 && req.salt2 is None)
            &&& response.secret.0@ == plain.subrange(0, 32)
            &&& match response.secret2 {
                Some(second) => req.salt2 is Some && second.0@ == plain.subrange(32, 64),
                None => req.salt2 is None,
            }
            &&& if req.request_cred_blob {
                is_bytes_of(
                    response.cred_blob,
                    cbor::field(extensions, CborValue::Text("credBlob"@)),
                )
            } else {
                response.cred_blob is None
            }
        }),
{
    assert(cbc::zero_block() =~= Seq::new(16, |i: int| 0u8));
    let extensions = get_assertion::extensions_in(auth_data)->Ok_0;
    let sealed = cbor::field(extensions, CborValue::Text("hmac-secret"@))->0->Bytes_0;
    cbc::lemma_decrypted_len(shared, Seq::new(16, |i: int| 0u8), sealed);
    let plain = cbc::decrypted(shared, Seq::new(16, |i: int| 0u8), sealed);
    assert(plain.take(32) =~= plain.subrange(0, 32));
    if plain.len() == 64 {
        assert(plain.skip(32) =~= plain.subrange(32, 64));
    }
}

/// When outputs come, and what is told otherwise.
pub proof fn law_when_outputs_come(
    shared: Seq<u8>,
    req: HmacSecretRequest<'_>,
    auth_data: Seq<u8>,
    signature: Seq<u8>,
)
    ensures
        ({
            let found = get_assertion::outputs_in(shared, req@, auth_data, signature);
            let signed = match req.public_key {
                Some(key) => cose::verified(
                    cbor::decoded(key@)->0,
                    auth_data + req.client_data_hash@,
                    signature,
                ),
                None => Ok(()),
            };
            match signed {
                Err(fault) => found == Err::<HmacOutput, Fault>(fault),
                Ok(_) => match get_assertion::extensions_in(auth_data) {
                    Err(fault) => found == Err::<HmacOutput, Fault>(fault),
                    Ok(extensions) => match cbor::field(
                        extensions,
                        CborValue::Text("hmac-secret"@),
                    ) {
                        Some(CborValue::Bytes(sealed)) => if sealed.len() == 0 || sealed.len() % 16
                            != 0 {
                            found == Err::<HmacOutput, Fault>(
                                Fault::Pin(
                                    "AES-CBC ciphertext must be a non-empty multiple of 16"@,
                                ),
                            )
                        } else if sealed.len() == 64 || (sealed.len() == 32 && req.salt2 is None) {
                            found is Ok
                        } else if sealed.len() == 32 {
                            found == Err::<HmacOutput, Fault>(
                                Fault::MissingExtension("hmac-secret salt2"@),
                            )
                        } else {
                            found == Err::<HmacOutput, Fault>(
                                Fault::Parse("hmac-secret output is neither 32 nor 64 bytes"@),
                            )
                        },
                        _ => found == Err::<HmacOutput, Fault>(
                            Fault::MissingExtension("hmac-secret"@),
                        ),
                    },
                },
            }
        }),
{
    if let Ok(extensions) = get_assertion::extensions_in(auth_data) {
        if let Some(CborValue::Bytes(sealed)) = cbor::field(
            extensions,
            CborValue::Text("hmac-secret"@),
        ) {
            if sealed.len() % 16 == 0 {
                cbc::lemma_decrypted_len(shared, cbc::zero_block(), sealed);
            }
        }
    }
}

/// The halves of a decrypted output: 32 bytes for each salt, in turn.
pub proof fn law_outputs_by_halves(first: Seq<u8>, second: Seq<u8>)
    requires
        first.len() == 32,
        second.len() == 32,
    ensures
        get_assertion::halves(first + second, true) == Ok::<(Seq<u8>, Option<Seq<u8>>), Fault>(
            (first, Some(second)),
        ),
        get_assertion::halves(first + second, false) == Ok::<(Seq<u8>, Option<Seq<u8>>), Fault>(
            (first, None),
        ),
        get_assertion::halves(first, false) == Ok::<(Seq<u8>, Option<Seq<u8>>), Fault>(
            (first, None),
        ),
        get_assertion::halves(first, true) == Err::<(Seq<u8>, Option<Seq<u8>>), Fault>(
            Fault::MissingExtension("hmac-secret salt2"@),
        ),
{
    assert((first + second).take(32) =~= first);
    assert((first + second).skip(32) =~= second);
    assert(first.take(32) =~= first);
}

/// A pair of outputs is seen by its own bytes.
pub proof fn law_pairs_are_seen_by_their_bytes(pair: (HmacSecret, Option<HmacSecret>))
    ensures
        get_assertion::pair_view(pair).0 == pair.0.0@,
        match pair.1 {
            Some(second) => get_assertion::pair_view(pair).1 == Some(second.0@),
            None => get_assertion::pair_view(pair).1 is None,
        },
{
}

/// Whether a turn sends a `clientPin` command with the given parameters.
pub open spec fn sends_pin_command<S, T>(turn: Turn<S, T>, parameters: CborValue) -> bool {
    turn matches Turn::Send(payload, _) && payload@.len() > 0 && payload@[0] == 6 && cbor::decoded(
        payload@.skip(1),
    ) == Some(parameters)
}

/// Whether a turn sends an `hmac-secret` assertion within a session, and waits for its answer.
pub open spec fn sends_hmac_assertion(
    turn: Turn<HmacSecretCall<'_>, HmacSecretResponse>,
    req: HmacSecretRequest<'_>,
    session: Session,
    token: Option<Seq<u8>>,
) -> bool {
    turn matches Turn::Send(payload, next) && payload@.len() > 0 && payload@[0] == 2
        && cbor::decoded(payload@.skip(1)) == Some(
        get_assertion::parameters(get_assertion::hmac_assertion(session, req@, token)),
    ) && next.request@ == req@ && (next.stage matches HmacSecretStage::Asserting(held) && held@
        == session)
}

/// An `hmac-secret` call goes through its stages in turn: the session, the token where there is a
/// PIN, the assertion, and the outputs in its answer. A failure ends it at once.
pub proof fn law_hmac_call_in_turn(
    call: HmacSecretCall<'_>,
    response: Seq<u8>,
    turn: Turn<HmacSecretCall<'_>, HmacSecretResponse>,
)
    requires
        get_assertion::hmac_step(call, response, turn),
    ensures
        match call.stage {
            HmacSecretStage::Pin(PinExchange::Agreeing(agreement)) => match pin::established(
                agreement@,
                response,
            ) {
                Err(fault) => turn matches Turn::Done(Err(err)) && error::reports(err, fault),
                Ok(session) => match call.request.pin {
                    None => sends_hmac_assertion(turn, call.request, session, None),
                    Some(pin) => sends_pin_command(turn, pin::token_parameters(session, pin@)) && (
                    turn matches Turn::Send(_, next) && next.request@ == call.request@ && (
                    next.stage matches HmacSecretStage::Pin(PinExchange::Exchanging(held)) && held@
                        == session)),
                },
            },
            HmacSecretStage::Pin(PinExchange::Exchanging(session)) => match pin::token_in(
                session@.shared,
                response,
            ) {
                Err(fault) => turn matches Turn::Done(Err(err)) && error::reports(err, fault),
                Ok(token) => sends_hmac_assertion(turn, call.request, session@, Some(token)),
            },
            HmacSecretStage::Asserting(session) => match get_assertion::assertion_in(response) {
                Err(fault) => turn matches Turn::Done(Err(err)) && error::reports(err, fault),
                Ok(assertion) => match get_assertion::outputs_in(
                    session@.shared,
                    call.request@,
                    assertion.auth_data,
                    assertion.signature,
                ) {
                    Err(fault) => turn matches Turn::Done(Err(err)) && error::reports(err, fault),
                    Ok(outputs) => turn matches Turn::Done(Ok(held)) && held@ == outputs,
                },
            },
        },
{
}

/// A run of `getAssertion` goes through its stages in turn: with a PIN the session and the token,
/// then the assertion, and its answer.
pub proof fn law_assertion_call_in_turn(
    call: AssertionCall<'_>,
    response: Seq<u8>,
    turn: Turn<AssertionCall<'_>, Assertion>,
)
    requires
        get_assertion::assertion_step(call, response, turn),
    ensures
        match call {
            AssertionCall::Pin(PinExchange::Agreeing(agreement), pin, request) => match
            pin::established(agreement@, response) {
                Err(fault) => turn matches Turn::Done(Err(err)) && error::reports(err, fault),
                Ok(session) => sends_pin_command(turn, pin::token_parameters(session, pin@)) && (
                turn matches Turn::Send(
                    _,
                    AssertionCall::Pin(PinExchange::Exchanging(held), same_pin, same_request),
                ) && held@ == session && same_pin == pin && same_request == request),
            },
            AssertionCall::Pin(PinExchange::Exchanging(session), _, request) => match pin::token_in(
                session@.shared,
                response,
            ) {
                Err(fault) => turn matches Turn::Done(Err(err)) && error::reports(err, fault),
                Ok(token) => get_assertion::asks_for_assertion(
                    get_assertion::query_of(request, Some(token)),
                    turn,
                ),
            },
            AssertionCall::Asserting => match get_assertion::assertion_in(response) {
                Err(fault) => turn matches Turn::Done(Err(err)) && error::reports(err, fault),
                Ok(assertion) => turn matches Turn::Done(Ok(held)) && held@ == assertion,
            },
        },
{
}

/// An assertion is asked for with its request, unless an integer in the extensions is out of
/// CBOR's range.
pub proof fn law_assertion_is_asked_for(
    query: AssertionQuery,
    turn: Turn<AssertionCall<'_>, Assertion>,
)
    requires
        get_assertion::asks_for_assertion(query, turn),
    ensures
        query.extensions is None || cbor::encodable(query.extensions->0) ==> (turn matches
            Turn::Send(payload, AssertionCall::Asserting) && get_assertion::is_request(
            payload@,
            query,
        )),
        query.extensions is Some && !cbor::encodable(query.extensions->0) ==> (turn matches
            Turn::Done(Err(err)) && err@ == Fault::Cbor(Some("integer out of CBOR range"@))),
{
}

} // verus!
