//! `getInfo`: what each field of a response becomes.

use crate::cbor;
use crate::cbor::CborValue;
use crate::cmd;
use crate::cmd::get_info;
use crate::cmd::AuthenticatorInfo;
use crate::error::Fault;
use vstd::prelude::*;

verus! {

/// Each number comes out under its name exactly where the response holds it, as an integer that
/// fits 32 bits, under its key.
pub proof fn law_info_numbers(map: CborValue, info: AuthenticatorInfo, n: u32)
    requires
        info@ == get_info::info_in(map),
    ensures
        ({
            let number = Some(CborValue::Integer(n as int));
            &&& info.max_msg_size == Some(n) <==> cbor::field(map, CborValue::Integer(0x05))
                == number
            &&& info.max_credential_count_in_list == Some(n) <==> cbor::field(
                map,
                CborValue::Integer(0x07),
            ) == number
            &&& info.max_credential_id_length == Some(n) <==> cbor::field(
                map,
                CborValue::Integer(0x08),
            ) == number
            &&& info.max_serialized_large_blob_array == Some(n) <==> cbor::field(
                map,
                CborValue::Integer(0x0B),
            ) == number
            &&& info.min_pin_length == Some(n) <==> cbor::field(map, CborValue::Integer(0x0D))
                == number
            &&& info.firmware_version == Some(n) <==> cbor::field(map, CborValue::Integer(0x0E))
                == number
            &&& info.max_cred_blob_length == Some(n) <==> cbor::field(map, CborValue::Integer(0x0F))
                == number
            &&& info.max_rp_ids_for_set_min_pin_length == Some(n) <==> cbor::field(
                map,
                CborValue::Integer(0x10),
            ) == number
            &&& info.preferred_platform_uv_attempts == Some(n) <==> cbor::field(
                map,
                CborValue::Integer(0x11),
            ) == number
            &&& info.uv_modality == Some(n) <==> cbor::field(map, CborValue::Integer(0x12))
                == number
            &&& info.remaining_discoverable_credentials == Some(n) <==> cbor::field(
                map,
                CborValue::Integer(0x14),
            ) == number
        }),
{
}

/// A PIN change is forced exactly where the response holds `true` under 12.
pub proof fn law_info_forced_pin_change(map: CborValue, info: AuthenticatorInfo)
    requires
        info@ == get_info::info_in(map),
    ensures
        info.force_pin_change <==> cbor::field(map, CborValue::Integer(0x0C)) == Some(
            CborValue::Bool(true),
        ),
{
}

/// The model is told by the sixteen bytes under 3, in the order in which the device sent them;
/// by zeros where there are no sixteen bytes.
pub proof fn law_info_model(map: CborValue, info: AuthenticatorInfo, bytes: Seq<u8>, i: int)
    requires
        info@ == get_info::info_in(map),
        0 <= i < 16,
    ensures
        cbor::field(map, CborValue::Integer(0x03)) == Some(CborValue::Bytes(bytes)) && bytes.len()
            == 16 ==> info.aaguid@[i] == bytes[i],
        cbor::field(map, CborValue::Integer(0x03)) == Some(CborValue::Bytes(bytes)) && bytes.len()
            != 16 ==> info.aaguid@[i] == 0,
        !(cbor::field(map, CborValue::Integer(0x03)) matches Some(CborValue::Bytes(_)))
            ==> info.aaguid@[i] == 0,
{
}

/// Whether a list of strings is another one and then the text that an item is, if it is text.
pub open spec fn one_text_more(all: Seq<String>, fewer: Seq<String>, item: CborValue) -> bool {
    &&& forall|i: int| 0 <= i < fewer.len() ==> (#[trigger] all[i])@ == fewer[i]@
    &&& match item {
        CborValue::Text(text) => all.len() == fewer.len() + 1 && all.last()@ == text,
        _ => all.len() == fewer.len(),
    }
}

/// The lists of texts under 1, 2 and 9 grow item by item: a text at the end of the array adds
/// that text at the end of the list, and anything else adds nothing.
pub proof fn law_info_texts_one_by_one(
    map: CborValue,
    info: AuthenticatorInfo,
    shorter: CborValue,
    before: AuthenticatorInfo,
    items: Seq<CborValue>,
)
    requires
        info@ == get_info::info_in(map),
        before@ == get_info::info_in(shorter),
        items.len() > 0,
    ensures
        cbor::field(map, CborValue::Integer(0x01)) == Some(CborValue::Array(items)) && cbor::field(
            shorter,
            CborValue::Integer(0x01),
        ) == Some(CborValue::Array(items.drop_last())) ==> one_text_more(
            info.versions@,
            before.versions@,
            items.last(),
        ),
        cbor::field(map, CborValue::Integer(0x02)) == Some(CborValue::Array(items)) && cbor::field(
            shorter,
            CborValue::Integer(0x02),
        ) == Some(CborValue::Array(items.drop_last())) ==> one_text_more(
            info.extensions@,
            before.extensions@,
            items.last(),
        ),
        cbor::field(map, CborValue::Integer(0x09)) == Some(CborValue::Array(items)) && cbor::field(
            shorter,
            CborValue::Integer(0x09),
        ) == Some(CborValue::Array(items.drop_last())) ==> one_text_more(
            info.transports@,
            before.transports@,
            items.last(),
        ),
{
    if cbor::field(map, CborValue::Integer(0x01)) == Some(CborValue::Array(items)) && cbor::field(
        shorter,
        CborValue::Integer(0x01),
    ) == Some(CborValue::Array(items.drop_last())) {
        lemma_one_text_more(info.versions@, before.versions@, items);
    }
    if cbor::field(map, CborValue::Integer(0x02)) == Some(CborValue::Array(items)) && cbor::field(
        shorter,
        CborValue::Integer(0x02),
    ) == Some(CborValue::Array(items.drop_last())) {
        lemma_one_text_more(info.extensions@, before.extensions@, items);
    }
    if cbor::field(map, CborValue::Integer(0x09)) == Some(CborValue::Array(items)) && cbor::field(
        shorter,
        CborValue::Integer(0x09),
    ) == Some(CborValue::Array(items.drop_last())) {
        lemma_one_text_more(info.transports@, before.transports@, items);
    }
}

proof fn lemma_one_text_more(all: Seq<String>, fewer: Seq<String>, items: Seq<CborValue>)
    requires
        items.len() > 0,
        cmd::texts(all) == items.filter_map(get_info::pick_text()),
        cmd::texts(fewer) == items.drop_last().filter_map(get_info::pick_text()),
    ensures
        one_text_more(all, fewer, items.last()),
{
    let some = cmd::texts(all);
    let less = cmd::texts(fewer);
    assert(some.len() == all.len() && less.len() == fewer.len());
    match items.last() {
        CborValue::Text(text) => {
            assert(some == less + seq![text]);
            assert(some[all.len() - 1] == all.last()@);
        },
        _ => {
            assert(some == less);
        },
    }
    assert forall|i: int| 0 <= i < fewer.len() implies (#[trigger] all[i])@ == fewer[i]@ by {
        assert(some[i] == all[i]@ && less[i] == fewer[i]@);
    }
}

/// The options under 4, the protocols under 6 and the algorithms under 10 grow entry by entry:
/// a name with a flag, an integer that fits a byte, and a map with an integer under "alg" that
/// fits 32 bits each add what they say at the end; anything else adds nothing.
pub proof fn law_info_lists_one_by_one(
    map: CborValue,
    info: AuthenticatorInfo,
    shorter: CborValue,
    before: AuthenticatorInfo,
    items: Seq<CborValue>,
    entries: Seq<(CborValue, CborValue)>,
)
    requires
        info@ == get_info::info_in(map),
        before@ == get_info::info_in(shorter),
        items.len() > 0,
        entries.len() > 0,
    ensures
        cbor::field(map, CborValue::Integer(0x04)) == Some(CborValue::Mapping(entries))
            && cbor::field(shorter, CborValue::Integer(0x04)) == Some(
            CborValue::Mapping(entries.drop_last()),
        ) ==> {
            &&& forall|i: int|
                0 <= i < before.options@.len() ==> (#[trigger] info.options@[i]).0@
                    == before.options@[i].0@ && info.options@[i].1 == before.options@[i].1
            &&& match entries.last() {
                (CborValue::Text(name), CborValue::Bool(flag)) => info.options@.len()
                    == before.options@.len() + 1 && info.options@.last().0@ == name
                    && info.options@.last().1 == flag,
                _ => info.options@.len() == before.options@.len(),
            }
        },
        cbor::field(map, CborValue::Integer(0x06)) == Some(CborValue::Array(items)) && cbor::field(
            shorter,
            CborValue::Integer(0x06),
        ) == Some(CborValue::Array(items.drop_last())) ==> match items.last() {
            CborValue::Integer(n) => info.pin_protocols@ == (if 0 <= n <= 255 {
                before.pin_protocols@.push(n as u8)
            } else {
                before.pin_protocols@
            }),
            _ => info.pin_protocols@ == before.pin_protocols@,
        },
        cbor::field(map, CborValue::Integer(0x0A)) == Some(CborValue::Array(items)) && cbor::field(
            shorter,
            CborValue::Integer(0x0A),
        ) == Some(CborValue::Array(items.drop_last())) ==> match cbor::field(
            items.last(),
            CborValue::Text("alg"@),
        ) {
            Some(CborValue::Integer(n)) => info.algorithms@ == (if -2147483648 <= n <= 2147483647 {
                before.algorithms@.push(n as i32)
            } else {
                before.algorithms@
            }),
            _ => info.algorithms@ == before.algorithms@,
        },
{
    if cbor::field(map, CborValue::Integer(0x04)) == Some(CborValue::Mapping(entries))
        && cbor::field(shorter, CborValue::Integer(0x04)) == Some(
        CborValue::Mapping(entries.drop_last()),
    ) {
        let some = cmd::flags(info.options@);
        let less = cmd::flags(before.options@);
        assert(some == entries.filter_map(get_info::pick_flag()));
        assert(less == entries.drop_last().filter_map(get_info::pick_flag()));
        assert(some.len() == info.options@.len() && less.len() == before.options@.len());
        match entries.last() {
            (CborValue::Text(name), CborValue::Bool(flag)) => {
                assert(some == less + seq![(name, flag)]);
                assert(some[info.options@.len() - 1] == (
                    info.options@.last().0@,
                    info.options@.last().1,
                ));
            },
            _ => {
                assert(some == less);
            },
        }
        assert forall|i: int| 0 <= i < before.options@.len() implies (
        #[trigger] info.options@[i]).0@ == before.options@[i].0@ && info.options@[i].1
            == before.options@[i].1 by {
            assert(some[i] == (info.options@[i].0@, info.options@[i].1));
            assert(less[i] == (before.options@[i].0@, before.options@[i].1));
        }
    }
    if cbor::field(map, CborValue::Integer(0x06)) == Some(CborValue::Array(items)) && cbor::field(
        shorter,
        CborValue::Integer(0x06),
    ) == Some(CborValue::Array(items.drop_last())) {
        assert(info.pin_protocols@ == items.filter_map(get_info::pick_protocol()));
        if let CborValue::Integer(n) = items.last() {
            if 0 <= n <= 255 {
                assert(info.pin_protocols@ =~= before.pin_protocols@.push(n as u8));
            }
        }
    }
    if cbor::field(map, CborValue::Integer(0x0A)) == Some(CborValue::Array(items)) && cbor::field(
        shorter,
        CborValue::Integer(0x0A),
    ) == Some(CborValue::Array(items.drop_last())) {
        assert(info.algorithms@ == items.filter_map(get_info::pick_algorithm()));
        if let Some(CborValue::Integer(n)) = cbor::field(items.last(), CborValue::Text("alg"@)) {
            if -2147483648 <= n <= 2147483647 {
                assert(info.algorithms@ =~= before.algorithms@.push(n as i32));
            }
        }
    }
}

/// A list is empty where the response holds an empty array or map under its key, or none.
pub proof fn law_info_lists_start_empty(map: CborValue, info: AuthenticatorInfo)
    requires
        info@ == get_info::info_in(map),
    ensures
        ({
            let bare = |key: int|
                match cbor::field(map, CborValue::Integer(key)) {
                    Some(CborValue::Array(items)) => items.len() == 0,
                    _ => true,
                };
            &&& bare(0x01) ==> info.versions@.len() == 0
            &&& bare(0x02) ==> info.extensions@.len() == 0
            &&& bare(0x06) ==> info.pin_protocols@.len() == 0
            &&& bare(0x09) ==> info.transports@.len() == 0
            &&& bare(0x0A) ==> info.algorithms@.len() == 0
        }),
        (match cbor::field(map, CborValue::Integer(0x04)) {
            Some(CborValue::Mapping(entries)) => entries.len() == 0,
            _ => true,
        }) ==> info.options@.len() == 0,
{
    assert(cmd::texts(info.versions@).len() == info.versions@.len());
    assert(cmd::texts(info.extensions@).len() == info.extensions@.len());
    assert(cmd::texts(info.transports@).len() == info.transports@.len());
    assert(cmd::flags(info.options@).len() == info.options@.len());
}

/// An option reads as the flag of the first entry with its name, and as nothing where none has
/// it.
pub proof fn law_options_by_name(options: Seq<(Seq<char>, bool)>, name: Seq<char>, at: int)
    requires
        0 <= at <= options.len(),
        forall|j: int| 0 <= j < at ==> (#[trigger] options[j]).0 != name,
        at < options.len() ==> options[at].0 == name,
    ensures
        cmd::option_named(options, name) == (if at < options.len() {
            Some(options[at].1)
        } else {
            None
        }),
    decreases options.len(),
{
    if at > 0 {
        let rest = options.drop_first();
        assert(options[0].0 != name);
        assert forall|j: int| 0 <= j < at - 1 implies (#[trigger] rest[j]).0 != name by {
            assert(rest[j] == options[j + 1]);
        }
        if at < options.len() {
            assert(rest[at - 1] == options[at]);
        }
        law_options_by_name(rest, name, at - 1);
    }
}

/// An info is seen by its own fields.
pub proof fn law_info_is_seen_by_its_fields(info: AuthenticatorInfo, i: int)
    ensures
        info@.extensions.len() == info.extensions@.len(),
        0 <= i < info.extensions@.len() ==> info@.extensions[i] == info.extensions@[i]@,
        info@.options.len() == info.options@.len(),
        0 <= i < info.options@.len() ==> info@.options[i] == (
            info.options@[i].0@,
            info.options@[i].1,
        ),
        info@.pin_protocols == info.pin_protocols@,
{
}

/// A response says what its one item says, and fails as decoding it fails.
pub proof fn law_info_of_a_response(response: Seq<u8>)
    ensures
        get_info::info_from(response) == (match cbor::whole_item(response) {
            Ok(map) => Ok::<cmd::Info, Fault>(get_info::info_in(map)),
            Err(fault) => Err(fault),
        }),
        get_info::COMMAND == 4,
        cmd::get_next_assertion::COMMAND == 8,
        cmd::reset::COMMAND == 7,
{
}

} // verus!
