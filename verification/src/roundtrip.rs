use crate::abi::{find_member, lemma_find_member_bounds, AbiModel};
use crate::canon::{
    bytes_of, canon, canon_fields, canon_items, canon_struct, delimited, field_bytes_of, fields_delimited,
    items_delimited, struct_delimited,
};
use crate::codec::{
    bin_to_json_spec, decode_array_spec, decode_fields_spec, decode_items_spec, decode_optional_spec, decode_spec,
    decode_struct_spec, decode_variant_spec, encode_array_spec, encode_fields_spec, encode_items_spec,
    encode_optional_spec, encode_spec, encode_struct_spec, encode_variant_spec, json_to_bin_spec, MAX_DEPTH,
};
use crate::error::ErrorKind;
use crate::codec::{decode_builtin_spec, encode_builtin_spec};
use crate::framing::lemma_builtin_framed;
use crate::json::{lookup, Json};
use crate::resolve::{resolved, Shape};
use crate::varint::{law_varuint32_round_trip, varuint_bytes};
use vstd::prelude::*;

verus! {

/// Fields that are encoded after an absent binary extension add no bytes and
/// no canonical entries.
proof fn lemma_skipped_fields(
    abi: AbiModel,
    fields: Seq<(Seq<u8>, Seq<u8>)>,
    from: int,
    entries: Seq<(Seq<u8>, Json)>,
    depth: nat,
)
    requires
        0 <= from,
        encode_fields_spec(abi, fields, from, entries, true, depth) is Ok,
    ensures
        encode_fields_spec(abi, fields, from, entries, true, depth) == Ok::<(Seq<u8>, bool), ErrorKind>(
            (Seq::empty(), true),
        ),
        canon_fields(abi, fields, from, entries, true, depth) == (Seq::<(Seq<u8>, Json)>::empty(), true),
    decreases fields.len() - from,
{
    if from < fields.len() {
        lemma_skipped_fields(abi, fields, from + 1, entries, depth);
    }
}

/// The round trip of one value: its binary form, with `rest` behind it,
/// reads back as its canonical form and is used up.
pub proof fn lemma_value_round_trip(abi: AbiModel, expr: Seq<u8>, v: Json, depth: nat, rest: Seq<u8>)
    requires
        encode_spec(abi, expr, v, depth) is Ok,
        delimited(abi, expr, v, depth, rest),
    ensures
        decode_spec(abi, expr, encode_spec(abi, expr, v, depth)->Ok_0 + rest, depth) == Ok::<
            (Json, nat),
            ErrorKind,
        >((canon(abi, expr, v, depth), encode_spec(abi, expr, v, depth)->Ok_0.len())),
    decreases depth, 0nat, 0nat,
{
    let inner_depth = (depth - 1) as nat;
    let bytes = encode_spec(abi, expr, v, depth)->Ok_0;
    let input = bytes + rest;
    assert(depth > 0);
    match resolved(abi, expr) {
        Err(_) => {},
        Ok(Shape::Builtin(b)) => {
            assert(encode_spec(abi, expr, v, depth) == encode_builtin_spec(b, v));
            assert(decode_spec(abi, expr, input, depth) == decode_builtin_spec(b, input));
            assert(canon(abi, expr, v, depth) == crate::canon::canon_builtin(b, v));
            lemma_builtin_framed(b, v, rest);
        },
        Ok(Shape::Optional(inner)) => {
            assert(encode_spec(abi, expr, v, depth) == encode_optional_spec(abi, inner, v, inner_depth));
            assert(decode_spec(abi, expr, input, depth) == decode_optional_spec(abi, inner, input, inner_depth));
            assert(canon(abi, expr, v, depth) == (if v is Null {
                Json::Null
            } else {
                canon(abi, inner, v, inner_depth)
            }));
            assert(v is Null || delimited(abi, inner, v, inner_depth, rest));
            lemma_optional_round_trip(abi, inner, v, inner_depth, rest);
        },
        Ok(Shape::Extension(inner)) => {
            assert(encode_spec(abi, expr, v, depth) == encode_spec(abi, inner, v, inner_depth));
            assert(decode_spec(abi, expr, input, depth) == decode_spec(abi, inner, input, inner_depth));
            assert(canon(abi, expr, v, depth) == canon(abi, inner, v, inner_depth));
            assert(delimited(abi, inner, v, inner_depth, rest));
            lemma_value_round_trip(abi, inner, v, inner_depth, rest);
        },
        Ok(Shape::Array(inner)) => {
            assert(encode_spec(abi, expr, v, depth) == encode_array_spec(abi, inner, v, inner_depth));
            assert(decode_spec(abi, expr, input, depth) == decode_array_spec(abi, inner, input, inner_depth));
            assert(v is Array);
            assert(canon(abi, expr, v, depth) == Json::Array(
                canon_items(abi, inner, v->Array_0, 0, inner_depth),
            ));
            assert(items_delimited(abi, inner, v->Array_0, 0, inner_depth, rest));
            lemma_array_round_trip(abi, inner, v, inner_depth, rest);
        },
        Ok(Shape::Struct(i)) => {
            assert(encode_spec(abi, expr, v, depth) == crate::codec::encode_object_spec(abi, i, v, inner_depth));
            assert(decode_spec(abi, expr, input, depth) == crate::codec::decode_object_spec(
                abi,
                i,
                input,
                inner_depth,
            ));
            assert(v is Object);
            let entries = v->Object_0;
            assert(canon(abi, expr, v, depth) == Json::Object(canon_struct(abi, i, entries, inner_depth).0));
            assert(struct_delimited(abi, i, entries, inner_depth, rest));
            lemma_struct_round_trip(abi, i, entries, inner_depth, rest);
        },
        Ok(Shape::Variant(i)) => {
            assert(encode_spec(abi, expr, v, depth) == encode_variant_spec(abi, i, v, inner_depth));
            assert(decode_spec(abi, expr, input, depth) == decode_variant_spec(abi, i, input, inner_depth));
            assert(v is Array);
            let pair = v->Array_0;
            assert(pair.len() == 2 && pair[0] is Str);
            assert(canon(abi, expr, v, depth) == Json::Array(
                seq![pair[0], canon(abi, pair[0]->Str_0, pair[1], inner_depth)],
            ));
            assert(delimited(abi, pair[0]->Str_0, pair[1], inner_depth, rest));
            lemma_variant_round_trip(abi, i, v, inner_depth, rest);
        },
    }
}

/// The round trip of an optional.
proof fn lemma_optional_round_trip(abi: AbiModel, inner: Seq<u8>, v: Json, depth: nat, rest: Seq<u8>)
    requires
        encode_optional_spec(abi, inner, v, depth) is Ok,
        v is Null || delimited(abi, inner, v, depth, rest),
    ensures
        decode_optional_spec(abi, inner, encode_optional_spec(abi, inner, v, depth)->Ok_0 + rest, depth) == Ok::<
            (Json, nat),
            ErrorKind,
        >(
            (
                if v is Null {
                    Json::Null
                } else {
                    canon(abi, inner, v, depth)
                },
                encode_optional_spec(abi, inner, v, depth)->Ok_0.len(),
            ),
        ),
    decreases depth, 3nat, 0nat,
{
    let bytes = encode_optional_spec(abi, inner, v, depth)->Ok_0;
    match v {
        Json::Null => {
            assert((bytes + rest)[0] == 0);
        },
        _ => {
            let e = encode_spec(abi, inner, v, depth)->Ok_0;
            lemma_value_round_trip(abi, inner, v, depth, rest);
            assert((bytes + rest).skip(1) =~= e + rest);
            assert((bytes + rest)[0] == 1);
        },
    }
}

/// The round trip of an array.
proof fn lemma_array_round_trip(abi: AbiModel, inner: Seq<u8>, v: Json, depth: nat, rest: Seq<u8>)
    requires
        encode_array_spec(abi, inner, v, depth) is Ok,
        items_delimited(abi, inner, v->Array_0, 0, depth, rest),
    ensures
        decode_array_spec(abi, inner, encode_array_spec(abi, inner, v, depth)->Ok_0 + rest, depth) == Ok::<
            (Json, nat),
            ErrorKind,
        >(
            (
                Json::Array(canon_items(abi, inner, v->Array_0, 0, depth)),
                encode_array_spec(abi, inner, v, depth)->Ok_0.len(),
            ),
        ),
    decreases depth, 3nat, 0nat,
{
    let bytes = encode_array_spec(abi, inner, v, depth)->Ok_0;
    let items = v->Array_0;
    let head = varuint_bytes(items.len());
    let e = encode_items_spec(abi, inner, items, 0, depth)->Ok_0;
    lemma_items_round_trip(abi, inner, items, 0, depth, rest);
    law_varuint32_round_trip(items.len(), e + rest);
    assert(bytes + rest =~= head + (e + rest));
    assert((bytes + rest).skip(head.len() as int) =~= e + rest);
}

/// The round trip of a variant.
proof fn lemma_variant_round_trip(abi: AbiModel, index: int, v: Json, depth: nat, rest: Seq<u8>)
    requires
        encode_variant_spec(abi, index, v, depth) is Ok,
        delimited(abi, v->Array_0[0]->Str_0, v->Array_0[1], depth, rest),
    ensures
        decode_variant_spec(abi, index, encode_variant_spec(abi, index, v, depth)->Ok_0 + rest, depth) == Ok::<
            (Json, nat),
            ErrorKind,
        >(
            (
                Json::Array(seq![v->Array_0[0], canon(abi, v->Array_0[0]->Str_0, v->Array_0[1], depth)]),
                encode_variant_spec(abi, index, v, depth)->Ok_0.len(),
            ),
        ),
    decreases depth, 3nat, 0nat,
{
    let bytes = encode_variant_spec(abi, index, v, depth)->Ok_0;
    let pair = v->Array_0;
    let tag = pair[0]->Str_0;
    let types = abi.variants[index].1;
    let k = find_member(types, tag, 0)->Some_0;
    lemma_find_member_bounds(types, tag, 0);
    let head = varuint_bytes(k as nat);
    let e = encode_spec(abi, tag, pair[1], depth)->Ok_0;
    lemma_value_round_trip(abi, tag, pair[1], depth, rest);
    law_varuint32_round_trip(k as nat, e + rest);
    assert(bytes + rest =~= head + (e + rest));
    assert((bytes + rest).skip(head.len() as int) =~= e + rest);
    assert(pair[0] == Json::Str(tag));
}

/// The round trip of the items of an array from `from` on.
pub proof fn lemma_items_round_trip(
    abi: AbiModel,
    inner: Seq<u8>,
    items: Seq<Json>,
    from: int,
    depth: nat,
    rest: Seq<u8>,
)
    requires
        0 <= from <= items.len(),
        encode_items_spec(abi, inner, items, from, depth) is Ok,
        items_delimited(abi, inner, items, from, depth, rest),
    ensures
        decode_items_spec(
            abi,
            inner,
            encode_items_spec(abi, inner, items, from, depth)->Ok_0 + rest,
            (items.len() - from) as nat,
            depth,
        ) == Ok::<(Seq<Json>, nat), ErrorKind>(
            (
                canon_items(abi, inner, items, from, depth),
                encode_items_spec(abi, inner, items, from, depth)->Ok_0.len(),
            ),
        ),
    decreases depth, 1nat, items.len() - from,
{
    if from < items.len() {
        let bytes = encode_items_spec(abi, inner, items, from, depth)->Ok_0;
        let e = encode_spec(abi, inner, items[from], depth)->Ok_0;
        let tail = encode_items_spec(abi, inner, items, from + 1, depth)->Ok_0;
        assert(bytes_of(encode_items_spec(abi, inner, items, from + 1, depth)) == tail);
        lemma_value_round_trip(abi, inner, items[from], depth, tail + rest);
        lemma_items_round_trip(abi, inner, items, from + 1, depth, rest);
        assert(bytes + rest =~= e + (tail + rest));
        assert((bytes + rest).skip(e.len() as int) =~= tail + rest);
        assert(seq![canon(abi, inner, items[from], depth)] + canon_items(abi, inner, items, from + 1, depth)
            =~= canon_items(abi, inner, items, from, depth));
    }
}

/// The round trip of an object under the struct at `index`.
pub proof fn lemma_struct_round_trip(
    abi: AbiModel,
    index: int,
    entries: Seq<(Seq<u8>, Json)>,
    depth: nat,
    rest: Seq<u8>,
)
    requires
        encode_struct_spec(abi, index, entries, depth) is Ok,
        struct_delimited(abi, index, entries, depth, rest),
    ensures
        decode_struct_spec(abi, index, encode_struct_spec(abi, index, entries, depth)->Ok_0.0 + rest, depth)
            == Ok::<(Seq<(Seq<u8>, Json)>, nat, bool), ErrorKind>(
            (
                canon_struct(abi, index, entries, depth).0,
                encode_struct_spec(abi, index, entries, depth)->Ok_0.0.len(),
                encode_struct_spec(abi, index, entries, depth)->Ok_0.1,
            ),
        ),
        canon_struct(abi, index, entries, depth).1 == encode_struct_spec(abi, index, entries, depth)->Ok_0.1,
    decreases depth, 2nat, 0nat,
{
    let def = abi.structs[index];
    let bytes = encode_struct_spec(abi, index, entries, depth)->Ok_0.0;
    if def.base.len() == 0 {
        lemma_fields_round_trip(abi, def.fields, 0, entries, false, depth, rest);
        assert((bytes + rest).skip(0) =~= bytes + rest);
        assert(Seq::<u8>::empty() + bytes =~= bytes);
        assert(Seq::<(Seq<u8>, Json)>::empty() + canon_fields(abi, def.fields, 0, entries, false, depth).0
            =~= canon_fields(abi, def.fields, 0, entries, false, depth).0);
    } else {
        match resolved(abi, def.base) {
            Ok(Shape::Struct(j)) => {
                let base = encode_struct_spec(abi, j, entries, (depth - 1) as nat)->Ok_0;
                let own = encode_fields_spec(abi, def.fields, 0, entries, base.1, depth)->Ok_0;
                assert(field_bytes_of(encode_fields_spec(abi, def.fields, 0, entries, base.1, depth)) == own.0);
                lemma_struct_round_trip(abi, j, entries, (depth - 1) as nat, own.0 + rest);
                lemma_fields_round_trip(abi, def.fields, 0, entries, base.1, depth, rest);
                assert(bytes + rest =~= base.0 + (own.0 + rest));
                assert((bytes + rest).skip(base.0.len() as int) =~= own.0 + rest);
            },
            _ => {},
        }
    }
}

/// The round trip of the fields of a struct from `from` on.
pub proof fn lemma_fields_round_trip(
    abi: AbiModel,
    fields: Seq<(Seq<u8>, Seq<u8>)>,
    from: int,
    entries: Seq<(Seq<u8>, Json)>,
    skipped: bool,
    depth: nat,
    rest: Seq<u8>,
)
    requires
        0 <= from,
        depth > 0,
        encode_fields_spec(abi, fields, from, entries, skipped, depth) is Ok,
        fields_delimited(abi, fields, from, entries, skipped, depth, rest),
    ensures
        fields_round_trip(abi, fields, from, entries, skipped, depth, rest),
    decreases depth, 1nat, fields.len() - from,
{
    if from >= fields.len() {
    } else if skipped {
        lemma_skipped_fields(abi, fields, from, entries, depth);
    } else {
        let field = fields[from];
        match lookup(entries, field.0) {
            Some(v) => {
                let tail = encode_fields_spec(abi, fields, from + 1, entries, false, depth)->Ok_0;
                lemma_value_round_trip(abi, field.1, v, depth, tail.0 + rest);
                lemma_fields_round_trip(abi, fields, from + 1, entries, false, depth, rest);
                lemma_present_field(abi, fields, from, entries, depth, rest);
            },
            None => {
                match resolved(abi, field.1) {
                    Ok(Shape::Extension(_)) => {
                        lemma_skipped_fields(abi, fields, from + 1, entries, depth);
                        let bytes = encode_fields_spec(abi, fields, from, entries, false, depth)->Ok_0.0;
                        assert(bytes + rest =~= rest);
                    },
                    Ok(Shape::Optional(_)) => {
                        lemma_fields_round_trip(abi, fields, from + 1, entries, false, depth, rest);
                        lemma_absent_optional(abi, fields, from, entries, depth, rest);
                    },
                    _ => {},
                }
            },
        }
    }
}

/// What the round trip of the fields from `from` on says.
pub open spec fn fields_round_trip(
    abi: AbiModel,
    fields: Seq<(Seq<u8>, Seq<u8>)>,
    from: int,
    entries: Seq<(Seq<u8>, Json)>,
    skipped: bool,
    depth: nat,
    rest: Seq<u8>,
) -> bool {
    let encoded = encode_fields_spec(abi, fields, from, entries, skipped, depth)->Ok_0;
    let canonical = canon_fields(abi, fields, from, entries, skipped, depth);
    &&& decode_fields_spec(abi, fields, from, encoded.0 + rest, skipped, depth) == Ok::<
        (Seq<(Seq<u8>, Json)>, nat, bool),
        ErrorKind,
    >((canonical.0, encoded.0.len(), encoded.1))
    &&& canonical.1 == encoded.1
}

/// The step of the round trip at a field that the object has.
proof fn lemma_present_field(
    abi: AbiModel,
    fields: Seq<(Seq<u8>, Seq<u8>)>,
    from: int,
    entries: Seq<(Seq<u8>, Json)>,
    depth: nat,
    rest: Seq<u8>,
)
    requires
        0 <= from < fields.len(),
        depth > 0,
        lookup(entries, fields[from].0) is Some,
        encode_fields_spec(abi, fields, from, entries, false, depth) is Ok,
        fields_delimited(abi, fields, from, entries, false, depth, rest),
        fields_round_trip(abi, fields, from + 1, entries, false, depth, rest),
        decode_spec(
            abi,
            fields[from].1,
            encode_spec(abi, fields[from].1, lookup(entries, fields[from].0)->Some_0, depth)->Ok_0 + (
            encode_fields_spec(abi, fields, from + 1, entries, false, depth)->Ok_0.0 + rest),
            depth,
        ) == Ok::<(Json, nat), ErrorKind>(
            (
                canon(abi, fields[from].1, lookup(entries, fields[from].0)->Some_0, depth),
                encode_spec(abi, fields[from].1, lookup(entries, fields[from].0)->Some_0, depth)->Ok_0.len(),
            ),
        ),
    ensures
        fields_round_trip(abi, fields, from, entries, false, depth, rest),
{
    let field = fields[from];
    let v = lookup(entries, field.0)->Some_0;
    let bytes = encode_fields_spec(abi, fields, from, entries, false, depth)->Ok_0.0;
    let e = encode_spec(abi, field.1, v, depth)->Ok_0;
    let tail = encode_fields_spec(abi, fields, from + 1, entries, false, depth)->Ok_0;
    assert(bytes + rest =~= e + (tail.0 + rest));
    assert((bytes + rest).skip(e.len() as int) =~= tail.0 + rest);
    assert(field_bytes_of(encode_fields_spec(abi, fields, from + 1, entries, false, depth)) == tail.0);
    assert(bytes_of(encode_spec(abi, field.1, v, depth)) == e);
}

/// The step of the round trip at an optional that the object lacks.
proof fn lemma_absent_optional(
    abi: AbiModel,
    fields: Seq<(Seq<u8>, Seq<u8>)>,
    from: int,
    entries: Seq<(Seq<u8>, Json)>,
    depth: nat,
    rest: Seq<u8>,
)
    requires
        0 <= from < fields.len(),
        depth > 0,
        lookup(entries, fields[from].0) is None,
        resolved(abi, fields[from].1) is Ok,
        resolved(abi, fields[from].1)->Ok_0 is Optional,
        encode_fields_spec(abi, fields, from, entries, false, depth) is Ok,
        fields_round_trip(abi, fields, from + 1, entries, false, depth, rest),
    ensures
        fields_round_trip(abi, fields, from, entries, false, depth, rest),
{
    let field = fields[from];
    let bytes = encode_fields_spec(abi, fields, from, entries, false, depth)->Ok_0.0;
    let tail = encode_fields_spec(abi, fields, from + 1, entries, false, depth)->Ok_0;
    assert(bytes =~= seq![0u8] + tail.0);
    assert((bytes + rest)[0] == 0);
    assert((bytes + rest).skip(1) =~= tail.0 + rest);
    let inner = resolved(abi, field.1)->Ok_0->Optional_0;
    assert(decode_optional_spec(abi, inner, bytes + rest, (depth - 1) as nat) == Ok::<(Json, nat), ErrorKind>(
        (Json::Null, 1),
    ));
    assert(decode_spec(abi, field.1, bytes + rest, depth) == decode_optional_spec(
        abi,
        inner,
        bytes + rest,
        (depth - 1) as nat,
    ));
}

/// Round trip: where a JSON value has a binary form under a type, and that
/// form shows where its binary extensions end, the form reads back as the
/// value's canonical form.
pub proof fn law_round_trip(abi: AbiModel, expr: Seq<u8>, v: Json)
    requires
        json_to_bin_spec(abi, expr, v) is Ok,
        delimited(abi, expr, v, MAX_DEPTH as nat, Seq::empty()),
    ensures
        bin_to_json_spec(abi, expr, json_to_bin_spec(abi, expr, v)->Ok_0) == Ok::<Json, ErrorKind>(
            canon(abi, expr, v, MAX_DEPTH as nat),
        ),
{
    let bytes = json_to_bin_spec(abi, expr, v)->Ok_0;
    lemma_value_round_trip(abi, expr, v, MAX_DEPTH as nat, Seq::empty());
    assert(bytes + Seq::<u8>::empty() =~= bytes);
}

/// Round trip under a registered contract: where a JSON value has a binary
/// form under a type of the contract's ABI, and that form shows where its
/// binary extensions end, the form reads back under the same contract and
/// type as the value's canonical form.
pub proof fn law_registered_round_trip(
    context: crate::registry::AbieosContext,
    contract: u64,
    expr: Seq<u8>,
    v: Json,
)
    requires
        context.to_bin_spec(contract, expr, v) is Ok,
        delimited(context.abi_of(contract)->Some_0, expr, v, MAX_DEPTH as nat, Seq::empty()),
    ensures
        context.abi_of(contract) is Some,
        context.to_json_spec(contract, expr, context.to_bin_spec(contract, expr, v)->Ok_0) == Ok::<
            Json,
            ErrorKind,
        >(canon(context.abi_of(contract)->Some_0, expr, v, MAX_DEPTH as nat)),
{
    law_round_trip(context.abi_of(contract)->Some_0, expr, v);
}

/// Round trip of the text entry points: where the value of a JSON text has a
/// hexadecimal form under a type of a registered document, that form shows
/// where its binary extensions end, and the document's field names and
/// variant member names are well-formed UTF-8, the hexadecimal form turns
/// back into the JSON text of the value's canonical form.
pub proof fn law_hex_round_trip_of_values(
    abieos: crate::abieos::Abieos,
    contract: u64,
    expr: Seq<u8>,
    v: Json,
)
    requires
        abieos.bin_of_json(contract, expr, Some(v)) is Ok,
        crate::wellformed::utf8_abi(abieos.abi_of(contract)->Some_0),
        delimited(abieos.abi_of(contract)->Some_0, expr, v, MAX_DEPTH as nat, Seq::empty()),
    ensures
        abieos.json_of_bin(
            contract,
            expr,
            crate::hex::hex_decode_spec(crate::hex::hex_text(abieos.bin_of_json(contract, expr, Some(v))->Ok_0)),
        ) == Ok::<Seq<u8>, ErrorKind>(
            crate::print::json_text(canon(abieos.abi_of(contract)->Some_0, expr, v, MAX_DEPTH as nat)),
        ),
{
    let abi = abieos.abi_of(contract)->Some_0;
    let bytes = abieos.bin_of_json(contract, expr, Some(v))->Ok_0;
    crate::hex::law_hex_round_trip(bytes);
    law_round_trip(abi, expr, v);
    crate::wellformed::law_json_of_bin_is_utf8(abieos, contract, expr, bytes);
}

} // verus!
