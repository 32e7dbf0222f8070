use crate::abi::AbiModel;
use crate::codec::{
    encode_array_spec, encode_fields_spec, encode_items_spec, encode_object_spec, encode_optional_spec, encode_spec,
    encode_struct_spec, encode_variant_spec,
};
use crate::json::{lookup, Json};
use crate::resolve::{resolved, Shape};
use vstd::prelude::*;

verus! {

/// Whether the struct at `index`, or a base of it within `depth` steps,
/// declares a field of a given name.
pub open spec fn declares(abi: AbiModel, index: int, name: Seq<u8>, depth: nat) -> bool
    decreases depth,
{
    depth > 0 && ((exists|k: int|
        0 <= k < abi.structs[index].fields.len() && (#[trigger] abi.structs[index].fields[k]).0 == name) || (
    abi.structs[index].base.len() != 0 && match resolved(abi, abi.structs[index].base) {
        Ok(Shape::Struct(j)) => declares(abi, j, name, (depth - 1) as nat),
        _ => false,
    }))
}

/// Two objects hold the same value, or none, under every field that the
/// struct at `index` declares.
pub open spec fn same_field_values(
    abi: AbiModel,
    index: int,
    a: Seq<(Seq<u8>, Json)>,
    b: Seq<(Seq<u8>, Json)>,
    depth: nat,
) -> bool {
    forall|name: Seq<u8>| #[trigger] declares(abi, index, name, depth) ==> lookup(a, name) == lookup(b, name)
}

/// No key occurs twice among the entries.
pub open spec fn unique_keys(entries: Seq<(Seq<u8>, Json)>) -> bool {
    forall|i: int, j: int|
        #![trigger entries[i], entries[j]]
        0 <= i < j < entries.len() ==> entries[i].0 != entries[j].0
}

/// Objects that agree on the fields from `from` on encode them alike.
proof fn lemma_fields_agree(
    abi: AbiModel,
    fields: Seq<(Seq<u8>, Seq<u8>)>,
    from: int,
    a: Seq<(Seq<u8>, Json)>,
    b: Seq<(Seq<u8>, Json)>,
    skipped: bool,
    depth: nat,
)
    requires
        0 <= from,
        forall|k: int| from <= k < fields.len() ==> lookup(a, (#[trigger] fields[k]).0) == lookup(b, fields[k].0),
    ensures
        encode_fields_spec(abi, fields, from, a, skipped, depth) == encode_fields_spec(
            abi,
            fields,
            from,
            b,
            skipped,
            depth,
        ),
    decreases fields.len() - from,
{
    if from < fields.len() {
        assert(lookup(a, fields[from].0) == lookup(b, fields[from].0));
        lemma_fields_agree(abi, fields, from + 1, a, b, true, depth);
        lemma_fields_agree(abi, fields, from + 1, a, b, false, depth);
    }
}

/// Objects that agree on the declared fields of a struct encode alike under it.
proof fn lemma_struct_agrees(
    abi: AbiModel,
    index: int,
    a: Seq<(Seq<u8>, Json)>,
    b: Seq<(Seq<u8>, Json)>,
    depth: nat,
)
    requires
        same_field_values(abi, index, a, b, depth),
    ensures
        encode_struct_spec(abi, index, a, depth) == encode_struct_spec(abi, index, b, depth),
    decreases depth,
{
    if depth > 0 {
        let def = abi.structs[index];
        assert forall|k: int| 0 <= k < def.fields.len() implies lookup(a, (#[trigger] def.fields[k]).0) == lookup(
            b,
            def.fields[k].0,
        ) by {
            assert(declares(abi, index, def.fields[k].0, depth));
        }
        if def.base.len() != 0 {
            match resolved(abi, def.base) {
                Ok(Shape::Struct(j)) => {
                    assert forall|name: Seq<u8>| #[trigger]
                        declares(abi, j, name, (depth - 1) as nat) implies lookup(a, name) == lookup(b, name) by {
                        assert(declares(abi, index, name, depth));
                    }
                    lemma_struct_agrees(abi, j, a, b, (depth - 1) as nat);
                },
                _ => {},
            }
        }
        lemma_fields_agree(abi, def.fields, 0, a, b, true, depth);
        lemma_fields_agree(abi, def.fields, 0, a, b, false, depth);
    }
}

/// Order independence: two JSON objects that hold the same value under every
/// field that a struct declares have the same binary form under that struct,
/// whatever the order of their keys and whatever other keys they hold.
pub proof fn law_same_fields_same_bytes(
    abi: AbiModel,
    expr: Seq<u8>,
    index: int,
    a: Seq<(Seq<u8>, Json)>,
    b: Seq<(Seq<u8>, Json)>,
    depth: nat,
)
    requires
        depth > 0,
        resolved(abi, expr) == Ok::<Shape, crate::error::ErrorKind>(Shape::Struct(index)),
        same_field_values(abi, index, a, b, (depth - 1) as nat),
    ensures
        encode_spec(abi, expr, Json::Object(a), depth) == encode_spec(abi, expr, Json::Object(b), depth),
{
    lemma_struct_agrees(abi, index, a, b, (depth - 1) as nat);
    assert(encode_spec(abi, expr, Json::Object(a), depth) == crate::codec::encode_object_spec(
        abi,
        index,
        Json::Object(a),
        (depth - 1) as nat,
    ));
    assert(encode_spec(abi, expr, Json::Object(b), depth) == crate::codec::encode_object_spec(
        abi,
        index,
        Json::Object(b),
        (depth - 1) as nat,
    ));
}

/// What a lookup finds is the value of an entry with that key, and it finds
/// none only where no entry has the key.
pub proof fn lemma_lookup_entry(entries: Seq<(Seq<u8>, Json)>, key: Seq<u8>)
    ensures
        match lookup(entries, key) {
            Some(v) => entries.contains((key, v)),
            None => forall|i: int| 0 <= i < entries.len() ==> (#[trigger] entries[i]).0 != key,
        },
    decreases entries.len(),
{
    if entries.len() > 0 {
        if entries[0].0 == key {
            assert(entries[0] == (key, entries[0].1));
        } else {
            let rest = entries.drop_first();
            lemma_lookup_entry(rest, key);
            match lookup(rest, key) {
                Some(v) => {
                    let i = choose|i: int| 0 <= i < rest.len() && rest[i] == (key, v);
                    assert(entries[i + 1] == (key, v));
                },
                None => {
                    assert forall|i: int| 0 <= i < entries.len() implies (#[trigger] entries[i]).0 != key by {
                        if i > 0 {
                            assert(rest[i - 1] == entries[i]);
                        }
                    }
                },
            }
        }
    }
}

/// Among entries with unique keys, a lookup finds the value of the one entry
/// with that key.
pub proof fn lemma_lookup_unique(entries: Seq<(Seq<u8>, Json)>, i: int)
    requires
        unique_keys(entries),
        0 <= i < entries.len(),
    ensures
        lookup(entries, entries[i].0) == Some(entries[i].1),
    decreases entries.len(),
{
    if i > 0 {
        let rest = entries.drop_first();
        assert(entries[0].0 != entries[i].0);
        assert forall|a: int, b: int| #![trigger rest[a], rest[b]] 0 <= a < b < rest.len() implies rest[a].0
            != rest[b].0 by {
            assert(rest[a] == entries[a + 1] && rest[b] == entries[b + 1]);
        }
        assert(rest[i - 1] == entries[i]);
        lemma_lookup_unique(rest, i - 1);
    }
}

/// Key order does not matter: objects with unique keys that hold the same
/// entries, in whatever order, hold the same value under every key.
pub proof fn law_permuted_keys(a: Seq<(Seq<u8>, Json)>, b: Seq<(Seq<u8>, Json)>, key: Seq<u8>)
    requires
        unique_keys(a),
        unique_keys(b),
        a.to_multiset() == b.to_multiset(),
    ensures
        lookup(a, key) == lookup(b, key),
{
    a.to_multiset_ensures();
    b.to_multiset_ensures();
    lemma_lookup_entry(a, key);
    lemma_lookup_entry(b, key);
    match lookup(a, key) {
        Some(v) => {
            assert(a.to_multiset().count((key, v)) > 0);
            assert(b.to_multiset().count((key, v)) > 0);
            assert(b.contains((key, v)));
            let j = choose|j: int| 0 <= j < b.len() && b[j] == (key, v);
            lemma_lookup_unique(b, j);
        },
        None => {
            match lookup(b, key) {
                Some(w) => {
                    assert(b.to_multiset().count((key, w)) > 0);
                    assert(a.to_multiset().count((key, w)) > 0);
                    assert(a.contains((key, w)));
                    let i = choose|i: int| 0 <= i < a.len() && a[i] == (key, w);
                    assert(a[i].0 == key);
                },
                None => {},
            }
        },
    }
}

/// Other keys do not matter: an entry put into an object, at whatever place,
/// changes the value under no other key.
pub proof fn law_extra_key(entries: Seq<(Seq<u8>, Json)>, at: int, extra: (Seq<u8>, Json), key: Seq<u8>)
    requires
        0 <= at <= entries.len(),
        extra.0 != key,
    ensures
        lookup(entries.insert(at, extra), key) == lookup(entries, key),
    decreases entries.len(),
{
    let more = entries.insert(at, extra);
    if at == 0 {
        assert(more.drop_first() =~= entries);
    } else {
        assert(more[0] == entries[0]);
        assert(more.drop_first() =~= entries.drop_first().insert(at - 1, extra));
        if entries[0].0 != key {
            law_extra_key(entries.drop_first(), at - 1, extra, key);
        }
    }
}

/// Whether two JSON values differ, under a type expression, only in the order
/// of the keys of their objects and in keys that the structs do not declare:
/// values of built-in types are the same, arrays are alike item by item, and
/// objects hold like values, or none, under every declared field.
pub open spec fn alike(abi: AbiModel, expr: Seq<u8>, a: Json, b: Json, depth: nat) -> bool
    decreases depth, 0nat, 0nat,
{
    if depth == 0 {
        true
    } else {
        match resolved(abi, expr) {
            Err(_) => true,
            Ok(Shape::Builtin(_)) => a == b,
            Ok(Shape::Optional(inner)) => (a is Null && b is Null) || (!(a is Null) && !(b is Null) && alike(
                abi,
                inner,
                a,
                b,
                (depth - 1) as nat,
            )),
            Ok(Shape::Extension(inner)) => alike(abi, inner, a, b, (depth - 1) as nat),
            Ok(Shape::Array(inner)) => if a is Array && b is Array {
                a->Array_0.len() == b->Array_0.len() && items_alike(
                    abi,
                    inner,
                    a->Array_0,
                    b->Array_0,
                    0,
                    (depth - 1) as nat,
                )
            } else {
                !(a is Array) && !(b is Array)
            },
            Ok(Shape::Struct(i)) => if a is Object && b is Object {
                struct_alike(abi, i, a->Object_0, b->Object_0, (depth - 1) as nat)
            } else {
                !(a is Object) && !(b is Object)
            },
            Ok(Shape::Variant(_)) => if tagged(a) && tagged(b) {
                a->Array_0[0] == b->Array_0[0] && alike(
                    abi,
                    a->Array_0[0]->Str_0,
                    a->Array_0[1],
                    b->Array_0[1],
                    (depth - 1) as nat,
                )
            } else {
                !tagged(a) && !tagged(b)
            },
        }
    }
}

/// A JSON array of a string and a value: the form of a variant's value.
pub open spec fn tagged(v: Json) -> bool {
    v is Array && v->Array_0.len() == 2 && v->Array_0[0] is Str
}

/// The items from `from` on are alike, one by one.
pub open spec fn items_alike(abi: AbiModel, inner: Seq<u8>, x: Seq<Json>, y: Seq<Json>, from: int, depth: nat) -> bool
    decreases depth, 1nat, x.len() - from,
{
    if from < 0 || from >= x.len() {
        true
    } else {
        alike(abi, inner, x[from], y[from], depth) && items_alike(abi, inner, x, y, from + 1, depth)
    }
}

/// Two objects hold like values, or none, under every field of the struct at
/// `index` and of its bases.
pub open spec fn struct_alike(
    abi: AbiModel,
    index: int,
    x: Seq<(Seq<u8>, Json)>,
    y: Seq<(Seq<u8>, Json)>,
    depth: nat,
) -> bool
    decreases depth, 2nat, 0nat,
{
    if depth == 0 {
        true
    } else {
        let def = abi.structs[index];
        &&& def.base.len() != 0 ==> match resolved(abi, def.base) {
            Ok(Shape::Struct(j)) => struct_alike(abi, j, x, y, (depth - 1) as nat),
            _ => true,
        }
        &&& fields_alike(abi, def.fields, 0, x, y, depth)
    }
}

/// Two objects hold like values, or none, under every field from `from` on.
pub open spec fn fields_alike(
    abi: AbiModel,
    fields: Seq<(Seq<u8>, Seq<u8>)>,
    from: int,
    x: Seq<(Seq<u8>, Json)>,
    y: Seq<(Seq<u8>, Json)>,
    depth: nat,
) -> bool
    decreases depth, 1nat, fields.len() - from,
{
    if from < 0 || from >= fields.len() {
        true
    } else {
        &&& match (lookup(x, fields[from].0), lookup(y, fields[from].0)) {
            (Some(u), Some(w)) => alike(abi, fields[from].1, u, w, depth),
            (None, None) => true,
            _ => false,
        }
        &&& fields_alike(abi, fields, from + 1, x, y, depth)
    }
}

/// Values that are alike have the same binary form.
pub proof fn lemma_alike_values(abi: AbiModel, expr: Seq<u8>, a: Json, b: Json, depth: nat)
    requires
        alike(abi, expr, a, b, depth),
    ensures
        encode_spec(abi, expr, a, depth) == encode_spec(abi, expr, b, depth),
    decreases depth, 0nat, 0nat,
{
    if depth > 0 {
        let d = (depth - 1) as nat;
        match resolved(abi, expr) {
            Err(_) => {},
            Ok(Shape::Builtin(_)) => {},
            Ok(Shape::Optional(inner)) => {
                assert(encode_spec(abi, expr, a, depth) == encode_optional_spec(abi, inner, a, d));
                assert(encode_spec(abi, expr, b, depth) == encode_optional_spec(abi, inner, b, d));
                if !(a is Null) {
                    lemma_alike_values(abi, inner, a, b, d);
                }
            },
            Ok(Shape::Extension(inner)) => {
                lemma_alike_values(abi, inner, a, b, d);
            },
            Ok(Shape::Array(inner)) => {
                assert(encode_spec(abi, expr, a, depth) == encode_array_spec(abi, inner, a, d));
                assert(encode_spec(abi, expr, b, depth) == encode_array_spec(abi, inner, b, d));
                if a is Array && b is Array {
                    lemma_alike_items(abi, inner, a->Array_0, b->Array_0, 0, d);
                }
            },
            Ok(Shape::Struct(i)) => {
                assert(encode_spec(abi, expr, a, depth) == encode_object_spec(abi, i, a, d));
                assert(encode_spec(abi, expr, b, depth) == encode_object_spec(abi, i, b, d));
                if a is Object && b is Object {
                    lemma_alike_structs(abi, i, a->Object_0, b->Object_0, d);
                }
            },
            Ok(Shape::Variant(i)) => {
                assert(encode_spec(abi, expr, a, depth) == encode_variant_spec(abi, i, a, d));
                assert(encode_spec(abi, expr, b, depth) == encode_variant_spec(abi, i, b, d));
                if tagged(a) && tagged(b) {
                    lemma_alike_values(abi, a->Array_0[0]->Str_0, a->Array_0[1], b->Array_0[1], d);
                }
            },
        }
    }
}

/// Items that are alike one by one have the same binary form.
proof fn lemma_alike_items(abi: AbiModel, inner: Seq<u8>, x: Seq<Json>, y: Seq<Json>, from: int, depth: nat)
    requires
        0 <= from,
        x.len() == y.len(),
        items_alike(abi, inner, x, y, from, depth),
    ensures
        encode_items_spec(abi, inner, x, from, depth) == encode_items_spec(abi, inner, y, from, depth),
    decreases depth, 1nat, x.len() - from,
{
    if from < x.len() {
        lemma_alike_values(abi, inner, x[from], y[from], depth);
        lemma_alike_items(abi, inner, x, y, from + 1, depth);
    }
}

/// Objects that are alike under a struct have the same binary form under it.
proof fn lemma_alike_structs(
    abi: AbiModel,
    index: int,
    x: Seq<(Seq<u8>, Json)>,
    y: Seq<(Seq<u8>, Json)>,
    depth: nat,
)
    requires
        struct_alike(abi, index, x, y, depth),
    ensures
        encode_struct_spec(abi, index, x, depth) == encode_struct_spec(abi, index, y, depth),
    decreases depth, 2nat, 0nat,
{
    if depth > 0 {
        let def = abi.structs[index];
        if def.base.len() != 0 {
            match resolved(abi, def.base) {
                Ok(Shape::Struct(j)) => {
                    lemma_alike_structs(abi, j, x, y, (depth - 1) as nat);
                },
                _ => {},
            }
        }
        lemma_alike_fields(abi, def.fields, 0, x, y, true, depth);
        lemma_alike_fields(abi, def.fields, 0, x, y, false, depth);
    }
}

/// Objects that are alike under the fields from `from` on encode them alike.
proof fn lemma_alike_fields(
    abi: AbiModel,
    fields: Seq<(Seq<u8>, Seq<u8>)>,
    from: int,
    x: Seq<(Seq<u8>, Json)>,
    y: Seq<(Seq<u8>, Json)>,
    skipped: bool,
    depth: nat,
)
    requires
        0 <= from,
        fields_alike(abi, fields, from, x, y, depth),
    ensures
        encode_fields_spec(abi, fields, from, x, skipped, depth) == encode_fields_spec(
            abi,
            fields,
            from,
            y,
            skipped,
            depth,
        ),
    decreases depth, 1nat, fields.len() - from,
{
    if from < fields.len() {
        match (lookup(x, fields[from].0), lookup(y, fields[from].0)) {
            (Some(u), Some(w)) => {
                lemma_alike_values(abi, fields[from].1, u, w, depth);
            },
            _ => {},
        }
        lemma_alike_fields(abi, fields, from + 1, x, y, true, depth);
        lemma_alike_fields(abi, fields, from + 1, x, y, false, depth);
    }
}

/// Every value is like itself.
pub proof fn lemma_alike_itself(abi: AbiModel, expr: Seq<u8>, a: Json, depth: nat)
    ensures
        alike(abi, expr, a, a, depth),
    decreases depth, 0nat, 0nat,
{
    if depth > 0 {
        let d = (depth - 1) as nat;
        match resolved(abi, expr) {
            Err(_) => {},
            Ok(Shape::Builtin(_)) => {},
            Ok(Shape::Optional(inner)) => {
                lemma_alike_itself(abi, inner, a, d);
            },
            Ok(Shape::Extension(inner)) => {
                lemma_alike_itself(abi, inner, a, d);
            },
            Ok(Shape::Array(inner)) => {
                if a is Array {
                    lemma_items_alike_themselves(abi, inner, a->Array_0, 0, d);
                }
            },
            Ok(Shape::Struct(i)) => {
                if a is Object {
                    lemma_struct_alike_itself(abi, i, a->Object_0, d);
                }
            },
            Ok(Shape::Variant(_)) => {
                if tagged(a) {
                    lemma_alike_itself(abi, a->Array_0[0]->Str_0, a->Array_0[1], d);
                }
            },
        }
    }
}

/// The items of an array are like themselves.
proof fn lemma_items_alike_themselves(abi: AbiModel, inner: Seq<u8>, x: Seq<Json>, from: int, depth: nat)
    requires
        0 <= from,
    ensures
        items_alike(abi, inner, x, x, from, depth),
    decreases depth, 1nat, x.len() - from,
{
    if from < x.len() {
        lemma_alike_itself(abi, inner, x[from], depth);
        lemma_items_alike_themselves(abi, inner, x, from + 1, depth);
    }
}

/// An object is like itself under a struct.
proof fn lemma_struct_alike_itself(abi: AbiModel, index: int, x: Seq<(Seq<u8>, Json)>, depth: nat)
    ensures
        struct_alike(abi, index, x, x, depth),
    decreases depth, 2nat, 0nat,
{
    if depth > 0 {
        let def = abi.structs[index];
        if def.base.len() != 0 {
            match resolved(abi, def.base) {
                Ok(Shape::Struct(j)) => {
                    lemma_struct_alike_itself(abi, j, x, (depth - 1) as nat);
                },
                _ => {},
            }
        }
        lemma_fields_alike_themselves(abi, def.fields, 0, x, depth);
    }
}

/// An object is like itself under the fields from `from` on.
proof fn lemma_fields_alike_themselves(
    abi: AbiModel,
    fields: Seq<(Seq<u8>, Seq<u8>)>,
    from: int,
    x: Seq<(Seq<u8>, Json)>,
    depth: nat,
)
    requires
        0 <= from,
    ensures
        fields_alike(abi, fields, from, x, x, depth),
    decreases depth, 1nat, fields.len() - from,
{
    if from < fields.len() {
        match lookup(x, fields[from].0) {
            Some(u) => {
                lemma_alike_itself(abi, fields[from].1, u, depth);
            },
            None => {},
        }
        lemma_fields_alike_themselves(abi, fields, from + 1, x, depth);
    }
}

/// Order independence at every depth: JSON values that differ only in the
/// order of the keys of their objects, and in keys that the structs do not
/// declare, have the same binary form.
pub proof fn law_order_independence(abi: AbiModel, expr: Seq<u8>, a: Json, b: Json)
    requires
        alike(abi, expr, a, b, crate::codec::MAX_DEPTH as nat),
    ensures
        crate::codec::json_to_bin_spec(abi, expr, a) == crate::codec::json_to_bin_spec(abi, expr, b),
{
    lemma_alike_values(abi, expr, a, b, crate::codec::MAX_DEPTH as nat);
}

} // verus!
