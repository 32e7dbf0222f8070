use crate::abi::AbiModel;
use crate::codec::{
    decode_builtin_spec, encode_builtin_spec, encode_fields_spec, encode_items_spec, encode_spec,
};
use crate::error::ErrorKind;
use crate::json::{lookup, Json};
use crate::resolve::{resolved, Builtin, Shape};
use vstd::prelude::*;

verus! {

/// The bytes of an encoding that succeeded; none of one that failed.
pub open spec fn bytes_of(r: Result<Seq<u8>, ErrorKind>) -> Seq<u8> {
    match r {
        Ok(bytes) => bytes,
        Err(_) => Seq::empty(),
    }
}

/// The bytes of an encoding of fields that succeeded; none of one that failed.
pub open spec fn field_bytes_of(r: Result<(Seq<u8>, bool), ErrorKind>) -> Seq<u8> {
    match r {
        Ok((bytes, _)) => bytes,
        Err(_) => Seq::empty(),
    }
}

/// The canonical form of a JSON value under a built-in type: the value that
/// its binary form reads back as.
pub open spec fn canon_builtin(b: Builtin, v: Json) -> Json {
    match encode_builtin_spec(b, v) {
        Ok(bytes) => match decode_builtin_spec(b, bytes) {
            Ok((canonical, _)) => canonical,
            Err(_) => v,
        },
        Err(_) => v,
    }
}

/// The canonical form of a JSON value under a type expression of a document.
///
/// A struct's object holds the declared fields that the value has, in
/// declaration order, those of the base first, each in its canonical form,
/// and `null` for an optional that the value lacks; keys that the struct does
/// not declare are left out. The items of an array and the value of a variant
/// are in their canonical forms.
pub open spec fn canon(abi: AbiModel, expr: Seq<u8>, v: Json, depth: nat) -> Json
    decreases depth, 0nat, 0nat,
{
    if depth == 0 {
        v
    } else {
        match resolved(abi, expr) {
            Err(_) => v,
            Ok(Shape::Builtin(b)) => canon_builtin(b, v),
            Ok(Shape::Optional(inner)) => match v {
                Json::Null => Json::Null,
                _ => canon(abi, inner, v, (depth - 1) as nat),
            },
            Ok(Shape::Extension(inner)) => canon(abi, inner, v, (depth - 1) as nat),
            Ok(Shape::Array(inner)) => match v {
                Json::Array(items) => Json::Array(canon_items(abi, inner, items, 0, (depth - 1) as nat)),
                _ => v,
            },
            Ok(Shape::Struct(i)) => match v {
                Json::Object(entries) => Json::Object(canon_struct(abi, i, entries, (depth - 1) as nat).0),
                _ => v,
            },
            Ok(Shape::Variant(_)) => match v {
                Json::Array(pair) => if pair.len() == 2 && pair[0] is Str {
                    Json::Array(seq![pair[0], canon(abi, pair[0]->Str_0, pair[1], (depth - 1) as nat)])
                } else {
                    v
                },
                _ => v,
            },
        }
    }
}

/// The canonical forms of the items from `from` on.
pub open spec fn canon_items(abi: AbiModel, inner: Seq<u8>, items: Seq<Json>, from: int, depth: nat) -> Seq<Json>
    decreases depth, 1nat, items.len() - from,
{
    if from < 0 || from >= items.len() {
        Seq::empty()
    } else {
        seq![canon(abi, inner, items[from], depth)] + canon_items(abi, inner, items, from + 1, depth)
    }
}

/// The canonical entries of an object under the struct at `index`, and
/// whether an absent binary extension ended them.
pub open spec fn canon_struct(abi: AbiModel, index: int, entries: Seq<(Seq<u8>, Json)>, depth: nat) -> (
    Seq<(Seq<u8>, Json)>,
    bool,
)
    decreases depth, 2nat, 0nat,
{
    if depth == 0 {
        (Seq::empty(), false)
    } else {
        let def = abi.structs[index];
        let base = if def.base.len() == 0 {
            (Seq::empty(), false)
        } else {
            match resolved(abi, def.base) {
                Ok(Shape::Struct(j)) => canon_struct(abi, j, entries, (depth - 1) as nat),
                _ => (Seq::empty(), false),
            }
        };
        let own = canon_fields(abi, def.fields, 0, entries, base.1, depth);
        (base.0 + own.0, own.1)
    }
}

/// The canonical entries of the fields from `from` on, and whether an absent
/// binary extension ended them.
pub open spec fn canon_fields(
    abi: AbiModel,
    fields: Seq<(Seq<u8>, Seq<u8>)>,
    from: int,
    entries: Seq<(Seq<u8>, Json)>,
    skipped: bool,
    depth: nat,
) -> (Seq<(Seq<u8>, Json)>, bool)
    decreases depth, 1nat, fields.len() - from,
{
    if from < 0 || from >= fields.len() {
        (Seq::empty(), skipped)
    } else {
        let field = fields[from];
        match lookup(entries, field.0) {
            Some(v) => {
                let rest = canon_fields(abi, fields, from + 1, entries, false, depth);
                (seq![(field.0, canon(abi, field.1, v, depth))] + rest.0, rest.1)
            },
            None => match resolved(abi, field.1) {
                Ok(Shape::Extension(_)) => canon_fields(abi, fields, from + 1, entries, true, depth),
                Ok(Shape::Optional(_)) => if skipped {
                    canon_fields(abi, fields, from + 1, entries, true, depth)
                } else {
                    let rest = canon_fields(abi, fields, from + 1, entries, false, depth);
                    (seq![(field.0, Json::Null)] + rest.0, rest.1)
                },
                _ => (Seq::empty(), skipped),
            },
        }
    }
}

/// Whether the binary form of a value, with `rest` behind it, shows where its
/// binary extensions end.
///
/// A binary extension that the value lacks must stand where the input ends;
/// one that it has must not. Nothing else is asked.
pub open spec fn delimited(abi: AbiModel, expr: Seq<u8>, v: Json, depth: nat, rest: Seq<u8>) -> bool
    decreases depth, 0nat, 0nat,
{
    if depth == 0 {
        true
    } else {
        match resolved(abi, expr) {
            Err(_) => true,
            Ok(Shape::Builtin(_)) => true,
            Ok(Shape::Optional(inner)) => match v {
                Json::Null => true,
                _ => delimited(abi, inner, v, (depth - 1) as nat, rest),
            },
            Ok(Shape::Extension(inner)) => delimited(abi, inner, v, (depth - 1) as nat, rest),
            Ok(Shape::Array(inner)) => match v {
                Json::Array(items) => items_delimited(abi, inner, items, 0, (depth - 1) as nat, rest),
                _ => true,
            },
            Ok(Shape::Struct(i)) => match v {
                Json::Object(entries) => struct_delimited(abi, i, entries, (depth - 1) as nat, rest),
                _ => true,
            },
            Ok(Shape::Variant(_)) => match v {
                Json::Array(pair) => if pair.len() == 2 && pair[0] is Str {
                    delimited(abi, pair[0]->Str_0, pair[1], (depth - 1) as nat, rest)
                } else {
                    true
                },
                _ => true,
            },
        }
    }
}

/// `delimited` for each of the items from `from` on, with the later items
/// and `rest` behind it.
pub open spec fn items_delimited(
    abi: AbiModel,
    inner: Seq<u8>,
    items: Seq<Json>,
    from: int,
    depth: nat,
    rest: Seq<u8>,
) -> bool
    decreases depth, 1nat, items.len() - from,
{
    if from < 0 || from >= items.len() {
        true
    } else {
        &&& delimited(
            abi,
            inner,
            items[from],
            depth,
            bytes_of(encode_items_spec(abi, inner, items, from + 1, depth)) + rest,
        )
        &&& items_delimited(abi, inner, items, from + 1, depth, rest)
    }
}

/// `delimited` for the fields of the struct at `index` and of its bases.
pub open spec fn struct_delimited(
    abi: AbiModel,
    index: int,
    entries: Seq<(Seq<u8>, Json)>,
    depth: nat,
    rest: Seq<u8>,
) -> bool
    decreases depth, 2nat, 0nat,
{
    if depth == 0 {
        true
    } else {
        let def = abi.structs[index];
        if def.base.len() == 0 {
            fields_delimited(abi, def.fields, 0, entries, false, depth, rest)
        } else {
            match resolved(abi, def.base) {
                Ok(Shape::Struct(j)) => {
                    let skipped = crate::codec::encode_struct_spec(abi, j, entries, (depth - 1) as nat)->Ok_0.1;
                    &&& struct_delimited(
                        abi,
                        j,
                        entries,
                        (depth - 1) as nat,
                        field_bytes_of(encode_fields_spec(abi, def.fields, 0, entries, skipped, depth)) + rest,
                    )
                    &&& fields_delimited(abi, def.fields, 0, entries, skipped, depth, rest)
                },
                _ => true,
            }
        }
    }
}

/// `delimited` for each of the fields from `from` on.
pub open spec fn fields_delimited(
    abi: AbiModel,
    fields: Seq<(Seq<u8>, Seq<u8>)>,
    from: int,
    entries: Seq<(Seq<u8>, Json)>,
    skipped: bool,
    depth: nat,
    rest: Seq<u8>,
) -> bool
    decreases depth, 1nat, fields.len() - from,
{
    if from < 0 || from >= fields.len() {
        true
    } else {
        let field = fields[from];
        match lookup(entries, field.0) {
            Some(v) => {
                let behind = field_bytes_of(encode_fields_spec(abi, fields, from + 1, entries, false, depth))
                    + rest;
                &&& delimited(abi, field.1, v, depth, behind)
                &&& (resolved(abi, field.1) matches Ok(Shape::Extension(_)) ==> (bytes_of(
                    encode_spec(abi, field.1, v, depth),
                ) + behind).len() > 0)
                &&& fields_delimited(abi, fields, from + 1, entries, false, depth, rest)
            },
            None => match resolved(abi, field.1) {
                Ok(Shape::Extension(_)) => rest.len() == 0,
                Ok(Shape::Optional(_)) => fields_delimited(abi, fields, from + 1, entries, skipped, depth, rest),
                _ => true,
            },
        }
    }
}

} // verus!
