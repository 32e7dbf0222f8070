use crate::abi::{find_member, AbiModel};
use crate::asset::{
    decode_asset_spec, decode_symbol_code_spec, decode_symbol_spec, encode_asset_spec, encode_symbol_code_spec,
    encode_symbol_spec,
};
use crate::error::ErrorKind;
use crate::json::{lookup, Json};
use crate::primitive::{
    decode_blob_spec, decode_bool_spec, decode_bytes_spec, decode_int_spec, decode_name_spec, decode_text_spec,
    decode_varint_spec, decode_varuint_spec, encode_blob_spec, encode_bool_spec, encode_bytes_spec, encode_int_spec,
    encode_name_spec, encode_text_spec, encode_varint_spec, encode_varuint_spec,
};
use crate::resolve::{resolved, Builtin, Shape};
use crate::time::{
    decode_block_timestamp_spec, decode_time_point_sec_spec, decode_time_point_spec, encode_block_timestamp_spec,
    encode_time_point_sec_spec, encode_time_point_spec,
};
use crate::varint::{varuint32_read, varuint_bytes};
use vstd::prelude::*;

verus! {

/// How deep values and types may nest.
pub const MAX_DEPTH: usize = 32;

/// The bytes of a JSON value under a built-in type.
#[verifier::opaque]
pub open spec fn encode_builtin_spec(b: Builtin, v: Json) -> Result<Seq<u8>, ErrorKind> {
    match b {
        Builtin::Bool => encode_bool_spec(v),
        Builtin::Int8 => encode_int_spec(v, 1, true),
        Builtin::Uint8 => encode_int_spec(v, 1, false),
        Builtin::Int16 => encode_int_spec(v, 2, true),
        Builtin::Uint16 => encode_int_spec(v, 2, false),
        Builtin::Int32 => encode_int_spec(v, 4, true),
        Builtin::Uint32 => encode_int_spec(v, 4, false),
        Builtin::Int64 => encode_int_spec(v, 8, true),
        Builtin::Uint64 => encode_int_spec(v, 8, false),
        Builtin::Int128 => encode_int_spec(v, 16, true),
        Builtin::Uint128 => encode_int_spec(v, 16, false),
        Builtin::Varuint32 => encode_varuint_spec(v),
        Builtin::Varint32 => encode_varint_spec(v),
        Builtin::Float32 => encode_blob_spec(v, 4),
        Builtin::Float64 => encode_blob_spec(v, 8),
        Builtin::Float128 => encode_blob_spec(v, 16),
        Builtin::TimePoint => encode_time_point_spec(v),
        Builtin::TimePointSec => encode_time_point_sec_spec(v),
        Builtin::BlockTimestamp => encode_block_timestamp_spec(v),
        Builtin::Name => encode_name_spec(v),
        Builtin::Bytes => encode_bytes_spec(v),
        Builtin::Text => encode_text_spec(v),
        Builtin::Checksum160 => encode_blob_spec(v, 20),
        Builtin::Checksum256 => encode_blob_spec(v, 32),
        Builtin::Checksum512 => encode_blob_spec(v, 64),
        Builtin::PublicKey => encode_blob_spec(v, 34),
        Builtin::Signature => encode_blob_spec(v, 66),
        Builtin::SymbolCode => encode_symbol_code_spec(v),
        Builtin::Symbol => encode_symbol_spec(v),
        Builtin::Asset => encode_asset_spec(v),
    }
}

/// The JSON value at the front of `input` under a built-in type, and how many
/// bytes it takes.
#[verifier::opaque]
pub open spec fn decode_builtin_spec(b: Builtin, input: Seq<u8>) -> Result<(Json, nat), ErrorKind> {
    match b {
        Builtin::Bool => decode_bool_spec(input),
        Builtin::Int8 => decode_int_spec(input, 1, true),
        Builtin::Uint8 => decode_int_spec(input, 1, false),
        Builtin::Int16 => decode_int_spec(input, 2, true),
        Builtin::Uint16 => decode_int_spec(input, 2, false),
        Builtin::Int32 => decode_int_spec(input, 4, true),
        Builtin::Uint32 => decode_int_spec(input, 4, false),
        Builtin::Int64 => decode_int_spec(input, 8, true),
        Builtin::Uint64 => decode_int_spec(input, 8, false),
        Builtin::Int128 => decode_int_spec(input, 16, true),
        Builtin::Uint128 => decode_int_spec(input, 16, false),
        Builtin::Varuint32 => decode_varuint_spec(input),
        Builtin::Varint32 => decode_varint_spec(input),
        Builtin::Float32 => decode_blob_spec(input, 4),
        Builtin::Float64 => decode_blob_spec(input, 8),
        Builtin::Float128 => decode_blob_spec(input, 16),
        Builtin::TimePoint => decode_time_point_spec(input),
        Builtin::TimePointSec => decode_time_point_sec_spec(input),
        Builtin::BlockTimestamp => decode_block_timestamp_spec(input),
        Builtin::Name => decode_name_spec(input),
        Builtin::Bytes => decode_bytes_spec(input),
        Builtin::Text => decode_text_spec(input),
        Builtin::Checksum160 => decode_blob_spec(input, 20),
        Builtin::Checksum256 => decode_blob_spec(input, 32),
        Builtin::Checksum512 => decode_blob_spec(input, 64),
        Builtin::PublicKey => decode_blob_spec(input, 34),
        Builtin::Signature => decode_blob_spec(input, 66),
        Builtin::SymbolCode => decode_symbol_code_spec(input),
        Builtin::Symbol => decode_symbol_spec(input),
        Builtin::Asset => decode_asset_spec(input),
    }
}

/// `head` in front of an encoding, or the encoding's error.
pub open spec fn prepend(head: Seq<u8>, r: Result<Seq<u8>, ErrorKind>) -> Result<Seq<u8>, ErrorKind> {
    match r {
        Ok(bytes) => Ok(head + bytes),
        Err(e) => Err(e),
    }
}

/// `head` in front of the encoding of a run of fields, or its error.
pub open spec fn prepend_fields(head: Seq<u8>, r: Result<(Seq<u8>, bool), ErrorKind>) -> Result<
    (Seq<u8>, bool),
    ErrorKind,
> {
    match r {
        Ok((bytes, skipped)) => Ok((head + bytes, skipped)),
        Err(e) => Err(e),
    }
}

/// The bytes only, of the encoding of a run of fields.
pub open spec fn bytes_only(r: Result<(Seq<u8>, bool), ErrorKind>) -> Result<Seq<u8>, ErrorKind> {
    match r {
        Ok((bytes, _)) => Ok(bytes),
        Err(e) => Err(e),
    }
}

/// The bytes of a JSON value under a type expression of a document.
///
/// A built-in type by its own rule. An optional: a zero byte for `null`, else
/// a one byte and the value. A binary extension outside a struct: the value.
/// An array: the count of items, then the items. A struct: a JSON object, the
/// fields of its base first. A variant: a JSON array of the member's type
/// expression and the value, as the member's position and the value.
pub open spec fn encode_spec(abi: AbiModel, expr: Seq<u8>, v: Json, depth: nat) -> Result<Seq<u8>, ErrorKind>
    decreases depth, 0nat, 0nat,
{
    if depth == 0 {
        Err(ErrorKind::NestingTooDeep)
    } else {
        match resolved(abi, expr) {
            Err(e) => Err(e),
            Ok(Shape::Builtin(b)) => encode_builtin_spec(b, v),
            Ok(Shape::Optional(inner)) => encode_optional_spec(abi, inner, v, (depth - 1) as nat),
            Ok(Shape::Extension(inner)) => encode_spec(abi, inner, v, (depth - 1) as nat),
            Ok(Shape::Array(inner)) => encode_array_spec(abi, inner, v, (depth - 1) as nat),
            Ok(Shape::Struct(i)) => encode_object_spec(abi, i, v, (depth - 1) as nat),
            Ok(Shape::Variant(i)) => encode_variant_spec(abi, i, v, (depth - 1) as nat),
        }
    }
}

/// An optional: a zero byte for `null`, else a one byte and the value.
pub open spec fn encode_optional_spec(abi: AbiModel, inner: Seq<u8>, v: Json, depth: nat) -> Result<
    Seq<u8>,
    ErrorKind,
>
    decreases depth, 3nat, 0nat,
{
    match v {
        Json::Null => Ok(seq![0u8]),
        _ => prepend(seq![1u8], encode_spec(abi, inner, v, depth)),
    }
}

/// An array: the count of its items, then the items.
pub open spec fn encode_array_spec(abi: AbiModel, inner: Seq<u8>, v: Json, depth: nat) -> Result<
    Seq<u8>,
    ErrorKind,
>
    decreases depth, 3nat, 0nat,
{
    match v {
        Json::Array(items) => if items.len() > u32::MAX {
            Err(ErrorKind::FieldTypeMismatch)
        } else {
            prepend(varuint_bytes(items.len()), encode_items_spec(abi, inner, items, 0, depth))
        },
        _ => Err(ErrorKind::FieldTypeMismatch),
    }
}

/// A struct: a JSON object, as the bytes of its fields.
pub open spec fn encode_object_spec(abi: AbiModel, index: int, v: Json, depth: nat) -> Result<
    Seq<u8>,
    ErrorKind,
>
    decreases depth, 3nat, 0nat,
{
    match v {
        Json::Object(entries) => bytes_only(encode_struct_spec(abi, index, entries, depth)),
        _ => Err(ErrorKind::FieldTypeMismatch),
    }
}

/// A variant: a JSON array of a member's type expression and a value, as the
/// member's position and the value under that member.
pub open spec fn encode_variant_spec(abi: AbiModel, index: int, v: Json, depth: nat) -> Result<
    Seq<u8>,
    ErrorKind,
>
    decreases depth, 3nat, 0nat,
{
    match v {
        Json::Array(pair) => if pair.len() == 2 && pair[0] is Str {
            match find_member(abi.variants[index].1, pair[0]->Str_0, 0) {
                Some(k) => if k > u32::MAX {
                    Err(ErrorKind::VariantIndexOutOfRange)
                } else {
                    prepend(varuint_bytes(k as nat), encode_spec(abi, pair[0]->Str_0, pair[1], depth))
                },
                None => Err(ErrorKind::NoMatchingVariantType),
            }
        } else {
            Err(ErrorKind::FieldTypeMismatch)
        },
        _ => Err(ErrorKind::FieldTypeMismatch),
    }
}

/// The bytes of the items from `from` on, one after the other.
pub open spec fn encode_items_spec(abi: AbiModel, inner: Seq<u8>, items: Seq<Json>, from: int, depth: nat) -> Result<
    Seq<u8>,
    ErrorKind,
>
    decreases depth, 1nat, items.len() - from,
{
    if from < 0 || from >= items.len() {
        Ok(Seq::empty())
    } else {
        match encode_spec(abi, inner, items[from], depth) {
            Ok(bytes) => prepend(bytes, encode_items_spec(abi, inner, items, from + 1, depth)),
            Err(e) => Err(e),
        }
    }
}

/// The bytes of a JSON object under the struct at `index`: the fields of the
/// base struct, then its own; and whether an absent binary extension ended
/// the encoding.
pub open spec fn encode_struct_spec(
    abi: AbiModel,
    index: int,
    entries: Seq<(Seq<u8>, Json)>,
    depth: nat,
) -> Result<(Seq<u8>, bool), ErrorKind>
    decreases depth, 2nat, 0nat,
{
    if depth == 0 {
        Err(ErrorKind::NestingTooDeep)
    } else {
        let def = abi.structs[index];
        let base = if def.base.len() == 0 {
            Ok((Seq::empty(), false))
        } else {
            match resolved(abi, def.base) {
                Ok(Shape::Struct(j)) => encode_struct_spec(abi, j, entries, (depth - 1) as nat),
                Ok(_) => Err(ErrorKind::UnknownType),
                Err(e) => Err(e),
            }
        };
        match base {
            Ok((head, skipped)) => prepend_fields(
                head,
                encode_fields_spec(abi, def.fields, 0, entries, skipped, depth),
            ),
            Err(e) => Err(e),
        }
    }
}

/// The bytes of the fields from `from` on, each looked up in the object by
/// its name.
///
/// A field that the object has is encoded under its type. One that it lacks
/// ends the encoding if it is a binary extension, is a zero byte if it is an
/// optional, and is an error otherwise. Once the encoding has ended, a field
/// that the object has is an error, and an absent optional adds nothing.
pub open spec fn encode_fields_spec(
    abi: AbiModel,
    fields: Seq<(Seq<u8>, Seq<u8>)>,
    from: int,
    entries: Seq<(Seq<u8>, Json)>,
    skipped: bool,
    depth: nat,
) -> Result<(Seq<u8>, bool), ErrorKind>
    decreases depth, 1nat, fields.len() - from,
{
    if from < 0 || from >= fields.len() {
        Ok((Seq::empty(), skipped))
    } else {
        let field = fields[from];
        match lookup(entries, field.0) {
            Some(v) => if skipped {
                Err(ErrorKind::MissingField)
            } else {
                match encode_spec(abi, field.1, v, depth) {
                    Ok(bytes) => prepend_fields(
                        bytes,
                        encode_fields_spec(abi, fields, from + 1, entries, false, depth),
                    ),
                    Err(e) => Err(e),
                }
            },
            None => match resolved(abi, field.1) {
                Ok(Shape::Extension(_)) => encode_fields_spec(abi, fields, from + 1, entries, true, depth),
                Ok(Shape::Optional(_)) => if skipped {
                    encode_fields_spec(abi, fields, from + 1, entries, true, depth)
                } else {
                    prepend_fields(seq![0u8], encode_fields_spec(abi, fields, from + 1, entries, false, depth))
                },
                Ok(_) => Err(ErrorKind::MissingField),
                Err(e) => Err(e),
            },
        }
    }
}

/// A decoded value with `used` more bytes counted, or the error.
pub open spec fn after(used: nat, r: Result<(Json, nat), ErrorKind>) -> Result<(Json, nat), ErrorKind> {
    match r {
        Ok((v, n)) => Ok((v, used + n)),
        Err(e) => Err(e),
    }
}

/// Decoded items behind `head`, with `used` more bytes counted, or the error.
pub open spec fn after_items(head: Seq<Json>, used: nat, r: Result<(Seq<Json>, nat), ErrorKind>) -> Result<
    (Seq<Json>, nat),
    ErrorKind,
> {
    match r {
        Ok((items, n)) => Ok((head + items, used + n)),
        Err(e) => Err(e),
    }
}

/// Decoded entries behind `head`, with `used` more bytes counted, or the error.
pub open spec fn after_entries(
    head: Seq<(Seq<u8>, Json)>,
    used: nat,
    r: Result<(Seq<(Seq<u8>, Json)>, nat, bool), ErrorKind>,
) -> Result<(Seq<(Seq<u8>, Json)>, nat, bool), ErrorKind> {
    match r {
        Ok((entries, n, stopped)) => Ok((head + entries, used + n, stopped)),
        Err(e) => Err(e),
    }
}

/// The JSON value at the front of `input` under a type expression of a
/// document, and how many bytes it takes.
///
/// An optional is `null` after a zero byte, else the value after the flag. An
/// array is the count and then the items. A struct is a JSON object with the
/// fields in declaration order, those of the base first. A variant is the
/// member's position and the value, as a JSON array of the member's type
/// expression and the value.
pub open spec fn decode_spec(abi: AbiModel, expr: Seq<u8>, input: Seq<u8>, depth: nat) -> Result<
    (Json, nat),
    ErrorKind,
>
    decreases depth, 0nat, 0nat,
{
    if depth == 0 {
        Err(ErrorKind::NestingTooDeep)
    } else {
        match resolved(abi, expr) {
            Err(e) => Err(e),
            Ok(Shape::Builtin(b)) => decode_builtin_spec(b, input),
            Ok(Shape::Optional(inner)) => decode_optional_spec(abi, inner, input, (depth - 1) as nat),
            Ok(Shape::Extension(inner)) => decode_spec(abi, inner, input, (depth - 1) as nat),
            Ok(Shape::Array(inner)) => decode_array_spec(abi, inner, input, (depth - 1) as nat),
            Ok(Shape::Struct(i)) => decode_object_spec(abi, i, input, (depth - 1) as nat),
            Ok(Shape::Variant(i)) => decode_variant_spec(abi, i, input, (depth - 1) as nat),
        }
    }
}

/// An optional: `null` after a zero byte, else the value after the flag.
pub open spec fn decode_optional_spec(abi: AbiModel, inner: Seq<u8>, input: Seq<u8>, depth: nat) -> Result<
    (Json, nat),
    ErrorKind,
>
    decreases depth, 3nat, 0nat,
{
    if input.len() == 0 {
        Err(ErrorKind::TruncatedInput)
    } else if input[0] == 0 {
        Ok((Json::Null, 1))
    } else {
        after(1, decode_spec(abi, inner, input.skip(1), depth))
    }
}

/// An array: the count, then that many items.
pub open spec fn decode_array_spec(abi: AbiModel, inner: Seq<u8>, input: Seq<u8>, depth: nat) -> Result<
    (Json, nat),
    ErrorKind,
>
    decreases depth, 3nat, 0nat,
{
    match varuint32_read(input) {
        Ok((count, used)) => match decode_items_spec(abi, inner, input.skip(used as int), count, depth) {
            Ok((items, n)) => Ok((Json::Array(items), used + n)),
            Err(e) => Err(e),
        },
        Err(e) => Err(e),
    }
}

/// A struct: a JSON object of its fields.
pub open spec fn decode_object_spec(abi: AbiModel, index: int, input: Seq<u8>, depth: nat) -> Result<
    (Json, nat),
    ErrorKind,
>
    decreases depth, 3nat, 0nat,
{
    match decode_struct_spec(abi, index, input, depth) {
        Ok((entries, n, _)) => Ok((Json::Object(entries), n)),
        Err(e) => Err(e),
    }
}

/// A variant: a member's position, then the value under that member, as a
/// JSON array of the member's type expression and the value.
pub open spec fn decode_variant_spec(abi: AbiModel, index: int, input: Seq<u8>, depth: nat) -> Result<
    (Json, nat),
    ErrorKind,
>
    decreases depth, 3nat, 0nat,
{
    match varuint32_read(input) {
        Ok((k, used)) => if k >= abi.variants[index].1.len() {
            Err(ErrorKind::VariantIndexOutOfRange)
        } else {
            let member = abi.variants[index].1[k as int];
            match decode_spec(abi, member, input.skip(used as int), depth) {
                Ok((v, n)) => Ok((Json::Array(seq![Json::Str(member), v]), used + n)),
                Err(e) => Err(e),
            }
        },
        Err(e) => Err(e),
    }
}

/// `count` items at the front of `input`, one after the other.
pub open spec fn decode_items_spec(abi: AbiModel, inner: Seq<u8>, input: Seq<u8>, count: nat, depth: nat) -> Result<
    (Seq<Json>, nat),
    ErrorKind,
>
    decreases depth, 1nat, count,
{
    if count == 0 {
        Ok((Seq::empty(), 0))
    } else {
        match decode_spec(abi, inner, input, depth) {
            Ok((v, n)) => after_items(
                seq![v],
                n,
                decode_items_spec(abi, inner, input.skip(n as int), (count - 1) as nat, depth),
            ),
            Err(e) => Err(e),
        }
    }
}

/// The entries of the struct at `index` at the front of `input`: the fields
/// of the base struct, then its own; how many bytes they take; and whether the
/// input ended at a binary extension.
pub open spec fn decode_struct_spec(abi: AbiModel, index: int, input: Seq<u8>, depth: nat) -> Result<
    (Seq<(Seq<u8>, Json)>, nat, bool),
    ErrorKind,
>
    decreases depth, 2nat, 0nat,
{
    if depth == 0 {
        Err(ErrorKind::NestingTooDeep)
    } else {
        let def = abi.structs[index];
        let base = if def.base.len() == 0 {
            Ok((Seq::empty(), 0nat, false))
        } else {
            match resolved(abi, def.base) {
                Ok(Shape::Struct(j)) => decode_struct_spec(abi, j, input, (depth - 1) as nat),
                Ok(_) => Err(ErrorKind::UnknownType),
                Err(e) => Err(e),
            }
        };
        match base {
            Ok((head, used, stopped)) => after_entries(
                head,
                used,
                decode_fields_spec(abi, def.fields, 0, input.skip(used as int), stopped, depth),
            ),
            Err(e) => Err(e),
        }
    }
}

/// The entries of the fields from `from` on at the front of `input`.
///
/// Where the input is exhausted at a binary extension, that field and all
/// after it are left out.
pub open spec fn decode_fields_spec(
    abi: AbiModel,
    fields: Seq<(Seq<u8>, Seq<u8>)>,
    from: int,
    input: Seq<u8>,
    stopped: bool,
    depth: nat,
) -> Result<(Seq<(Seq<u8>, Json)>, nat, bool), ErrorKind>
    decreases depth, 1nat, fields.len() - from,
{
    if from < 0 || from >= fields.len() {
        Ok((Seq::empty(), 0, stopped))
    } else if stopped {
        Ok((Seq::empty(), 0, true))
    } else {
        let field = fields[from];
        if resolved(abi, field.1) is Ok && resolved(abi, field.1)->Ok_0 is Extension
            && input.len() == 0 {
            Ok((Seq::empty(), 0, true))
        } else {
            match decode_spec(abi, field.1, input, depth) {
                Ok((v, n)) => after_entries(
                    seq![(field.0, v)],
                    n,
                    decode_fields_spec(abi, fields, from + 1, input.skip(n as int), false, depth),
                ),
                Err(e) => Err(e),
            }
        }
    }
}

/// The bytes of a JSON value under a type expression, nesting no deeper than
/// `MAX_DEPTH`.
pub open spec fn json_to_bin_spec(abi: AbiModel, expr: Seq<u8>, v: Json) -> Result<Seq<u8>, ErrorKind> {
    encode_spec(abi, expr, v, MAX_DEPTH as nat)
}

/// The JSON value that all of `input` holds under a type expression.
pub open spec fn bin_to_json_spec(abi: AbiModel, expr: Seq<u8>, input: Seq<u8>) -> Result<Json, ErrorKind> {
    match decode_spec(abi, expr, input, MAX_DEPTH as nat) {
        Ok((v, used)) => if used == input.len() {
            Ok(v)
        } else {
            Err(ErrorKind::ExtraData)
        },
        Err(e) => Err(e),
    }
}

} // verus!
