use crate::abi::{fields_model, member_index, AbiDocument, FieldDef};
use crate::asset::{encode_asset, encode_symbol, encode_symbol_code};
use crate::codec::{
    encode_array_spec, encode_builtin_spec, encode_fields_spec, encode_items_spec, encode_object_spec,
    encode_optional_spec, encode_spec, encode_struct_spec, encode_variant_spec, prepend, prepend_fields,
};
use crate::error::ErrorKind;
use crate::json::{entries_model, items_model, lemma_array_view, lemma_object_view, JsonValue};
use crate::primitive::{
    appended, encode_blob, encode_bool, encode_bytes, encode_int, encode_name, encode_text, encode_varint,
    encode_varuint, string_of,
};
use crate::resolve::{Builtin, ResolutionCache, ResolvedType};
use crate::time::{encode_block_timestamp, encode_time_point, encode_time_point_sec};
use crate::varint::put_varuint;
use vstd::prelude::*;

verus! {

/// Appends the bytes of a JSON value under a built-in type.
pub fn encode_builtin(out: &mut Vec<u8>, b: Builtin, v: &JsonValue) -> (r: Result<(), ErrorKind>)
    ensures
        appended(old(out)@, final(out)@, r, encode_builtin_spec(b, v@)),
{
    reveal(encode_builtin_spec);
    match b {
        Builtin::Bool => encode_bool(out, v),
        Builtin::Int8 => encode_int(out, v, 1, true),
        Builtin::Uint8 => encode_int(out, v, 1, false),
        Builtin::Int16 => encode_int(out, v, 2, true),
        Builtin::Uint16 => encode_int(out, v, 2, false),
        Builtin::Int32 => encode_int(out, v, 4, true),
        Builtin::Uint32 => encode_int(out, v, 4, false),
        Builtin::Int64 => encode_int(out, v, 8, true),
        Builtin::Uint64 => encode_int(out, v, 8, false),
        Builtin::Int128 => encode_int(out, v, 16, true),
        Builtin::Uint128 => encode_int(out, v, 16, false),
        Builtin::Varuint32 => encode_varuint(out, v),
        Builtin::Varint32 => encode_varint(out, v),
        Builtin::Float32 => encode_blob(out, v, 4),
        Builtin::Float64 => encode_blob(out, v, 8),
        Builtin::Float128 => encode_blob(out, v, 16),
        Builtin::TimePoint => encode_time_point(out, v),
        Builtin::TimePointSec => encode_time_point_sec(out, v),
        Builtin::BlockTimestamp => encode_block_timestamp(out, v),
        Builtin::Name => encode_name(out, v),
        Builtin::Bytes => encode_bytes(out, v),
        Builtin::Text => encode_text(out, v),
        Builtin::Checksum160 => encode_blob(out, v, 20),
        Builtin::Checksum256 => encode_blob(out, v, 32),
        Builtin::Checksum512 => encode_blob(out, v, 64),
        Builtin::PublicKey => encode_blob(out, v, 34),
        Builtin::Signature => encode_blob(out, v, 66),
        Builtin::SymbolCode => encode_symbol_code(out, v),
        Builtin::Symbol => encode_symbol(out, v),
        Builtin::Asset => encode_asset(out, v),
    }
}

/// How the outcome of encoding a run of fields matches what it should be.
pub open spec fn appended_fields(
    before: Seq<u8>,
    after: Seq<u8>,
    r: Result<bool, ErrorKind>,
    expected: Result<(Seq<u8>, bool), ErrorKind>,
) -> bool {
    match expected {
        Ok((bytes, skipped)) => r == Ok::<bool, ErrorKind>(skipped) && after =~= before + bytes,
        Err(e) => r == Err::<bool, ErrorKind>(e),
    }
}

/// Appends the bytes of a JSON value under a type expression of a document.
pub fn encode_value(abi: &AbiDocument, cache: &ResolutionCache, expr: &[u8], v: &JsonValue, depth: usize, out: &mut Vec<u8>) -> (r: Result<
    (),
    ErrorKind,
>)
    requires
        cache.sound(abi@),
    ensures
        appended(old(out)@, final(out)@, r, encode_spec(abi@, expr@, v@, depth as nat)),
    decreases depth, 0nat, 0nat,
{
    if depth == 0 {
        return Err(ErrorKind::NestingTooDeep);
    }
    match cache.resolve(abi, expr) {
        Ok(ResolvedType::Builtin(b)) => encode_builtin(out, b, v),
        Ok(ResolvedType::Optional(inner)) => encode_optional(abi, cache, inner.as_slice(), v, depth - 1, out),
        Ok(ResolvedType::Extension(inner)) => encode_value(abi, cache, inner.as_slice(), v, depth - 1, out),
        Ok(ResolvedType::Array(inner)) => encode_array(abi, cache, inner.as_slice(), v, depth - 1, out),
        Ok(ResolvedType::Struct(index)) => encode_object(abi, cache, index, v, depth - 1, out),
        Ok(ResolvedType::Variant(index)) => encode_variant(abi, cache, index, v, depth - 1, out),
        Err(e) => Err(e),
    }
}

/// Appends an optional: a zero byte for `null`, else a one byte and the value.
pub fn encode_optional(abi: &AbiDocument, cache: &ResolutionCache, inner: &[u8], v: &JsonValue, depth: usize, out: &mut Vec<u8>) -> (r:
    Result<(), ErrorKind>)
    requires
        cache.sound(abi@),
    ensures
        appended(old(out)@, final(out)@, r, encode_optional_spec(abi@, inner@, v@, depth as nat)),
    decreases depth, 3nat, 0nat,
{
    match v {
        JsonValue::Null => {
            out.push(0);
            Ok(())
        },
        _ => {
            out.push(1);
            encode_value(abi, cache, inner, v, depth, out)
        },
    }
}

/// Appends an array: the count of its items, then the items.
pub fn encode_array(abi: &AbiDocument, cache: &ResolutionCache, inner: &[u8], v: &JsonValue, depth: usize, out: &mut Vec<u8>) -> (r: Result<
    (),
    ErrorKind,
>)
    requires
        cache.sound(abi@),
    ensures
        appended(old(out)@, final(out)@, r, encode_array_spec(abi@, inner@, v@, depth as nat)),
    decreases depth, 3nat, 0nat,
{
    match v {
        JsonValue::Array(items) => {
            proof {
                lemma_array_view(*items);
            }
            if items.len() > 0xffff_ffff {
                return Err(ErrorKind::FieldTypeMismatch);
            }
            put_varuint(out, items.len() as u32);
            encode_items(abi, cache, inner, items, depth, out)
        },
        _ => Err(ErrorKind::FieldTypeMismatch),
    }
}

/// Appends a struct: the fields of a JSON object.
pub fn encode_object(abi: &AbiDocument, cache: &ResolutionCache, index: usize, v: &JsonValue, depth: usize, out: &mut Vec<u8>) -> (r: Result<
    (),
    ErrorKind,
>)
    requires
        cache.sound(abi@),
        index < abi.structs.len(),
    ensures
        appended(old(out)@, final(out)@, r, encode_object_spec(abi@, index as int, v@, depth as nat)),
    decreases depth, 3nat, 0nat,
{
    match v {
        JsonValue::Object(entries) => {
            proof {
                lemma_object_view(*entries);
            }
            match encode_struct(abi, cache, index, entries, depth, out) {
                Ok(_) => Ok(()),
                Err(e) => Err(e),
            }
        },
        _ => Err(ErrorKind::FieldTypeMismatch),
    }
}

/// Appends a variant: the position of the member that the value names, then
/// the value under that member.
pub fn encode_variant(abi: &AbiDocument, cache: &ResolutionCache, index: usize, v: &JsonValue, depth: usize, out: &mut Vec<u8>) -> (r:
    Result<(), ErrorKind>)
    requires
        cache.sound(abi@),
        index < abi.variants.len(),
    ensures
        appended(old(out)@, final(out)@, r, encode_variant_spec(abi@, index as int, v@, depth as nat)),
    decreases depth, 3nat, 0nat,
{
    match v {
        JsonValue::Array(pair) => {
            proof {
                lemma_array_view(*pair);
            }
            if pair.len() != 2 {
                return Err(ErrorKind::FieldTypeMismatch);
            }
            let tag = match string_of(&pair[0]) {
                Some(tag) => tag,
                None => {
                    return Err(ErrorKind::FieldTypeMismatch);
                },
            };
            match member_index(&abi.variants[index].types, tag.as_slice()) {
                Some(k) => {
                    if k > 0xffff_ffff {
                        return Err(ErrorKind::VariantIndexOutOfRange);
                    }
                    put_varuint(out, k as u32);
                    encode_value(abi, cache, tag.as_slice(), &pair[1], depth, out)
                },
                None => Err(ErrorKind::NoMatchingVariantType),
            }
        },
        _ => Err(ErrorKind::FieldTypeMismatch),
    }
}

/// Appends the bytes of the items of an array, one after the other.
pub fn encode_items(abi: &AbiDocument, cache: &ResolutionCache, inner: &[u8], items: &Vec<JsonValue>, depth: usize, out: &mut Vec<u8>) -> (r:
    Result<(), ErrorKind>)
    requires
        cache.sound(abi@),
    ensures
        appended(
            old(out)@,
            final(out)@,
            r,
            encode_items_spec(abi@, inner@, items_model(items@), 0, depth as nat),
        ),
    decreases depth, 1nat, 0nat,
{
    let ghost start = out@;
    let ghost model = items_model(items@);
    let ghost mut head: Seq<u8> = Seq::empty();
    let mut i: usize = 0;
    while i < items.len()
        invariant
            cache.sound(abi@),
            i <= items.len(),
            model == items_model(items@),
            out@ =~= start + head,
            encode_items_spec(abi@, inner@, model, 0, depth as nat) == prepend(
                head,
                encode_items_spec(abi@, inner@, model, i as int, depth as nat),
            ),
        decreases items.len() - i,
    {
        match encode_value(abi, cache, inner, &items[i], depth, out) {
            Ok(()) => {
                proof {
                    let bytes = encode_spec(abi@, inner@, model[i as int], depth as nat)->Ok_0;
                    let rest = encode_items_spec(abi@, inner@, model, i + 1, depth as nat);
                    if rest is Ok {
                        assert(head + (bytes + rest->Ok_0) =~= (head + bytes) + rest->Ok_0);
                    }
                    head = head + bytes;
                }
            },
            Err(e) => {
                return Err(e);
            },
        }
        i += 1;
    }
    assert(head + Seq::<u8>::empty() =~= head);
    Ok(())
}

/// Appends the bytes of a JSON object under the struct at `index`; tells
/// whether an absent binary extension ended the encoding.
pub fn encode_struct(
    abi: &AbiDocument,
    cache: &ResolutionCache,
    index: usize,
    entries: &Vec<(Vec<u8>, JsonValue)>,
    depth: usize,
    out: &mut Vec<u8>,
) -> (r: Result<bool, ErrorKind>)
    requires
        cache.sound(abi@),
        index < abi.structs.len(),
    ensures
        appended_fields(
            old(out)@,
            final(out)@,
            r,
            encode_struct_spec(abi@, index as int, entries_model(entries@), depth as nat),
        ),
    decreases depth, 2nat, 0nat,
{
    if depth == 0 {
        return Err(ErrorKind::NestingTooDeep);
    }
    let def = &abi.structs[index];
    let mut skipped = false;
    if def.base.len() != 0 {
        match cache.resolve(abi, def.base.as_slice()) {
            Ok(ResolvedType::Struct(j)) => {
                match encode_struct(abi, cache, j, entries, depth - 1, out) {
                    Ok(s) => {
                        skipped = s;
                    },
                    Err(e) => {
                        return Err(e);
                    },
                }
            },
            Ok(_) => {
                return Err(ErrorKind::UnknownType);
            },
            Err(e) => {
                return Err(e);
            },
        }
    }
    assert(old(out)@ + Seq::<u8>::empty() =~= old(out)@);
    let ghost mid = out@;
    let r = encode_fields(abi, cache, &def.fields, entries, skipped, depth, out);
    proof {
        let tail = encode_fields_spec(abi@, fields_model(def.fields@), 0, entries_model(entries@), skipped, depth as nat);
        if tail is Ok {
            let head = mid.skip(old(out)@.len() as int);
            assert(mid =~= old(out)@ + head);
            assert(out@ =~= old(out)@ + (head + tail->Ok_0.0));
        }
    }
    r
}

/// Appends the bytes of the fields of a struct, each looked up in the object
/// by its name; tells whether an absent binary extension ended the encoding.
pub fn encode_fields(
    abi: &AbiDocument,
    cache: &ResolutionCache,
    fields: &Vec<FieldDef>,
    entries: &Vec<(Vec<u8>, JsonValue)>,
    skipped: bool,
    depth: usize,
    out: &mut Vec<u8>,
) -> (r: Result<bool, ErrorKind>)
    requires
        cache.sound(abi@),
    ensures
        appended_fields(
            old(out)@,
            final(out)@,
            r,
            encode_fields_spec(abi@, fields_model(fields@), 0, entries_model(entries@), skipped, depth as nat),
        ),
    decreases depth, 1nat, 0nat,
{
    let ghost start = out@;
    let ghost model = entries_model(entries@);
    let ghost mut head: Seq<u8> = Seq::empty();
    let mut now_skipped = skipped;
    let mut i: usize = 0;
    while i < fields.len()
        invariant
            cache.sound(abi@),
            i <= fields.len(),
            model == entries_model(entries@),
            out@ =~= start + head,
            encode_fields_spec(abi@, fields_model(fields@), 0, model, skipped, depth as nat) == prepend_fields(
                head,
                encode_fields_spec(abi@, fields_model(fields@), i as int, model, now_skipped, depth as nat),
            ),
        decreases fields.len() - i,
    {
        let field = &fields[i];
        let ghost rest_kept = encode_fields_spec(abi@, fields_model(fields@), i + 1, model, false, depth as nat);
        match JsonValue::get(entries, field.name.as_slice()) {
            Some(v) => {
                if now_skipped {
                    return Err(ErrorKind::MissingField);
                }
                match encode_value(abi, cache, field.type_expr.as_slice(), v, depth, out) {
                    Ok(()) => {
                        proof {
                            let bytes = encode_spec(abi@, field.type_expr@, v@, depth as nat)->Ok_0;
                            if rest_kept is Ok {
                                assert(head + (bytes + rest_kept->Ok_0.0) =~= (head + bytes) + rest_kept->Ok_0.0);
                            }
                            head = head + bytes;
                        }
                    },
                    Err(e) => {
                        return Err(e);
                    },
                }
            },
            None => match cache.resolve(abi, field.type_expr.as_slice()) {
                Ok(ResolvedType::Extension(_)) => {
                    now_skipped = true;
                },
                Ok(ResolvedType::Optional(_)) => {
                    if !now_skipped {
                        out.push(0);
                        proof {
                            if rest_kept is Ok {
                                assert(head + (seq![0u8] + rest_kept->Ok_0.0) =~= (head + seq![0u8])
                                    + rest_kept->Ok_0.0);
                            }
                            head = head + seq![0u8];
                        }
                    }
                },
                Ok(_) => {
                    return Err(ErrorKind::MissingField);
                },
                Err(e) => {
                    return Err(e);
                },
            },
        }
        i += 1;
    }
    assert(head + Seq::<u8>::empty() =~= head);
    Ok(now_skipped)
}

} // verus!
