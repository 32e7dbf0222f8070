use crate::asset::{
    asset_parts, decode_asset_spec, decode_symbol_code_spec, decode_symbol_spec, encode_asset_spec,
    encode_symbol_code_spec, encode_symbol_spec,
};
use crate::canon::canon_builtin;
use crate::codec::{decode_builtin_spec, encode_builtin_spec};
use crate::error::ErrorKind;
use crate::json::Json;
use crate::number::{int_bytes, lemma_le_bytes, pow256};
use crate::primitive::{
    decode_blob_spec, decode_bytes_spec, decode_int_spec, decode_name_spec, decode_text_spec,
    decode_varint_spec, decode_varuint_spec, encode_blob_spec, encode_bytes_spec, encode_int_spec,
    encode_name_spec, encode_text_spec, encode_varint_spec, encode_varuint_spec, int_json, json_hex, json_integer,
    prefixed, read_prefixed,
};
use crate::resolve::Builtin;
use crate::time::{
    block_epoch_millis, decode_block_timestamp_spec, decode_time_point_sec_spec, decode_time_point_spec,
    encode_block_timestamp_spec, encode_time_point_sec_spec, encode_time_point_spec, json_time,
};
use crate::varint::{law_varuint32_round_trip, varuint_bytes, zigzag};
use vstd::prelude::*;

verus! {

/// What reading `bytes` alone and reading them with `rest` behind them have
/// in common: the same value, and all of `bytes` used.
pub open spec fn framed(
    alone: Result<(Json, nat), ErrorKind>,
    followed: Result<(Json, nat), ErrorKind>,
    bytes: Seq<u8>,
) -> bool {
    &&& alone is Ok
    &&& followed == alone
    &&& alone->Ok_0.1 == bytes.len()
}

/// A fixed-width integer is read alike alone and with bytes behind it.
proof fn lemma_int_framed(v: Json, w: nat, is_signed: bool, rest: Seq<u8>)
    requires
        encode_int_spec(v, w, is_signed) is Ok,
    ensures
        framed(
            decode_int_spec(encode_int_spec(v, w, is_signed)->Ok_0, w, is_signed),
            decode_int_spec(encode_int_spec(v, w, is_signed)->Ok_0 + rest, w, is_signed),
            encode_int_spec(v, w, is_signed)->Ok_0,
        ),
{
    let bytes = encode_int_spec(v, w, is_signed)->Ok_0;
    let x = json_integer(v, w > 4, crate::number::int_min(w, is_signed), crate::number::int_max(w, is_signed))->Some_0;
    crate::number::lemma_pow256_positive(w);
    lemma_le_bytes((x % pow256(w) as int) as nat, w);
    assert((bytes + rest).take(w as int) =~= bytes);
    assert(bytes.take(w as int) =~= bytes);
}

/// A fixed-size byte array is read alike alone and with bytes behind it.
proof fn lemma_blob_framed(v: Json, w: nat, rest: Seq<u8>)
    requires
        encode_blob_spec(v, w) is Ok,
    ensures
        framed(
            decode_blob_spec(encode_blob_spec(v, w)->Ok_0, w),
            decode_blob_spec(encode_blob_spec(v, w)->Ok_0 + rest, w),
            encode_blob_spec(v, w)->Ok_0,
        ),
{
    let bytes = encode_blob_spec(v, w)->Ok_0;
    assert((bytes + rest).take(w as int) =~= bytes);
    assert(bytes.take(w as int) =~= bytes);
}

/// A variable-length unsigned integer is read alike alone and with bytes
/// behind it.
proof fn lemma_varuint_framed(v: Json, rest: Seq<u8>)
    requires
        encode_varuint_spec(v) is Ok,
    ensures
        framed(
            decode_varuint_spec(encode_varuint_spec(v)->Ok_0),
            decode_varuint_spec(encode_varuint_spec(v)->Ok_0 + rest),
            encode_varuint_spec(v)->Ok_0,
        ),
{
    let x = json_integer(v, false, 0, u32::MAX as int)->Some_0;
    law_varuint32_round_trip(x as nat, rest);
    law_varuint32_round_trip(x as nat, Seq::empty());
    assert(varuint_bytes(x as nat) + Seq::<u8>::empty() =~= varuint_bytes(x as nat));
}

/// A variable-length signed integer is read alike alone and with bytes
/// behind it.
proof fn lemma_varint_framed(v: Json, rest: Seq<u8>)
    requires
        encode_varint_spec(v) is Ok,
    ensures
        framed(
            decode_varint_spec(encode_varint_spec(v)->Ok_0),
            decode_varint_spec(encode_varint_spec(v)->Ok_0 + rest),
            encode_varint_spec(v)->Ok_0,
        ),
{
    let x = json_integer(v, false, i32::MIN as int, i32::MAX as int)->Some_0;
    law_varuint32_round_trip(zigzag(x), rest);
    law_varuint32_round_trip(zigzag(x), Seq::empty());
    assert(varuint_bytes(zigzag(x)) + Seq::<u8>::empty() =~= varuint_bytes(zigzag(x)));
}

/// Reading a length and bytes that were written gives the bytes back,
/// whatever follows.
pub proof fn law_prefixed_round_trip(payload: Seq<u8>, rest: Seq<u8>)
    requires
        prefixed(payload) is Ok,
    ensures
        read_prefixed(prefixed(payload)->Ok_0 + rest) == Ok::<(Seq<u8>, nat), ErrorKind>(
            (payload, prefixed(payload)->Ok_0.len()),
        ),
{
    let head = varuint_bytes(payload.len());
    let input = prefixed(payload)->Ok_0 + rest;
    assert(input =~= head + (payload + rest));
    law_varuint32_round_trip(payload.len(), payload + rest);
    assert(input.subrange(head.len() as int, (head.len() + payload.len()) as int) =~= payload);
}

/// A byte string is read alike alone and with bytes behind it.
proof fn lemma_bytes_framed(v: Json, rest: Seq<u8>)
    requires
        encode_bytes_spec(v) is Ok,
    ensures
        framed(
            decode_bytes_spec(encode_bytes_spec(v)->Ok_0),
            decode_bytes_spec(encode_bytes_spec(v)->Ok_0 + rest),
            encode_bytes_spec(v)->Ok_0,
        ),
{
    let payload = json_hex(v)->Some_0;
    law_prefixed_round_trip(payload, rest);
    law_prefixed_round_trip(payload, Seq::empty());
    assert(prefixed(payload)->Ok_0 + Seq::<u8>::empty() =~= prefixed(payload)->Ok_0);
}

/// A string is read alike alone and with bytes behind it, and reads back as
/// itself.
proof fn lemma_text_framed(v: Json, rest: Seq<u8>)
    requires
        encode_text_spec(v) is Ok,
    ensures
        framed(
            decode_text_spec(encode_text_spec(v)->Ok_0),
            decode_text_spec(encode_text_spec(v)->Ok_0 + rest),
            encode_text_spec(v)->Ok_0,
        ),
        decode_text_spec(encode_text_spec(v)->Ok_0)->Ok_0.0 == v,
{
    let payload = v->Str_0;
    law_prefixed_round_trip(payload, rest);
    law_prefixed_round_trip(payload, Seq::empty());
    assert(prefixed(payload)->Ok_0 + Seq::<u8>::empty() =~= prefixed(payload)->Ok_0);
}

/// A name is read alike alone and with bytes behind it.
proof fn lemma_name_framed(v: Json, rest: Seq<u8>)
    requires
        encode_name_spec(v) is Ok,
    ensures
        framed(
            decode_name_spec(encode_name_spec(v)->Ok_0),
            decode_name_spec(encode_name_spec(v)->Ok_0 + rest),
            encode_name_spec(v)->Ok_0,
        ),
{
    let bytes = encode_name_spec(v)->Ok_0;
    let n = crate::name::string_to_name_spec(v->Str_0)->Ok_0;
    lemma_le_bytes(n as nat, 8);
    assert((bytes + rest).take(8) =~= bytes);
    assert(bytes.take(8) =~= bytes);
}

/// A symbol code is read alike alone and with bytes behind it.
proof fn lemma_symbol_code_framed(v: Json, rest: Seq<u8>)
    requires
        encode_symbol_code_spec(v) is Ok,
    ensures
        framed(
            decode_symbol_code_spec(encode_symbol_code_spec(v)->Ok_0),
            decode_symbol_code_spec(encode_symbol_code_spec(v)->Ok_0 + rest),
            encode_symbol_code_spec(v)->Ok_0,
        ),
{
    let bytes = encode_symbol_code_spec(v)->Ok_0;
    assert(bytes.len() == 8);
    assert((bytes + rest).take(8) =~= bytes);
    assert(bytes.take(8) =~= bytes);
}

/// A symbol is read alike alone and with bytes behind it.
proof fn lemma_symbol_framed(v: Json, rest: Seq<u8>)
    requires
        encode_symbol_spec(v) is Ok,
    ensures
        framed(
            decode_symbol_spec(encode_symbol_spec(v)->Ok_0),
            decode_symbol_spec(encode_symbol_spec(v)->Ok_0 + rest),
            encode_symbol_spec(v)->Ok_0,
        ),
{
    let bytes = encode_symbol_spec(v)->Ok_0;
    assert(bytes.len() == 8);
    assert((bytes + rest).subrange(1, 8) =~= bytes.subrange(1, 8));
}

/// An asset is read alike alone and with bytes behind it.
proof fn lemma_asset_framed(v: Json, rest: Seq<u8>)
    requires
        encode_asset_spec(v) is Ok,
    ensures
        framed(
            decode_asset_spec(encode_asset_spec(v)->Ok_0),
            decode_asset_spec(encode_asset_spec(v)->Ok_0 + rest),
            encode_asset_spec(v)->Ok_0,
        ),
{
    let bytes = encode_asset_spec(v)->Ok_0;
    let parts = asset_parts(v->Str_0)->Some_0;
    crate::number::lemma_pow256_positive(8);
    lemma_le_bytes((parts.0 % pow256(8) as int) as nat, 8);
    assert(bytes.len() == 16);
    assert((bytes + rest).take(8) =~= bytes.take(8));
    assert((bytes + rest).subrange(9, 16) =~= bytes.subrange(9, 16));
}

/// A time in microseconds is read alike alone and with bytes behind it.
proof fn lemma_time_point_framed(v: Json, rest: Seq<u8>)
    requires
        encode_time_point_spec(v) is Ok,
    ensures
        framed(
            decode_time_point_spec(encode_time_point_spec(v)->Ok_0),
            decode_time_point_spec(encode_time_point_spec(v)->Ok_0 + rest),
            encode_time_point_spec(v)->Ok_0,
        ),
{
    let bytes = encode_time_point_spec(v)->Ok_0;
    let t = json_time(v)->Some_0;
    lemma_le_bytes((t.0 * 1000000 + t.1) as nat, 8);
    assert((bytes + rest).take(8) =~= bytes);
    assert(bytes.take(8) =~= bytes);
}

/// A time in seconds is read alike alone and with bytes behind it.
proof fn lemma_time_point_sec_framed(v: Json, rest: Seq<u8>)
    requires
        encode_time_point_sec_spec(v) is Ok,
    ensures
        framed(
            decode_time_point_sec_spec(encode_time_point_sec_spec(v)->Ok_0),
            decode_time_point_sec_spec(encode_time_point_sec_spec(v)->Ok_0 + rest),
            encode_time_point_sec_spec(v)->Ok_0,
        ),
{
    let bytes = encode_time_point_sec_spec(v)->Ok_0;
    let t = json_time(v)->Some_0;
    lemma_le_bytes(t.0 as nat, 4);
    assert((bytes + rest).take(4) =~= bytes);
    assert(bytes.take(4) =~= bytes);
}

/// A time in half seconds is read alike alone and with bytes behind it.
proof fn lemma_block_timestamp_framed(v: Json, rest: Seq<u8>)
    requires
        encode_block_timestamp_spec(v) is Ok,
    ensures
        framed(
            decode_block_timestamp_spec(encode_block_timestamp_spec(v)->Ok_0),
            decode_block_timestamp_spec(encode_block_timestamp_spec(v)->Ok_0 + rest),
            encode_block_timestamp_spec(v)->Ok_0,
        ),
{
    let bytes = encode_block_timestamp_spec(v)->Ok_0;
    let t = json_time(v)->Some_0;
    let millis = t.0 * 1000 + t.1 / 1000;
    lemma_le_bytes(((millis - block_epoch_millis()) / 500) as nat, 4);
    assert((bytes + rest).take(4) =~= bytes);
    assert(bytes.take(4) =~= bytes);
}

/// The binary form of a value under a built-in type reads back as the
/// value's canonical form and is used up, whatever follows it.
pub proof fn lemma_builtin_framed(b: Builtin, v: Json, rest: Seq<u8>)
    requires
        encode_builtin_spec(b, v) is Ok,
    ensures
        decode_builtin_spec(b, encode_builtin_spec(b, v)->Ok_0 + rest) == Ok::<(Json, nat), ErrorKind>(
            (canon_builtin(b, v), encode_builtin_spec(b, v)->Ok_0.len()),
        ),
{
    reveal(encode_builtin_spec);
    reveal(decode_builtin_spec);
    match b {
        Builtin::Bool => {},
        Builtin::Int8 => lemma_int_framed(v, 1, true, rest),
        Builtin::Uint8 => lemma_int_framed(v, 1, false, rest),
        Builtin::Int16 => lemma_int_framed(v, 2, true, rest),
        Builtin::Uint16 => lemma_int_framed(v, 2, false, rest),
        Builtin::Int32 => lemma_int_framed(v, 4, true, rest),
        Builtin::Uint32 => lemma_int_framed(v, 4, false, rest),
        Builtin::Int64 => lemma_int_framed(v, 8, true, rest),
        Builtin::Uint64 => lemma_int_framed(v, 8, false, rest),
        Builtin::Int128 => lemma_int_framed(v, 16, true, rest),
        Builtin::Uint128 => lemma_int_framed(v, 16, false, rest),
        Builtin::Varuint32 => lemma_varuint_framed(v, rest),
        Builtin::Varint32 => lemma_varint_framed(v, rest),
        Builtin::Float32 => lemma_blob_framed(v, 4, rest),
        Builtin::Float64 => lemma_blob_framed(v, 8, rest),
        Builtin::Float128 => lemma_blob_framed(v, 16, rest),
        Builtin::TimePoint => lemma_time_point_framed(v, rest),
        Builtin::TimePointSec => lemma_time_point_sec_framed(v, rest),
        Builtin::BlockTimestamp => lemma_block_timestamp_framed(v, rest),
        Builtin::Name => lemma_name_framed(v, rest),
        Builtin::Bytes => lemma_bytes_framed(v, rest),
        Builtin::Text => lemma_text_framed(v, rest),
        Builtin::Checksum160 => lemma_blob_framed(v, 20, rest),
        Builtin::Checksum256 => lemma_blob_framed(v, 32, rest),
        Builtin::Checksum512 => lemma_blob_framed(v, 64, rest),
        Builtin::PublicKey => lemma_blob_framed(v, 34, rest),
        Builtin::Signature => lemma_blob_framed(v, 66, rest),
        Builtin::SymbolCode => lemma_symbol_code_framed(v, rest),
        Builtin::Symbol => lemma_symbol_framed(v, rest),
        Builtin::Asset => lemma_asset_framed(v, rest),
    }
}

/// The width in bytes of a fixed-width integer type, and whether it is signed.
pub open spec fn int_kind(b: Builtin) -> Option<(nat, bool)> {
    match b {
        Builtin::Int8 => Some((1, true)),
        Builtin::Uint8 => Some((1, false)),
        Builtin::Int16 => Some((2, true)),
        Builtin::Uint16 => Some((2, false)),
        Builtin::Int32 => Some((4, true)),
        Builtin::Uint32 => Some((4, false)),
        Builtin::Int64 => Some((8, true)),
        Builtin::Uint64 => Some((8, false)),
        Builtin::Int128 => Some((16, true)),
        Builtin::Uint128 => Some((16, false)),
        _ => None,
    }
}

/// The size in bytes of a type that is a fixed-size byte array.
pub open spec fn blob_size(b: Builtin) -> Option<nat> {
    match b {
        Builtin::Float32 => Some(4),
        Builtin::Float64 => Some(8),
        Builtin::Float128 => Some(16),
        Builtin::Checksum160 => Some(20),
        Builtin::Checksum256 => Some(32),
        Builtin::Checksum512 => Some(64),
        Builtin::PublicKey => Some(34),
        Builtin::Signature => Some(66),
        _ => None,
    }
}

/// The canonical form of an integer: the integer that the value writes, as a
/// number up to 32 bits and as a string of decimal digits beyond.
pub proof fn law_canonical_integer(b: Builtin, v: Json)
    requires
        int_kind(b) is Some,
        encode_builtin_spec(b, v) is Ok,
    ensures
        json_integer(
            v,
            int_kind(b)->Some_0.0 > 4,
            crate::number::int_min(int_kind(b)->Some_0.0, int_kind(b)->Some_0.1),
            crate::number::int_max(int_kind(b)->Some_0.0, int_kind(b)->Some_0.1),
        ) is Some,
        canon_builtin(b, v) == int_json(
            json_integer(
                v,
                int_kind(b)->Some_0.0 > 4,
                crate::number::int_min(int_kind(b)->Some_0.0, int_kind(b)->Some_0.1),
                crate::number::int_max(int_kind(b)->Some_0.0, int_kind(b)->Some_0.1),
            )->Some_0,
            int_kind(b)->Some_0.0,
        ),
{
    reveal(encode_builtin_spec);
    reveal(decode_builtin_spec);
    let w = int_kind(b)->Some_0.0;
    let is_signed = int_kind(b)->Some_0.1;
    let x = json_integer(v, w > 4, crate::number::int_min(w, is_signed), crate::number::int_max(w, is_signed))->Some_0;
    crate::number::law_int_round_trip(x, w, is_signed);
    let bytes = int_bytes(x, w);
    assert(bytes.take(w as int) =~= bytes);
}

/// The canonical form of a variable-length integer: the integer that the
/// value writes, as a number.
pub proof fn law_canonical_varint(v: Json)
    ensures
        encode_builtin_spec(Builtin::Varuint32, v) is Ok ==> canon_builtin(Builtin::Varuint32, v) == Json::Number(
            crate::number::decimal_text(json_integer(v, false, 0, u32::MAX as int)->Some_0),
        ),
        encode_builtin_spec(Builtin::Varint32, v) is Ok ==> canon_builtin(Builtin::Varint32, v) == Json::Number(
            crate::number::decimal_text(json_integer(v, false, i32::MIN as int, i32::MAX as int)->Some_0),
        ),
{
    reveal(encode_builtin_spec);
    reveal(decode_builtin_spec);
    if encode_builtin_spec(Builtin::Varuint32, v) is Ok {
        let x = json_integer(v, false, 0, u32::MAX as int)->Some_0;
        law_varuint32_round_trip(x as nat, Seq::empty());
        assert(varuint_bytes(x as nat) + Seq::<u8>::empty() =~= varuint_bytes(x as nat));
    }
    if encode_builtin_spec(Builtin::Varint32, v) is Ok {
        let x = json_integer(v, false, i32::MIN as int, i32::MAX as int)->Some_0;
        law_varuint32_round_trip(zigzag(x), Seq::empty());
        assert(varuint_bytes(zigzag(x)) + Seq::<u8>::empty() =~= varuint_bytes(zigzag(x)));
        crate::varint::law_zigzag_round_trip(x);
    }
}

/// A boolean and a string are their own canonical forms.
pub proof fn law_canonical_bool_and_string(v: Json)
    ensures
        encode_builtin_spec(Builtin::Bool, v) is Ok ==> canon_builtin(Builtin::Bool, v) == v,
        encode_builtin_spec(Builtin::Text, v) is Ok ==> canon_builtin(Builtin::Text, v) == v,
{
    reveal(encode_builtin_spec);
    reveal(decode_builtin_spec);
    if encode_builtin_spec(Builtin::Text, v) is Ok {
        lemma_text_framed(v, Seq::empty());
    }
}

/// The canonical form of a byte string or of a fixed-size byte array: its
/// bytes in upper-case hexadecimal digits.
pub proof fn law_canonical_bytes(b: Builtin, v: Json)
    requires
        b == Builtin::Bytes || blob_size(b) is Some,
        encode_builtin_spec(b, v) is Ok,
    ensures
        json_hex(v) is Some,
        canon_builtin(b, v) == Json::Str(crate::hex::hex_text(json_hex(v)->Some_0)),
{
    reveal(encode_builtin_spec);
    reveal(decode_builtin_spec);
    let payload = json_hex(v)->Some_0;
    if b == Builtin::Bytes {
        law_prefixed_round_trip(payload, Seq::empty());
        assert(prefixed(payload)->Ok_0 + Seq::<u8>::empty() =~= prefixed(payload)->Ok_0);
    } else {
        assert(payload.take(payload.len() as int) =~= payload);
    }
}

/// The canonical form of a name: the canonical string of its value, which is
/// the string without its trailing dots where a thirteenth symbol fits four
/// bits.
pub proof fn law_canonical_name(v: Json)
    requires
        encode_builtin_spec(Builtin::Name, v) is Ok,
    ensures
        v is Str,
        canon_builtin(Builtin::Name, v) == Json::Str(
            crate::name::name_text(crate::name::name_value(v->Str_0)),
        ),
        (v->Str_0.len() == 13 ==> crate::name::symbol_at(v->Str_0, 12) < 16) ==> canon_builtin(Builtin::Name, v)
            == Json::Str(crate::name::strip_dots(v->Str_0)),
{
    reveal(encode_builtin_spec);
    reveal(decode_builtin_spec);
    let s = v->Str_0;
    crate::name::lemma_name_value_bound(s);
    let n = crate::name::name_value(s);
    lemma_le_bytes(n, 8);
    crate::number::lemma_pow256_values();
    vstd::arithmetic::div_mod::lemma_small_mod(n, pow256(8));
    let bytes = crate::number::le_bytes(n, 8);
    assert(bytes.take(8) =~= bytes);
    if s.len() == 13 ==> crate::name::symbol_at(s, 12) < 16 {
        crate::name::law_name_round_trip(s);
    }
}

/// A symbol code is its own canonical form.
pub proof fn law_canonical_symbol_code(v: Json)
    requires
        encode_builtin_spec(Builtin::SymbolCode, v) is Ok,
    ensures
        canon_builtin(Builtin::SymbolCode, v) == v,
{
    reveal(encode_builtin_spec);
    reveal(decode_builtin_spec);
    let code = v->Str_0;
    let bytes = crate::asset::code_bytes(code) + seq![0u8];
    crate::asset::lemma_code_round_trip(code);
    assert(bytes.take(8) =~= bytes);
}

/// The canonical form of a symbol: its precision in decimal digits without
/// leading zeros, a comma, and its code.
pub proof fn law_canonical_symbol(v: Json)
    requires
        encode_builtin_spec(Builtin::Symbol, v) is Ok,
    ensures
        v is Str,
        crate::asset::symbol_parts(v->Str_0) is Some,
        canon_builtin(Builtin::Symbol, v) == Json::Str(
            crate::number::digits_of(crate::asset::symbol_parts(v->Str_0)->Some_0.0) + seq![44u8]
                + crate::asset::symbol_parts(v->Str_0)->Some_0.1,
        ),
{
    reveal(encode_builtin_spec);
    reveal(decode_builtin_spec);
    let parts = crate::asset::symbol_parts(v->Str_0)->Some_0;
    let bytes = seq![parts.0 as u8] + crate::asset::code_bytes(parts.1);
    crate::asset::lemma_code_round_trip(parts.1);
    assert(bytes.subrange(1, 8) =~= crate::asset::code_bytes(parts.1));
    assert(bytes[0] as nat == parts.0);
}

/// The canonical form of an asset: its amount with as many decimal places as
/// it was given with, a space, and its code.
pub proof fn law_canonical_asset(v: Json)
    requires
        encode_builtin_spec(Builtin::Asset, v) is Ok,
    ensures
        v is Str,
        asset_parts(v->Str_0) is Some,
        canon_builtin(Builtin::Asset, v) == Json::Str(
            crate::asset::amount_text(asset_parts(v->Str_0)->Some_0.0, asset_parts(v->Str_0)->Some_0.1) + seq![
                32u8,
            ] + asset_parts(v->Str_0)->Some_0.2,
        ),
{
    reveal(encode_builtin_spec);
    reveal(decode_builtin_spec);
    let parts = asset_parts(v->Str_0)->Some_0;
    let head = int_bytes(parts.0, 8);
    let bytes = head + seq![parts.1 as u8] + crate::asset::code_bytes(parts.2);
    crate::number::lemma_pow256_values();
    crate::number::law_int_round_trip(parts.0, 8, true);
    crate::asset::lemma_code_round_trip(parts.2);
    assert(bytes.take(8) =~= head);
    assert(bytes[8] as nat == parts.1);
    assert(bytes.subrange(9, 16) =~= crate::asset::code_bytes(parts.2));
}

/// A time text writes seconds that are not negative and microseconds below
/// a million.
pub proof fn lemma_time_parts(t: Seq<u8>)
    requires
        crate::time::parse_time(t) is Some,
    ensures
        crate::time::parse_time(t)->Some_0.0 >= 0,
        0 <= crate::time::parse_time(t)->Some_0.1 < 1000000,
{
    let dash = crate::asset::index_of(t, 45);
    let r = t.skip(dash);
    let f = r.skip(15);
    if f.len() > 0 {
        crate::time::lemma_digits_bound(f.skip(1));
        reveal_with_fuel(crate::time::pow10, 8);
        let k = f.len() - 1;
        assert(crate::number::digits_value(f.skip(1)) * crate::time::fraction_scale(k) < crate::time::pow10(k as nat) * crate::time::fraction_scale(k)) by (nonlinear_arith)
            requires
                crate::number::digits_value(f.skip(1)) < crate::time::pow10(k as nat),
                crate::time::fraction_scale(k) > 0,
        ;
    }
}

/// The canonical form of a `time_point`: the text of the instant that the
/// value writes, to the millisecond.
pub proof fn law_canonical_time_point(v: Json)
    requires
        encode_builtin_spec(Builtin::TimePoint, v) is Ok,
    ensures
        json_time(v) is Some,
        canon_builtin(Builtin::TimePoint, v) == Json::Str(
            crate::time::time_text(json_time(v)->Some_0.0, json_time(v)->Some_0.1 / 1000),
        ),
{
    reveal(encode_builtin_spec);
    reveal(decode_builtin_spec);
    let t = json_time(v)->Some_0;
    lemma_time_parts(v->Str_0);
    crate::number::lemma_pow256_values();
    let n = (t.0 * 1000000 + t.1) as nat;
    let bytes = crate::number::le_bytes(n, 8);
    lemma_le_bytes(n, 8);
    vstd::arithmetic::div_mod::lemma_small_mod(n, pow256(8));
    assert(bytes.take(8) =~= bytes);
    assert(crate::number::le_value(bytes.take(8)) == n);
    assert(n as int / 1000000 == t.0 && n as int % 1000000 == t.1) by {
        vstd::arithmetic::div_mod::lemma_fundamental_div_mod_converse(n as int, 1000000, t.0, t.1);
    }
}

/// The canonical form of a `time_point_sec`: the text of the instant that
/// the value writes, to the second.
pub proof fn law_canonical_time_point_sec(v: Json)
    requires
        encode_builtin_spec(Builtin::TimePointSec, v) is Ok,
    ensures
        json_time(v) is Some,
        canon_builtin(Builtin::TimePointSec, v) == Json::Str(crate::time::time_text(json_time(v)->Some_0.0, 0)),
{
    reveal(encode_builtin_spec);
    reveal(decode_builtin_spec);
    let t = json_time(v)->Some_0;
    lemma_time_parts(v->Str_0);
    crate::number::lemma_pow256_values();
    let n = t.0 as nat;
    let bytes = crate::number::le_bytes(n, 4);
    lemma_le_bytes(n, 4);
    vstd::arithmetic::div_mod::lemma_small_mod(n, pow256(4));
    assert(bytes.take(4) =~= bytes);
}

/// The half second, in milliseconds since 1970, in which an instant given in
/// seconds and microseconds falls.
pub open spec fn half_second(seconds: int, micros: int) -> int {
    (seconds * 1000 + micros / 1000) / 500 * 500
}

/// Counting half seconds from 2000 and back gives the half second.
proof fn lemma_half_second(millis: int)
    requires
        millis >= 946684800000,
    ensures
        (millis - 946684800000) / 500 * 500 + 946684800000 == millis / 500 * 500,
{
    let q = millis / 500;
    let r = millis % 500;
    vstd::arithmetic::div_mod::lemma_fundamental_div_mod_converse(millis - 946684800000, 500, q - 1893369600, r);
}

/// The canonical form of a `block_timestamp_type`: the text of the half
/// second in which the instant that the value writes falls.
pub proof fn law_canonical_block_timestamp(v: Json)
    requires
        encode_builtin_spec(Builtin::BlockTimestamp, v) is Ok,
    ensures
        json_time(v) is Some,
        canon_builtin(Builtin::BlockTimestamp, v) == Json::Str(
            crate::time::time_text(
                half_second(json_time(v)->Some_0.0, json_time(v)->Some_0.1) / 1000,
                half_second(json_time(v)->Some_0.0, json_time(v)->Some_0.1) % 1000,
            ),
        ),
{
    reveal(encode_builtin_spec);
    reveal(decode_builtin_spec);
    let t = json_time(v)->Some_0;
    lemma_time_parts(v->Str_0);
    crate::number::lemma_pow256_values();
    let millis = t.0 * 1000 + t.1 / 1000;
    let slot = ((millis - block_epoch_millis()) / 500) as nat;
    let bytes = crate::number::le_bytes(slot, 4);
    lemma_le_bytes(slot, 4);
    vstd::arithmetic::div_mod::lemma_small_mod(slot, pow256(4));
    assert(bytes.take(4) =~= bytes);
    assert(crate::number::le_value(bytes.take(4)) == slot);
    lemma_half_second(millis);
    assert(slot * 500 + block_epoch_millis() == half_second(t.0, t.1));
}

} // verus!
