use crate::abi::AbiModel;
use crate::asset::{amount_text, code_text, letters, zero_pad};
use crate::codec::{
    decode_array_spec, decode_builtin_spec, decode_fields_spec, decode_items_spec, decode_object_spec,
    decode_optional_spec, decode_spec, decode_struct_spec, decode_variant_spec,
};
use crate::extract::{
    abi_of_json, array_at, binding_of, bindings_of, pair_of, pairs_of, string_at, string_of_item, strings_of,
    struct_of, structs_of, variant_of, variants_of,
};
use crate::hex::hex_text;
use crate::json::{lookup, Json};
use crate::name::{lemma_strip_shape, name_chars, name_text};
use crate::number::{decimal_text, digits_of, lemma_digits_of};
use crate::resolve::{lemma_resolved_bounds, resolved, Builtin, Shape, MAX_ALIAS_DEPTH};
use crate::time::{civil_from_days, lemma_day_bounds, three_digits, time_text, two_digits};
use crate::print::{entries_text, escaped, escaped_byte, items_text, json_text, quoted};
use crate::text::lemma_ascii_is_utf8;
use vstd::prelude::*;
use vstd::utf8::{
    is_char_boundary, length_of_first_scalar, pop_first_scalar, valid_utf8, valid_utf8_concat, valid_utf8_split,
};

verus! {

/// Every byte is below 128.
pub open spec fn ascii(s: Seq<u8>) -> bool {
    forall|i: int| 0 <= i < s.len() ==> #[trigger] s[i] < 128
}

/// Bytes below 128 behind bytes below 128 are bytes below 128.
pub proof fn lemma_ascii_concat(a: Seq<u8>, b: Seq<u8>)
    requires
        ascii(a),
        ascii(b),
    ensures
        ascii(a + b),
{
    assert forall|i: int| 0 <= i < (a + b).len() implies #[trigger] (a + b)[i] < 128 by {
        if i < a.len() {
            assert((a + b)[i] == a[i]);
        } else {
            assert((a + b)[i] == b[i - a.len()]);
        }
    }
}

/// Bytes below 128 are well-formed UTF-8.
pub proof fn lemma_ascii_valid(s: Seq<u8>)
    requires
        ascii(s),
    ensures
        valid_utf8(s),
{
    lemma_ascii_is_utf8(s);
}

/// A JSON value whose strings, number texts and object keys are all
/// well-formed UTF-8.
pub open spec fn utf8_json(v: Json) -> bool
    decreases v,
{
    match v {
        Json::Null => true,
        Json::Bool(_) => true,
        Json::Number(t) => valid_utf8(t),
        Json::Str(s) => valid_utf8(s),
        Json::Array(items) => forall|i: int| 0 <= i < items.len() ==> utf8_json(#[trigger] items[i]),
        Json::Object(entries) => forall|i: int|
            0 <= i < entries.len() ==> valid_utf8((#[trigger] entries[i]).0) && utf8_json(entries[i].1),
    }
}

/// Escaping what stands behind `from` in two strings put together is
/// escaping each.
proof fn lemma_escaped_concat(a: Seq<u8>, b: Seq<u8>, from: int)
    requires
        0 <= from <= a.len(),
    ensures
        escaped(a + b, from) == escaped(a, from) + escaped(b, 0),
    decreases a.len() - from,
{
    if from < a.len() {
        lemma_escaped_concat(a, b, from + 1);
        assert((a + b)[from] == a[from]);
        assert(escaped_byte(a[from]) + (escaped(a, from + 1) + escaped(b, 0)) =~= (escaped_byte(a[from]) + escaped(
            a,
            from + 1,
        )) + escaped(b, 0));
    } else {
        lemma_escaped_shift(a, b, 0);
        assert(escaped(a, from) + escaped(b, 0) =~= escaped(b, 0));
    }
}

/// Escaping what stands behind a place of the second of two strings put
/// together is escaping it in the second alone.
proof fn lemma_escaped_shift(a: Seq<u8>, b: Seq<u8>, k: int)
    requires
        0 <= k,
    ensures
        escaped(a + b, a.len() + k) == escaped(b, k),
    decreases b.len() - k,
{
    if k < b.len() {
        lemma_escaped_shift(a, b, k + 1);
        assert((a + b)[a.len() + k] == b[k]);
    }
}

/// Escaping bytes that are all 128 or above changes nothing.
proof fn lemma_escaped_high(s: Seq<u8>, from: int)
    requires
        0 <= from <= s.len(),
        forall|i: int| 0 <= i < s.len() ==> #[trigger] s[i] >= 128,
    ensures
        escaped(s, from) == s.skip(from),
    decreases s.len() - from,
{
    if from < s.len() {
        lemma_escaped_high(s, from + 1);
        assert(s[from] >= 128);
        assert(seq![s[from]] + s.skip(from + 1) =~= s.skip(from));
    } else {
        assert(s.skip(from) =~= Seq::<u8>::empty());
    }
}

/// Escaping keeps well-formed UTF-8 well-formed.
pub proof fn lemma_escaped_valid(s: Seq<u8>)
    requires
        valid_utf8(s),
    ensures
        valid_utf8(escaped(s, 0)),
    decreases s.len(),
{
    if s.len() > 0 {
        let n = length_of_first_scalar(s);
        let head = s.subrange(0, n);
        let tail = pop_first_scalar(s);
        assert(1 <= n <= 4 && n <= s.len());
        assert(s =~= head + tail);
        assert(is_char_boundary(s, n)) by {
            reveal_with_fuel(is_char_boundary, 2);
        }
        valid_utf8_split(s, n);
        lemma_escaped_valid(tail);
        lemma_escaped_concat(head, tail, 0);
        if n == 1 {
            assert(head[0] == s[0]);
            assert(ascii(escaped_byte(head[0]))) by {
                let d = head[0];
                assert(crate::hex::hex_digit((d / 16) as nat) < 128);
                assert(crate::hex::hex_digit((d % 16) as nat) < 128);
            }
            assert(escaped(head, 0) =~= escaped_byte(head[0])) by {
                reveal_with_fuel(escaped, 3);
            }
            lemma_ascii_valid(escaped(head, 0));
        } else {
            assert forall|i: int| 0 <= i < head.len() implies #[trigger] head[i] >= 128 by {
                assert(head[i] == s[i]);
            }
            lemma_escaped_high(head, 0);
            assert(head.skip(0) =~= head);
        }
        valid_utf8_concat(escaped(head, 0), escaped(tail, 0));
    } else {
        assert(escaped(s, 0) =~= Seq::<u8>::empty());
    }
}

/// A well-formed string between quotes, escaped, is well-formed.
pub proof fn lemma_quoted_valid(s: Seq<u8>)
    requires
        valid_utf8(s),
    ensures
        valid_utf8(quoted(s)),
{
    lemma_escaped_valid(s);
    lemma_ascii_valid(seq![34u8]);
    valid_utf8_concat(seq![34u8], escaped(s, 0));
    valid_utf8_concat(seq![34u8] + escaped(s, 0), seq![34u8]);
}

/// The JSON text of a value whose strings are well-formed UTF-8 is
/// well-formed UTF-8.
pub proof fn lemma_json_text_valid(v: Json)
    requires
        utf8_json(v),
    ensures
        valid_utf8(json_text(v)),
    decreases v, 0nat,
{
    match v {
        Json::Null => {
            lemma_ascii_valid(json_text(v));
        },
        Json::Bool(_) => {
            lemma_ascii_valid(json_text(v));
        },
        Json::Number(_) => {},
        Json::Str(s) => {
            lemma_quoted_valid(s);
        },
        Json::Array(items) => {
            lemma_items_text_valid(items, 0);
            lemma_ascii_valid(seq![91u8]);
            lemma_ascii_valid(seq![93u8]);
            valid_utf8_concat(seq![91u8], items_text(items, 0));
            valid_utf8_concat(seq![91u8] + items_text(items, 0), seq![93u8]);
        },
        Json::Object(entries) => {
            lemma_entries_text_valid(entries, 0);
            lemma_ascii_valid(seq![123u8]);
            lemma_ascii_valid(seq![125u8]);
            valid_utf8_concat(seq![123u8], entries_text(entries, 0));
            valid_utf8_concat(seq![123u8] + entries_text(entries, 0), seq![125u8]);
        },
    }
}

/// The text of items whose strings are well-formed UTF-8 is well-formed.
proof fn lemma_items_text_valid(items: Seq<Json>, from: int)
    requires
        0 <= from,
        forall|i: int| 0 <= i < items.len() ==> utf8_json(#[trigger] items[i]),
    ensures
        valid_utf8(items_text(items, from)),
    decreases items, items.len() - from,
{
    if from < items.len() {
        lemma_json_text_valid(items[from]);
        lemma_items_text_valid(items, from + 1);
        let comma = if from > 0 {
            seq![44u8]
        } else {
            Seq::<u8>::empty()
        };
        lemma_ascii_valid(comma);
        valid_utf8_concat(comma, json_text(items[from]));
        valid_utf8_concat(comma + json_text(items[from]), items_text(items, from + 1));
    }
}

/// The text of entries whose keys and strings are well-formed UTF-8 is
/// well-formed.
proof fn lemma_entries_text_valid(entries: Seq<(Seq<u8>, Json)>, from: int)
    requires
        0 <= from,
        forall|i: int|
            0 <= i < entries.len() ==> valid_utf8((#[trigger] entries[i]).0) && utf8_json(entries[i].1),
    ensures
        valid_utf8(entries_text(entries, from)),
    decreases entries, entries.len() - from,
{
    if from < entries.len() {
        assert(valid_utf8(entries[from].0) && utf8_json(entries[from].1));
        lemma_json_text_valid(entries[from].1);
        lemma_entries_text_valid(entries, from + 1);
        lemma_quoted_valid(entries[from].0);
        let comma = if from > 0 {
            seq![44u8]
        } else {
            Seq::<u8>::empty()
        };
        lemma_ascii_valid(comma);
        lemma_ascii_valid(seq![58u8]);
        let a = comma + quoted(entries[from].0);
        valid_utf8_concat(comma, quoted(entries[from].0));
        valid_utf8_concat(a, seq![58u8]);
        valid_utf8_concat(a + seq![58u8], json_text(entries[from].1));
        valid_utf8_concat(a + seq![58u8] + json_text(entries[from].1), entries_text(entries, from + 1));
    }
}

/// A part of bytes below 128 holds bytes below 128.
proof fn lemma_ascii_part(s: Seq<u8>, from: int, to: int)
    requires
        ascii(s),
        0 <= from <= to <= s.len(),
    ensures
        ascii(s.subrange(from, to)),
{
    assert forall|i: int| 0 <= i < to - from implies #[trigger] s.subrange(from, to)[i] < 128 by {
        assert(s.subrange(from, to)[i] == s[from + i]);
    }
}

/// The decimal digits of a number are bytes below 128.
proof fn lemma_digits_ascii(n: nat)
    ensures
        ascii(digits_of(n)),
{
    lemma_digits_of(n);
}

/// The decimal text of an integer holds bytes below 128.
proof fn lemma_decimal_ascii(x: int)
    ensures
        ascii(decimal_text(x)),
{
    if x < 0 {
        lemma_digits_ascii((-x) as nat);
        lemma_ascii_concat(seq![45u8], digits_of((-x) as nat));
    } else {
        lemma_digits_ascii(x as nat);
    }
}

/// Hexadecimal text holds bytes below 128.
proof fn lemma_hex_ascii(bytes: Seq<u8>)
    ensures
        ascii(hex_text(bytes)),
{
    assert forall|i: int| 0 <= i < hex_text(bytes).len() implies #[trigger] hex_text(bytes)[i] < 128 by {
        let b = bytes[i / 2];
        assert(b / 16 < 16 && b % 16 < 16);
    }
}

/// The canonical string of a name holds bytes below 128.
proof fn lemma_name_ascii(n: nat)
    ensures
        ascii(name_text(n)),
{
    let full = name_chars(n);
    lemma_strip_shape(full);
    assert forall|i: int| 0 <= i < name_text(n).len() implies #[trigger] name_text(n)[i] < 128 by {
        assert(name_text(n)[i] == full[i]);
    }
}

/// The capital letters at the front of bytes are that many of the bytes.
proof fn lemma_letters_are_letters(s: Seq<u8>)
    ensures
        0 <= letters(s) <= s.len(),
        forall|i: int| 0 <= i < letters(s) ==> 65 <= #[trigger] s[i] <= 90,
    decreases s.len(),
{
    if s.len() > 0 && 65 <= s[0] <= 90 {
        lemma_letters_are_letters(s.drop_first());
        assert forall|i: int| 0 <= i < letters(s) implies 65 <= #[trigger] s[i] <= 90 by {
            if i > 0 {
                assert(s.drop_first()[i - 1] == s[i]);
            }
        }
    }
}

/// The text of a symbol code holds bytes below 128.
proof fn lemma_code_ascii(bytes: Seq<u8>)
    ensures
        ascii(code_text(bytes)),
{
    lemma_letters_are_letters(bytes);
    assert forall|i: int| 0 <= i < code_text(bytes).len() implies #[trigger] code_text(bytes)[i] < 128 by {
        assert(code_text(bytes)[i] == bytes[i]);
    }
}

/// The text of an amount holds bytes below 128.
proof fn lemma_amount_ascii(amount: int, precision: nat)
    ensures
        ascii(amount_text(amount, precision)),
{
    let magnitude = if amount < 0 {
        (-amount) as nat
    } else {
        amount as nat
    };
    lemma_digits_ascii(magnitude);
    lemma_digits_of(magnitude);
    let ds = zero_pad(digits_of(magnitude), precision + 1);
    assert(ascii(ds)) by {
        if digits_of(magnitude).len() < precision + 1 {
            let pad = Seq::new((precision + 1 - digits_of(magnitude).len()) as nat, |i: int| 48u8);
            lemma_ascii_concat(pad, digits_of(magnitude));
        }
    }
    assert(ds.len() >= precision + 1);
    let sign = if amount < 0 {
        seq![45u8]
    } else {
        Seq::<u8>::empty()
    };
    let whole = ds.take(ds.len() - precision);
    lemma_ascii_part(ds, 0, ds.len() - precision);
    lemma_ascii_part(ds, ds.len() - precision, ds.len() as int);
    lemma_ascii_concat(sign, whole);
    if precision > 0 {
        lemma_ascii_concat(sign + whole, seq![46u8]);
        lemma_ascii_concat(sign + whole + seq![46u8], ds.skip(ds.len() - precision));
    }
}

/// The text of a time that is not before 1970 holds bytes below 128.
proof fn lemma_time_ascii(seconds: int, millis: int)
    requires
        seconds >= 0,
        0 <= millis <= 999,
    ensures
        ascii(time_text(seconds, millis)),
{
    let z = seconds / 86400;
    let date = civil_from_days(z);
    let secs = seconds % 86400;
    lemma_day_bounds((z + 719468) % 146097);
    assert(1 <= date.1 <= 12);
    assert(1 <= date.2 <= 31);
    lemma_digits_ascii(date.0 as nat);
    let year = zero_pad(digits_of(date.0 as nat), 4);
    assert(ascii(year)) by {
        if digits_of(date.0 as nat).len() < 4 {
            let pad = Seq::new((4 - digits_of(date.0 as nat).len()) as nat, |i: int| 48u8);
            lemma_ascii_concat(pad, digits_of(date.0 as nat));
        }
    }
    assert(ascii(two_digits(date.1)));
    assert(ascii(two_digits(date.2)));
    assert(ascii(two_digits(secs / 3600)));
    assert(ascii(two_digits(secs % 3600 / 60)));
    assert(ascii(two_digits(secs % 60)));
    assert(ascii(three_digits(millis)));
    let a1 = year + seq![45u8];
    lemma_ascii_concat(year, seq![45u8]);
    let a2 = a1 + two_digits(date.1);
    lemma_ascii_concat(a1, two_digits(date.1));
    let a3 = a2 + seq![45u8];
    lemma_ascii_concat(a2, seq![45u8]);
    let a4 = a3 + two_digits(date.2);
    lemma_ascii_concat(a3, two_digits(date.2));
    let a5 = a4 + seq![84u8];
    lemma_ascii_concat(a4, seq![84u8]);
    let a6 = a5 + two_digits(secs / 3600);
    lemma_ascii_concat(a5, two_digits(secs / 3600));
    let a7 = a6 + seq![58u8];
    lemma_ascii_concat(a6, seq![58u8]);
    let a8 = a7 + two_digits(secs % 3600 / 60);
    lemma_ascii_concat(a7, two_digits(secs % 3600 / 60));
    let a9 = a8 + seq![58u8];
    lemma_ascii_concat(a8, seq![58u8]);
    let a10 = a9 + two_digits(secs % 60);
    lemma_ascii_concat(a9, two_digits(secs % 60));
    let a11 = a10 + seq![46u8];
    lemma_ascii_concat(a10, seq![46u8]);
    lemma_ascii_concat(a11, three_digits(millis));
}

/// What is read under a built-in type holds nothing but well-formed UTF-8.
pub proof fn lemma_builtin_utf8(b: Builtin, input: Seq<u8>)
    requires
        decode_builtin_spec(b, input) is Ok,
    ensures
        utf8_json(decode_builtin_spec(b, input)->Ok_0.0),
{
    reveal(decode_builtin_spec);
    let v = decode_builtin_spec(b, input)->Ok_0.0;
    match v {
        Json::Number(t) => {
            assert(ascii(t)) by {
                lemma_number_ascii(b, input);
            }
            lemma_ascii_valid(t);
        },
        Json::Str(t) => {
            if b != Builtin::Text {
                assert(ascii(t)) by {
                    lemma_string_ascii(b, input);
                }
                lemma_ascii_valid(t);
            }
        },
        _ => {},
    }
}

/// A number read under a built-in type holds bytes below 128.
proof fn lemma_number_ascii(b: Builtin, input: Seq<u8>)
    requires
        decode_builtin_spec(b, input) is Ok,
        decode_builtin_spec(b, input)->Ok_0.0 is Number,
    ensures
        ascii(decode_builtin_spec(b, input)->Ok_0.0->Number_0),
{
    reveal(decode_builtin_spec);
    match b {
        Builtin::Int8 => lemma_decimal_ascii(crate::number::signed_value(input.take(1))),
        Builtin::Uint8 => lemma_decimal_ascii(crate::number::le_value(input.take(1)) as int),
        Builtin::Int16 => lemma_decimal_ascii(crate::number::signed_value(input.take(2))),
        Builtin::Uint16 => lemma_decimal_ascii(crate::number::le_value(input.take(2)) as int),
        Builtin::Int32 => lemma_decimal_ascii(crate::number::signed_value(input.take(4))),
        Builtin::Uint32 => lemma_decimal_ascii(crate::number::le_value(input.take(4)) as int),
        Builtin::Varuint32 => lemma_decimal_ascii(crate::varint::varuint32_read(input)->Ok_0.0 as int),
        Builtin::Varint32 => lemma_decimal_ascii(
            crate::varint::unzigzag(crate::varint::varuint32_read(input)->Ok_0.0),
        ),
        _ => {},
    }
}

/// A string read under a built-in type other than `string` holds bytes
/// below 128.
proof fn lemma_string_ascii(b: Builtin, input: Seq<u8>)
    requires
        b != Builtin::Text,
        decode_builtin_spec(b, input) is Ok,
        decode_builtin_spec(b, input)->Ok_0.0 is Str,
    ensures
        ascii(decode_builtin_spec(b, input)->Ok_0.0->Str_0),
{
    reveal(decode_builtin_spec);
    match b {
        Builtin::Int64 => lemma_decimal_ascii(crate::number::signed_value(input.take(8))),
        Builtin::Uint64 => lemma_decimal_ascii(crate::number::le_value(input.take(8)) as int),
        Builtin::Int128 => lemma_decimal_ascii(crate::number::signed_value(input.take(16))),
        Builtin::Uint128 => lemma_decimal_ascii(crate::number::le_value(input.take(16)) as int),
        Builtin::Float32 => lemma_hex_ascii(input.take(4)),
        Builtin::Float64 => lemma_hex_ascii(input.take(8)),
        Builtin::Float128 => lemma_hex_ascii(input.take(16)),
        Builtin::Checksum160 => lemma_hex_ascii(input.take(20)),
        Builtin::Checksum256 => lemma_hex_ascii(input.take(32)),
        Builtin::Checksum512 => lemma_hex_ascii(input.take(64)),
        Builtin::PublicKey => lemma_hex_ascii(input.take(34)),
        Builtin::Signature => lemma_hex_ascii(input.take(66)),
        Builtin::Bytes => lemma_hex_ascii(crate::primitive::read_prefixed(input)->Ok_0.0),
        Builtin::Name => lemma_name_ascii(crate::number::le_value(input.take(8))),
        Builtin::SymbolCode => lemma_code_ascii(input.take(8)),
        Builtin::Symbol => {
            lemma_digits_ascii(input[0] as nat);
            lemma_code_ascii(input.subrange(1, 8));
            lemma_ascii_concat(digits_of(input[0] as nat), seq![44u8]);
            lemma_ascii_concat(digits_of(input[0] as nat) + seq![44u8], code_text(input.subrange(1, 8)));
        },
        Builtin::Asset => {
            let amount = amount_text(crate::number::signed_value(input.take(8)), input[8] as nat);
            lemma_amount_ascii(crate::number::signed_value(input.take(8)), input[8] as nat);
            lemma_code_ascii(input.subrange(9, 16));
            lemma_ascii_concat(amount, seq![32u8]);
            lemma_ascii_concat(amount + seq![32u8], code_text(input.subrange(9, 16)));
        },
        Builtin::TimePoint => {
            let micros = crate::number::le_value(input.take(8)) as int;
            lemma_time_ascii(micros / 1000000, micros % 1000000 / 1000);
        },
        Builtin::TimePointSec => {
            lemma_time_ascii(crate::number::le_value(input.take(4)) as int, 0);
        },
        Builtin::BlockTimestamp => {
            let millis = crate::number::le_value(input.take(4)) * 500 + crate::time::block_epoch_millis();
            lemma_time_ascii(millis / 1000, millis % 1000);
        },
        _ => {},
    }
}

/// Entries whose keys, strings and number texts are all well-formed UTF-8.
pub open spec fn utf8_entries(entries: Seq<(Seq<u8>, Json)>) -> bool {
    forall|i: int| 0 <= i < entries.len() ==> valid_utf8((#[trigger] entries[i]).0) && utf8_json(entries[i].1)
}

/// Names all of which are well-formed UTF-8.
pub open spec fn utf8_names(names: Seq<Seq<u8>>) -> bool {
    forall|i: int| 0 <= i < names.len() ==> valid_utf8(#[trigger] names[i])
}

/// Fields whose names are all well-formed UTF-8.
pub open spec fn utf8_fields(fields: Seq<(Seq<u8>, Seq<u8>)>) -> bool {
    forall|i: int| 0 <= i < fields.len() ==> valid_utf8((#[trigger] fields[i]).0)
}

/// A document whose field names and variant member names are all
/// well-formed UTF-8: the names that decoding puts into JSON values.
pub open spec fn utf8_abi(abi: AbiModel) -> bool {
    &&& forall|i: int| 0 <= i < abi.structs.len() ==> utf8_fields((#[trigger] abi.structs[i]).fields)
    &&& forall|i: int| 0 <= i < abi.variants.len() ==> utf8_names((#[trigger] abi.variants[i]).1)
}

/// Entries behind entries are well-formed where both are.
proof fn lemma_utf8_entries_concat(a: Seq<(Seq<u8>, Json)>, b: Seq<(Seq<u8>, Json)>)
    requires
        utf8_entries(a),
        utf8_entries(b),
    ensures
        utf8_entries(a + b),
{
    assert forall|i: int| 0 <= i < (a + b).len() implies valid_utf8((#[trigger] (a + b)[i]).0) && utf8_json(
        (a + b)[i].1,
    ) by {
        if i < a.len() {
            assert((a + b)[i] == a[i]);
        } else {
            assert((a + b)[i] == b[i - a.len()]);
        }
    }
}

/// What is read under a type of a document with well-formed names holds
/// nothing but well-formed UTF-8.
pub proof fn lemma_decode_utf8(abi: AbiModel, expr: Seq<u8>, input: Seq<u8>, depth: nat)
    requires
        utf8_abi(abi),
        decode_spec(abi, expr, input, depth) is Ok,
    ensures
        utf8_json(decode_spec(abi, expr, input, depth)->Ok_0.0),
    decreases depth, 0nat, 0nat,
{
    let d = (depth - 1) as nat;
    lemma_resolved_bounds(abi, expr, MAX_ALIAS_DEPTH as nat);
    match resolved(abi, expr) {
        Err(_) => {},
        Ok(Shape::Builtin(b)) => {
            assert(decode_spec(abi, expr, input, depth) == decode_builtin_spec(b, input));
            lemma_builtin_utf8(b, input);
        },
        Ok(Shape::Optional(inner)) => {
            assert(decode_spec(abi, expr, input, depth) == decode_optional_spec(abi, inner, input, d));
            if input[0] != 0 {
                lemma_decode_utf8(abi, inner, input.skip(1), d);
            }
        },
        Ok(Shape::Extension(inner)) => {
            assert(decode_spec(abi, expr, input, depth) == decode_spec(abi, inner, input, d));
            lemma_decode_utf8(abi, inner, input, d);
        },
        Ok(Shape::Array(inner)) => {
            assert(decode_spec(abi, expr, input, depth) == decode_array_spec(abi, inner, input, d));
            let head = crate::varint::varuint32_read(input)->Ok_0;
            lemma_decode_items_utf8(abi, inner, input.skip(head.1 as int), head.0, d);
        },
        Ok(Shape::Struct(i)) => {
            assert(decode_spec(abi, expr, input, depth) == decode_object_spec(abi, i, input, d));
            lemma_decode_struct_utf8(abi, i, input, d);
        },
        Ok(Shape::Variant(i)) => {
            assert(decode_spec(abi, expr, input, depth) == decode_variant_spec(abi, i, input, d));
            let head = crate::varint::varuint32_read(input)->Ok_0;
            let member = abi.variants[i].1[head.0 as int];
            assert(utf8_names(abi.variants[i].1));
            assert(valid_utf8(member));
            lemma_decode_utf8(abi, member, input.skip(head.1 as int), d);
            let inner = decode_spec(abi, member, input.skip(head.1 as int), d)->Ok_0.0;
            let pair = seq![Json::Str(member), inner];
            assert(decode_spec(abi, expr, input, depth)->Ok_0.0 == Json::Array(pair));
            assert forall|k: int| 0 <= k < pair.len() implies utf8_json(#[trigger] pair[k]) by {
                if k == 0 {
                } else {
                    assert(pair[k] == inner);
                }
            }
        },
    }
}

/// The items read under a type of a document with well-formed names hold
/// nothing but well-formed UTF-8.
proof fn lemma_decode_items_utf8(abi: AbiModel, inner: Seq<u8>, input: Seq<u8>, count: nat, depth: nat)
    requires
        utf8_abi(abi),
        decode_items_spec(abi, inner, input, count, depth) is Ok,
    ensures
        forall|i: int|
            0 <= i < decode_items_spec(abi, inner, input, count, depth)->Ok_0.0.len() ==> utf8_json(
                #[trigger] decode_items_spec(abi, inner, input, count, depth)->Ok_0.0[i],
            ),
    decreases depth, 1nat, count,
{
    if count > 0 {
        let first = decode_spec(abi, inner, input, depth)->Ok_0;
        lemma_decode_utf8(abi, inner, input, depth);
        lemma_decode_items_utf8(abi, inner, input.skip(first.1 as int), (count - 1) as nat, depth);
        let rest = decode_items_spec(abi, inner, input.skip(first.1 as int), (count - 1) as nat, depth)->Ok_0.0;
        let all = decode_items_spec(abi, inner, input, count, depth)->Ok_0.0;
        assert(all == seq![first.0] + rest);
        assert forall|i: int| 0 <= i < all.len() implies utf8_json(#[trigger] all[i]) by {
            if i == 0 {
                assert(all[0] == first.0);
            } else {
                assert(all[i] == rest[i - 1]);
            }
        }
    }
}

/// The entries read under a struct of a document with well-formed names
/// hold nothing but well-formed UTF-8.
proof fn lemma_decode_struct_utf8(abi: AbiModel, index: int, input: Seq<u8>, depth: nat)
    requires
        utf8_abi(abi),
        0 <= index < abi.structs.len(),
        decode_struct_spec(abi, index, input, depth) is Ok,
    ensures
        utf8_entries(decode_struct_spec(abi, index, input, depth)->Ok_0.0),
    decreases depth, 2nat, 0nat,
{
    let def = abi.structs[index];
    assert(utf8_fields(def.fields));
    if def.base.len() == 0 {
        lemma_decode_fields_utf8(abi, def.fields, 0, input.skip(0), false, depth);
        let own = decode_fields_spec(abi, def.fields, 0, input.skip(0), false, depth)->Ok_0.0;
        lemma_utf8_entries_concat(Seq::empty(), own);
    } else {
        lemma_resolved_bounds(abi, def.base, MAX_ALIAS_DEPTH as nat);
        match resolved(abi, def.base) {
            Ok(Shape::Struct(j)) => {
                lemma_decode_struct_utf8(abi, j, input, (depth - 1) as nat);
                let base = decode_struct_spec(abi, j, input, (depth - 1) as nat)->Ok_0;
                lemma_decode_fields_utf8(abi, def.fields, 0, input.skip(base.1 as int), base.2, depth);
                let own = decode_fields_spec(abi, def.fields, 0, input.skip(base.1 as int), base.2, depth)->Ok_0.0;
                lemma_utf8_entries_concat(base.0, own);
            },
            _ => {},
        }
    }
}

/// The entries read under the fields from `from` on hold nothing but
/// well-formed UTF-8.
proof fn lemma_decode_fields_utf8(
    abi: AbiModel,
    fields: Seq<(Seq<u8>, Seq<u8>)>,
    from: int,
    input: Seq<u8>,
    stopped: bool,
    depth: nat,
)
    requires
        utf8_abi(abi),
        utf8_fields(fields),
        0 <= from,
        decode_fields_spec(abi, fields, from, input, stopped, depth) is Ok,
    ensures
        utf8_entries(decode_fields_spec(abi, fields, from, input, stopped, depth)->Ok_0.0),
    decreases depth, 1nat, fields.len() - from,
{
    let all = decode_fields_spec(abi, fields, from, input, stopped, depth)->Ok_0.0;
    if from < fields.len() && !stopped && all.len() > 0 {
        let field = fields[from];
        assert(valid_utf8(field.0));
        let first = decode_spec(abi, field.1, input, depth)->Ok_0;
        lemma_decode_utf8(abi, field.1, input, depth);
        lemma_decode_fields_utf8(abi, fields, from + 1, input.skip(first.1 as int), false, depth);
        let rest = decode_fields_spec(abi, fields, from + 1, input.skip(first.1 as int), false, depth)->Ok_0.0;
        let one = seq![(field.0, first.0)];
        assert(utf8_entries(one)) by {
            assert forall|i: int| 0 <= i < one.len() implies valid_utf8((#[trigger] one[i]).0) && utf8_json(
                one[i].1,
            ) by {
                assert(one[i] == (field.0, first.0));
            }
        }
        lemma_utf8_entries_concat(one, rest);
    }
}

/// Well-formed output: under a document whose field names and variant
/// member names are well-formed UTF-8, the JSON text of every value that the
/// binary form of a type holds is well-formed UTF-8.
pub proof fn law_decoded_text_is_utf8(abi: AbiModel, expr: Seq<u8>, input: Seq<u8>)
    requires
        utf8_abi(abi),
        crate::codec::bin_to_json_spec(abi, expr, input) is Ok,
    ensures
        valid_utf8(json_text(crate::codec::bin_to_json_spec(abi, expr, input)->Ok_0)),
{
    lemma_decode_utf8(abi, expr, input, crate::codec::MAX_DEPTH as nat);
    lemma_json_text_valid(crate::codec::bin_to_json_spec(abi, expr, input)->Ok_0);
}

/// Pairs of strings both of which are well-formed UTF-8.
pub open spec fn utf8_pairs(pairs: Seq<(Seq<u8>, Seq<u8>)>) -> bool {
    forall|i: int| 0 <= i < pairs.len() ==> valid_utf8((#[trigger] pairs[i]).0) && valid_utf8(pairs[i].1)
}

/// Bindings whose type names are well-formed UTF-8.
pub open spec fn utf8_bindings(bindings: Seq<(u64, Seq<u8>)>) -> bool {
    forall|i: int| 0 <= i < bindings.len() ==> valid_utf8((#[trigger] bindings[i]).1)
}

/// A document all of whose names and type names are well-formed UTF-8.
pub open spec fn utf8_document(abi: AbiModel) -> bool {
    &&& valid_utf8(abi.version)
    &&& utf8_pairs(abi.types)
    &&& forall|i: int|
        0 <= i < abi.structs.len() ==> valid_utf8((#[trigger] abi.structs[i]).name) && valid_utf8(
            abi.structs[i].base,
        ) && utf8_pairs(abi.structs[i].fields)
    &&& forall|i: int|
        0 <= i < abi.variants.len() ==> valid_utf8((#[trigger] abi.variants[i]).0) && utf8_names(
            abi.variants[i].1,
        )
    &&& utf8_bindings(abi.actions)
    &&& utf8_bindings(abi.tables)
    &&& utf8_bindings(abi.action_results)
}

/// What stands under a key of well-formed entries is well-formed.
proof fn lemma_lookup_utf8(entries: Seq<(Seq<u8>, Json)>, key: Seq<u8>)
    requires
        utf8_entries(entries),
    ensures
        lookup(entries, key) matches Some(x) ==> utf8_json(x),
        string_at(entries, key) matches Some(s) ==> valid_utf8(s),
        array_at(entries, key) matches Some(items) ==> utf8_json(Json::Array(items)),
{
    crate::laws::lemma_lookup_entry(entries, key);
    match lookup(entries, key) {
        Some(x) => {
            let i = choose|i: int| 0 <= i < entries.len() && entries[i] == (key, x);
            assert(utf8_json(entries[i].1));
        },
        None => {},
    }
}

/// An item of a well-formed array is well-formed.
proof fn lemma_array_item_utf8(list: Seq<Json>, i: int)
    requires
        utf8_json(Json::Array(list)),
        0 <= i < list.len(),
    ensures
        utf8_json(list[i]),
{
    let v = Json::Array(list);
    match v {
        Json::Array(items) => {
            assert(items == list);
            assert(forall|k: int| 0 <= k < items.len() ==> utf8_json(#[trigger] items[k]));
        },
        _ => {},
    }
}

/// The two strings under two keys of a well-formed object are well-formed.
proof fn lemma_pair_utf8(item: Json, first: Seq<u8>, second: Seq<u8>)
    requires
        utf8_json(item),
    ensures
        pair_of(item, first, second) matches Some(p) ==> valid_utf8(p.0) && valid_utf8(p.1),
{
    if item is Object {
        lemma_lookup_utf8(item->Object_0, first);
        lemma_lookup_utf8(item->Object_0, second);
    }
}

/// The pairs of strings of well-formed items are well-formed.
proof fn lemma_pairs_utf8(items: Option<Seq<Json>>, first: Seq<u8>, second: Seq<u8>)
    requires
        items matches Some(list) ==> utf8_json(Json::Array(list)),
    ensures
        pairs_of(items, first, second) matches Some(pairs) ==> utf8_pairs(pairs),
{
    if pairs_of(items, first, second) is Some {
        let list = items->Some_0;
        let pairs = pairs_of(items, first, second)->Some_0;
        assert forall|i: int| 0 <= i < pairs.len() implies valid_utf8((#[trigger] pairs[i]).0) && valid_utf8(
            pairs[i].1,
        ) by {
            lemma_array_item_utf8(list, i);
            lemma_pair_utf8(list[i], first, second);
            assert(pair_of(list[i], first, second) is Some);
        }
    }
}

/// The strings that well-formed items are, are well-formed.
proof fn lemma_strings_utf8(items: Option<Seq<Json>>)
    requires
        items matches Some(list) ==> utf8_json(Json::Array(list)),
    ensures
        strings_of(items) matches Some(names) ==> utf8_names(names),
{
    if strings_of(items) is Some {
        let list = items->Some_0;
        let names = strings_of(items)->Some_0;
        assert forall|i: int| 0 <= i < names.len() implies valid_utf8(#[trigger] names[i]) by {
            lemma_array_item_utf8(list, i);
            assert(string_of_item(list[i]) is Some);
        }
    }
}

/// The bindings of well-formed items have well-formed type names.
proof fn lemma_bindings_utf8(items: Option<Seq<Json>>, type_key: Seq<u8>)
    requires
        items matches Some(list) ==> utf8_json(Json::Array(list)),
    ensures
        bindings_of(items, type_key) matches Some(bindings) ==> utf8_bindings(bindings),
{
    if bindings_of(items, type_key) is Some {
        let list = items->Some_0;
        let bindings = bindings_of(items, type_key)->Some_0;
        assert forall|i: int| 0 <= i < bindings.len() implies valid_utf8((#[trigger] bindings[i]).1) by {
            lemma_array_item_utf8(list, i);
            assert(binding_of(list[i], type_key) is Some);
            lemma_pair_utf8(list[i], vstd::string::StringSliceAdditionalSpecFns::spec_bytes("name"), type_key);
        }
    }
}

/// The struct definitions of well-formed items are well-formed.
proof fn lemma_structs_utf8(items: Option<Seq<Json>>)
    requires
        items matches Some(list) ==> utf8_json(Json::Array(list)),
    ensures
        structs_of(items) matches Some(structs) ==> forall|i: int|
            0 <= i < structs.len() ==> valid_utf8((#[trigger] structs[i]).name) && valid_utf8(structs[i].base)
                && utf8_pairs(structs[i].fields),
{
    if structs_of(items) is Some {
        let list = items->Some_0;
        let structs = structs_of(items)->Some_0;
        assert forall|i: int| 0 <= i < structs.len() implies valid_utf8((#[trigger] structs[i]).name)
            && valid_utf8(structs[i].base) && utf8_pairs(structs[i].fields) by {
            lemma_array_item_utf8(list, i);
            assert(struct_of(list[i]) is Some);
            let entries = list[i]->Object_0;
            let key_name = vstd::string::StringSliceAdditionalSpecFns::spec_bytes("name");
            let key_base = vstd::string::StringSliceAdditionalSpecFns::spec_bytes("base");
            let key_fields = vstd::string::StringSliceAdditionalSpecFns::spec_bytes("fields");
            let key_type = vstd::string::StringSliceAdditionalSpecFns::spec_bytes("type");
            lemma_lookup_utf8(entries, key_name);
            lemma_lookup_utf8(entries, key_base);
            lemma_lookup_utf8(entries, key_fields);
            lemma_pairs_utf8(array_at(entries, key_fields), key_name, key_type);
        }
    }
}

/// The variant definitions of well-formed items are well-formed.
proof fn lemma_variants_utf8(items: Option<Seq<Json>>)
    requires
        items matches Some(list) ==> utf8_json(Json::Array(list)),
    ensures
        variants_of(items) matches Some(variants) ==> forall|i: int|
            0 <= i < variants.len() ==> valid_utf8((#[trigger] variants[i]).0) && utf8_names(variants[i].1),
{
    if variants_of(items) is Some {
        let list = items->Some_0;
        let variants = variants_of(items)->Some_0;
        assert forall|i: int| 0 <= i < variants.len() implies valid_utf8((#[trigger] variants[i]).0)
            && utf8_names(variants[i].1) by {
            lemma_array_item_utf8(list, i);
            assert(variant_of(list[i]) is Some);
            let entries = list[i]->Object_0;
            let key_name = vstd::string::StringSliceAdditionalSpecFns::spec_bytes("name");
            let key_types = vstd::string::StringSliceAdditionalSpecFns::spec_bytes("types");
            lemma_lookup_utf8(entries, key_name);
            lemma_lookup_utf8(entries, key_types);
            lemma_strings_utf8(array_at(entries, key_types));
        }
    }
}

/// The document that a well-formed JSON value writes has well-formed names
/// and type names.
pub proof fn lemma_document_utf8(v: Json)
    requires
        utf8_json(v),
        abi_of_json(v) is Some,
    ensures
        utf8_document(abi_of_json(v)->Some_0),
{
    let entries = v->Object_0;
    let key = |text: &str| vstd::string::StringSliceAdditionalSpecFns::spec_bytes(text);
    lemma_lookup_utf8(entries, key("version"));
    lemma_lookup_utf8(entries, key("types"));
    lemma_lookup_utf8(entries, key("structs"));
    lemma_lookup_utf8(entries, key("variants"));
    lemma_lookup_utf8(entries, key("actions"));
    lemma_lookup_utf8(entries, key("tables"));
    lemma_lookup_utf8(entries, key("action_results"));
    lemma_pairs_utf8(array_at(entries, key("types")), key("new_type_name"), key("type"));
    lemma_structs_utf8(array_at(entries, key("structs")));
    lemma_variants_utf8(array_at(entries, key("variants")));
    lemma_bindings_utf8(array_at(entries, key("actions")), key("type"));
    lemma_bindings_utf8(array_at(entries, key("tables")), key("type"));
    lemma_bindings_utf8(array_at(entries, key("action_results")), key("result_type"));
}

/// A document with well-formed names and type names has the well-formed
/// names that decoding puts into JSON values.
pub proof fn lemma_document_names(abi: AbiModel)
    requires
        utf8_document(abi),
    ensures
        utf8_abi(abi),
{
    assert forall|i: int| 0 <= i < abi.structs.len() implies utf8_fields((#[trigger] abi.structs[i]).fields) by {
        assert(utf8_pairs(abi.structs[i].fields));
    }
}

/// The fields of a struct of the schema of ABI documents have well-formed
/// names.
proof fn lemma_plain_utf8(name: &str, fields: Seq<(&str, &str)>)
    ensures
        utf8_fields(crate::meta::plain(name, fields).fields),
{
    let models = crate::meta::plain(name, fields).fields;
    assert forall|i: int| 0 <= i < models.len() implies valid_utf8((#[trigger] models[i]).0) by {
        vstd::utf8::encode_utf8_valid_utf8(fields[i].0@);
    }
}

/// The schema of ABI documents has well-formed names.
pub proof fn lemma_meta_utf8()
    ensures
        utf8_abi(crate::meta::meta_model()),
{
    let structs = crate::meta::meta_structs();
    assert forall|i: int| 0 <= i < structs.len() implies utf8_fields((#[trigger] structs[i]).fields) by {
        lemma_plain_utf8("extensions_entry", seq![("tag", "uint16"), ("value", "bytes")]);
        lemma_plain_utf8("type_def", seq![("new_type_name", "string"), ("type", "string")]);
        lemma_plain_utf8("field_def", seq![("name", "string"), ("type", "string")]);
        lemma_plain_utf8("struct_def", seq![("name", "string"), ("base", "string"), ("fields", "field_def[]")]);
        lemma_plain_utf8(
            "action_def",
            seq![("name", "name"), ("type", "string"), ("ricardian_contract", "string")],
        );
        lemma_plain_utf8(
            "table_def",
            seq![
                ("name", "name"),
                ("index_type", "string"),
                ("key_names", "string[]"),
                ("key_types", "string[]"),
                ("type", "string"),
            ],
        );
        lemma_plain_utf8("clause_pair", seq![("id", "string"), ("body", "string")]);
        lemma_plain_utf8("error_message", seq![("error_code", "uint64"), ("error_msg", "string")]);
        lemma_plain_utf8("variant_def", seq![("name", "string"), ("types", "string[]")]);
        lemma_plain_utf8("action_result_def", seq![("name", "name"), ("result_type", "string")]);
        lemma_plain_utf8(
            "abi_def",
            seq![
                ("version", "string"),
                ("types", "type_def[]"),
                ("structs", "struct_def[]"),
                ("actions", "action_def[]"),
                ("tables", "table_def[]"),
                ("ricardian_clauses", "clause_pair[]"),
                ("error_messages", "error_message[]"),
                ("abi_extensions", "extensions_entry[]"),
                ("variants", "variant_def[]$"),
                ("action_results", "action_result_def[]$"),
            ],
        );
    }
}

/// Well-formed ABI text: the JSON text of every ABI document that a binary
/// form holds is well-formed UTF-8.
pub proof fn law_abi_text_is_utf8(bytes: Seq<u8>)
    requires
        crate::registry::abi_bin_to_json_spec(bytes) is Ok,
    ensures
        valid_utf8(json_text(crate::registry::abi_bin_to_json_spec(bytes)->Ok_0)),
{
    lemma_meta_utf8();
    law_decoded_text_is_utf8(
        crate::meta::meta_model(),
        vstd::string::StringSliceAdditionalSpecFns::spec_bytes("abi_def"),
        bytes,
    );
}

/// Well-formed documents: every ABI document that is read from a binary
/// form, and so every one that is registered from a binary, hexadecimal or
/// JSON form, has names and type names that are well-formed UTF-8.
pub proof fn law_abi_of_binary_is_utf8(bytes: Seq<u8>)
    requires
        crate::registry::abi_of_binary(bytes) is Some,
    ensures
        utf8_document(crate::registry::abi_of_binary(bytes)->Some_0),
        utf8_abi(crate::registry::abi_of_binary(bytes)->Some_0),
{
    lemma_meta_utf8();
    let v = crate::registry::abi_bin_to_json_spec(bytes)->Ok_0;
    lemma_decode_utf8(
        crate::meta::meta_model(),
        vstd::string::StringSliceAdditionalSpecFns::spec_bytes("abi_def"),
        bytes,
        crate::codec::MAX_DEPTH as nat,
    );
    lemma_document_utf8(v);
    lemma_document_names(crate::registry::abi_of_binary(bytes)->Some_0);
}

/// The same for a document read from a JSON form, which is read by way of
/// its binary form.
pub proof fn law_abi_of_value_is_utf8(v: Json)
    requires
        crate::registry::abi_of_value(v) is Some,
    ensures
        utf8_document(crate::registry::abi_of_value(v)->Some_0),
        utf8_abi(crate::registry::abi_of_value(v)->Some_0),
{
    law_abi_of_binary_is_utf8(crate::registry::abi_json_to_bin_spec(v)->Ok_0);
}

/// The type name of a binding of well-formed bindings is well-formed.
proof fn lemma_binding_utf8(bindings: Seq<(u64, Seq<u8>)>, name: u64, from: int)
    requires
        utf8_bindings(bindings),
        0 <= from,
    ensures
        crate::abi::find_binding(bindings, name, from) matches Some(t) ==> valid_utf8(t),
    decreases bindings.len() - from,
{
    if from < bindings.len() {
        assert(valid_utf8(bindings[from].1));
        lemma_binding_utf8(bindings, name, from + 1);
    }
}

/// Well-formed lookups: under a registered document whose names and type
/// names are well-formed UTF-8, the lookup of the type of an action, of a
/// table or of an action result never fails for want of UTF-8; it gives the
/// bound type name, or says that the name is not bound.
pub proof fn law_bound_types_are_utf8(abieos: crate::abieos::Abieos, contract: u64, name: u64)
    requires
        abieos.abi_of(contract) is Some,
        utf8_document(abieos.abi_of(contract)->Some_0),
    ensures
        abieos.action_type(contract, name) == abieos.context->Some_0.action_type_spec(contract, name),
        abieos.table_type(contract, name) == abieos.context->Some_0.table_type_spec(contract, name),
        abieos.action_result_type(contract, name) == abieos.context->Some_0.action_result_type_spec(
            contract,
            name,
        ),
{
    let abi = abieos.abi_of(contract)->Some_0;
    lemma_binding_utf8(abi.actions, name, 0);
    lemma_binding_utf8(abi.tables, name, 0);
    lemma_binding_utf8(abi.action_results, name, 0);
}

/// Well-formed conversions: under a registered document whose field names
/// and variant member names are well-formed UTF-8, turning a binary form into
/// JSON text never fails for want of UTF-8; it gives the text of the value
/// that the bytes hold, or the error of reading them.
pub proof fn law_json_of_bin_is_utf8(abieos: crate::abieos::Abieos, contract: u64, datatype: Seq<u8>, bytes: Seq<u8>)
    requires
        abieos.abi_of(contract) is Some,
        utf8_abi(abieos.abi_of(contract)->Some_0),
    ensures
        abieos.json_of_bin(contract, datatype, Some(bytes)) == match abieos.context->Some_0.to_json_spec(
            contract,
            datatype,
            bytes,
        ) {
            Ok(v) => Ok::<Seq<u8>, crate::error::ErrorKind>(json_text(v)),
            Err(e) => Err(e),
        },
{
    let abi = abieos.abi_of(contract)->Some_0;
    if crate::codec::bin_to_json_spec(abi, datatype, bytes) is Ok {
        law_decoded_text_is_utf8(abi, datatype, bytes);
    }
}

} // verus!
