use crate::error::ErrorKind;
use crate::hex::{hex_decode, hex_decode_spec, hex_encode, hex_text};
use crate::json::{Json, JsonValue};
use crate::name::{name_text, name_to_bytes, string_to_name, string_to_name_spec};
use crate::number::{
    decimal_spec, decimal_text, format_decimal, get_int, get_le, int_bytes, int_max, int_min, le_bytes, le_value,
    lemma_le_value, lemma_pow256_values, max_magnitude, parse_decimal, put_int, put_le, signed, signed_value,
};
use crate::varint::{get_varuint, put_varuint, unzigzag, varuint32_read, varuint_bytes, zigzag};
use vstd::prelude::*;
use vstd::utf8::valid_utf8;

verus! {

/// How an appending encoder's outcome matches what the encoding should be:
/// on success the bytes were appended, on failure the same error is reported.
pub open spec fn appended(
    before: Seq<u8>,
    after: Seq<u8>,
    r: Result<(), ErrorKind>,
    expected: Result<Seq<u8>, ErrorKind>,
) -> bool {
    match expected {
        Ok(bytes) => r is Ok && after =~= before + bytes,
        Err(e) => r == Err::<(), ErrorKind>(e),
    }
}

/// How a decoder's outcome at `pos` matches what decoding should give: on
/// success the same value and the position after the bytes used, on failure
/// the same error.
pub open spec fn decoded(
    r: Result<(JsonValue, usize), ErrorKind>,
    pos: usize,
    expected: Result<(Json, nat), ErrorKind>,
) -> bool {
    match expected {
        Ok((value, used)) => match r {
            Ok((v, next)) => v@ == value && next == pos + used,
            Err(_) => false,
        },
        Err(e) => match r {
            Ok(_) => false,
            Err(x) => x == e,
        },
    }
}

/// The text of a JSON number and, where `quoted` allows it, of a JSON string
/// that may hold one.
pub open spec fn lexeme_of(v: Json, quoted: bool) -> Option<Seq<u8>> {
    match v {
        Json::Number(t) => Some(t),
        Json::Str(t) => if quoted {
            Some(t)
        } else {
            None
        },
        _ => None,
    }
}

/// Whether an integer of `w` bytes may be given as a JSON string of digits:
/// those beyond 32 bits, whose JSON form is such a string.
pub open spec fn is_quoted(w: nat) -> bool {
    w > 4
}

/// The integer that a JSON value writes, if it is one within the range: a
/// JSON number, or, where `quoted` allows it, a JSON string of digits.
pub open spec fn json_integer(v: Json, quoted: bool, lo: int, hi: int) -> Option<int> {
    match lexeme_of(v, quoted) {
        Some(t) => match decimal_spec(t) {
            Some(x) => if lo <= x <= hi {
                Some(x)
            } else {
                None
            },
            None => None,
        },
        None => None,
    }
}

/// A fixed-width integer: a decimal JSON number within the type's range, or,
/// beyond 32 bits, a JSON string holding one, as `w` bytes, least significant
/// first, in two's complement.
pub open spec fn encode_int_spec(v: Json, w: nat, is_signed: bool) -> Result<Seq<u8>, ErrorKind> {
    match json_integer(v, is_quoted(w), int_min(w, is_signed), int_max(w, is_signed)) {
        Some(x) => Ok(int_bytes(x, w)),
        None => Err(ErrorKind::FieldTypeMismatch),
    }
}

/// The JSON form of an integer of `w` bytes: a number up to 32 bits, a string
/// of decimal digits beyond.
pub open spec fn int_json(x: int, w: nat) -> Json {
    if is_quoted(w) {
        Json::Str(decimal_text(x))
    } else {
        Json::Number(decimal_text(x))
    }
}

/// Reads a fixed-width integer from the front of `input`.
pub open spec fn decode_int_spec(input: Seq<u8>, w: nat, is_signed: bool) -> Result<(Json, nat), ErrorKind> {
    if input.len() < w {
        Err(ErrorKind::TruncatedInput)
    } else if is_signed {
        Ok((int_json(signed_value(input.take(w as int)), w), w))
    } else {
        Ok((int_json(le_value(input.take(w as int)) as int, w), w))
    }
}

/// The text of a JSON number or string.
fn lexeme<'a>(v: &'a JsonValue, quoted: bool) -> (r: Option<&'a Vec<u8>>)
    ensures
        match r {
            Some(t) => lexeme_of(v@, quoted) == Some(t@),
            None => lexeme_of(v@, quoted) is None,
        },
{
    match v {
        JsonValue::Number(t) => Some(t),
        JsonValue::Str(t) => if quoted {
            Some(t)
        } else {
            None
        },
        _ => None,
    }
}

/// The text of a JSON string.
pub fn string_of<'a>(v: &'a JsonValue) -> (r: Option<&'a Vec<u8>>)
    ensures
        match r {
            Some(t) => v@ == Json::Str(t@),
            None => !(v@ is Str),
        },
{
    match v {
        JsonValue::Str(t) => Some(t),
        _ => None,
    }
}

/// Reads a JSON value as an integer within a range given by the magnitudes of
/// its ends: the sign and the magnitude.
pub fn integer_of(v: &JsonValue, quoted: bool, min_magnitude: u128, max_magnitude: u128) -> (r: Option<
    (bool, u128),
>)
    ensures
        match r {
            Some((negative, magnitude)) => json_integer(v@, quoted, -(min_magnitude as int), max_magnitude as int) == Some(
                signed(negative, magnitude as nat),
            ) && (negative ==> magnitude > 0),
            None => json_integer(v@, quoted, -(min_magnitude as int), max_magnitude as int) is None,
        },
{
    let t = match lexeme(v, quoted) {
        Some(t) => t,
        None => {
            return None;
        },
    };
    match parse_decimal(t.as_slice()) {
        Some((negative, magnitude)) => {
            if negative && magnitude > 0 {
                if magnitude <= min_magnitude {
                    Some((true, magnitude))
                } else {
                    None
                }
            } else if magnitude <= max_magnitude {
                Some((false, magnitude))
            } else {
                None
            }
        },
        None => None,
    }
}

/// Appends a fixed-width integer read from a JSON value.
pub fn encode_int(out: &mut Vec<u8>, v: &JsonValue, w: usize, is_signed: bool) -> (r: Result<(), ErrorKind>)
    requires
        w == 1 || w == 2 || w == 4 || w == 8 || w == 16,
    ensures
        appended(old(out)@, final(out)@, r, encode_int_spec(v@, w as nat, is_signed)),
{
    let hi = max_magnitude(w, is_signed);
    proof {
        lemma_pow256_values();
    }
    let lo = if is_signed {
        hi + 1
    } else {
        0
    };
    match integer_of(v, w > 4, lo, hi) {
        Some((negative, magnitude)) => {
            put_int(out, negative, magnitude, w);
            Ok(())
        },
        None => Err(ErrorKind::FieldTypeMismatch),
    }
}

/// The JSON value of an integer with a given sign and magnitude.
fn integer_json(negative: bool, magnitude: u128, w: usize) -> (r: JsonValue)
    requires
        negative ==> magnitude > 0,
    ensures
        r@ == int_json(signed(negative, magnitude as nat), w as nat),
{
    let text = format_decimal(negative, magnitude);
    if w <= 4 {
        JsonValue::Number(text)
    } else {
        JsonValue::Str(text)
    }
}

/// Reads a fixed-width integer at `pos`.
pub fn decode_int(bytes: &[u8], pos: usize, w: usize, is_signed: bool) -> (r: Result<(JsonValue, usize), ErrorKind>)
    requires
        w == 1 || w == 2 || w == 4 || w == 8 || w == 16,
        pos <= bytes.len(),
    ensures
        decoded(r, pos, decode_int_spec(bytes@.skip(pos as int), w as nat, is_signed)),
        r matches Ok((_, next)) ==> next <= bytes.len(),
{
    if bytes.len() - pos < w {
        return Err(ErrorKind::TruncatedInput);
    }
    let (negative, magnitude) = get_int(bytes, pos, w, is_signed);
    assert(bytes@.skip(pos as int).take(w as int) =~= bytes@.subrange(pos as int, pos + w));
    Ok((integer_json(negative, magnitude, w), pos + w))
}

/// A 32-bit variable-length unsigned integer: a decimal JSON number below 2
/// to the 32.
pub open spec fn encode_varuint_spec(v: Json) -> Result<Seq<u8>, ErrorKind> {
    match json_integer(v, false, 0, u32::MAX as int) {
        Some(x) => Ok(varuint_bytes(x as nat)),
        None => Err(ErrorKind::FieldTypeMismatch),
    }
}

/// Reads a 32-bit variable-length unsigned integer from the front of `input`.
pub open spec fn decode_varuint_spec(input: Seq<u8>) -> Result<(Json, nat), ErrorKind> {
    match varuint32_read(input) {
        Ok((x, used)) => Ok((Json::Number(decimal_text(x as int)), used)),
        Err(e) => Err(e),
    }
}

/// A 32-bit variable-length signed integer: zig-zag, then as the unsigned one.
pub open spec fn encode_varint_spec(v: Json) -> Result<Seq<u8>, ErrorKind> {
    match json_integer(v, false, i32::MIN as int, i32::MAX as int) {
        Some(x) => Ok(varuint_bytes(zigzag(x))),
        None => Err(ErrorKind::FieldTypeMismatch),
    }
}

/// Reads a 32-bit variable-length signed integer from the front of `input`.
pub open spec fn decode_varint_spec(input: Seq<u8>) -> Result<(Json, nat), ErrorKind> {
    match varuint32_read(input) {
        Ok((x, used)) => Ok((Json::Number(decimal_text(unzigzag(x))), used)),
        Err(e) => Err(e),
    }
}

/// A boolean: one byte, 1 for `true` and 0 for `false`.
pub open spec fn encode_bool_spec(v: Json) -> Result<Seq<u8>, ErrorKind> {
    match v {
        Json::Bool(b) => Ok(seq![if b { 1u8 } else { 0u8 }]),
        _ => Err(ErrorKind::FieldTypeMismatch),
    }
}

/// Reads a boolean from the front of `input`; any byte but 0 is `true`.
pub open spec fn decode_bool_spec(input: Seq<u8>) -> Result<(Json, nat), ErrorKind> {
    if input.len() < 1 {
        Err(ErrorKind::TruncatedInput)
    } else {
        Ok((Json::Bool(input[0] != 0), 1))
    }
}

/// The bytes that a JSON string of hexadecimal digits stands for.
pub open spec fn json_hex(v: Json) -> Option<Seq<u8>> {
    match v {
        Json::Str(t) => hex_decode_spec(t),
        _ => None,
    }
}

/// A fixed-size byte array: a JSON string of exactly `2 w` hexadecimal digits.
pub open spec fn encode_blob_spec(v: Json, w: nat) -> Result<Seq<u8>, ErrorKind> {
    match json_hex(v) {
        Some(bytes) => if bytes.len() == w {
            Ok(bytes)
        } else {
            Err(ErrorKind::FieldTypeMismatch)
        },
        None => Err(ErrorKind::FieldTypeMismatch),
    }
}

/// Reads a fixed-size byte array from the front of `input`.
pub open spec fn decode_blob_spec(input: Seq<u8>, w: nat) -> Result<(Json, nat), ErrorKind> {
    if input.len() < w {
        Err(ErrorKind::TruncatedInput)
    } else {
        Ok((Json::Str(hex_text(input.take(w as int))), w))
    }
}

/// A byte string: its length as a variable-length integer, then the bytes.
pub open spec fn prefixed(bytes: Seq<u8>) -> Result<Seq<u8>, ErrorKind> {
    if bytes.len() > u32::MAX {
        Err(ErrorKind::FieldTypeMismatch)
    } else {
        Ok(varuint_bytes(bytes.len()) + bytes)
    }
}

/// Reads a length and that many bytes from the front of `input`: the bytes
/// and how much of the input they and the length took.
pub open spec fn read_prefixed(input: Seq<u8>) -> Result<(Seq<u8>, nat), ErrorKind> {
    match varuint32_read(input) {
        Ok((len, used)) => if input.len() - used < len {
            Err(ErrorKind::TruncatedInput)
        } else {
            Ok((input.subrange(used as int, (used + len) as int), used + len))
        },
        Err(e) => Err(e),
    }
}

/// `bytes`: a JSON string of hexadecimal digits, as a length and the bytes.
pub open spec fn encode_bytes_spec(v: Json) -> Result<Seq<u8>, ErrorKind> {
    match json_hex(v) {
        Some(bytes) => prefixed(bytes),
        None => Err(ErrorKind::FieldTypeMismatch),
    }
}

/// Reads a `bytes` value from the front of `input`.
pub open spec fn decode_bytes_spec(input: Seq<u8>) -> Result<(Json, nat), ErrorKind> {
    match read_prefixed(input) {
        Ok((bytes, used)) => Ok((Json::Str(hex_text(bytes)), used)),
        Err(e) => Err(e),
    }
}

/// `string`: a JSON string of well-formed UTF-8, as a length and the bytes.
pub open spec fn encode_text_spec(v: Json) -> Result<Seq<u8>, ErrorKind> {
    match v {
        Json::Str(t) => if valid_utf8(t) {
            prefixed(t)
        } else {
            Err(ErrorKind::InvalidUtf8)
        },
        _ => Err(ErrorKind::FieldTypeMismatch),
    }
}

/// Reads a `string` value from the front of `input`.
pub open spec fn decode_text_spec(input: Seq<u8>) -> Result<(Json, nat), ErrorKind> {
    match read_prefixed(input) {
        Ok((bytes, used)) => if valid_utf8(bytes) {
            Ok((Json::Str(bytes), used))
        } else {
            Err(ErrorKind::InvalidUtf8)
        },
        Err(e) => Err(e),
    }
}

/// `name`: a JSON string that is a name, as the eight bytes of its value.
pub open spec fn encode_name_spec(v: Json) -> Result<Seq<u8>, ErrorKind> {
    match v {
        Json::Str(t) => match string_to_name_spec(t) {
            Ok(n) => Ok(le_bytes(n as nat, 8)),
            Err(e) => Err(e),
        },
        _ => Err(ErrorKind::FieldTypeMismatch),
    }
}

/// Reads a `name` value from the front of `input`.
pub open spec fn decode_name_spec(input: Seq<u8>) -> Result<(Json, nat), ErrorKind> {
    if input.len() < 8 {
        Err(ErrorKind::TruncatedInput)
    } else {
        Ok((Json::Str(name_text(le_value(input.take(8)))), 8))
    }
}

/// Appends a 32-bit variable-length unsigned integer read from a JSON value.
pub fn encode_varuint(out: &mut Vec<u8>, v: &JsonValue) -> (r: Result<(), ErrorKind>)
    ensures
        appended(old(out)@, final(out)@, r, encode_varuint_spec(v@)),
{
    match integer_of(v, false, 0, 0xffff_ffff) {
        Some((_, magnitude)) => {
            put_varuint(out, magnitude as u32);
            Ok(())
        },
        None => Err(ErrorKind::FieldTypeMismatch),
    }
}

/// Reads a 32-bit variable-length unsigned integer at `pos`.
pub fn decode_varuint(bytes: &[u8], pos: usize) -> (r: Result<(JsonValue, usize), ErrorKind>)
    requires
        pos <= bytes.len(),
    ensures
        decoded(r, pos, decode_varuint_spec(bytes@.skip(pos as int))),
        r matches Ok((_, next)) ==> next <= bytes.len(),
{
    match get_varuint(bytes, pos) {
        Ok((x, next)) => Ok((JsonValue::Number(format_decimal(false, x as u128)), next)),
        Err(e) => Err(e),
    }
}

/// Appends a 32-bit variable-length signed integer read from a JSON value.
pub fn encode_varint(out: &mut Vec<u8>, v: &JsonValue) -> (r: Result<(), ErrorKind>)
    ensures
        appended(old(out)@, final(out)@, r, encode_varint_spec(v@)),
{
    match integer_of(v, false, 0x8000_0000, 0x7fff_ffff) {
        Some((negative, magnitude)) => {
            let z: u128 = if negative {
                2 * magnitude - 1
            } else {
                2 * magnitude
            };
            put_varuint(out, z as u32);
            Ok(())
        },
        None => Err(ErrorKind::FieldTypeMismatch),
    }
}

/// Reads a 32-bit variable-length signed integer at `pos`.
pub fn decode_varint(bytes: &[u8], pos: usize) -> (r: Result<(JsonValue, usize), ErrorKind>)
    requires
        pos <= bytes.len(),
    ensures
        decoded(r, pos, decode_varint_spec(bytes@.skip(pos as int))),
        r matches Ok((_, next)) ==> next <= bytes.len(),
{
    match get_varuint(bytes, pos) {
        Ok((x, next)) => {
            let text = if x % 2 == 0 {
                format_decimal(false, (x / 2) as u128)
            } else {
                format_decimal(true, (x as u128 + 1) / 2)
            };
            Ok((JsonValue::Number(text), next))
        },
        Err(e) => Err(e),
    }
}

/// Appends a boolean read from a JSON value.
pub fn encode_bool(out: &mut Vec<u8>, v: &JsonValue) -> (r: Result<(), ErrorKind>)
    ensures
        appended(old(out)@, final(out)@, r, encode_bool_spec(v@)),
{
    match v {
        JsonValue::Bool(b) => {
            out.push(if *b { 1 } else { 0 });
            assert(final(out)@ =~= old(out)@ + seq![if *b { 1u8 } else { 0u8 }]);
            Ok(())
        },
        _ => Err(ErrorKind::FieldTypeMismatch),
    }
}

/// Reads a boolean at `pos`.
pub fn decode_bool(bytes: &[u8], pos: usize) -> (r: Result<(JsonValue, usize), ErrorKind>)
    requires
        pos <= bytes.len(),
    ensures
        decoded(r, pos, decode_bool_spec(bytes@.skip(pos as int))),
        r matches Ok((_, next)) ==> next <= bytes.len(),
{
    if pos >= bytes.len() {
        return Err(ErrorKind::TruncatedInput);
    }
    Ok((JsonValue::Bool(bytes[pos] != 0), pos + 1))
}

/// The bytes of a JSON string of hexadecimal digits.
pub fn hex_of(v: &JsonValue) -> (r: Option<Vec<u8>>)
    ensures
        match r {
            Some(bytes) => json_hex(v@) == Some(bytes@),
            None => json_hex(v@) is None,
        },
{
    match v {
        JsonValue::Str(t) => hex_decode(t.as_slice()),
        _ => None,
    }
}

/// Appends all of `bytes`.
pub fn put_bytes(out: &mut Vec<u8>, bytes: &[u8])
    ensures
        final(out)@ == old(out)@ + bytes@,
{
    let mut i: usize = 0;
    while i < bytes.len()
        invariant
            i <= bytes.len(),
            out@ == old(out)@ + bytes@.take(i as int),
        decreases bytes.len() - i,
    {
        out.push(bytes[i]);
        assert(bytes@.take(i + 1) =~= bytes@.take(i as int).push(bytes@[i as int]));
        i += 1;
    }
    assert(bytes@.take(i as int) =~= bytes@);
}

/// Appends a fixed-size byte array read from a JSON value.
pub fn encode_blob(out: &mut Vec<u8>, v: &JsonValue, w: usize) -> (r: Result<(), ErrorKind>)
    ensures
        appended(old(out)@, final(out)@, r, encode_blob_spec(v@, w as nat)),
{
    match hex_of(v) {
        Some(bytes) => {
            if bytes.len() != w {
                return Err(ErrorKind::FieldTypeMismatch);
            }
            put_bytes(out, bytes.as_slice());
            Ok(())
        },
        None => Err(ErrorKind::FieldTypeMismatch),
    }
}

/// Reads a fixed-size byte array at `pos`.
pub fn decode_blob(bytes: &[u8], pos: usize, w: usize) -> (r: Result<(JsonValue, usize), ErrorKind>)
    requires
        pos <= bytes.len(),
    ensures
        decoded(r, pos, decode_blob_spec(bytes@.skip(pos as int), w as nat)),
        r matches Ok((_, next)) ==> next <= bytes.len(),
{
    if bytes.len() - pos < w {
        return Err(ErrorKind::TruncatedInput);
    }
    let part = vstd::slice::slice_subrange(bytes, pos, pos + w);
    assert(part@ =~= bytes@.skip(pos as int).take(w as int));
    Ok((JsonValue::Str(hex_encode(part)), pos + w))
}

/// Appends a length and the bytes.
pub fn put_prefixed(out: &mut Vec<u8>, bytes: &[u8]) -> (r: Result<(), ErrorKind>)
    ensures
        appended(old(out)@, final(out)@, r, prefixed(bytes@)),
{
    if bytes.len() > 0xffff_ffff {
        return Err(ErrorKind::FieldTypeMismatch);
    }
    put_varuint(out, bytes.len() as u32);
    put_bytes(out, bytes);
    assert(final(out)@ =~= old(out)@ + (varuint_bytes(bytes@.len()) + bytes@));
    Ok(())
}

/// Reads a length and that many bytes at `pos`: the bytes and the position
/// after them.
pub fn get_prefixed<'a>(bytes: &'a [u8], pos: usize) -> (r: Result<(&'a [u8], usize), ErrorKind>)
    requires
        pos <= bytes.len(),
    ensures
        match r {
            Ok((part, next)) => read_prefixed(bytes@.skip(pos as int)) == Ok::<(Seq<u8>, nat), ErrorKind>(
                (part@, (next - pos) as nat),
            ) && pos < next <= bytes.len(),
            Err(e) => read_prefixed(bytes@.skip(pos as int)) == Err::<(Seq<u8>, nat), ErrorKind>(e),
        },
{
    match get_varuint(bytes, pos) {
        Ok((len, start)) => {
            if bytes.len() - start < len as usize {
                return Err(ErrorKind::TruncatedInput);
            }
            let part = vstd::slice::slice_subrange(bytes, start, start + len as usize);
            assert(part@ =~= bytes@.skip(pos as int).subrange(start - pos, start - pos + len));
            Ok((part, start + len as usize))
        },
        Err(e) => Err(e),
    }
}

/// Appends a `bytes` value read from a JSON value.
pub fn encode_bytes(out: &mut Vec<u8>, v: &JsonValue) -> (r: Result<(), ErrorKind>)
    ensures
        appended(old(out)@, final(out)@, r, encode_bytes_spec(v@)),
{
    match hex_of(v) {
        Some(bytes) => put_prefixed(out, bytes.as_slice()),
        None => Err(ErrorKind::FieldTypeMismatch),
    }
}

/// Reads a `bytes` value at `pos`.
pub fn decode_bytes(bytes: &[u8], pos: usize) -> (r: Result<(JsonValue, usize), ErrorKind>)
    requires
        pos <= bytes.len(),
    ensures
        decoded(r, pos, decode_bytes_spec(bytes@.skip(pos as int))),
        r matches Ok((_, next)) ==> next <= bytes.len(),
{
    match get_prefixed(bytes, pos) {
        Ok((part, next)) => Ok((JsonValue::Str(hex_encode(part)), next)),
        Err(e) => Err(e),
    }
}

/// Appends a `string` value read from a JSON value.
pub fn encode_text(out: &mut Vec<u8>, v: &JsonValue) -> (r: Result<(), ErrorKind>)
    ensures
        appended(old(out)@, final(out)@, r, encode_text_spec(v@)),
{
    match string_of(v) {
        Some(t) => {
            if !crate::text::is_utf8(t.as_slice()) {
                return Err(ErrorKind::InvalidUtf8);
            }
            put_prefixed(out, t.as_slice())
        },
        None => Err(ErrorKind::FieldTypeMismatch),
    }
}

/// Reads a `string` value at `pos`.
pub fn decode_text(bytes: &[u8], pos: usize) -> (r: Result<(JsonValue, usize), ErrorKind>)
    requires
        pos <= bytes.len(),
    ensures
        decoded(r, pos, decode_text_spec(bytes@.skip(pos as int))),
        r matches Ok((_, next)) ==> next <= bytes.len(),
{
    match get_prefixed(bytes, pos) {
        Ok((part, next)) => {
            if !crate::text::is_utf8(part) {
                return Err(ErrorKind::InvalidUtf8);
            }
            Ok((JsonValue::Str(vstd::slice::slice_to_vec(part)), next))
        },
        Err(e) => Err(e),
    }
}

/// Appends a `name` value read from a JSON value.
pub fn encode_name(out: &mut Vec<u8>, v: &JsonValue) -> (r: Result<(), ErrorKind>)
    ensures
        appended(old(out)@, final(out)@, r, encode_name_spec(v@)),
{
    match string_of(v) {
        Some(t) => match string_to_name(t.as_slice()) {
            Ok(n) => {
                put_le(out, n as u128, 8);
                Ok(())
            },
            Err(e) => Err(e),
        },
        None => Err(ErrorKind::FieldTypeMismatch),
    }
}

/// Reads a `name` value at `pos`.
pub fn decode_name(bytes: &[u8], pos: usize) -> (r: Result<(JsonValue, usize), ErrorKind>)
    requires
        pos <= bytes.len(),
    ensures
        decoded(r, pos, decode_name_spec(bytes@.skip(pos as int))),
        r matches Ok((_, next)) ==> next <= bytes.len(),
{
    if bytes.len() - pos < 8 {
        return Err(ErrorKind::TruncatedInput);
    }
    let n = get_le(bytes, pos, 8);
    proof {
        assert(bytes@.skip(pos as int).take(8) =~= bytes@.subrange(pos as int, pos + 8));
        lemma_pow256_values();
        lemma_le_value(bytes@.subrange(pos as int, pos + 8));
    }
    Ok((JsonValue::Str(name_to_bytes(n as u64)), pos + 8))
}

} // verus!
