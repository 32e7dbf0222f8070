use crate::error::ErrorKind;
use crate::json::{Json, JsonValue};
use crate::number::{
    all_digits, digits_of, digits_value, get_int, int_bytes, parse_digits, push_digits,
    put_int, signed, signed_value,
};
use crate::primitive::{appended, decoded, put_bytes, string_of};
use vstd::prelude::*;

verus! {

/// The position of the first `c` in `s`, or the length of `s` if it has none.
pub open spec fn index_of(s: Seq<u8>, c: u8) -> int
    decreases s.len(),
{
    if s.len() == 0 || s[0] == c {
        0
    } else {
        1 + index_of(s.drop_first(), c)
    }
}

/// A symbol code: one to seven capital letters.
pub open spec fn valid_code(code: Seq<u8>) -> bool {
    &&& 1 <= code.len() <= 7
    &&& forall|i: int| 0 <= i < code.len() ==> 65 <= #[trigger] code[i] <= 90
}

/// `n` zero bytes.
pub open spec fn zeros(n: nat) -> Seq<u8> {
    Seq::new(n, |i: int| 0u8)
}

/// A symbol code on seven bytes, padded with zero bytes.
pub open spec fn code_bytes(code: Seq<u8>) -> Seq<u8> {
    code + zeros((7 - code.len()) as nat)
}

/// How many capital letters stand at the front of `s`.
pub open spec fn letters(s: Seq<u8>) -> int
    decreases s.len(),
{
    if s.len() == 0 || !(65 <= s[0] <= 90) {
        0
    } else {
        1 + letters(s.drop_first())
    }
}

/// The text of a padded symbol code: the capital letters at its front.
pub open spec fn code_text(bytes: Seq<u8>) -> Seq<u8> {
    bytes.take(letters(bytes))
}

/// Capital letters behind which no capital letter follows are all the
/// letters at the front.
pub proof fn lemma_letters(code: Seq<u8>, behind: Seq<u8>)
    requires
        forall|i: int| 0 <= i < code.len() ==> 65 <= #[trigger] code[i] <= 90,
        behind.len() == 0 || !(65 <= behind[0] <= 90),
    ensures
        letters(code + behind) == code.len(),
        code_text(code + behind) == code,
    decreases code.len(),
{
    let all = code + behind;
    if code.len() == 0 {
        assert(all =~= behind);
    } else {
        assert(all[0] == code[0]);
        assert(all.drop_first() =~= code.drop_first() + behind);
        assert forall|i: int| 0 <= i < code.drop_first().len() implies 65 <= #[trigger] code.drop_first()[i]
            <= 90 by {
            assert(code.drop_first()[i] == code[i + 1]);
        }
        lemma_letters(code.drop_first(), behind);
    }
    assert(all.take(code.len() as int) =~= code);
}

/// The text of a symbol code on seven bytes, with or without a zero byte
/// behind it, is the code.
pub proof fn lemma_code_round_trip(code: Seq<u8>)
    requires
        valid_code(code),
    ensures
        code_text(code_bytes(code)) == code,
        code_text(code_bytes(code) + seq![0u8]) == code,
{
    let pad = zeros((7 - code.len()) as nat);
    lemma_letters(code, pad);
    lemma_letters(code, pad + seq![0u8]);
    assert(code_bytes(code) + seq![0u8] =~= code + (pad + seq![0u8]));
}

/// `symbol_code`: a JSON string of one to seven capital letters, as eight
/// bytes padded with zero bytes.
pub open spec fn encode_symbol_code_spec(v: Json) -> Result<Seq<u8>, ErrorKind> {
    match v {
        Json::Str(code) => if valid_code(code) {
            Ok(code_bytes(code) + seq![0u8])
        } else {
            Err(ErrorKind::FieldTypeMismatch)
        },
        _ => Err(ErrorKind::FieldTypeMismatch),
    }
}

/// Reads a `symbol_code` from the front of `input`.
pub open spec fn decode_symbol_code_spec(input: Seq<u8>) -> Result<(Json, nat), ErrorKind> {
    if input.len() < 8 {
        Err(ErrorKind::TruncatedInput)
    } else {
        Ok((Json::Str(code_text(input.take(8))), 8))
    }
}

/// The precision and the code of a symbol text `precision,CODE`.
pub open spec fn symbol_parts(t: Seq<u8>) -> Option<(nat, Seq<u8>)> {
    let comma = index_of(t, 44);
    let digits = t.take(comma);
    let code = t.skip(comma + 1);
    if comma < t.len() && digits.len() > 0 && all_digits(digits) && digits_value(digits) <= 255 && valid_code(
        code,
    ) {
        Some((digits_value(digits), code))
    } else {
        None
    }
}

/// `symbol`: a JSON string `precision,CODE`, as one byte of precision and
/// seven bytes of code.
pub open spec fn encode_symbol_spec(v: Json) -> Result<Seq<u8>, ErrorKind> {
    match v {
        Json::Str(t) => match symbol_parts(t) {
            Some((precision, code)) => Ok(seq![precision as u8] + code_bytes(code)),
            None => Err(ErrorKind::FieldTypeMismatch),
        },
        _ => Err(ErrorKind::FieldTypeMismatch),
    }
}

/// Reads a `symbol` from the front of `input`.
pub open spec fn decode_symbol_spec(input: Seq<u8>) -> Result<(Json, nat), ErrorKind> {
    if input.len() < 8 {
        Err(ErrorKind::TruncatedInput)
    } else {
        Ok((Json::Str(digits_of(input[0] as nat) + seq![44u8] + code_text(input.subrange(1, 8))), 8))
    }
}

/// The amount, in units of the last decimal place, and the number of decimal
/// places of a decimal text `[-]digits[.digits]`.
pub open spec fn amount_parts(num: Seq<u8>) -> Option<(int, nat)> {
    let negative = num.len() > 0 && num[0] == 45;
    let body = if negative {
        num.drop_first()
    } else {
        num
    };
    let dot = index_of(body, 46);
    let whole = body.take(dot);
    let fraction = if dot < body.len() {
        body.skip(dot + 1)
    } else {
        Seq::empty()
    };
    if whole.len() > 0 && all_digits(whole) && all_digits(fraction) && (dot < body.len() ==> fraction.len() > 0)
        && fraction.len() <= 255 {
        Some((signed(negative, digits_value(whole + fraction)), fraction.len()))
    } else {
        None
    }
}

/// The amount, the precision and the code of an asset text `amount CODE`.
pub open spec fn asset_parts(t: Seq<u8>) -> Option<(int, nat, Seq<u8>)> {
    let space = index_of(t, 32);
    let code = t.skip(space + 1);
    match amount_parts(t.take(space)) {
        Some((amount, precision)) => if space < t.len() && valid_code(code) && i64::MIN <= amount <= i64::MAX {
            Some((amount, precision, code))
        } else {
            None
        },
        None => None,
    }
}

/// `asset`: a JSON string `amount CODE`, as the amount in eight bytes, one
/// byte for the number of decimal places and seven bytes of code.
pub open spec fn encode_asset_spec(v: Json) -> Result<Seq<u8>, ErrorKind> {
    match v {
        Json::Str(t) => match asset_parts(t) {
            Some((amount, precision, code)) => Ok(int_bytes(amount, 8) + seq![precision as u8] + code_bytes(code)),
            None => Err(ErrorKind::FieldTypeMismatch),
        },
        _ => Err(ErrorKind::FieldTypeMismatch),
    }
}

/// `ds` with zero digits in front, to at least `min_len` digits.
pub open spec fn zero_pad(ds: Seq<u8>, min_len: nat) -> Seq<u8> {
    if ds.len() >= min_len {
        ds
    } else {
        Seq::new((min_len - ds.len()) as nat, |i: int| 48u8) + ds
    }
}

/// The decimal text of an amount with a number of decimal places.
pub open spec fn amount_text(amount: int, precision: nat) -> Seq<u8> {
    let magnitude = if amount < 0 {
        (-amount) as nat
    } else {
        amount as nat
    };
    let ds = zero_pad(digits_of(magnitude), precision + 1);
    let sign = if amount < 0 {
        seq![45u8]
    } else {
        Seq::empty()
    };
    let whole = ds.take(ds.len() - precision);
    if precision > 0 {
        sign + whole + seq![46u8] + ds.skip(ds.len() - precision)
    } else {
        sign + whole
    }
}

/// Reads an `asset` from the front of `input`.
pub open spec fn decode_asset_spec(input: Seq<u8>) -> Result<(Json, nat), ErrorKind> {
    if input.len() < 16 {
        Err(ErrorKind::TruncatedInput)
    } else {
        Ok(
            (
                Json::Str(
                    amount_text(signed_value(input.take(8)), input[8] as nat) + seq![32u8] + code_text(
                        input.subrange(9, 16),
                    ),
                ),
                16,
            ),
        )
    }
}

/// The position of the first `c` in `s`, or the length of `s`.
pub fn find_byte(s: &[u8], c: u8) -> (r: usize)
    ensures
        r == index_of(s@, c),
        r <= s.len(),
        r < s.len() ==> s@[r as int] == c,
{
    let mut i: usize = 0;
    assert(s@.skip(0) =~= s@);
    while i < s.len() && s[i] != c
        invariant
            i <= s.len(),
            index_of(s@, c) == i + index_of(s@.skip(i as int), c),
        decreases s.len() - i,
    {
        assert(s@.skip(i as int).drop_first() =~= s@.skip(i + 1));
        i += 1;
    }
    i
}

/// Appends a symbol code on seven bytes; `false` where it is no symbol code.
fn put_code(out: &mut Vec<u8>, code: &[u8]) -> (r: bool)
    ensures
        r == valid_code(code@),
        r ==> final(out)@ == old(out)@ + code_bytes(code@),
{
    if code.len() < 1 || code.len() > 7 {
        return false;
    }
    let mut i: usize = 0;
    while i < code.len()
        invariant
            i <= code.len(),
            code.len() <= 7,
            forall|j: int| 0 <= j < i ==> 65 <= #[trigger] code@[j] <= 90,
        decreases code.len() - i,
    {
        if code[i] < 65 || code[i] > 90 {
            return false;
        }
        i += 1;
    }
    put_bytes(out, code);
    let mut k: usize = code.len();
    while k < 7
        invariant
            code.len() <= k <= 7,
            out@ == old(out)@ + code@ + zeros((k - code.len()) as nat),
        decreases 7 - k,
    {
        let ghost before = out@;
        out.push(0);
        assert(out@ =~= old(out)@ + code@ + zeros((k + 1 - code.len()) as nat));
        k += 1;
    }
    assert(out@ =~= old(out)@ + code_bytes(code@));
    true
}

/// Appends the text of the padded symbol code held by `bytes[from..to]`.
fn push_code_text(out: &mut Vec<u8>, bytes: &[u8], from: usize, to: usize)
    requires
        from <= to <= bytes.len(),
    ensures
        final(out)@ == old(out)@ + code_text(bytes@.subrange(from as int, to as int)),
{
    let part = vstd::slice::slice_subrange(bytes, from, to);
    let mut end: usize = 0;
    assert(part@.skip(0) =~= part@);
    while end < part.len() && 65 <= part[end] && part[end] <= 90
        invariant
            end <= part.len(),
            letters(part@) == end + letters(part@.skip(end as int)),
        decreases part.len() - end,
    {
        assert(part@.skip(end as int).drop_first() =~= part@.skip(end + 1));
        end += 1;
    }
    let text = vstd::slice::slice_subrange(part, 0, end);
    assert(text@ =~= code_text(part@));
    put_bytes(out, text);
}

/// Appends a `symbol_code` read from a JSON value.
pub fn encode_symbol_code(out: &mut Vec<u8>, v: &JsonValue) -> (r: Result<(), ErrorKind>)
    ensures
        appended(old(out)@, final(out)@, r, encode_symbol_code_spec(v@)),
{
    match string_of(v) {
        Some(code) => {
            if !put_code(out, code.as_slice()) {
                return Err(ErrorKind::FieldTypeMismatch);
            }
            out.push(0);
            assert(final(out)@ =~= old(out)@ + (code_bytes(code@) + seq![0u8]));
            Ok(())
        },
        None => Err(ErrorKind::FieldTypeMismatch),
    }
}

/// Reads a `symbol_code` at `pos`.
pub fn decode_symbol_code(bytes: &[u8], pos: usize) -> (r: Result<(JsonValue, usize), ErrorKind>)
    requires
        pos <= bytes.len(),
    ensures
        decoded(r, pos, decode_symbol_code_spec(bytes@.skip(pos as int))),
        r matches Ok((_, next)) ==> next <= bytes.len(),
{
    if bytes.len() - pos < 8 {
        return Err(ErrorKind::TruncatedInput);
    }
    let mut text: Vec<u8> = Vec::new();
    push_code_text(&mut text, bytes, pos, pos + 8);
    assert(bytes@.skip(pos as int).take(8) =~= bytes@.subrange(pos as int, pos + 8));
    assert(text@ =~= code_text(bytes@.subrange(pos as int, pos + 8)));
    Ok((JsonValue::Str(text), pos + 8))
}

/// Appends a `symbol` read from a JSON value.
pub fn encode_symbol(out: &mut Vec<u8>, v: &JsonValue) -> (r: Result<(), ErrorKind>)
    ensures
        appended(old(out)@, final(out)@, r, encode_symbol_spec(v@)),
{
    let t = match string_of(v) {
        Some(t) => t.as_slice(),
        None => {
            return Err(ErrorKind::FieldTypeMismatch);
        },
    };
    let comma = find_byte(t, 44);
    if comma >= t.len() || comma == 0 {
        return Err(ErrorKind::FieldTypeMismatch);
    }
    let digits = vstd::slice::slice_subrange(t, 0, comma);
    let code = vstd::slice::slice_subrange(t, comma + 1, t.len());
    assert(digits@ =~= t@.take(comma as int));
    assert(code@ =~= t@.skip(comma + 1));
    let precision = match parse_digits(digits) {
        Some(p) => p,
        None => {
            return Err(ErrorKind::FieldTypeMismatch);
        },
    };
    if precision > 255 {
        return Err(ErrorKind::FieldTypeMismatch);
    }
    out.push(precision as u8);
    if !put_code(out, code) {
        return Err(ErrorKind::FieldTypeMismatch);
    }
    assert(final(out)@ =~= old(out)@ + (seq![precision as u8] + code_bytes(code@)));
    Ok(())
}

/// Reads a `symbol` at `pos`.
pub fn decode_symbol(bytes: &[u8], pos: usize) -> (r: Result<(JsonValue, usize), ErrorKind>)
    requires
        pos <= bytes.len(),
    ensures
        decoded(r, pos, decode_symbol_spec(bytes@.skip(pos as int))),
        r matches Ok((_, next)) ==> next <= bytes.len(),
{
    if bytes.len() - pos < 8 {
        return Err(ErrorKind::TruncatedInput);
    }
    let mut text: Vec<u8> = Vec::new();
    push_digits(&mut text, bytes[pos] as u128);
    text.push(44);
    push_code_text(&mut text, bytes, pos + 1, pos + 8);
    proof {
        let input = bytes@.skip(pos as int);
        assert(input.subrange(1, 8) =~= bytes@.subrange(pos + 1, pos + 8));
        assert(text@ =~= digits_of(input[0] as nat) + seq![44u8] + code_text(input.subrange(1, 8)));
    }
    Ok((JsonValue::Str(text), pos + 8))
}

/// Digits stay digits when two runs of them are joined.
proof fn lemma_all_digits_concat(a: Seq<u8>, b: Seq<u8>)
    ensures
        all_digits(a + b) == (all_digits(a) && all_digits(b)),
{
    if all_digits(a + b) {
        assert forall|i: int| 0 <= i < a.len() implies 48 <= #[trigger] a[i] <= 57 by {
            assert((a + b)[i] == a[i]);
        }
        assert forall|i: int| 0 <= i < b.len() implies 48 <= #[trigger] b[i] <= 57 by {
            assert((a + b)[a.len() + i] == b[i]);
        }
    }
    if all_digits(a) && all_digits(b) {
        assert forall|i: int| 0 <= i < (a + b).len() implies 48 <= #[trigger] (a + b)[i] <= 57 by {
            if i < a.len() {
                assert((a + b)[i] == a[i]);
            } else {
                assert((a + b)[i] == b[i - a.len()]);
            }
        }
    }
}

/// Reads a decimal text `[-]digits[.digits]`: the sign, the magnitude in units
/// of the last decimal place and the number of decimal places. `None` where
/// the text has another form or the magnitude exceeds 128 bits.
fn parse_amount(num: &[u8]) -> (r: Option<(bool, u128, u8)>)
    ensures
        match r {
            Some((negative, magnitude, precision)) => amount_parts(num@) == Some(
                (signed(negative, magnitude as nat), precision as nat),
            ),
            None => match amount_parts(num@) {
                Some((amount, _)) => amount > u128::MAX || amount < -(u128::MAX as int),
                None => true,
            },
        },
{
    let negative = num.len() > 0 && num[0] == 45;
    let body = if negative {
        vstd::slice::slice_subrange(num, 1, num.len())
    } else {
        num
    };
    assert(negative ==> body@ =~= num@.drop_first());
    let dot = find_byte(body, 46);
    if dot == 0 {
        return None;
    }
    let whole = vstd::slice::slice_subrange(body, 0, dot);
    assert(whole@ =~= body@.take(dot as int));
    let mut digits: Vec<u8> = Vec::new();
    put_bytes(&mut digits, whole);
    let mut precision: usize = 0;
    let ghost fraction_digits = if dot < body.len() {
        body@.skip(dot + 1)
    } else {
        Seq::empty()
    };
    if dot < body.len() {
        let fraction = vstd::slice::slice_subrange(body, dot + 1, body.len());
        assert(fraction@ =~= body@.skip(dot + 1));
        if fraction.len() == 0 || fraction.len() > 255 {
            return None;
        }
        put_bytes(&mut digits, fraction);
        precision = fraction.len();
    }
    proof {
        lemma_all_digits_concat(whole@, fraction_digits);
        assert(digits@ =~= whole@ + fraction_digits);
    }
    match parse_digits(digits.as_slice()) {
        Some(magnitude) => Some((negative, magnitude, precision as u8)),
        None => None,
    }
}

/// Appends an `asset` read from a JSON value.
pub fn encode_asset(out: &mut Vec<u8>, v: &JsonValue) -> (r: Result<(), ErrorKind>)
    ensures
        appended(old(out)@, final(out)@, r, encode_asset_spec(v@)),
{
    let t = match string_of(v) {
        Some(t) => t.as_slice(),
        None => {
            return Err(ErrorKind::FieldTypeMismatch);
        },
    };
    let space = find_byte(t, 32);
    let num = vstd::slice::slice_subrange(t, 0, space);
    assert(num@ =~= t@.take(space as int));
    let (negative, magnitude, precision) = match parse_amount(num) {
        Some(parts) => parts,
        None => {
            return Err(ErrorKind::FieldTypeMismatch);
        },
    };
    if space >= t.len() {
        return Err(ErrorKind::FieldTypeMismatch);
    }
    let code = vstd::slice::slice_subrange(t, space + 1, t.len());
    assert(code@ =~= t@.skip(space + 1));
    let in_range = if negative {
        magnitude <= 0x8000_0000_0000_0000
    } else {
        magnitude <= 0x7fff_ffff_ffff_ffff
    };
    if !in_range {
        return Err(ErrorKind::FieldTypeMismatch);
    }
    if negative && magnitude == 0 {
        put_int(out, false, 0, 8);
    } else {
        put_int(out, negative, magnitude, 8);
    }
    out.push(precision);
    if !put_code(out, code) {
        return Err(ErrorKind::FieldTypeMismatch);
    }
    assert(final(out)@ =~= old(out)@ + (int_bytes(signed(negative, magnitude as nat), 8) + seq![precision]
        + code_bytes(code@)));
    Ok(())
}

/// The decimal text of an amount with a number of decimal places.
fn format_amount(negative: bool, magnitude: u128, precision: u8) -> (r: Vec<u8>)
    requires
        negative ==> magnitude > 0,
    ensures
        r@ == amount_text(signed(negative, magnitude as nat), precision as nat),
{
    let mut digits: Vec<u8> = Vec::new();
    push_digits(&mut digits, magnitude);
    let mut padded: Vec<u8> = Vec::new();
    let width: usize = precision as usize + 1;
    let mut k: usize = digits.len();
    while k < width
        invariant
            digits@.len() <= k,
            k <= width || k == digits@.len(),
            padded@ == Seq::new((k - digits@.len()) as nat, |i: int| 48u8),
        decreases width - k,
    {
        padded.push(48);
        assert(padded@ =~= Seq::new((k + 1 - digits@.len()) as nat, |i: int| 48u8));
        k += 1;
    }
    put_bytes(&mut padded, digits.as_slice());
    let ghost ds = zero_pad(digits@, width as nat);
    assert(padded@ =~= ds);
    let mut out: Vec<u8> = Vec::new();
    if negative {
        out.push(45);
    }
    let split: usize = padded.len() - precision as usize;
    let whole = vstd::slice::slice_subrange(padded.as_slice(), 0, split);
    put_bytes(&mut out, whole);
    if precision > 0 {
        out.push(46);
        let fraction = vstd::slice::slice_subrange(padded.as_slice(), split, padded.len());
        assert(fraction@ =~= ds.skip(split as int));
        put_bytes(&mut out, fraction);
    }
    assert(whole@ =~= ds.take(split as int));
    assert(out@ =~= amount_text(signed(negative, magnitude as nat), precision as nat));
    out
}

/// Reads an `asset` at `pos`.
pub fn decode_asset(bytes: &[u8], pos: usize) -> (r: Result<(JsonValue, usize), ErrorKind>)
    requires
        pos <= bytes.len(),
    ensures
        decoded(r, pos, decode_asset_spec(bytes@.skip(pos as int))),
        r matches Ok((_, next)) ==> next <= bytes.len(),
{
    if bytes.len() - pos < 16 {
        return Err(ErrorKind::TruncatedInput);
    }
    let (negative, magnitude) = get_int(bytes, pos, 8, true);
    let mut text = format_amount(negative, magnitude, bytes[pos + 8]);
    text.push(32);
    push_code_text(&mut text, bytes, pos + 9, pos + 16);
    proof {
        let input = bytes@.skip(pos as int);
        assert(input.take(8) =~= bytes@.subrange(pos as int, pos + 8));
        assert(input.subrange(9, 16) =~= bytes@.subrange(pos + 9, pos + 16));
        assert(text@ =~= amount_text(signed_value(input.take(8)), input[8] as nat) + seq![32u8] + code_text(
            input.subrange(9, 16),
        ));
    }
    Ok((JsonValue::Str(text), pos + 16))
}

} // verus!
