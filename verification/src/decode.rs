use crate::abi::{fields_model, AbiDocument, AbiModel, FieldDef};
use crate::asset::{decode_asset, decode_symbol, decode_symbol_code};
use crate::codec::{
    after_entries, after_items, decode_array_spec, decode_builtin_spec, decode_fields_spec, decode_items_spec,
    decode_object_spec, decode_optional_spec, decode_spec, decode_struct_spec, decode_variant_spec,
};
use crate::error::ErrorKind;
use crate::json::{entries_model, items_model, lemma_array_view, lemma_object_view, Json, JsonValue};
use crate::primitive::{
    decode_blob, decode_bool, decode_bytes, decode_int, decode_name, decode_text, decode_varint, decode_varuint,
    decoded,
};
use crate::resolve::{resolved, Builtin, ResolutionCache, ResolvedType};
use crate::time::{decode_block_timestamp, decode_time_point, decode_time_point_sec};
use crate::varint::get_varuint;
use vstd::prelude::*;

verus! {

/// Reads the JSON value at `pos` under a built-in type.
pub fn decode_builtin(bytes: &[u8], pos: usize, b: Builtin) -> (r: Result<(JsonValue, usize), ErrorKind>)
    requires
        pos <= bytes.len(),
    ensures
        decoded(r, pos, decode_builtin_spec(b, bytes@.skip(pos as int))),
        r matches Ok((_, next)) ==> next <= bytes.len(),
{
    reveal(decode_builtin_spec);
    match b {
        Builtin::Bool => decode_bool(bytes, pos),
        Builtin::Int8 => decode_int(bytes, pos, 1, true),
        Builtin::Uint8 => decode_int(bytes, pos, 1, false),
        Builtin::Int16 => decode_int(bytes, pos, 2, true),
        Builtin::Uint16 => decode_int(bytes, pos, 2, false),
        Builtin::Int32 => decode_int(bytes, pos, 4, true),
        Builtin::Uint32 => decode_int(bytes, pos, 4, false),
        Builtin::Int64 => decode_int(bytes, pos, 8, true),
        Builtin::Uint64 => decode_int(bytes, pos, 8, false),
        Builtin::Int128 => decode_int(bytes, pos, 16, true),
        Builtin::Uint128 => decode_int(bytes, pos, 16, false),
        Builtin::Varuint32 => decode_varuint(bytes, pos),
        Builtin::Varint32 => decode_varint(bytes, pos),
        Builtin::Float32 => decode_blob(bytes, pos, 4),
        Builtin::Float64 => decode_blob(bytes, pos, 8),
        Builtin::Float128 => decode_blob(bytes, pos, 16),
        Builtin::TimePoint => decode_time_point(bytes, pos),
        Builtin::TimePointSec => decode_time_point_sec(bytes, pos),
        Builtin::BlockTimestamp => decode_block_timestamp(bytes, pos),
        Builtin::Name => decode_name(bytes, pos),
        Builtin::Bytes => decode_bytes(bytes, pos),
        Builtin::Text => decode_text(bytes, pos),
        Builtin::Checksum160 => decode_blob(bytes, pos, 20),
        Builtin::Checksum256 => decode_blob(bytes, pos, 32),
        Builtin::Checksum512 => decode_blob(bytes, pos, 64),
        Builtin::PublicKey => decode_blob(bytes, pos, 34),
        Builtin::Signature => decode_blob(bytes, pos, 66),
        Builtin::SymbolCode => decode_symbol_code(bytes, pos),
        Builtin::Symbol => decode_symbol(bytes, pos),
        Builtin::Asset => decode_asset(bytes, pos),
    }
}

/// How the outcome of decoding a run of fields at `pos` matches what it
/// should be.
pub open spec fn decoded_entries(
    r: Result<(Vec<(Vec<u8>, JsonValue)>, usize, bool), ErrorKind>,
    pos: usize,
    expected: Result<(Seq<(Seq<u8>, Json)>, nat, bool), ErrorKind>,
) -> bool {
    match expected {
        Ok((entries, used, stopped)) => match r {
            Ok((got, next, s)) => entries_model(got@) =~= entries && next == pos + used && s == stopped,
            Err(_) => false,
        },
        Err(e) => match r {
            Ok(_) => false,
            Err(x) => x == e,
        },
    }
}

/// Reads the JSON value at `pos` under a type expression of a document: the
/// value and the position after it.
pub fn decode_value(abi: &AbiDocument, cache: &ResolutionCache, expr: &[u8], bytes: &[u8], pos: usize, depth: usize) -> (r: Result<
    (JsonValue, usize),
    ErrorKind,
>)
    requires
        cache.sound(abi@),
        pos <= bytes.len(),
    ensures
        decoded(r, pos, decode_spec(abi@, expr@, bytes@.skip(pos as int), depth as nat)),
        r matches Ok((_, next)) ==> next <= bytes.len(),
    decreases depth, 0nat, 0nat,
{
    if depth == 0 {
        return Err(ErrorKind::NestingTooDeep);
    }
    match cache.resolve(abi, expr) {
        Ok(ResolvedType::Builtin(b)) => decode_builtin(bytes, pos, b),
        Ok(ResolvedType::Optional(inner)) => decode_optional(abi, cache, inner.as_slice(), bytes, pos, depth - 1),
        Ok(ResolvedType::Extension(inner)) => decode_value(abi, cache, inner.as_slice(), bytes, pos, depth - 1),
        Ok(ResolvedType::Array(inner)) => decode_array(abi, cache, inner.as_slice(), bytes, pos, depth - 1),
        Ok(ResolvedType::Struct(index)) => decode_object(abi, cache, index, bytes, pos, depth - 1),
        Ok(ResolvedType::Variant(index)) => decode_variant(abi, cache, index, bytes, pos, depth - 1),
        Err(e) => Err(e),
    }
}

/// Reads an optional at `pos`.
pub fn decode_optional(abi: &AbiDocument, cache: &ResolutionCache, inner: &[u8], bytes: &[u8], pos: usize, depth: usize) -> (r: Result<
    (JsonValue, usize),
    ErrorKind,
>)
    requires
        cache.sound(abi@),
        pos <= bytes.len(),
    ensures
        decoded(r, pos, decode_optional_spec(abi@, inner@, bytes@.skip(pos as int), depth as nat)),
        r matches Ok((_, next)) ==> next <= bytes.len(),
    decreases depth, 3nat, 0nat,
{
    let ghost input = bytes@.skip(pos as int);
    if pos >= bytes.len() {
        return Err(ErrorKind::TruncatedInput);
    }
    assert(input[0] == bytes@[pos as int]);
    if bytes[pos] == 0 {
        Ok((JsonValue::Null, pos + 1))
    } else {
        assert(input.skip(1) =~= bytes@.skip(pos + 1));
        decode_value(abi, cache, inner, bytes, pos + 1, depth)
    }
}

/// Reads an array at `pos`.
pub fn decode_array(abi: &AbiDocument, cache: &ResolutionCache, inner: &[u8], bytes: &[u8], pos: usize, depth: usize) -> (r: Result<
    (JsonValue, usize),
    ErrorKind,
>)
    requires
        cache.sound(abi@),
        pos <= bytes.len(),
    ensures
        decoded(r, pos, decode_array_spec(abi@, inner@, bytes@.skip(pos as int), depth as nat)),
        r matches Ok((_, next)) ==> next <= bytes.len(),
    decreases depth, 3nat, 0nat,
{
    let ghost input = bytes@.skip(pos as int);
    match get_varuint(bytes, pos) {
        Ok((count, start)) => {
            assert(input.skip(start - pos) =~= bytes@.skip(start as int));
            match decode_items(abi, cache, inner, bytes, start, count, depth) {
                Ok((items, next)) => {
                    proof {
                        lemma_array_view(items);
                    }
                    Ok((JsonValue::Array(items), next))
                },
                Err(e) => Err(e),
            }
        },
        Err(e) => Err(e),
    }
}

/// Reads a struct at `pos` as a JSON object.
pub fn decode_object(abi: &AbiDocument, cache: &ResolutionCache, index: usize, bytes: &[u8], pos: usize, depth: usize) -> (r: Result<
    (JsonValue, usize),
    ErrorKind,
>)
    requires
        cache.sound(abi@),
        pos <= bytes.len(),
        index < abi.structs.len(),
    ensures
        decoded(r, pos, decode_object_spec(abi@, index as int, bytes@.skip(pos as int), depth as nat)),
        r matches Ok((_, next)) ==> next <= bytes.len(),
    decreases depth, 3nat, 0nat,
{
    match decode_struct(abi, cache, index, bytes, pos, depth) {
        Ok((entries, next, _)) => {
            proof {
                lemma_object_view(entries);
            }
            Ok((JsonValue::Object(entries), next))
        },
        Err(e) => Err(e),
    }
}

/// Reads a variant at `pos`.
pub fn decode_variant(abi: &AbiDocument, cache: &ResolutionCache, index: usize, bytes: &[u8], pos: usize, depth: usize) -> (r: Result<
    (JsonValue, usize),
    ErrorKind,
>)
    requires
        cache.sound(abi@),
        pos <= bytes.len(),
        index < abi.variants.len(),
    ensures
        decoded(r, pos, decode_variant_spec(abi@, index as int, bytes@.skip(pos as int), depth as nat)),
        r matches Ok((_, next)) ==> next <= bytes.len(),
    decreases depth, 3nat, 0nat,
{
    let ghost input = bytes@.skip(pos as int);
    match get_varuint(bytes, pos) {
        Ok((k, start)) => {
            let types = &abi.variants[index].types;
            if k as usize >= types.len() {
                return Err(ErrorKind::VariantIndexOutOfRange);
            }
            let member = &types[k as usize];
            assert(input.skip(start - pos) =~= bytes@.skip(start as int));
            match decode_value(abi, cache, member.as_slice(), bytes, start, depth) {
                Ok((v, next)) => {
                    let mut pair: Vec<JsonValue> = Vec::new();
                    pair.push(JsonValue::Str(vstd::slice::slice_to_vec(member.as_slice())));
                    pair.push(v);
                    proof {
                        lemma_array_view(pair);
                        assert(items_model(pair@) =~= seq![Json::Str(member@), v@]);
                    }
                    Ok((JsonValue::Array(pair), next))
                },
                Err(e) => Err(e),
            }
        },
        Err(e) => Err(e),
    }
}

/// Reads `count` items at `pos`, one after the other.
pub fn decode_items(abi: &AbiDocument, cache: &ResolutionCache, inner: &[u8], bytes: &[u8], pos: usize, count: u32, depth: usize) -> (r:
    Result<(Vec<JsonValue>, usize), ErrorKind>)
    requires
        cache.sound(abi@),
        pos <= bytes.len(),
    ensures
        match decode_items_spec(abi@, inner@, bytes@.skip(pos as int), count as nat, depth as nat) {
            Ok((items, used)) => match r {
                Ok((got, next)) => items_model(got@) =~= items && next == pos + used && next <= bytes.len(),
                Err(_) => false,
            },
            Err(e) => match r {
                Ok(_) => false,
                Err(x) => x == e,
            },
        },
    decreases depth, 1nat, 0nat,
{
    let ghost whole = decode_items_spec(abi@, inner@, bytes@.skip(pos as int), count as nat, depth as nat);
    let mut items: Vec<JsonValue> = Vec::new();
    let mut at: usize = pos;
    let mut i: u32 = 0;
    assert(items_model(items@) =~= Seq::<Json>::empty());
    while i < count
        invariant
            cache.sound(abi@),
            i <= count,
            pos <= at <= bytes.len(),
            whole == decode_items_spec(abi@, inner@, bytes@.skip(pos as int), count as nat, depth as nat),
            whole == after_items(
                items_model(items@),
                (at - pos) as nat,
                decode_items_spec(abi@, inner@, bytes@.skip(at as int), (count - i) as nat, depth as nat),
            ),
        decreases count - i,
    {
        let ghost input = bytes@.skip(at as int);
        let ghost before = items_model(items@);
        match decode_value(abi, cache, inner, bytes, at, depth) {
            Ok((v, next)) => {
                proof {
                    let n = (next - at) as nat;
                    assert(input.skip(n as int) =~= bytes@.skip(next as int));
                    let rest = decode_items_spec(abi@, inner@, bytes@.skip(next as int), (count - i - 1) as nat, depth as nat);
                    if rest is Ok {
                        assert(before + (seq![v@] + rest->Ok_0.0) =~= (before + seq![v@]) + rest->Ok_0.0);
                    }
                }
                items.push(v);
                assert(items_model(items@) =~= before + seq![v@]);
                at = next;
            },
            Err(e) => {
                return Err(e);
            },
        }
        i += 1;
    }
    assert(items_model(items@) + Seq::<Json>::empty() =~= items_model(items@));
    Ok((items, at))
}

/// Reads the entries of the struct at `index` at `pos`: the entries, the
/// position after them, and whether the input ended at a binary extension.
pub fn decode_struct(abi: &AbiDocument, cache: &ResolutionCache, index: usize, bytes: &[u8], pos: usize, depth: usize) -> (r: Result<
    (Vec<(Vec<u8>, JsonValue)>, usize, bool),
    ErrorKind,
>)
    requires
        cache.sound(abi@),
        pos <= bytes.len(),
        index < abi.structs.len(),
    ensures
        decoded_entries(r, pos, decode_struct_spec(abi@, index as int, bytes@.skip(pos as int), depth as nat)),
        r matches Ok((_, next, _)) ==> next <= bytes.len(),
    decreases depth, 2nat, 0nat,
{
    if depth == 0 {
        return Err(ErrorKind::NestingTooDeep);
    }
    let def = &abi.structs[index];
    let mut entries: Vec<(Vec<u8>, JsonValue)> = Vec::new();
    let mut at: usize = pos;
    let mut stopped = false;
    if def.base.len() != 0 {
        match cache.resolve(abi, def.base.as_slice()) {
            Ok(ResolvedType::Struct(j)) => {
                match decode_struct(abi, cache, j, bytes, pos, depth - 1) {
                    Ok((e, next, s)) => {
                        entries = e;
                        at = next;
                        stopped = s;
                    },
                    Err(e) => {
                        return Err(e);
                    },
                }
            },
            Ok(_) => {
                return Err(ErrorKind::UnknownType);
            },
            Err(e) => {
                return Err(e);
            },
        }
    }
    assert(def.base@.len() == 0 ==> entries_model(entries@) =~= Seq::<(Seq<u8>, Json)>::empty());
    assert(bytes@.skip(pos as int).skip(at - pos) =~= bytes@.skip(at as int));
    decode_fields(abi, cache, &def.fields, bytes, pos, at, entries, stopped, depth)
}

/// Whether decoding stops at a field of a given type expression: it is a
/// binary extension and the input is exhausted.
pub open spec fn stops_at(abi: AbiModel, type_expr: Seq<u8>, input: Seq<u8>) -> bool {
    resolved(abi, type_expr) is Ok && resolved(abi, type_expr)->Ok_0 is Extension && input.len() == 0
}

/// Reads one field of a struct at `cur`; `None` where decoding stops at it.
fn decode_field(abi: &AbiDocument, cache: &ResolutionCache, field: &FieldDef, bytes: &[u8], cur: usize, depth: usize) -> (r: Result<
    Option<(JsonValue, usize)>,
    ErrorKind,
>)
    requires
        cache.sound(abi@),
        cur <= bytes.len(),
    ensures
        match r {
            Ok(None) => stops_at(abi@, field.type_expr@, bytes@.skip(cur as int)),
            Ok(Some((v, next))) => !stops_at(abi@, field.type_expr@, bytes@.skip(cur as int)) && decode_spec(
                abi@,
                field.type_expr@,
                bytes@.skip(cur as int),
                depth as nat,
            ) == Ok::<(Json, nat), ErrorKind>((v@, (next - cur) as nat)) && cur <= next <= bytes.len(),
            Err(e) => !stops_at(abi@, field.type_expr@, bytes@.skip(cur as int)) && decode_spec(
                abi@,
                field.type_expr@,
                bytes@.skip(cur as int),
                depth as nat,
            ) == Err::<(Json, nat), ErrorKind>(e),
        },
    decreases depth, 0nat, 1nat,
{
    if cur >= bytes.len() {
        if let Ok(ResolvedType::Extension(_)) = cache.resolve(abi, field.type_expr.as_slice()) {
            return Ok(None);
        }
    }
    match decode_value(abi, cache, field.type_expr.as_slice(), bytes, cur, depth) {
        Ok((v, next)) => Ok(Some((v, next))),
        Err(e) => Err(e),
    }
}

/// Counting an entry and then the rest is counting the rest behind the entry.
proof fn lemma_after_entries_step(
    head: Seq<(Seq<u8>, Json)>,
    used: nat,
    entry: (Seq<u8>, Json),
    n: nat,
    rest: Result<(Seq<(Seq<u8>, Json)>, nat, bool), ErrorKind>,
)
    ensures
        after_entries(head, used, after_entries(seq![entry], n, rest)) == after_entries(
            head.push(entry),
            used + n,
            rest,
        ),
{
    if rest is Ok {
        assert(head + (seq![entry] + rest->Ok_0.0) =~= head.push(entry) + rest->Ok_0.0);
    }
}

/// The model of entries with one more is the model with that one's model more.
proof fn lemma_push_entry(entries: Seq<(Vec<u8>, JsonValue)>, entry: (Vec<u8>, JsonValue))
    ensures
        entries_model(entries.push(entry)) == entries_model(entries).push((entry.0@, entry.1@)),
{
    assert(entries_model(entries.push(entry)) =~= entries_model(entries).push((entry.0@, entry.1@)));
}

/// Appends an entry to the entries of an object.
fn push_entry(entries: &mut Vec<(Vec<u8>, JsonValue)>, name: Vec<u8>, v: JsonValue)
    ensures
        entries_model(final(entries)@) == entries_model(old(entries)@).push((name@, v@)),
{
    proof {
        lemma_push_entry(entries@, (name, v));
    }
    entries.push((name, v));
}

/// One step of `decode_fields_spec`, written out.
proof fn lemma_decode_fields_step(
    abi: AbiModel,
    fields: Seq<(Seq<u8>, Seq<u8>)>,
    i: int,
    input: Seq<u8>,
    depth: nat,
)
    requires
        0 <= i < fields.len(),
    ensures
        decode_fields_spec(abi, fields, i, input, true, depth) == Ok::<
            (Seq<(Seq<u8>, Json)>, nat, bool),
            ErrorKind,
        >((Seq::empty(), 0, true)),
        stops_at(abi, fields[i].1, input) ==> decode_fields_spec(abi, fields, i, input, false, depth) == Ok::<
            (Seq<(Seq<u8>, Json)>, nat, bool),
            ErrorKind,
        >((Seq::empty(), 0, true)),
        !stops_at(abi, fields[i].1, input) ==> decode_fields_spec(abi, fields, i, input, false, depth) == (
        match decode_spec(abi, fields[i].1, input, depth) {
            Ok((v, n)) => after_entries(
                seq![(fields[i].0, v)],
                n,
                decode_fields_spec(abi, fields, i + 1, input.skip(n as int), false, depth),
            ),
            Err(e) => Err(e),
        }),
{
}

/// Reads the fields of a struct at `at`, behind the entries already read from
/// `pos` on.
pub fn decode_fields(
    abi: &AbiDocument,
    cache: &ResolutionCache,
    fields: &Vec<FieldDef>,
    bytes: &[u8],
    pos: usize,
    at: usize,
    head: Vec<(Vec<u8>, JsonValue)>,
    stopped: bool,
    depth: usize,
) -> (r: Result<(Vec<(Vec<u8>, JsonValue)>, usize, bool), ErrorKind>)
    requires
        cache.sound(abi@),
        pos <= at <= bytes.len(),
    ensures
        decoded_entries(
            r,
            pos,
            after_entries(
                entries_model(head@),
                (at - pos) as nat,
                decode_fields_spec(abi@, fields_model(fields@), 0, bytes@.skip(at as int), stopped, depth as nat),
            ),
        ),
        r matches Ok((_, next, _)) ==> next <= bytes.len(),
    decreases depth, 1nat, 1nat,
{
    let ghost whole = after_entries(
        entries_model(head@),
        (at - pos) as nat,
        decode_fields_spec(abi@, fields_model(fields@), 0, bytes@.skip(at as int), stopped, depth as nat),
    );
    let mut entries = head;
    let mut cur: usize = at;
    let mut i: usize = 0;
    let ghost mut model = entries_model(entries@);
    if stopped {
        assert(model + Seq::<(Seq<u8>, Json)>::empty() =~= model);
        return Ok((entries, cur, true));
    }
    while i < fields.len()
        invariant
            cache.sound(abi@),
            i <= fields.len(),
            pos <= cur <= bytes.len(),
            model == entries_model(entries@),
            whole == after_entries(
                entries_model(head@),
                (at - pos) as nat,
                decode_fields_spec(abi@, fields_model(fields@), 0, bytes@.skip(at as int), stopped, depth as nat),
            ),
            whole == after_entries(
                model,
                (cur - pos) as nat,
                decode_fields_spec(abi@, fields_model(fields@), i as int, bytes@.skip(cur as int), false, depth as nat),
            ),
        decreases fields.len() - i,
    {
        let field = &fields[i];
        let ghost input = bytes@.skip(cur as int);
        proof {
            lemma_decode_fields_step(abi@, fields_model(fields@), i as int, input, depth as nat);
        }
        match decode_field(abi, cache, field, bytes, cur, depth) {
            Ok(None) => {
                assert(model + Seq::<(Seq<u8>, Json)>::empty() =~= model);
                return Ok((entries, cur, true));
            },
            Ok(Some((v, next))) => {
                let name = vstd::slice::slice_to_vec(field.name.as_slice());
                proof {
                    let n = (next - cur) as nat;
                    assert(input.skip(n as int) =~= bytes@.skip(next as int));
                    let rest = decode_fields_spec(abi@, fields_model(fields@), i + 1, bytes@.skip(next as int), false, depth as nat);
                    lemma_after_entries_step(model, (cur - pos) as nat, (field.name@, v@), n, rest);
                    model = model.push((field.name@, v@));
                }
                push_entry(&mut entries, name, v);
                cur = next;
            },
            Err(e) => {
                return Err(e);
            },
        }
        i += 1;
    }
    assert(model + Seq::<(Seq<u8>, Json)>::empty() =~= model);
    Ok((entries, cur, false))
}

} // verus!
