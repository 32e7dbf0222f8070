use crate::hex::hex_digit;
use crate::json::{entries_model, items_model, lemma_array_view, lemma_object_view, Json, JsonValue};
use crate::primitive::put_bytes;
use vstd::prelude::*;

verus! {

/// How a byte of a string stands in JSON text: `"` and `\` behind a `\`, a
/// control character as its short escape or as `\u00` and two hexadecimal
/// digits, any other byte as itself.
pub open spec fn escaped_byte(c: u8) -> Seq<u8> {
    if c == 34 {
        seq![92u8, 34u8]
    } else if c == 92 {
        seq![92u8, 92u8]
    } else if c == 8 {
        seq![92u8, 98u8]
    } else if c == 12 {
        seq![92u8, 102u8]
    } else if c == 10 {
        seq![92u8, 110u8]
    } else if c == 13 {
        seq![92u8, 114u8]
    } else if c == 9 {
        seq![92u8, 116u8]
    } else if c < 32 {
        seq![92u8, 117u8, 48u8, 48u8, hex_digit((c / 16) as nat), hex_digit((c % 16) as nat)]
    } else {
        seq![c]
    }
}

/// The bytes of a string from `from` on, each as it stands in JSON text.
pub open spec fn escaped(s: Seq<u8>, from: int) -> Seq<u8>
    decreases s.len() - from,
{
    if from < 0 || from >= s.len() {
        Seq::empty()
    } else {
        escaped_byte(s[from]) + escaped(s, from + 1)
    }
}

/// A string in JSON text: between double quotes, escaped.
pub open spec fn quoted(s: Seq<u8>) -> Seq<u8> {
    seq![34u8] + escaped(s, 0) + seq![34u8]
}

/// The compact JSON text of a value: no white space, object entries in the
/// order they are held.
pub open spec fn json_text(v: Json) -> Seq<u8>
    decreases v, 0nat,
{
    match v {
        Json::Null => seq![110u8, 117u8, 108u8, 108u8],
        Json::Bool(b) => if b {
            seq![116u8, 114u8, 117u8, 101u8]
        } else {
            seq![102u8, 97u8, 108u8, 115u8, 101u8]
        },
        Json::Number(t) => t,
        Json::Str(s) => quoted(s),
        Json::Array(items) => seq![91u8] + items_text(items, 0) + seq![93u8],
        Json::Object(entries) => seq![123u8] + entries_text(entries, 0) + seq![125u8],
    }
}

/// The texts of the items from `from` on, with a comma before each but the
/// first of the array.
pub open spec fn items_text(items: Seq<Json>, from: int) -> Seq<u8>
    decreases items, items.len() - from,
{
    if from < 0 || from >= items.len() {
        Seq::empty()
    } else {
        (if from > 0 {
            seq![44u8]
        } else {
            Seq::empty()
        }) + json_text(items[from]) + items_text(items, from + 1)
    }
}

/// The texts of the entries from `from` on: the key, a colon and the value,
/// with a comma before each but the first of the object.
pub open spec fn entries_text(entries: Seq<(Seq<u8>, Json)>, from: int) -> Seq<u8>
    decreases entries, entries.len() - from,
{
    if from < 0 || from >= entries.len() {
        Seq::empty()
    } else {
        (if from > 0 {
            seq![44u8]
        } else {
            Seq::empty()
        }) + quoted(entries[from].0) + seq![58u8] + json_text(entries[from].1) + entries_text(entries, from + 1)
    }
}

/// The upper-case hexadecimal digit of a value below 16.
fn nibble(d: u8) -> (c: u8)
    requires
        d < 16,
    ensures
        c == hex_digit(d as nat),
{
    if d < 10 {
        48 + d
    } else {
        55 + d
    }
}

/// Appends a byte of a string as it stands in JSON text.
fn write_escaped_byte(c: u8, out: &mut Vec<u8>)
    ensures
        final(out)@ =~= old(out)@ + escaped_byte(c),
{
    if c == 34 || c == 92 {
        out.push(92);
        out.push(c);
    } else if c == 8 {
        out.push(92);
        out.push(98);
    } else if c == 12 {
        out.push(92);
        out.push(102);
    } else if c == 10 {
        out.push(92);
        out.push(110);
    } else if c == 13 {
        out.push(92);
        out.push(114);
    } else if c == 9 {
        out.push(92);
        out.push(116);
    } else if c < 32 {
        out.push(92);
        out.push(117);
        out.push(48);
        out.push(48);
        out.push(nibble(c / 16));
        out.push(nibble(c % 16));
    } else {
        out.push(c);
    }
}

/// Appends a string as it stands in JSON text.
pub fn write_quoted(s: &[u8], out: &mut Vec<u8>)
    ensures
        final(out)@ =~= old(out)@ + quoted(s@),
{
    let ghost start = out@;
    out.push(34);
    let mut i: usize = 0;
    while i < s.len()
        invariant
            i <= s.len(),
            out@ + escaped(s@, i as int) =~= start + seq![34u8] + escaped(s@, 0),
        decreases s.len() - i,
    {
        let ghost before = out@;
        write_escaped_byte(s[i], out);
        assert(out@ + escaped(s@, i + 1) =~= before + escaped(s@, i as int));
        i += 1;
    }
    assert(out@ + Seq::<u8>::empty() =~= out@);
    out.push(34);
}

/// Appends the compact JSON text of a value.
pub fn write_json(v: &JsonValue, out: &mut Vec<u8>)
    ensures
        final(out)@ =~= old(out)@ + json_text(v@),
    decreases v,
{
    match v {
        JsonValue::Null => {
            out.push(110);
            out.push(117);
            out.push(108);
            out.push(108);
        },
        JsonValue::Bool(b) => {
            if *b {
                out.push(116);
                out.push(114);
                out.push(117);
                out.push(101);
            } else {
                out.push(102);
                out.push(97);
                out.push(108);
                out.push(115);
                out.push(101);
            }
        },
        JsonValue::Number(t) => {
            put_bytes(out, t.as_slice());
        },
        JsonValue::Str(s) => {
            write_quoted(s.as_slice(), out);
        },
        JsonValue::Array(items) => {
            proof {
                lemma_array_view(*items);
            }
            out.push(91);
            write_items(items, out);
            out.push(93);
        },
        JsonValue::Object(entries) => {
            proof {
                lemma_object_view(*entries);
            }
            out.push(123);
            write_entries(entries, out);
            out.push(125);
        },
    }
}

/// Appends the texts of the items of an array, with commas between them.
fn write_items(items: &Vec<JsonValue>, out: &mut Vec<u8>)
    ensures
        final(out)@ =~= old(out)@ + items_text(items_model(items@), 0),
    decreases items,
{
    let ghost start = out@;
    let ghost model = items_model(items@);
    let mut i: usize = 0;
    while i < items.len()
        invariant
            i <= items.len(),
            model == items_model(items@),
            out@ + items_text(model, i as int) =~= start + items_text(model, 0),
        decreases items.len() - i,
    {
        let ghost before = out@;
        if i > 0 {
            out.push(44);
        }
        write_json(&items[i], out);
        assert(out@ + items_text(model, i + 1) =~= before + items_text(model, i as int));
        i += 1;
    }
    assert(out@ + Seq::<u8>::empty() =~= out@);
}

/// Appends the texts of the entries of an object, with commas between them.
fn write_entries(entries: &Vec<(Vec<u8>, JsonValue)>, out: &mut Vec<u8>)
    ensures
        final(out)@ =~= old(out)@ + entries_text(entries_model(entries@), 0),
    decreases entries,
{
    let ghost start = out@;
    let ghost model = entries_model(entries@);
    let mut i: usize = 0;
    while i < entries.len()
        invariant
            i <= entries.len(),
            model == entries_model(entries@),
            out@ + entries_text(model, i as int) =~= start + entries_text(model, 0),
        decreases entries.len() - i,
    {
        let ghost before = out@;
        if i > 0 {
            out.push(44);
        }
        write_quoted(entries[i].0.as_slice(), out);
        out.push(58);
        write_json(&entries[i].1, out);
        assert(out@ + entries_text(model, i + 1) =~= before + entries_text(model, i as int));
        i += 1;
    }
    assert(out@ + Seq::<u8>::empty() =~= out@);
}

/// The compact JSON text of a value.
pub fn to_text(v: &JsonValue) -> (r: Vec<u8>)
    ensures
        r@ == json_text(v@),
{
    let mut out: Vec<u8> = Vec::new();
    write_json(v, &mut out);
    assert(out@ =~= json_text(v@));
    out
}

} // verus!
