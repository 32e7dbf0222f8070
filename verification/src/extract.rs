use crate::abi::{AbiDocument, AbiModel, Binding, FieldDef, StructDef, StructModel, TypeDef, VariantDef};
use crate::json::{entries_model, items_model, lemma_array_view, lemma_object_view, lookup, Json, JsonValue};
use crate::name::{string_to_name, string_to_name_spec};
use vstd::prelude::*;
use vstd::string::StringSliceAdditionalSpecFns;

verus! {

/// The string under a key of an object.
pub open spec fn string_at(entries: Seq<(Seq<u8>, Json)>, key: Seq<u8>) -> Option<Seq<u8>> {
    match lookup(entries, key) {
        Some(Json::Str(s)) => Some(s),
        _ => None,
    }
}

/// The items of the array under a key of an object; none where the key is
/// absent.
pub open spec fn array_at(entries: Seq<(Seq<u8>, Json)>, key: Seq<u8>) -> Option<Seq<Json>> {
    match lookup(entries, key) {
        Some(Json::Array(items)) => Some(items),
        None => Some(Seq::empty()),
        _ => None,
    }
}

/// The two strings under two keys of an object.
pub open spec fn pair_of(item: Json, first: Seq<u8>, second: Seq<u8>) -> Option<(Seq<u8>, Seq<u8>)> {
    match item {
        Json::Object(entries) => match (string_at(entries, first), string_at(entries, second)) {
            (Some(a), Some(b)) => Some((a, b)),
            _ => None,
        },
        _ => None,
    }
}

/// The pairs of strings of all items, if every item has one.
pub open spec fn pairs_of(items: Option<Seq<Json>>, first: Seq<u8>, second: Seq<u8>) -> Option<
    Seq<(Seq<u8>, Seq<u8>)>,
> {
    match items {
        Some(items) => if forall|i: int| 0 <= i < items.len() ==> (#[trigger] pair_of(items[i], first, second)) is Some {
            Some(Seq::new(items.len(), |i: int| pair_of(items[i], first, second).unwrap()))
        } else {
            None
        },
        None => None,
    }
}

/// The string that an item is.
pub open spec fn string_of_item(item: Json) -> Option<Seq<u8>> {
    match item {
        Json::Str(s) => Some(s),
        _ => None,
    }
}

/// The strings that all items are, if every item is one.
pub open spec fn strings_of(items: Option<Seq<Json>>) -> Option<Seq<Seq<u8>>> {
    match items {
        Some(items) => if forall|i: int| 0 <= i < items.len() ==> (#[trigger] string_of_item(items[i])) is Some {
            Some(Seq::new(items.len(), |i: int| string_of_item(items[i]).unwrap()))
        } else {
            None
        },
        None => None,
    }
}

/// The binding that an object with a name under `name` and a string under
/// `type_key` writes.
pub open spec fn binding_of(item: Json, type_key: Seq<u8>) -> Option<(u64, Seq<u8>)> {
    match pair_of(item, "name".spec_bytes(), type_key) {
        Some((name, type_expr)) => match string_to_name_spec(name) {
            Ok(n) => Some((n, type_expr)),
            Err(_) => None,
        },
        None => None,
    }
}

/// The bindings of all items, if every item writes one.
pub open spec fn bindings_of(items: Option<Seq<Json>>, type_key: Seq<u8>) -> Option<Seq<(u64, Seq<u8>)>> {
    match items {
        Some(items) => if forall|i: int| 0 <= i < items.len() ==> (#[trigger] binding_of(items[i], type_key)) is Some {
            Some(Seq::new(items.len(), |i: int| binding_of(items[i], type_key).unwrap()))
        } else {
            None
        },
        None => None,
    }
}

/// The struct definition that an object writes.
pub open spec fn struct_of(item: Json) -> Option<StructModel> {
    match item {
        Json::Object(entries) => match (
            string_at(entries, "name".spec_bytes()),
            string_at(entries, "base".spec_bytes()),
            pairs_of(array_at(entries, "fields".spec_bytes()), "name".spec_bytes(), "type".spec_bytes()),
        ) {
            (Some(name), Some(base), Some(fields)) => Some(StructModel { name, base, fields }),
            _ => None,
        },
        _ => None,
    }
}

/// The struct definitions of all items, if every item writes one.
pub open spec fn structs_of(items: Option<Seq<Json>>) -> Option<Seq<StructModel>> {
    match items {
        Some(items) => if forall|i: int| 0 <= i < items.len() ==> (#[trigger] struct_of(items[i])) is Some {
            Some(Seq::new(items.len(), |i: int| struct_of(items[i]).unwrap()))
        } else {
            None
        },
        None => None,
    }
}

/// The variant definition that an object writes.
pub open spec fn variant_of(item: Json) -> Option<(Seq<u8>, Seq<Seq<u8>>)> {
    match item {
        Json::Object(entries) => match (
            string_at(entries, "name".spec_bytes()),
            strings_of(array_at(entries, "types".spec_bytes())),
        ) {
            (Some(name), Some(types)) => Some((name, types)),
            _ => None,
        },
        _ => None,
    }
}

/// The variant definitions of all items, if every item writes one.
pub open spec fn variants_of(items: Option<Seq<Json>>) -> Option<Seq<(Seq<u8>, Seq<Seq<u8>>)>> {
    match items {
        Some(items) => if forall|i: int| 0 <= i < items.len() ==> (#[trigger] variant_of(items[i])) is Some {
            Some(Seq::new(items.len(), |i: int| variant_of(items[i]).unwrap()))
        } else {
            None
        },
        None => None,
    }
}

/// The ABI document that a JSON value writes: an object with a string under
/// `version` and, where present, arrays under `types`, `structs`, `variants`,
/// `actions`, `tables` and `action_results`.
pub open spec fn abi_of_json(v: Json) -> Option<AbiModel> {
    match v {
        Json::Object(entries) => match (
            string_at(entries, "version".spec_bytes()),
            pairs_of(array_at(entries, "types".spec_bytes()), "new_type_name".spec_bytes(), "type".spec_bytes()),
            structs_of(array_at(entries, "structs".spec_bytes())),
            variants_of(array_at(entries, "variants".spec_bytes())),
            bindings_of(array_at(entries, "actions".spec_bytes()), "type".spec_bytes()),
            bindings_of(array_at(entries, "tables".spec_bytes()), "type".spec_bytes()),
            bindings_of(array_at(entries, "action_results".spec_bytes()), "result_type".spec_bytes()),
        ) {
            (
                Some(version),
                Some(types),
                Some(structs),
                Some(variants),
                Some(actions),
                Some(tables),
                Some(action_results),
            ) => Some(AbiModel { version, types, structs, variants, actions, tables, action_results }),
            _ => None,
        },
        _ => None,
    }
}

/// A copy of bytes.
fn copy_of(bytes: &Vec<u8>) -> (r: Vec<u8>)
    ensures
        r@ == bytes@,
{
    vstd::slice::slice_to_vec(bytes.as_slice())
}

/// The string under a key of an object.
fn get_string<'a>(entries: &'a Vec<(Vec<u8>, JsonValue)>, key: &str) -> (r: Option<&'a Vec<u8>>)
    ensures
        match r {
            Some(s) => string_at(entries_model(entries@), key.spec_bytes()) == Some(s@),
            None => string_at(entries_model(entries@), key.spec_bytes()) is None,
        },
{
    match JsonValue::get(entries, key.as_bytes()) {
        Some(JsonValue::Str(s)) => Some(s),
        _ => None,
    }
}

/// What a looked-up array stands for: its items, none where the key was
/// absent, nothing where the key held no array.
pub open spec fn array_model(items: Result<Option<&Vec<JsonValue>>, ()>) -> Option<Seq<Json>> {
    match items {
        Ok(Some(v)) => Some(items_model(v@)),
        Ok(None) => Some(Seq::empty()),
        Err(_) => None,
    }
}

/// The array under a key of an object: `Ok(None)` where the key is absent,
/// `Err` where it holds no array.
fn get_array<'a>(entries: &'a Vec<(Vec<u8>, JsonValue)>, key: &str) -> (r: Result<Option<&'a Vec<JsonValue>>, ()>)
    ensures
        array_at(entries_model(entries@), key.spec_bytes()) == array_model(r),
{
    match JsonValue::get(entries, key.as_bytes()) {
        Some(JsonValue::Array(items)) => {
            proof {
                lemma_array_view(*items);
            }
            Ok(Some(items))
        },
        None => Ok(None),
        _ => Err(()),
    }
}

/// The two strings under two keys of an object.
fn get_pair(item: &JsonValue, first: &str, second: &str) -> (r: Option<(Vec<u8>, Vec<u8>)>)
    ensures
        match r {
            Some((a, b)) => pair_of(item@, first.spec_bytes(), second.spec_bytes()) == Some((a@, b@)),
            None => pair_of(item@, first.spec_bytes(), second.spec_bytes()) is None,
        },
{
    match item {
        JsonValue::Object(entries) => {
            proof {
                lemma_object_view(*entries);
            }
            match (get_string(entries, first), get_string(entries, second)) {
                (Some(a), Some(b)) => Some((copy_of(a), copy_of(b))),
                _ => None,
            }
        },
        _ => None,
    }
}

/// The struct fields that the items of an array write.
fn get_fields(items: Result<Option<&Vec<JsonValue>>, ()>) -> (r: Option<Vec<FieldDef>>)
    ensures
        match r {
            Some(fields) => pairs_of(array_model(items), "name".spec_bytes(), "type".spec_bytes()) == Some(
                Seq::new(fields@.len(), |i: int| fields@[i]@),
            ),
            None => pairs_of(array_model(items), "name".spec_bytes(), "type".spec_bytes()) is None,
        },
{
    let mut out: Vec<FieldDef> = Vec::new();
    let list = match items {
        Ok(Some(list)) => list,
        Ok(None) => {
            assert(Seq::new(out@.len(), |i: int| out@[i]@) =~= Seq::new(
                0,
                |i: int| pair_of(Seq::<Json>::empty()[i], "name".spec_bytes(), "type".spec_bytes()).unwrap(),
            ));
            return Some(out);
        },
        Err(_) => {
            return None;
        },
    };
    let ghost all = items_model(list@);
    let mut i: usize = 0;
    while i < list.len()
        invariant
            i <= list.len(),
            all == items_model(list@),
            array_model(items) == Some(all),
            out@.len() == i,
            forall|j: int|
                0 <= j < i ==> (#[trigger] pair_of(all[j], "name".spec_bytes(), "type".spec_bytes())) == Some(
                    out@[j]@,
                ),
        decreases list.len() - i,
    {
        match get_pair(&list[i], "name", "type") {
            Some((name, type_expr)) => {
                out.push(FieldDef { name, type_expr });
            },
            None => {
                assert(pair_of(all[i as int], "name".spec_bytes(), "type".spec_bytes()) is None);
                return None;
            },
        }
        i += 1;
    }
    assert(Seq::new(out@.len(), |i: int| out@[i]@) =~= Seq::new(
        all.len(),
        |i: int| pair_of(all[i], "name".spec_bytes(), "type".spec_bytes()).unwrap(),
    ));
    Some(out)
}

/// The aliases that the items of an array write.
fn get_types(items: Result<Option<&Vec<JsonValue>>, ()>) -> (r: Option<Vec<TypeDef>>)
    ensures
        match r {
            Some(types) => pairs_of(array_model(items), "new_type_name".spec_bytes(), "type".spec_bytes()) == Some(
                Seq::new(types@.len(), |i: int| types@[i]@),
            ),
            None => pairs_of(array_model(items), "new_type_name".spec_bytes(), "type".spec_bytes()) is None,
        },
{
    let mut out: Vec<TypeDef> = Vec::new();
    let list = match items {
        Ok(Some(list)) => list,
        Ok(None) => {
            assert(Seq::new(out@.len(), |i: int| out@[i]@) =~= Seq::new(
                0,
                |i: int|
                    pair_of(Seq::<Json>::empty()[i], "new_type_name".spec_bytes(), "type".spec_bytes()).unwrap(),
            ));
            return Some(out);
        },
        Err(_) => {
            return None;
        },
    };
    let ghost all = items_model(list@);
    let mut i: usize = 0;
    while i < list.len()
        invariant
            i <= list.len(),
            all == items_model(list@),
            array_model(items) == Some(all),
            out@.len() == i,
            forall|j: int|
                0 <= j < i ==> (#[trigger] pair_of(all[j], "new_type_name".spec_bytes(), "type".spec_bytes()))
                    == Some(out@[j]@),
        decreases list.len() - i,
    {
        match get_pair(&list[i], "new_type_name", "type") {
            Some((alias_name, type_expr)) => {
                out.push(TypeDef { alias_name, type_expr });
            },
            None => {
                assert(pair_of(all[i as int], "new_type_name".spec_bytes(), "type".spec_bytes()) is None);
                return None;
            },
        }
        i += 1;
    }
    assert(Seq::new(out@.len(), |i: int| out@[i]@) =~= Seq::new(
        all.len(),
        |i: int| pair_of(all[i], "new_type_name".spec_bytes(), "type".spec_bytes()).unwrap(),
    ));
    Some(out)
}

/// The strings that the items of an array are.
fn get_strings(items: Result<Option<&Vec<JsonValue>>, ()>) -> (r: Option<Vec<Vec<u8>>>)
    ensures
        match r {
            Some(strings) => strings_of(array_model(items)) == Some(
                Seq::new(strings@.len(), |i: int| strings@[i]@),
            ),
            None => strings_of(array_model(items)) is None,
        },
{
    let mut out: Vec<Vec<u8>> = Vec::new();
    let list = match items {
        Ok(Some(list)) => list,
        Ok(None) => {
            assert(Seq::new(out@.len(), |i: int| out@[i]@) =~= Seq::new(
                0,
                |i: int| string_of_item(Seq::<Json>::empty()[i]).unwrap(),
            ));
            return Some(out);
        },
        Err(_) => {
            return None;
        },
    };
    let ghost all = items_model(list@);
    let mut i: usize = 0;
    while i < list.len()
        invariant
            i <= list.len(),
            all == items_model(list@),
            array_model(items) == Some(all),
            out@.len() == i,
            forall|j: int| 0 <= j < i ==> (#[trigger] string_of_item(all[j])) == Some(out@[j]@),
        decreases list.len() - i,
    {
        match &list[i] {
            JsonValue::Str(s) => {
                out.push(copy_of(s));
            },
            _ => {
                assert(string_of_item(all[i as int]) is None);
                return None;
            },
        }
        i += 1;
    }
    assert(Seq::new(out@.len(), |i: int| out@[i]@) =~= Seq::new(
        all.len(),
        |i: int| string_of_item(all[i]).unwrap(),
    ));
    Some(out)
}

/// The binding that an object writes.
fn get_binding(item: &JsonValue, type_key: &str) -> (r: Option<Binding>)
    ensures
        match r {
            Some(b) => binding_of(item@, type_key.spec_bytes()) == Some(b@),
            None => binding_of(item@, type_key.spec_bytes()) is None,
        },
{
    match get_pair(item, "name", type_key) {
        Some((name, type_expr)) => match string_to_name(name.as_slice()) {
            Ok(n) => Some(Binding { name: n, type_expr }),
            Err(_) => None,
        },
        None => None,
    }
}

/// The bindings that the items of an array write.
fn get_bindings(items: Result<Option<&Vec<JsonValue>>, ()>, type_key: &str) -> (r: Option<Vec<Binding>>)
    ensures
        match r {
            Some(bindings) => bindings_of(array_model(items), type_key.spec_bytes()) == Some(
                Seq::new(bindings@.len(), |i: int| bindings@[i]@),
            ),
            None => bindings_of(array_model(items), type_key.spec_bytes()) is None,
        },
{
    let mut out: Vec<Binding> = Vec::new();
    let list = match items {
        Ok(Some(list)) => list,
        Ok(None) => {
            assert(Seq::new(out@.len(), |i: int| out@[i]@) =~= Seq::new(
                0,
                |i: int| binding_of(Seq::<Json>::empty()[i], type_key.spec_bytes()).unwrap(),
            ));
            return Some(out);
        },
        Err(_) => {
            return None;
        },
    };
    let ghost all = items_model(list@);
    let mut i: usize = 0;
    while i < list.len()
        invariant
            i <= list.len(),
            all == items_model(list@),
            array_model(items) == Some(all),
            out@.len() == i,
            forall|j: int| 0 <= j < i ==> (#[trigger] binding_of(all[j], type_key.spec_bytes())) == Some(out@[j]@),
        decreases list.len() - i,
    {
        match get_binding(&list[i], type_key) {
            Some(b) => {
                out.push(b);
            },
            None => {
                assert(binding_of(all[i as int], type_key.spec_bytes()) is None);
                return None;
            },
        }
        i += 1;
    }
    assert(Seq::new(out@.len(), |i: int| out@[i]@) =~= Seq::new(
        all.len(),
        |i: int| binding_of(all[i], type_key.spec_bytes()).unwrap(),
    ));
    Some(out)
}

/// The struct definition that an object writes.
fn get_struct(item: &JsonValue) -> (r: Option<StructDef>)
    ensures
        match r {
            Some(def) => struct_of(item@) == Some(def@),
            None => struct_of(item@) is None,
        },
{
    match item {
        JsonValue::Object(entries) => {
            proof {
                lemma_object_view(*entries);
            }
            let name = match get_string(entries, "name") {
                Some(s) => copy_of(s),
                None => {
                    return None;
                },
            };
            let base = match get_string(entries, "base") {
                Some(s) => copy_of(s),
                None => {
                    return None;
                },
            };
            match get_fields(get_array(entries, "fields")) {
                Some(fields) => Some(StructDef { name, base, fields }),
                None => None,
            }
        },
        _ => None,
    }
}

/// The struct definitions that the items of an array write.
fn get_structs(items: Result<Option<&Vec<JsonValue>>, ()>) -> (r: Option<Vec<StructDef>>)
    ensures
        match r {
            Some(structs) => structs_of(array_model(items)) == Some(
                Seq::new(structs@.len(), |i: int| structs@[i]@),
            ),
            None => structs_of(array_model(items)) is None,
        },
{
    let mut out: Vec<StructDef> = Vec::new();
    let list = match items {
        Ok(Some(list)) => list,
        Ok(None) => {
            assert(Seq::new(out@.len(), |i: int| out@[i]@) =~= Seq::new(
                0,
                |i: int| struct_of(Seq::<Json>::empty()[i]).unwrap(),
            ));
            return Some(out);
        },
        Err(_) => {
            return None;
        },
    };
    let ghost all = items_model(list@);
    let mut i: usize = 0;
    while i < list.len()
        invariant
            i <= list.len(),
            all == items_model(list@),
            array_model(items) == Some(all),
            out@.len() == i,
            forall|j: int| 0 <= j < i ==> (#[trigger] struct_of(all[j])) == Some(out@[j]@),
        decreases list.len() - i,
    {
        match get_struct(&list[i]) {
            Some(def) => {
                out.push(def);
            },
            None => {
                assert(struct_of(all[i as int]) is None);
                return None;
            },
        }
        i += 1;
    }
    assert(Seq::new(out@.len(), |i: int| out@[i]@) =~= Seq::new(all.len(), |i: int| struct_of(all[i]).unwrap()));
    Some(out)
}

/// The variant definition that an object writes.
fn get_variant(item: &JsonValue) -> (r: Option<VariantDef>)
    ensures
        match r {
            Some(def) => variant_of(item@) == Some(def@),
            None => variant_of(item@) is None,
        },
{
    match item {
        JsonValue::Object(entries) => {
            proof {
                lemma_object_view(*entries);
            }
            let name = match get_string(entries, "name") {
                Some(s) => copy_of(s),
                None => {
                    return None;
                },
            };
            match get_strings(get_array(entries, "types")) {
                Some(types) => Some(VariantDef { name, types }),
                None => None,
            }
        },
        _ => None,
    }
}

/// The variant definitions that the items of an array write.
fn get_variants(items: Result<Option<&Vec<JsonValue>>, ()>) -> (r: Option<Vec<VariantDef>>)
    ensures
        match r {
            Some(variants) => variants_of(array_model(items)) == Some(
                Seq::new(variants@.len(), |i: int| variants@[i]@),
            ),
            None => variants_of(array_model(items)) is None,
        },
{
    let mut out: Vec<VariantDef> = Vec::new();
    let list = match items {
        Ok(Some(list)) => list,
        Ok(None) => {
            assert(Seq::new(out@.len(), |i: int| out@[i]@) =~= Seq::new(
                0,
                |i: int| variant_of(Seq::<Json>::empty()[i]).unwrap(),
            ));
            return Some(out);
        },
        Err(_) => {
            return None;
        },
    };
    let ghost all = items_model(list@);
    let mut i: usize = 0;
    while i < list.len()
        invariant
            i <= list.len(),
            all == items_model(list@),
            array_model(items) == Some(all),
            out@.len() == i,
            forall|j: int| 0 <= j < i ==> (#[trigger] variant_of(all[j])) == Some(out@[j]@),
        decreases list.len() - i,
    {
        match get_variant(&list[i]) {
            Some(def) => {
                out.push(def);
            },
            None => {
                assert(variant_of(all[i as int]) is None);
                return None;
            },
        }
        i += 1;
    }
    assert(Seq::new(out@.len(), |i: int| out@[i]@) =~= Seq::new(all.len(), |i: int| variant_of(all[i]).unwrap()));
    Some(out)
}

/// Reads an ABI document from a JSON value; `None` where the value writes
/// none.
pub fn abi_from_json(v: &JsonValue) -> (r: Option<AbiDocument>)
    ensures
        match r {
            Some(abi) => abi_of_json(v@) == Some(abi@),
            None => abi_of_json(v@) is None,
        },
{
    match v {
        JsonValue::Object(entries) => {
            proof {
                lemma_object_view(*entries);
            }
            let version = match get_string(entries, "version") {
                Some(s) => copy_of(s),
                None => {
                    return None;
                },
            };
            let types = match get_types(get_array(entries, "types")) {
                Some(x) => x,
                None => {
                    return None;
                },
            };
            let structs = match get_structs(get_array(entries, "structs")) {
                Some(x) => x,
                None => {
                    return None;
                },
            };
            let variants = match get_variants(get_array(entries, "variants")) {
                Some(x) => x,
                None => {
                    return None;
                },
            };
            let actions = match get_bindings(get_array(entries, "actions"), "type") {
                Some(x) => x,
                None => {
                    return None;
                },
            };
            let tables = match get_bindings(get_array(entries, "tables"), "type") {
                Some(x) => x,
                None => {
                    return None;
                },
            };
            let action_results = match get_bindings(get_array(entries, "action_results"), "result_type") {
                Some(x) => x,
                None => {
                    return None;
                },
            };
            Some(AbiDocument { version, types, structs, variants, actions, tables, action_results })
        },
        _ => None,
    }
}

} // verus!
