use crate::abi::{find_struct, lemma_find_struct_bounds, StructModel};
use crate::canon::{
    bytes_of, canon, delimited, field_bytes_of, fields_delimited, items_delimited, struct_delimited,
};
use crate::codec::{
    encode_array_spec, encode_fields_spec, encode_object_spec, encode_spec, encode_struct_spec,
    json_to_bin_spec, MAX_DEPTH,
};
use crate::error::ErrorKind;
use crate::json::{lookup, Json};
use crate::meta::{meta_model, meta_structs};
use crate::registry::{abi_bin_to_json_spec, abi_json_to_bin_spec, abi_of_value, with_defaults_spec};
use crate::resolve::{builtin_of, outer_modifier, resolve_spec, resolved, Shape, MAX_ALIAS_DEPTH};
use vstd::prelude::*;
use vstd::string::{is_ascii, is_ascii_spec_bytes, StringSliceAdditionalSpecFns};

verus! {

/// The bytes of a text of characters below 128 are its characters.
proof fn lemma_text_bytes(s: &str)
    requires
        is_ascii(s),
    ensures
        s.spec_bytes().len() == s@.len(),
        forall|i: int| 0 <= i < s@.len() ==> #[trigger] s.spec_bytes()[i] == s@[i] as u8,
{
    is_ascii_spec_bytes(s);
}

/// A text that ends in none of `$`, `?` and `]` has no modifier.
proof fn lemma_plain_text(s: &str)
    requires
        is_ascii(s),
        s@.len() >= 1,
        s@.last() != '$',
        s@.last() != '?',
        s@.last() != ']',
    ensures
        outer_modifier(s.spec_bytes()) is None,
{
    lemma_text_bytes(s);
    let b = s.spec_bytes();
    assert(b.last() == s@[s@.len() - 1] as u8);
}

/// A text that is another with `[]` behind it is an array of the other.
proof fn lemma_array_text(a: &str, x: &str)
    requires
        is_ascii(a),
        is_ascii(x),
        a@ == x@ + seq!['[', ']'],
    ensures
        outer_modifier(a.spec_bytes()) == Some(Shape::Array(x.spec_bytes())),
{
    lemma_text_bytes(a);
    lemma_text_bytes(x);
    let b = a.spec_bytes();
    assert(a@[a@.len() - 1] == ']');
    assert(a@[a@.len() - 2] == '[');
    assert(b.take(b.len() - 2) =~= x.spec_bytes()) by {
        assert forall|i: int| 0 <= i < x@.len() implies b[i] == x.spec_bytes()[i] by {
            assert(a@[i] == x@[i]);
        }
    }
}

/// A text that is another with `$` behind it is a binary extension of the
/// other.
proof fn lemma_extension_text(e: &str, x: &str)
    requires
        is_ascii(e),
        is_ascii(x),
        e@ == x@ + seq!['$'],
    ensures
        outer_modifier(e.spec_bytes()) == Some(Shape::Extension(x.spec_bytes())),
{
    lemma_text_bytes(e);
    lemma_text_bytes(x);
    let b = e.spec_bytes();
    assert(e@[e@.len() - 1] == '$');
    assert(b.drop_last() =~= x.spec_bytes()) by {
        assert forall|i: int| 0 <= i < x@.len() implies b[i] == x.spec_bytes()[i] by {
            assert(e@[i] == x@[i]);
        }
    }
}

/// The first struct of a name stands no later than any struct of that name.
proof fn lemma_find_first(structs: Seq<StructModel>, name: Seq<u8>, from: int, at: int)
    requires
        0 <= from <= at < structs.len(),
        structs[at].name == name,
    ensures
        find_struct(structs, name, from) matches Some(i) && from <= i <= at,
    decreases at - from,
{
    if structs[from].name != name {
        lemma_find_first(structs, name, from + 1, at);
    }
}

/// A type expression without a modifier that, in the schema of ABI
/// documents, is a built-in type or a struct other than the document itself.
pub open spec fn inner_type(expr: Seq<u8>) -> bool {
    outer_modifier(expr) is None && (builtin_of(expr) is Some || find_struct(meta_structs(), expr, 0) != Some(
        10int,
    ))
}

/// An inner type, or an array of one.
pub open spec fn field_type(expr: Seq<u8>) -> bool {
    inner_type(expr) || match outer_modifier(expr) {
        Some(Shape::Array(inner)) => inner_type(inner),
        _ => false,
    }
}

/// Fields all of whose types are inner types or arrays of them.
pub open spec fn inner_fields(fields: Seq<(Seq<u8>, Seq<u8>)>) -> bool {
    forall|j: int| 0 <= j < fields.len() ==> field_type((#[trigger] fields[j]).1)
}

/// What an inner type resolves to in the schema: a built-in type, one of the
/// first ten structs, or nothing.
proof fn lemma_inner_resolution(expr: Seq<u8>)
    requires
        inner_type(expr),
    ensures
        match resolved(meta_model(), expr) {
            Ok(Shape::Builtin(_)) => true,
            Ok(Shape::Struct(i)) => 0 <= i <= 9,
            Err(_) => true,
            _ => false,
        },
{
    reveal(resolve_spec);
    lemma_find_struct_bounds(meta_structs(), expr, 0);
    assert(meta_structs().len() == 11);
}

/// What an array of an inner type resolves to in the schema: that array.
proof fn lemma_array_resolution(expr: Seq<u8>, inner: Seq<u8>)
    requires
        outer_modifier(expr) == Some(Shape::Array(inner)),
        outer_modifier(inner) is None,
    ensures
        resolved(meta_model(), expr) == Ok::<Shape, ErrorKind>(Shape::Array(inner)),
{
    reveal(resolve_spec);
}

/// A value under a field type of the schema shows where it ends, whatever
/// follows it; and a field type is no binary extension and no optional.
proof fn lemma_type_delimited(expr: Seq<u8>, v: Json, depth: nat, rest: Seq<u8>)
    requires
        field_type(expr),
    ensures
        delimited(meta_model(), expr, v, depth, rest),
        !(resolved(meta_model(), expr) matches Ok(Shape::Extension(_))),
        !(resolved(meta_model(), expr) matches Ok(Shape::Optional(_))),
    decreases depth, 0nat, 0nat,
{
    if inner_type(expr) {
        lemma_inner_resolution(expr);
        if depth > 0 {
            match resolved(meta_model(), expr) {
                Ok(Shape::Struct(i)) => {
                    if v is Object {
                        lemma_struct_delimited(i, v->Object_0, (depth - 1) as nat, rest);
                    }
                },
                _ => {},
            }
        }
    } else {
        let inner = outer_modifier(expr)->Some_0->Array_0;
        lemma_array_resolution(expr, inner);
        if depth > 0 && v is Array {
            lemma_items_delimited(inner, v->Array_0, 0, (depth - 1) as nat, rest);
        }
    }
}

/// The items of an array of an inner type show where they end.
proof fn lemma_items_delimited(inner: Seq<u8>, items: Seq<Json>, from: int, depth: nat, rest: Seq<u8>)
    requires
        inner_type(inner),
        0 <= from,
    ensures
        items_delimited(meta_model(), inner, items, from, depth, rest),
    decreases depth, 1nat, items.len() - from,
{
    if from < items.len() {
        let behind = bytes_of(crate::codec::encode_items_spec(meta_model(), inner, items, from + 1, depth)) + rest;
        lemma_type_delimited(inner, items[from], depth, behind);
        lemma_items_delimited(inner, items, from + 1, depth, rest);
    }
}

/// An object under one of the first ten structs of the schema shows where it
/// ends.
proof fn lemma_struct_delimited(index: int, entries: Seq<(Seq<u8>, Json)>, depth: nat, rest: Seq<u8>)
    requires
        0 <= index <= 9,
    ensures
        struct_delimited(meta_model(), index, entries, depth, rest),
    decreases depth, 3nat, 0nat,
{
    if depth > 0 {
        lemma_inner_structs(index);
        let def = meta_model().structs[index];
        lemma_fields_delimited(def.fields, 0, entries, false, depth, rest);
    }
}

/// An object under fields of inner types shows where it ends.
proof fn lemma_fields_delimited(
    fields: Seq<(Seq<u8>, Seq<u8>)>,
    from: int,
    entries: Seq<(Seq<u8>, Json)>,
    skipped: bool,
    depth: nat,
    rest: Seq<u8>,
)
    requires
        inner_fields(fields),
        0 <= from,
    ensures
        fields_delimited(meta_model(), fields, from, entries, skipped, depth, rest),
    decreases depth, 2nat, fields.len() - from,
{
    if from < fields.len() {
        let field = fields[from];
        assert(field_type(field.1));
        lemma_type_delimited(field.1, Json::Null, depth, rest);
        match lookup(entries, field.0) {
            Some(v) => {
                let behind = field_bytes_of(
                    encode_fields_spec(meta_model(), fields, from + 1, entries, false, depth),
                ) + rest;
                lemma_type_delimited(field.1, v, depth, behind);
                lemma_fields_delimited(fields, from + 1, entries, false, depth, rest);
            },
            None => {},
        }
    }
}

/// `uint16` is an inner type.
proof fn lemma_builtin_uint16()
    ensures
        inner_type("uint16".spec_bytes()),
{
    reveal(builtin_of);
    reveal_strlit("uint16");
    lemma_plain_text("uint16");
}

/// `bytes` is an inner type.
proof fn lemma_builtin_bytes()
    ensures
        inner_type("bytes".spec_bytes()),
{
    reveal(builtin_of);
    reveal_strlit("bytes");
    lemma_plain_text("bytes");
}

/// `string` is an inner type.
proof fn lemma_builtin_string()
    ensures
        inner_type("string".spec_bytes()),
{
    reveal(builtin_of);
    reveal_strlit("string");
    lemma_plain_text("string");
}

/// `name` is an inner type.
proof fn lemma_builtin_name()
    ensures
        inner_type("name".spec_bytes()),
{
    reveal(builtin_of);
    reveal_strlit("name");
    lemma_plain_text("name");
}

/// `uint64` is an inner type.
proof fn lemma_builtin_uint64()
    ensures
        inner_type("uint64".spec_bytes()),
{
    reveal(builtin_of);
    reveal_strlit("uint64");
    lemma_plain_text("uint64");
}

/// The names of the built-in types that the schema uses are inner types.
proof fn lemma_builtin_texts()
    ensures
        inner_type("uint16".spec_bytes()),
        inner_type("bytes".spec_bytes()),
        inner_type("string".spec_bytes()),
        inner_type("name".spec_bytes()),
        inner_type("uint64".spec_bytes()),
{
    lemma_builtin_uint16();
    lemma_builtin_bytes();
    lemma_builtin_string();
    lemma_builtin_name();
    lemma_builtin_uint64();
}

/// An array of the struct at `at` of the schema, one of the first ten, is a
/// field type.
proof fn lemma_struct_array(array: &str, name: &str, at: int)
    requires
        is_ascii(array),
        is_ascii(name),
        array@ == name@ + seq!['[', ']'],
        name@.len() >= 1,
        name@.last() != '$',
        name@.last() != '?',
        name@.last() != ']',
        0 <= at <= 9,
        meta_structs()[at].name == name.spec_bytes(),
    ensures
        field_type(array.spec_bytes()),
        inner_type(name.spec_bytes()),
        outer_modifier(array.spec_bytes()) == Some(Shape::Array(name.spec_bytes())),
{
    lemma_array_text(array, name);
    lemma_plain_text(name);
    lemma_find_first(meta_structs(), name.spec_bytes(), 0, at);
}

/// An array of strings is a field type.
proof fn lemma_array_of_strings()
    ensures
        field_type("string[]".spec_bytes()),
{
    lemma_builtin_texts();
    reveal_strlit("string[]");
    reveal_strlit("string");
    assert("string[]"@ =~= "string"@ + seq!['[', ']']);
    lemma_array_text("string[]", "string");
}

/// An array of `field_def` is a field type.
proof fn lemma_array_of_field_def()
    ensures
        field_type("field_def[]".spec_bytes()),
{
    reveal_strlit("field_def[]");
    reveal_strlit("field_def");
    assert("field_def[]"@ =~= "field_def"@ + seq!['[', ']']);
    lemma_struct_array("field_def[]", "field_def", 2);
}

/// The first ten structs of the schema have no base and fields of inner
/// types only.
#[verifier::rlimit(40)]
proof fn lemma_inner_structs(index: int)
    requires
        0 <= index <= 9,
    ensures
        meta_model().structs[index].base.len() == 0,
        inner_fields(meta_model().structs[index].fields),
{
    lemma_builtin_texts();
    let fields = meta_structs()[index].fields;
    lemma_array_of_strings();
    lemma_array_of_field_def();
    assert forall|j: int| 0 <= j < fields.len() implies field_type((#[trigger] fields[j]).1) by {
        if index == 0 {
            if j == 0 {
            } else {
            }
        } else if index == 1 {
            if j == 0 {
            } else {
            }
        } else if index == 2 {
            if j == 0 {
            } else {
            }
        } else if index == 3 {
            if j == 0 {
            } else if j == 1 {
            } else {
            }
        } else if index == 4 {
            if j == 0 {
            } else if j == 1 {
            } else {
            }
        } else if index == 5 {
            if j == 0 {
            } else if j == 1 {
            } else if j == 2 {
            } else if j == 3 {
            } else {
            }
        } else if index == 6 {
            if j == 0 {
            } else {
            }
        } else if index == 7 {
            if j == 0 {
            } else {
            }
        } else if index == 8 {
            if j == 0 {
            } else {
            }
        } else {
            if j == 0 {
            } else {
            }
        }
    }
}

/// A binary extension of an array of an inner type.
pub open spec fn extension_type(expr: Seq<u8>) -> bool {
    match outer_modifier(expr) {
        Some(Shape::Extension(inner)) => match outer_modifier(inner) {
            Some(Shape::Array(item)) => inner_type(item),
            _ => false,
        },
        _ => false,
    }
}

/// What a binary extension of an array resolves to in the schema: that
/// extension.
proof fn lemma_extension_resolution(expr: Seq<u8>)
    requires
        extension_type(expr),
    ensures
        resolved(meta_model(), expr) == Ok::<Shape, ErrorKind>(outer_modifier(expr)->Some_0),
        field_type(outer_modifier(expr)->Some_0->Extension_0),
{
    reveal(resolve_spec);
}

/// An array of `type_def` is a field type.
proof fn lemma_array_of_type_def()
    ensures
        field_type("type_def[]".spec_bytes()),
        outer_modifier("type_def[]".spec_bytes()) == Some(Shape::Array("type_def".spec_bytes())),
        inner_type("type_def".spec_bytes()),
{
    reveal_strlit("type_def[]");
    reveal_strlit("type_def");
    assert("type_def[]"@ =~= "type_def"@ + seq!['[', ']']);
    lemma_struct_array("type_def[]", "type_def", 1);
}

/// An array of `struct_def` is a field type.
proof fn lemma_array_of_struct_def()
    ensures
        field_type("struct_def[]".spec_bytes()),
        outer_modifier("struct_def[]".spec_bytes()) == Some(Shape::Array("struct_def".spec_bytes())),
        inner_type("struct_def".spec_bytes()),
{
    reveal_strlit("struct_def[]");
    reveal_strlit("struct_def");
    assert("struct_def[]"@ =~= "struct_def"@ + seq!['[', ']']);
    lemma_struct_array("struct_def[]", "struct_def", 3);
}

/// An array of `action_def` is a field type.
proof fn lemma_array_of_action_def()
    ensures
        field_type("action_def[]".spec_bytes()),
        outer_modifier("action_def[]".spec_bytes()) == Some(Shape::Array("action_def".spec_bytes())),
        inner_type("action_def".spec_bytes()),
{
    reveal_strlit("action_def[]");
    reveal_strlit("action_def");
    assert("action_def[]"@ =~= "action_def"@ + seq!['[', ']']);
    lemma_struct_array("action_def[]", "action_def", 4);
}

/// An array of `table_def` is a field type.
proof fn lemma_array_of_table_def()
    ensures
        field_type("table_def[]".spec_bytes()),
        outer_modifier("table_def[]".spec_bytes()) == Some(Shape::Array("table_def".spec_bytes())),
        inner_type("table_def".spec_bytes()),
{
    reveal_strlit("table_def[]");
    reveal_strlit("table_def");
    assert("table_def[]"@ =~= "table_def"@ + seq!['[', ']']);
    lemma_struct_array("table_def[]", "table_def", 5);
}

/// An array of `clause_pair` is a field type.
proof fn lemma_array_of_clause_pair()
    ensures
        field_type("clause_pair[]".spec_bytes()),
        outer_modifier("clause_pair[]".spec_bytes()) == Some(Shape::Array("clause_pair".spec_bytes())),
        inner_type("clause_pair".spec_bytes()),
{
    reveal_strlit("clause_pair[]");
    reveal_strlit("clause_pair");
    assert("clause_pair[]"@ =~= "clause_pair"@ + seq!['[', ']']);
    lemma_struct_array("clause_pair[]", "clause_pair", 6);
}

/// An array of `error_message` is a field type.
proof fn lemma_array_of_error_message()
    ensures
        field_type("error_message[]".spec_bytes()),
        outer_modifier("error_message[]".spec_bytes()) == Some(Shape::Array("error_message".spec_bytes())),
        inner_type("error_message".spec_bytes()),
{
    reveal_strlit("error_message[]");
    reveal_strlit("error_message");
    assert("error_message[]"@ =~= "error_message"@ + seq!['[', ']']);
    lemma_struct_array("error_message[]", "error_message", 7);
}

/// An array of `extensions_entry` is a field type.
proof fn lemma_array_of_extensions_entry()
    ensures
        field_type("extensions_entry[]".spec_bytes()),
        outer_modifier("extensions_entry[]".spec_bytes()) == Some(Shape::Array("extensions_entry".spec_bytes())),
        inner_type("extensions_entry".spec_bytes()),
{
    reveal_strlit("extensions_entry[]");
    reveal_strlit("extensions_entry");
    assert("extensions_entry[]"@ =~= "extensions_entry"@ + seq!['[', ']']);
    lemma_struct_array("extensions_entry[]", "extensions_entry", 0);
}

/// An array of `variant_def` is a field type.
proof fn lemma_array_of_variant_def()
    ensures
        field_type("variant_def[]".spec_bytes()),
        outer_modifier("variant_def[]".spec_bytes()) == Some(Shape::Array("variant_def".spec_bytes())),
        inner_type("variant_def".spec_bytes()),
{
    reveal_strlit("variant_def[]");
    reveal_strlit("variant_def");
    assert("variant_def[]"@ =~= "variant_def"@ + seq!['[', ']']);
    lemma_struct_array("variant_def[]", "variant_def", 8);
}

/// An array of `action_result_def` is a field type.
proof fn lemma_array_of_action_result_def()
    ensures
        field_type("action_result_def[]".spec_bytes()),
        outer_modifier("action_result_def[]".spec_bytes()) == Some(Shape::Array("action_result_def".spec_bytes())),
        inner_type("action_result_def".spec_bytes()),
{
    reveal_strlit("action_result_def[]");
    reveal_strlit("action_result_def");
    assert("action_result_def[]"@ =~= "action_result_def"@ + seq!['[', ']']);
    lemma_struct_array("action_result_def[]", "action_result_def", 9);
}

/// A binary extension of an array of `variant_def` is an extension type.
proof fn lemma_extension_of_variant_def()
    ensures
        extension_type("variant_def[]$".spec_bytes()),
{
    lemma_array_of_variant_def();
    reveal_strlit("variant_def[]$");
    reveal_strlit("variant_def[]");
    assert("variant_def[]$"@ =~= "variant_def[]"@ + seq!['$']);
    lemma_extension_text("variant_def[]$", "variant_def[]");
}

/// A binary extension of an array of `action_result_def` is an extension type.
proof fn lemma_extension_of_action_result_def()
    ensures
        extension_type("action_result_def[]$".spec_bytes()),
{
    lemma_array_of_action_result_def();
    reveal_strlit("action_result_def[]$");
    reveal_strlit("action_result_def[]");
    assert("action_result_def[]$"@ =~= "action_result_def[]"@ + seq!['$']);
    lemma_extension_text("action_result_def[]$", "action_result_def[]");
}

/// The struct of ABI documents has no base and ten fields: eight of field
/// types, then two binary extensions of arrays.
#[verifier::rlimit(40)]
proof fn lemma_document_fields()
    ensures
        meta_model().structs[10].base.len() == 0,
        meta_model().structs[10].fields.len() == 10,
        forall|j: int| 0 <= j < 8 ==> field_type((#[trigger] meta_model().structs[10].fields[j]).1),
        forall|j: int| 8 <= j < 10 ==> extension_type((#[trigger] meta_model().structs[10].fields[j]).1),
{
    lemma_builtin_texts();
    lemma_array_of_type_def();
    lemma_array_of_struct_def();
    lemma_array_of_action_def();
    lemma_array_of_table_def();
    lemma_array_of_clause_pair();
    lemma_array_of_error_message();
    lemma_array_of_extensions_entry();
    lemma_extension_of_variant_def();
    lemma_extension_of_action_result_def();
    let fields = meta_structs()[10].fields;
    assert forall|j: int| 0 <= j < 8 implies field_type((#[trigger] fields[j]).1) by {
        if j == 0 {
        } else if j == 1 {
        } else if j == 2 {
        } else if j == 3 {
        } else if j == 4 {
        } else if j == 5 {
        } else if j == 6 {
        } else {
        }
    }
    assert forall|j: int| 8 <= j < 10 implies extension_type((#[trigger] fields[j]).1) by {
        if j == 8 {
        } else {
        }
    }
}

/// The fields of an ABI document from `from` on show where they end, where
/// nothing follows the document.
#[verifier::rlimit(40)]
proof fn lemma_document_delimited(from: int, entries: Seq<(Seq<u8>, Json)>, skipped: bool, depth: nat)
    requires
        0 <= from,
        depth > 0,
        encode_fields_spec(meta_model(), meta_model().structs[10].fields, from, entries, skipped, depth) is Ok,
    ensures
        fields_delimited(
            meta_model(),
            meta_model().structs[10].fields,
            from,
            entries,
            skipped,
            depth,
            Seq::empty(),
        ),
    decreases 10 - from,
{
    let meta = meta_model();
    let fields = meta.structs[10].fields;
    lemma_document_fields();
    if from < 10 {
        let field = fields[from];
        if from < 8 {
            assert(field_type(field.1));
            lemma_type_delimited(field.1, Json::Null, depth, Seq::empty());
        } else {
            assert(extension_type(field.1));
            lemma_extension_resolution(field.1);
        }
        match lookup(entries, field.0) {
            Some(v) => {
                let behind = field_bytes_of(encode_fields_spec(meta, fields, from + 1, entries, false, depth))
                    + Seq::<u8>::empty();
                lemma_document_delimited(from + 1, entries, false, depth);
                assert(!skipped);
                assert(encode_spec(meta, field.1, v, depth) is Ok);
                if from < 8 {
                    lemma_type_delimited(field.1, v, depth, behind);
                } else {
                    let inner = outer_modifier(field.1)->Some_0->Extension_0;
                    lemma_type_delimited(inner, v, (depth - 1) as nat, behind);
                    lemma_extension_bytes(field.1, v, depth);
                    assert(delimited(meta, field.1, v, depth, behind) == delimited(
                        meta,
                        inner,
                        v,
                        (depth - 1) as nat,
                        behind,
                    ));
                }
                assert(delimited(meta, field.1, v, depth, behind));
                assert(fields_delimited(meta, fields, from + 1, entries, false, depth, Seq::empty()));
                assert(resolved(meta, field.1) matches Ok(Shape::Extension(_)) ==> (bytes_of(
                    encode_spec(meta, field.1, v, depth),
                ) + behind).len() > 0);
            },
            None => {
                if from < 8 {
                    assert(!(resolved(meta, field.1) matches Ok(Shape::Extension(_))));
                    assert(!(resolved(meta, field.1) matches Ok(Shape::Optional(_))));
                } else {
                    assert(resolved(meta, field.1) matches Ok(Shape::Extension(_)));
                }
            },
        }
    }
}

/// The binary form of an array under a binary extension of the schema is not
/// empty: it begins with the count of the items.
proof fn lemma_extension_bytes(expr: Seq<u8>, v: Json, depth: nat)
    requires
        extension_type(expr),
        encode_spec(meta_model(), expr, v, depth) is Ok,
    ensures
        bytes_of(encode_spec(meta_model(), expr, v, depth)).len() > 0,
{
    let meta = meta_model();
    lemma_extension_resolution(expr);
    let inner = outer_modifier(expr)->Some_0->Extension_0;
    let item = outer_modifier(inner)->Some_0->Array_0;
    lemma_array_resolution(inner, item);
    assert(encode_spec(meta, expr, v, depth) == encode_spec(meta, inner, v, (depth - 1) as nat));
    assert(encode_spec(meta, inner, v, (depth - 1) as nat) == encode_array_spec(
        meta,
        item,
        v,
        (depth - 2) as nat,
    ));
    let items = v->Array_0;
    crate::varint::law_varuint32_round_trip(items.len(), Seq::empty());
}

/// An ABI document in JSON shows, in its binary form, where it ends.
#[verifier::rlimit(40)]
proof fn lemma_schema_delimited(w: Json)
    requires
        json_to_bin_spec(meta_model(), "abi_def".spec_bytes(), w) is Ok,
    ensures
        delimited(meta_model(), "abi_def".spec_bytes(), w, MAX_DEPTH as nat, Seq::empty()),
{
    let meta = meta_model();
    let key = "abi_def".spec_bytes();
    reveal_strlit("abi_def");
    lemma_plain_text("abi_def");
    lemma_document_fields();
    crate::resolve::lemma_resolved_bounds(meta, key, MAX_ALIAS_DEPTH as nat);
    lemma_find_struct_bounds(meta.structs, key, 0);
    assert(resolved(meta, key) is Ok ==> (resolved(meta, key)->Ok_0 is Builtin || resolved(meta, key)->Ok_0
        is Struct)) by {
        reveal(resolve_spec);
    }
    match resolved(meta, key) {
        Ok(Shape::Struct(i)) => {
            assert(encode_spec(meta, key, w, MAX_DEPTH as nat) == encode_object_spec(meta, i, w, 31));
            assert(w is Object);
            let entries = w->Object_0;
            assert(delimited(meta, key, w, MAX_DEPTH as nat, Seq::empty()) == struct_delimited(
                meta,
                i,
                entries,
                31,
                Seq::empty(),
            ));
            if i <= 9 {
                lemma_struct_delimited(i, entries, 31, Seq::empty());
            } else {
                assert(i == 10);
                assert(encode_struct_spec(meta, 10, entries, 31) is Ok);
                assert(encode_fields_spec(meta, meta.structs[10].fields, 0, entries, false, 31) is Ok);
                lemma_document_delimited(0, entries, false, 31);
                assert(struct_delimited(meta, 10, entries, 31, Seq::empty()) == fields_delimited(
                    meta,
                    meta.structs[10].fields,
                    0,
                    entries,
                    false,
                    31,
                    Seq::empty(),
                ));
            }
        },
        Ok(Shape::Builtin(_)) => {},
        Err(_) => {},
        _ => {},
    }
}

/// Round trip of ABI documents: the binary form of an ABI document given in
/// JSON reads back as the document's canonical form, for every document that
/// has a binary form.
pub proof fn law_abi_round_trip(v: Json)
    requires
        abi_json_to_bin_spec(v) is Ok,
    ensures
        abi_bin_to_json_spec(abi_json_to_bin_spec(v)->Ok_0) == Ok::<Json, ErrorKind>(
            canon(meta_model(), "abi_def".spec_bytes(), with_defaults_spec(v), MAX_DEPTH as nat),
        ),
{
    lemma_schema_delimited(with_defaults_spec(v));
    crate::roundtrip::law_round_trip(meta_model(), "abi_def".spec_bytes(), with_defaults_spec(v));
}

/// Round trip of ABI documents as text: the binary form of an ABI document
/// given in JSON turns back into JSON text, which is the text of the
/// document's canonical form and is never refused for want of UTF-8.
pub proof fn law_abi_text_round_trip(v: Json)
    requires
        abi_json_to_bin_spec(v) is Ok,
    ensures
        abi_bin_to_json_spec(abi_json_to_bin_spec(v)->Ok_0) is Ok,
        crate::abieos::utf8_or_error(
            crate::print::json_text(abi_bin_to_json_spec(abi_json_to_bin_spec(v)->Ok_0)->Ok_0),
        ) == Ok::<Seq<u8>, ErrorKind>(
            crate::print::json_text(
                canon(meta_model(), "abi_def".spec_bytes(), with_defaults_spec(v), MAX_DEPTH as nat),
            ),
        ),
{
    law_abi_round_trip(v);
    crate::wellformed::law_abi_text_is_utf8(abi_json_to_bin_spec(v)->Ok_0);
}

/// The same document both ways: the document that is registered from a JSON
/// form is the document that the canonical form of that JSON writes, which is
/// the JSON that the binary form turns back into.
pub proof fn law_abi_document_of_round_trip(v: Json)
    requires
        abi_json_to_bin_spec(v) is Ok,
    ensures
        abi_of_value(v) == match crate::extract::abi_of_json(
            canon(meta_model(), "abi_def".spec_bytes(), with_defaults_spec(v), MAX_DEPTH as nat),
        ) {
            Some(abi) => if crate::validate::abi_valid(abi) {
                Some(abi)
            } else {
                None
            },
            None => None,
        },
{
    law_abi_round_trip(v);
}

} // verus!
