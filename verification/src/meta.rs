use crate::abi::{fields_model, AbiDocument, AbiModel, FieldDef, StructDef, StructModel};
use vstd::prelude::*;
use vstd::string::StringSliceAdditionalSpecFns;

verus! {

/// Fields of given names and type expressions, in order.
pub open spec fn field_models(list: Seq<(&str, &str)>) -> Seq<(Seq<u8>, Seq<u8>)> {
    Seq::new(list.len(), |i: int| (list[i].0.spec_bytes(), list[i].1.spec_bytes()))
}

/// A struct without a base, of a given name, with fields of given names and
/// type expressions.
pub open spec fn plain(name: &str, fields: Seq<(&str, &str)>) -> StructModel {
    StructModel { name: name.spec_bytes(), base: Seq::empty(), fields: field_models(fields) }
}

/// The structs of the schema of ABI documents.
pub open spec fn meta_structs() -> Seq<StructModel> {
    seq![
        plain("extensions_entry", seq![("tag", "uint16"), ("value", "bytes")]),
        plain("type_def", seq![("new_type_name", "string"), ("type", "string")]),
        plain("field_def", seq![("name", "string"), ("type", "string")]),
        plain("struct_def", seq![("name", "string"), ("base", "string"), ("fields", "field_def[]")]),
        plain("action_def", seq![("name", "name"), ("type", "string"), ("ricardian_contract", "string")]),
        plain(
            "table_def",
            seq![
                ("name", "name"),
                ("index_type", "string"),
                ("key_names", "string[]"),
                ("key_types", "string[]"),
                ("type", "string"),
            ],
        ),
        plain("clause_pair", seq![("id", "string"), ("body", "string")]),
        plain("error_message", seq![("error_code", "uint64"), ("error_msg", "string")]),
        plain("variant_def", seq![("name", "string"), ("types", "string[]")]),
        plain("action_result_def", seq![("name", "name"), ("result_type", "string")]),
        plain(
            "abi_def",
            seq![
                ("version", "string"),
                ("types", "type_def[]"),
                ("structs", "struct_def[]"),
                ("actions", "action_def[]"),
                ("tables", "table_def[]"),
                ("ricardian_clauses", "clause_pair[]"),
                ("error_messages", "error_message[]"),
                ("abi_extensions", "extensions_entry[]"),
                ("variants", "variant_def[]$"),
                ("action_results", "action_result_def[]$"),
            ],
        ),
    ]
}

/// The schema of ABI documents themselves: eleven structs and nothing else.
/// Its root type is `abi_def`.
pub open spec fn meta_model() -> AbiModel {
    AbiModel {
        version: "eosio::abi/1.2".spec_bytes(),
        types: Seq::empty(),
        structs: meta_structs(),
        variants: Seq::empty(),
        actions: Seq::empty(),
        tables: Seq::empty(),
        action_results: Seq::empty(),
    }
}

/// The UTF-8 bytes of a text.
pub fn text_bytes(text: &str) -> (r: Vec<u8>)
    ensures
        r@ == text.spec_bytes(),
{
    vstd::slice::slice_to_vec(text.as_bytes())
}

/// Fields of given names and type expressions.
fn fields_from(list: Vec<(&'static str, &'static str)>) -> (r: Vec<FieldDef>)
    ensures
        fields_model(r@) == field_models(list@),
{
    let mut fields: Vec<FieldDef> = Vec::new();
    let mut i: usize = 0;
    while i < list.len()
        invariant
            i <= list.len(),
            fields@.len() == i,
            fields_model(fields@) =~= field_models(list@.take(i as int)),
        decreases list.len() - i,
    {
        let (name, type_expr) = list[i];
        let ghost before = fields@;
        fields.push(FieldDef { name: text_bytes(name), type_expr: text_bytes(type_expr) });
        proof {
            let a = fields_model(fields@);
            let b = field_models(list@.take(i + 1));
            assert(a.len() == b.len());
            assert forall|j: int| 0 <= j < a.len() implies a[j] == b[j] by {
                if j < i {
                    assert(fields@[j] == before[j]);
                    assert(fields_model(before)[j] == field_models(list@.take(i as int))[j]);
                    assert(list@.take(i as int)[j] == list@.take(i + 1)[j]);
                }
            }
        }
        i += 1;
    }
    assert(list@.take(i as int) =~= list@);
    fields
}

/// A struct without a base, of a given name, with fields of given names and
/// type expressions.
fn plain_struct(name: &'static str, list: Vec<(&'static str, &'static str)>) -> (r: StructDef)
    ensures
        r@ == plain(name, list@),
{
    let def = StructDef { name: text_bytes(name), base: Vec::new(), fields: fields_from(list) };
    assert(def.base@ =~= Seq::<u8>::empty());
    def
}

/// The schema of ABI documents themselves.
pub fn meta_abi() -> (r: AbiDocument)
    ensures
        r@ == meta_model(),
{
    let mut structs: Vec<StructDef> = Vec::new();
    structs.push(plain_struct("extensions_entry", vec![("tag", "uint16"), ("value", "bytes")]));
    structs.push(plain_struct("type_def", vec![("new_type_name", "string"), ("type", "string")]));
    structs.push(plain_struct("field_def", vec![("name", "string"), ("type", "string")]));
    structs.push(
        plain_struct("struct_def", vec![("name", "string"), ("base", "string"), ("fields", "field_def[]")]),
    );
    structs.push(
        plain_struct(
            "action_def",
            vec![("name", "name"), ("type", "string"), ("ricardian_contract", "string")],
        ),
    );
    structs.push(
        plain_struct(
            "table_def",
            vec![
                ("name", "name"),
                ("index_type", "string"),
                ("key_names", "string[]"),
                ("key_types", "string[]"),
                ("type", "string"),
            ],
        ),
    );
    structs.push(plain_struct("clause_pair", vec![("id", "string"), ("body", "string")]));
    structs.push(plain_struct("error_message", vec![("error_code", "uint64"), ("error_msg", "string")]));
    structs.push(plain_struct("variant_def", vec![("name", "string"), ("types", "string[]")]));
    structs.push(plain_struct("action_result_def", vec![("name", "name"), ("result_type", "string")]));
    structs.push(
        plain_struct(
            "abi_def",
            vec![
                ("version", "string"),
                ("types", "type_def[]"),
                ("structs", "struct_def[]"),
                ("actions", "action_def[]"),
                ("tables", "table_def[]"),
                ("ricardian_clauses", "clause_pair[]"),
                ("error_messages", "error_message[]"),
                ("abi_extensions", "extensions_entry[]"),
                ("variants", "variant_def[]$"),
                ("action_results", "action_result_def[]$"),
            ],
        ),
    );
    let abi = AbiDocument {
        version: text_bytes("eosio::abi/1.2"),
        types: Vec::new(),
        structs,
        variants: Vec::new(),
        actions: Vec::new(),
        tables: Vec::new(),
        action_results: Vec::new(),
    };
    proof {
        assert(abi@.structs =~= meta_structs());
        assert(abi@.types =~= Seq::empty());
        assert(abi@.variants =~= Seq::empty());
        assert(abi@.actions =~= Seq::empty());
        assert(abi@.tables =~= Seq::empty());
        assert(abi@.action_results =~= Seq::empty());
    }
    abi
}

} // verus!
