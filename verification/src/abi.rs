use crate::json::same_bytes;
use vstd::prelude::*;

verus! {

/// An alias: a new name for a type expression.
pub struct TypeDef {
    pub alias_name: Vec<u8>,
    pub type_expr: Vec<u8>,
}

/// A field of a struct: its name and its type expression.
pub struct FieldDef {
    pub name: Vec<u8>,
    pub type_expr: Vec<u8>,
}

/// A struct: its name, the name of its base struct (empty for none) and its
/// own fields in declaration order.
pub struct StructDef {
    pub name: Vec<u8>,
    pub base: Vec<u8>,
    pub fields: Vec<FieldDef>,
}

/// A variant: its name and its member type expressions; a member's position
/// is its tag.
pub struct VariantDef {
    pub name: Vec<u8>,
    pub types: Vec<Vec<u8>>,
}

/// A binding of an action, a table or an action result to a type name.
pub struct Binding {
    pub name: u64,
    pub type_expr: Vec<u8>,
}

/// The part of an ABI document that conversions and lookups read.
pub struct AbiDocument {
    pub version: Vec<u8>,
    pub types: Vec<TypeDef>,
    pub structs: Vec<StructDef>,
    pub variants: Vec<VariantDef>,
    pub actions: Vec<Binding>,
    pub tables: Vec<Binding>,
    pub action_results: Vec<Binding>,
}

/// A struct definition as a mathematical value.
pub struct StructModel {
    pub name: Seq<u8>,
    pub base: Seq<u8>,
    pub fields: Seq<(Seq<u8>, Seq<u8>)>,
}

/// An ABI document as a mathematical value.
pub struct AbiModel {
    pub version: Seq<u8>,
    pub types: Seq<(Seq<u8>, Seq<u8>)>,
    pub structs: Seq<StructModel>,
    pub variants: Seq<(Seq<u8>, Seq<Seq<u8>>)>,
    pub actions: Seq<(u64, Seq<u8>)>,
    pub tables: Seq<(u64, Seq<u8>)>,
    pub action_results: Seq<(u64, Seq<u8>)>,
}

impl View for TypeDef {
    type V = (Seq<u8>, Seq<u8>);

    open spec fn view(&self) -> (Seq<u8>, Seq<u8>) {
        (self.alias_name@, self.type_expr@)
    }
}

impl View for FieldDef {
    type V = (Seq<u8>, Seq<u8>);

    open spec fn view(&self) -> (Seq<u8>, Seq<u8>) {
        (self.name@, self.type_expr@)
    }
}

impl View for StructDef {
    type V = StructModel;

    open spec fn view(&self) -> StructModel {
        StructModel {
            name: self.name@,
            base: self.base@,
            fields: fields_model(self.fields@),
        }
    }
}

impl View for VariantDef {
    type V = (Seq<u8>, Seq<Seq<u8>>);

    open spec fn view(&self) -> (Seq<u8>, Seq<Seq<u8>>) {
        (self.name@, strings_model(self.types@))
    }
}

impl View for Binding {
    type V = (u64, Seq<u8>);

    open spec fn view(&self) -> (u64, Seq<u8>) {
        (self.name, self.type_expr@)
    }
}

impl View for AbiDocument {
    type V = AbiModel;

    open spec fn view(&self) -> AbiModel {
        AbiModel {
            version: self.version@,
            types: Seq::new(self.types@.len(), |i: int| self.types@[i]@),
            structs: Seq::new(self.structs@.len(), |i: int| self.structs@[i]@),
            variants: Seq::new(self.variants@.len(), |i: int| self.variants@[i]@),
            actions: bindings_model(self.actions@),
            tables: bindings_model(self.tables@),
            action_results: bindings_model(self.action_results@),
        }
    }
}

/// The models of a list of fields, in order.
pub open spec fn fields_model(fields: Seq<FieldDef>) -> Seq<(Seq<u8>, Seq<u8>)> {
    Seq::new(fields.len(), |i: int| fields[i]@)
}

/// The models of a list of byte strings, in order.
pub open spec fn strings_model(strings: Seq<Vec<u8>>) -> Seq<Seq<u8>> {
    Seq::new(strings.len(), |i: int| strings[i]@)
}

/// The models of a list of bindings, in order.
pub open spec fn bindings_model(bindings: Seq<Binding>) -> Seq<(u64, Seq<u8>)> {
    Seq::new(bindings.len(), |i: int| bindings[i]@)
}

/// The target of the first alias named `name`, looking from `from` on.
pub open spec fn find_alias(types: Seq<(Seq<u8>, Seq<u8>)>, name: Seq<u8>, from: int) -> Option<Seq<u8>>
    decreases types.len() - from,
{
    if from < 0 || from >= types.len() {
        None
    } else if types[from].0 == name {
        Some(types[from].1)
    } else {
        find_alias(types, name, from + 1)
    }
}

/// The index of the first struct named `name`, looking from `from` on.
pub open spec fn find_struct(structs: Seq<StructModel>, name: Seq<u8>, from: int) -> Option<int>
    decreases structs.len() - from,
{
    if from < 0 || from >= structs.len() {
        None
    } else if structs[from].name == name {
        Some(from)
    } else {
        find_struct(structs, name, from + 1)
    }
}

/// The index of the first variant named `name`, looking from `from` on.
pub open spec fn find_variant(variants: Seq<(Seq<u8>, Seq<Seq<u8>>)>, name: Seq<u8>, from: int) -> Option<int>
    decreases variants.len() - from,
{
    if from < 0 || from >= variants.len() {
        None
    } else if variants[from].0 == name {
        Some(from)
    } else {
        find_variant(variants, name, from + 1)
    }
}

/// The index of the first member equal to `name`, looking from `from` on.
pub open spec fn find_member(types: Seq<Seq<u8>>, name: Seq<u8>, from: int) -> Option<int>
    decreases types.len() - from,
{
    if from < 0 || from >= types.len() {
        None
    } else if types[from] == name {
        Some(from)
    } else {
        find_member(types, name, from + 1)
    }
}

/// The type expression of the first binding of `name`, looking from `from` on.
pub open spec fn find_binding(bindings: Seq<(u64, Seq<u8>)>, name: u64, from: int) -> Option<Seq<u8>>
    decreases bindings.len() - from,
{
    if from < 0 || from >= bindings.len() {
        None
    } else if bindings[from].0 == name {
        Some(bindings[from].1)
    } else {
        find_binding(bindings, name, from + 1)
    }
}

/// What `find_struct` finds is an index of the list, at or after `from`.
pub proof fn lemma_find_struct_bounds(structs: Seq<StructModel>, name: Seq<u8>, from: int)
    requires
        0 <= from,
    ensures
        find_struct(structs, name, from) matches Some(i) ==> from <= i < structs.len(),
    decreases structs.len() - from,
{
    if from < structs.len() && structs[from].name != name {
        lemma_find_struct_bounds(structs, name, from + 1);
    }
}

/// What `find_variant` finds is an index of the list, at or after `from`.
pub proof fn lemma_find_variant_bounds(variants: Seq<(Seq<u8>, Seq<Seq<u8>>)>, name: Seq<u8>, from: int)
    requires
        0 <= from,
    ensures
        find_variant(variants, name, from) matches Some(i) ==> from <= i < variants.len(),
    decreases variants.len() - from,
{
    if from < variants.len() && variants[from].0 != name {
        lemma_find_variant_bounds(variants, name, from + 1);
    }
}

/// What `find_member` finds is that member, at or after `from`.
pub proof fn lemma_find_member_bounds(types: Seq<Seq<u8>>, name: Seq<u8>, from: int)
    ensures
        match find_member(types, name, from) {
            Some(i) => 0 <= i < types.len() && from <= i && types[i] == name,
            None => true,
        },
    decreases types.len() - from,
{
    if 0 <= from < types.len() && types[from] != name {
        lemma_find_member_bounds(types, name, from + 1);
    }
}

impl AbiDocument {
    /// The target of the alias `name`, if the document has one.
    pub fn alias_target(&self, name: &[u8]) -> (r: Option<&Vec<u8>>)
        ensures
            match r {
                Some(t) => find_alias(self@.types, name@, 0) == Some(t@),
                None => find_alias(self@.types, name@, 0) is None,
            },
    {
        let mut i: usize = 0;
        while i < self.types.len()
            invariant
                i <= self.types.len(),
                find_alias(self@.types, name@, 0) == find_alias(self@.types, name@, i as int),
            decreases self.types.len() - i,
        {
            if same_bytes(self.types[i].alias_name.as_slice(), name) {
                return Some(&self.types[i].type_expr);
            }
            i += 1;
        }
        None
    }

    /// The index of the first alias named `name`, if the document has one.
    pub fn alias_index(&self, name: &[u8]) -> (r: Option<usize>)
        ensures
            match r {
                Some(i) => i < self.types.len() && find_alias(self@.types, name@, 0) == Some(self@.types[i as int].1),
                None => find_alias(self@.types, name@, 0) is None,
            },
    {
        let mut i: usize = 0;
        while i < self.types.len()
            invariant
                i <= self.types.len(),
                find_alias(self@.types, name@, 0) == find_alias(self@.types, name@, i as int),
            decreases self.types.len() - i,
        {
            if same_bytes(self.types[i].alias_name.as_slice(), name) {
                return Some(i);
            }
            i += 1;
        }
        None
    }

    /// The index of the struct `name`, if the document has one.
    pub fn struct_index(&self, name: &[u8]) -> (r: Option<usize>)
        ensures
            match r {
                Some(i) => find_struct(self@.structs, name@, 0) == Some(i as int) && i < self.structs.len(),
                None => find_struct(self@.structs, name@, 0) is None,
            },
    {
        let mut i: usize = 0;
        while i < self.structs.len()
            invariant
                i <= self.structs.len(),
                find_struct(self@.structs, name@, 0) == find_struct(self@.structs, name@, i as int),
            decreases self.structs.len() - i,
        {
            if same_bytes(self.structs[i].name.as_slice(), name) {
                return Some(i);
            }
            i += 1;
        }
        None
    }

    /// The index of the variant `name`, if the document has one.
    pub fn variant_index(&self, name: &[u8]) -> (r: Option<usize>)
        ensures
            match r {
                Some(i) => find_variant(self@.variants, name@, 0) == Some(i as int) && i < self.variants.len(),
                None => find_variant(self@.variants, name@, 0) is None,
            },
    {
        let mut i: usize = 0;
        while i < self.variants.len()
            invariant
                i <= self.variants.len(),
                find_variant(self@.variants, name@, 0) == find_variant(self@.variants, name@, i as int),
            decreases self.variants.len() - i,
        {
            if same_bytes(self.variants[i].name.as_slice(), name) {
                return Some(i);
            }
            i += 1;
        }
        None
    }
}

/// The position of the member `name` in a variant's member list.
pub fn member_index(types: &Vec<Vec<u8>>, name: &[u8]) -> (r: Option<usize>)
    ensures
        match r {
            Some(i) => find_member(strings_model(types@), name@, 0) == Some(i as int) && i < types.len(),
            None => find_member(strings_model(types@), name@, 0) is None,
        },
{
    let mut i: usize = 0;
    while i < types.len()
        invariant
            i <= types.len(),
            find_member(strings_model(types@), name@, 0) == find_member(strings_model(types@), name@, i as int),
        decreases types.len() - i,
    {
        if same_bytes(types[i].as_slice(), name) {
            return Some(i);
        }
        i += 1;
    }
    None
}

/// The type expression bound to `name` in a list of bindings.
pub fn binding_type(bindings: &Vec<Binding>, name: u64) -> (r: Option<&Vec<u8>>)
    ensures
        match r {
            Some(t) => find_binding(bindings_model(bindings@), name, 0) == Some(t@),
            None => find_binding(bindings_model(bindings@), name, 0) is None,
        },
{
    let mut i: usize = 0;
    while i < bindings.len()
        invariant
            i <= bindings.len(),
            find_binding(bindings_model(bindings@), name, 0) == find_binding(
                bindings_model(bindings@),
                name,
                i as int,
            ),
        decreases bindings.len() - i,
    {
        if bindings[i].name == name {
            return Some(&bindings[i].type_expr);
        }
        i += 1;
    }
    None
}

} // verus!
