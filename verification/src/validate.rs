use crate::abi::{AbiDocument, AbiModel};
use crate::json::same_bytes;
use crate::resolve::{resolve, resolved, ResolvedType};
use vstd::prelude::*;

verus! {

/// The names that a document defines: those of its aliases, then of its
/// structs, then of its variants.
pub open spec fn defined_names(abi: AbiModel) -> Seq<Seq<u8>> {
    Seq::new(abi.types.len(), |i: int| abi.types[i].0) + Seq::new(abi.structs.len(), |i: int| abi.structs[i].name)
        + Seq::new(abi.variants.len(), |i: int| abi.variants[i].0)
}

/// No name occurs twice.
pub open spec fn names_distinct(names: Seq<Seq<u8>>) -> bool {
    forall|i: int, j: int| #![trigger names[i], names[j]] 0 <= i < j < names.len() ==> names[i] != names[j]
}

/// The struct at `i` names no base, or a base that resolves to a struct.
pub open spec fn base_resolves(abi: AbiModel, i: int) -> bool {
    abi.structs[i].base.len() == 0 || (resolved(abi, abi.structs[i].base) is Ok && resolved(
        abi,
        abi.structs[i].base,
    )->Ok_0 is Struct)
}

/// A document that can be registered: it defines no name twice, and every
/// base that a struct names resolves to a struct.
pub open spec fn abi_valid(abi: AbiModel) -> bool {
    &&& names_distinct(defined_names(abi))
    &&& forall|i: int| 0 <= i < abi.structs.len() ==> #[trigger] base_resolves(abi, i)
}

/// The names that a document defines.
fn collect_names(abi: &AbiDocument) -> (r: Vec<&Vec<u8>>)
    ensures
        r@.len() == defined_names(abi@).len(),
        forall|k: int| 0 <= k < r@.len() ==> (#[trigger] r@[k])@ == defined_names(abi@)[k],
{
    let mut names: Vec<&Vec<u8>> = Vec::new();
    let ghost all = defined_names(abi@);
    let mut i: usize = 0;
    while i < abi.types.len()
        invariant
            i <= abi.types.len(),
            all == defined_names(abi@),
            names@.len() == i,
            forall|k: int| 0 <= k < names@.len() ==> (#[trigger] names@[k])@ == all[k],
        decreases abi.types.len() - i,
    {
        names.push(&abi.types[i].alias_name);
        i += 1;
    }
    let mut j: usize = 0;
    while j < abi.structs.len()
        invariant
            j <= abi.structs.len(),
            all == defined_names(abi@),
            names@.len() == abi.types.len() + j,
            forall|k: int| 0 <= k < names@.len() ==> (#[trigger] names@[k])@ == all[k],
        decreases abi.structs.len() - j,
    {
        names.push(&abi.structs[j].name);
        j += 1;
    }
    let mut m: usize = 0;
    while m < abi.variants.len()
        invariant
            m <= abi.variants.len(),
            all == defined_names(abi@),
            names@.len() == abi.types.len() + abi.structs.len() + m,
            forall|k: int| 0 <= k < names@.len() ==> (#[trigger] names@[k])@ == all[k],
        decreases abi.variants.len() - m,
    {
        names.push(&abi.variants[m].name);
        m += 1;
    }
    names
}

/// Whether no name occurs twice.
fn all_distinct(names: &Vec<&Vec<u8>>) -> (r: bool)
    ensures
        r == names_distinct(Seq::new(names@.len(), |k: int| names@[k]@)),
{
    let ghost model = Seq::new(names@.len(), |k: int| names@[k]@);
    let mut j: usize = 0;
    while j < names.len()
        invariant
            j <= names.len(),
            model == Seq::new(names@.len(), |k: int| names@[k]@),
            forall|a: int, b: int| #![trigger model[a], model[b]] 0 <= a < b < j ==> model[a] != model[b],
        decreases names.len() - j,
    {
        let mut i: usize = 0;
        while i < j
            invariant
                i <= j < names.len(),
                model == Seq::new(names@.len(), |k: int| names@[k]@),
                forall|a: int| #![trigger model[a]] 0 <= a < i ==> model[a] != model[j as int],
            decreases j - i,
        {
            if same_bytes(names[i].as_slice(), names[j].as_slice()) {
                assert(model[i as int] == model[j as int]);
                return false;
            }
            i += 1;
        }
        j += 1;
    }
    true
}

/// Whether a document can be registered.
pub fn validate(abi: &AbiDocument) -> (r: bool)
    ensures
        r == abi_valid(abi@),
{
    let names = collect_names(abi);
    assert(Seq::new(names@.len(), |k: int| names@[k]@) =~= defined_names(abi@));
    if !all_distinct(&names) {
        return false;
    }
    let mut i: usize = 0;
    while i < abi.structs.len()
        invariant
            i <= abi.structs.len(),
            forall|k: int| 0 <= k < i ==> #[trigger] base_resolves(abi@, k),
        decreases abi.structs.len() - i,
    {
        if abi.structs[i].base.len() != 0 {
            match resolve(abi, abi.structs[i].base.as_slice()) {
                Ok(ResolvedType::Struct(_)) => {},
                _ => {
                    assert(!base_resolves(abi@, i as int));
                    return false;
                },
            }
        }
        assert(base_resolves(abi@, i as int));
        i += 1;
    }
    true
}

} // verus!
