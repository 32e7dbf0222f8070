use crate::abi::{binding_type, find_binding, AbiDocument, AbiModel};
use crate::codec::{bin_to_json_spec, json_to_bin_spec, MAX_DEPTH};
use crate::decode::decode_value;
use crate::encode::encode_value;
use crate::error::ErrorKind;
use crate::extract::{abi_from_json, abi_of_json};
use crate::json::{entries_model, lemma_object_view, lookup, Json, JsonValue};
use crate::meta::{meta_abi, meta_model, text_bytes};
use crate::resolve::ResolutionCache;
use crate::validate::{abi_valid, validate};
use vstd::prelude::*;
use vstd::string::StringSliceAdditionalSpecFns;

verus! {

/// The ABI registered under one contract name, with what its aliases
/// resolve to.
pub struct ContractContext {
    pub(crate) name: u64,
    pub(crate) abi: AbiDocument,
    pub(crate) cache: ResolutionCache,
}

impl ContractContext {
    /// The cache belongs to the ABI.
    #[verifier::type_invariant]
    spec fn cache_belongs(&self) -> bool {
        self.cache.sound(self.abi@)
    }

    /// The name of the contract.
    pub closed spec fn key(&self) -> u64 {
        self.name
    }

    /// The ABI of the contract.
    pub closed spec fn model(&self) -> AbiModel {
        self.abi@
    }

    /// The context of a contract: its ABI, with its aliases resolved once.
    pub fn new(name: u64, abi: AbiDocument) -> (r: ContractContext)
        ensures
            r.key() == name,
            r.model() == abi@,
    {
        let cache = ResolutionCache::build(&abi);
        ContractContext { name, abi, cache }
    }

    /// The name of the contract.
    pub fn name(&self) -> (r: u64)
        ensures
            r == self.key(),
    {
        self.name
    }

    /// The ABI of the contract.
    pub fn abi(&self) -> (r: &AbiDocument)
        ensures
            r@ == self.model(),
    {
        &self.abi
    }

    /// The binary form of a JSON value under a type of the contract's ABI.
    pub fn to_bin(&self, datatype: &[u8], v: &JsonValue) -> (r: Result<Vec<u8>, ErrorKind>)
        ensures
            match json_to_bin_spec(self.model(), datatype@, v@) {
                Ok(bytes) => r matches Ok(out) && out@ == bytes,
                Err(e) => r matches Err(x) && x == e,
            },
    {
        proof {
            use_type_invariant(self);
        }
        json_to_bin_with(&self.abi, &self.cache, datatype, v)
    }

    /// The JSON value that bytes hold under a type of the contract's ABI.
    pub fn to_json(&self, datatype: &[u8], bytes: &[u8]) -> (r: Result<JsonValue, ErrorKind>)
        ensures
            match bin_to_json_spec(self.model(), datatype@, bytes@) {
                Ok(value) => r matches Ok(v) && v@ == value,
                Err(e) => r matches Err(x) && x == e,
            },
    {
        proof {
            use_type_invariant(self);
        }
        bin_to_json_with(&self.abi, &self.cache, datatype, bytes)
    }
}

/// A registry of ABIs, one for each contract name.
pub struct AbieosContext {
    pub contracts: Vec<ContractContext>,
}

/// The index of the first context of the contract `name`, looking from `from` on.
pub open spec fn find_contract(contracts: Seq<ContractContext>, name: u64, from: int) -> Option<int>
    decreases contracts.len() - from,
{
    if from < 0 || from >= contracts.len() {
        None
    } else if contracts[from].key() == name {
        Some(from)
    } else {
        find_contract(contracts, name, from + 1)
    }
}

/// What `find_contract` finds is the first context of that name at or after `from`.
pub proof fn lemma_find_contract(contracts: Seq<ContractContext>, name: u64, from: int)
    requires
        0 <= from,
    ensures
        match find_contract(contracts, name, from) {
            Some(i) => from <= i < contracts.len() && contracts[i].key() == name && forall|k: int|
                from <= k < i ==> (#[trigger] contracts[k]).key() != name,
            None => forall|k: int| from <= k < contracts.len() ==> (#[trigger] contracts[k]).key() != name,
        },
    decreases contracts.len() - from,
{
    if from < contracts.len() && contracts[from].key() != name {
        lemma_find_contract(contracts, name, from + 1);
    }
}

/// The keys of an ABI document whose arrays may be left out of its JSON form.
pub open spec fn default_keys() -> Seq<&'static str> {
    seq!["types", "structs", "actions", "tables", "ricardian_clauses", "error_messages", "abi_extensions"]
}

/// The entries with an empty array added under each of the keys from `from`
/// on that they lack.
pub open spec fn add_defaults(entries: Seq<(Seq<u8>, Json)>, keys: Seq<&'static str>, from: int) -> Seq<
    (Seq<u8>, Json),
>
    decreases keys.len() - from,
{
    if from < 0 || from >= keys.len() {
        entries
    } else if lookup(entries, keys[from].spec_bytes()) is None {
        add_defaults(entries.push((keys[from].spec_bytes(), Json::Array(Seq::empty()))), keys, from + 1)
    } else {
        add_defaults(entries, keys, from + 1)
    }
}

/// The entries with an empty array added under `variants` where they lack
/// it and have `action_results`, which stand behind it in the binary form.
pub open spec fn add_variants(entries: Seq<(Seq<u8>, Json)>) -> Seq<(Seq<u8>, Json)> {
    if lookup(entries, "action_results".spec_bytes()) is Some && lookup(entries, "variants".spec_bytes()) is None {
        entries.push(("variants".spec_bytes(), Json::Array(Seq::empty())))
    } else {
        entries
    }
}

/// The JSON form of an ABI document with the arrays that it leaves out.
pub open spec fn with_defaults_spec(v: Json) -> Json {
    match v {
        Json::Object(entries) => Json::Object(add_variants(add_defaults(entries, default_keys(), 0))),
        _ => v,
    }
}

/// The binary form of an ABI document given in JSON: its value under the
/// type `abi_def` of the schema of ABI documents.
pub open spec fn abi_json_to_bin_spec(v: Json) -> Result<Seq<u8>, ErrorKind> {
    json_to_bin_spec(meta_model(), "abi_def".spec_bytes(), with_defaults_spec(v))
}

/// The JSON form of an ABI document given in binary.
pub open spec fn abi_bin_to_json_spec(bytes: Seq<u8>) -> Result<Json, ErrorKind> {
    bin_to_json_spec(meta_model(), "abi_def".spec_bytes(), bytes)
}

/// The ABI document that a binary form holds, if it holds one that can be
/// registered.
pub open spec fn abi_of_binary(bytes: Seq<u8>) -> Option<AbiModel> {
    match abi_bin_to_json_spec(bytes) {
        Ok(v) => match abi_of_json(v) {
            Some(abi) => if abi_valid(abi) {
                Some(abi)
            } else {
                None
            },
            None => None,
        },
        Err(_) => None,
    }
}

/// The ABI document that a JSON form writes, if it writes one that can be
/// registered: the one that its binary form holds.
pub open spec fn abi_of_value(v: Json) -> Option<AbiModel> {
    match abi_json_to_bin_spec(v) {
        Ok(bytes) => abi_of_binary(bytes),
        Err(_) => None,
    }
}

/// Adds an empty array under each key that the JSON form of an ABI document
/// may leave out and does.
pub fn with_defaults(v: JsonValue) -> (r: JsonValue)
    ensures
        r@ == with_defaults_spec(v@),
{
    match v {
        JsonValue::Object(entries) => {
            proof {
                lemma_object_view(entries);
            }
            let mut entries = entries;
            let keys: Vec<&'static str> = vec![
                "types",
                "structs",
                "actions",
                "tables",
                "ricardian_clauses",
                "error_messages",
                "abi_extensions",
            ];
            assert(keys@ =~= default_keys());
            let ghost start = entries_model(entries@);
            let mut i: usize = 0;
            while i < keys.len()
                invariant
                    i <= keys.len(),
                    keys@ == default_keys(),
                    add_defaults(start, default_keys(), 0) == add_defaults(
                        entries_model(entries@),
                        default_keys(),
                        i as int,
                    ),
                decreases keys.len() - i,
            {
                let key = keys[i];
                if JsonValue::get(&entries, key.as_bytes()).is_none() {
                    let ghost before = entries_model(entries@);
                    let empty: Vec<JsonValue> = Vec::new();
                    proof {
                        crate::json::lemma_array_view(empty);
                        assert(crate::json::items_model(empty@) =~= Seq::<Json>::empty());
                    }
                    entries.push((text_bytes(key), JsonValue::Array(empty)));
                    assert(entries_model(entries@) =~= before.push(
                        (key.spec_bytes(), Json::Array(Seq::empty())),
                    ));
                }
                i += 1;
            }
            if JsonValue::get(&entries, "action_results".as_bytes()).is_some() && JsonValue::get(
                &entries,
                "variants".as_bytes(),
            ).is_none() {
                let ghost before = entries_model(entries@);
                let empty: Vec<JsonValue> = Vec::new();
                proof {
                    crate::json::lemma_array_view(empty);
                    assert(crate::json::items_model(empty@) =~= Seq::<Json>::empty());
                }
                entries.push((text_bytes("variants"), JsonValue::Array(empty)));
                assert(entries_model(entries@) =~= before.push(
                    ("variants".spec_bytes(), Json::Array(Seq::empty())),
                ));
            }
            proof {
                lemma_object_view(entries);
            }
            JsonValue::Object(entries)
        },
        other => other,
    }
}

/// The binary form of a JSON value under a type of a document, with what the
/// document's aliases resolve to at hand.
pub fn json_to_bin_with(abi: &AbiDocument, cache: &ResolutionCache, datatype: &[u8], v: &JsonValue) -> (r: Result<
    Vec<u8>,
    ErrorKind,
>)
    requires
        cache.sound(abi@),
    ensures
        match json_to_bin_spec(abi@, datatype@, v@) {
            Ok(bytes) => r matches Ok(out) && out@ == bytes,
            Err(e) => r matches Err(x) && x == e,
        },
{
    let mut out: Vec<u8> = Vec::new();
    match encode_value(abi, cache, datatype, v, MAX_DEPTH, &mut out) {
        Ok(()) => {
            assert(out@ =~= json_to_bin_spec(abi@, datatype@, v@)->Ok_0);
            Ok(out)
        },
        Err(e) => Err(e),
    }
}

/// The binary form of a JSON value under a type of a document.
pub fn json_to_bin(abi: &AbiDocument, datatype: &[u8], v: &JsonValue) -> (r: Result<Vec<u8>, ErrorKind>)
    ensures
        match json_to_bin_spec(abi@, datatype@, v@) {
            Ok(bytes) => r matches Ok(out) && out@ == bytes,
            Err(e) => r matches Err(x) && x == e,
        },
{
    let cache = ResolutionCache::build(abi);
    json_to_bin_with(abi, &cache, datatype, v)
}

/// The JSON value that all of `bytes` hold under a type of a document.
pub fn bin_to_json(abi: &AbiDocument, datatype: &[u8], bytes: &[u8]) -> (r: Result<JsonValue, ErrorKind>)
    ensures
        match bin_to_json_spec(abi@, datatype@, bytes@) {
            Ok(value) => r matches Ok(v) && v@ == value,
            Err(e) => r matches Err(x) && x == e,
        },
{
    let cache = ResolutionCache::build(abi);
    bin_to_json_with(abi, &cache, datatype, bytes)
}

/// The JSON value that all of `bytes` hold under a type of a document, with
/// what the document's aliases resolve to at hand.
pub fn bin_to_json_with(abi: &AbiDocument, cache: &ResolutionCache, datatype: &[u8], bytes: &[u8]) -> (r: Result<
    JsonValue,
    ErrorKind,
>)
    requires
        cache.sound(abi@),
    ensures
        match bin_to_json_spec(abi@, datatype@, bytes@) {
            Ok(value) => r matches Ok(v) && v@ == value,
            Err(e) => r matches Err(x) && x == e,
        },
{
    assert(bytes@.skip(0) =~= bytes@);
    match decode_value(abi, cache, datatype, bytes, 0, MAX_DEPTH) {
        Ok((v, next)) => {
            if next == bytes.len() {
                Ok(v)
            } else {
                Err(ErrorKind::ExtraData)
            }
        },
        Err(e) => Err(e),
    }
}

/// The binary form of an ABI document given as a JSON value.
pub fn abi_value_to_bin(v: JsonValue) -> (r: Result<Vec<u8>, ErrorKind>)
    ensures
        match abi_json_to_bin_spec(v@) {
            Ok(bytes) => r matches Ok(out) && out@ == bytes,
            Err(e) => r matches Err(x) && x == e,
        },
{
    let meta = meta_abi();
    let filled = with_defaults(v);
    json_to_bin(&meta, "abi_def".as_bytes(), &filled)
}

/// The JSON value of an ABI document given in binary.
pub fn abi_bin_to_value(bytes: &[u8]) -> (r: Result<JsonValue, ErrorKind>)
    ensures
        match abi_bin_to_json_spec(bytes@) {
            Ok(value) => r matches Ok(v) && v@ == value,
            Err(e) => r matches Err(x) && x == e,
        },
{
    let meta = meta_abi();
    bin_to_json(&meta, "abi_def".as_bytes(), bytes)
}

/// Reads an ABI document from its binary form; `None` where the bytes hold
/// none that can be registered.
pub fn abi_from_binary(bytes: &[u8]) -> (r: Option<AbiDocument>)
    ensures
        match r {
            Some(abi) => abi_of_binary(bytes@) == Some(abi@),
            None => abi_of_binary(bytes@) is None,
        },
{
    match abi_bin_to_value(bytes) {
        Ok(v) => match abi_from_json(&v) {
            Some(abi) => {
                if validate(&abi) {
                    Some(abi)
                } else {
                    None
                }
            },
            None => None,
        },
        Err(_) => None,
    }
}

/// Reads an ABI document from its JSON form, by way of its binary form;
/// `None` where the value writes none that can be registered.
pub fn abi_from_value(v: JsonValue) -> (r: Option<AbiDocument>)
    ensures
        match r {
            Some(abi) => abi_of_value(v@) == Some(abi@),
            None => abi_of_value(v@) is None,
        },
{
    match abi_value_to_bin(v) {
        Ok(bytes) => abi_from_binary(bytes.as_slice()),
        Err(_) => None,
    }
}

impl AbieosContext {
    /// The ABI registered under a contract name.
    pub open spec fn abi_of(&self, name: u64) -> Option<AbiModel> {
        match find_contract(self.contracts@, name, 0) {
            Some(i) => Some(self.contracts@[i].model()),
            None => None,
        }
    }

    /// The binary form of a JSON value under a type of a contract's ABI.
    pub open spec fn to_bin_spec(&self, contract: u64, datatype: Seq<u8>, v: Json) -> Result<Seq<u8>, ErrorKind> {
        match self.abi_of(contract) {
            Some(abi) => json_to_bin_spec(abi, datatype, v),
            None => Err(ErrorKind::ContractNotRegistered),
        }
    }

    /// The JSON value that bytes hold under a type of a contract's ABI.
    pub open spec fn to_json_spec(&self, contract: u64, datatype: Seq<u8>, bytes: Seq<u8>) -> Result<
        Json,
        ErrorKind,
    > {
        match self.abi_of(contract) {
            Some(abi) => bin_to_json_spec(abi, datatype, bytes),
            None => Err(ErrorKind::ContractNotRegistered),
        }
    }

    /// The type that a contract's ABI binds to an action.
    pub open spec fn action_type_spec(&self, contract: u64, action: u64) -> Result<Seq<u8>, ErrorKind> {
        match self.abi_of(contract) {
            Some(abi) => match find_binding(abi.actions, action, 0) {
                Some(t) => Ok(t),
                None => Err(ErrorKind::ActionNotBound),
            },
            None => Err(ErrorKind::ContractNotRegistered),
        }
    }

    /// The type that a contract's ABI binds to a table.
    pub open spec fn table_type_spec(&self, contract: u64, table: u64) -> Result<Seq<u8>, ErrorKind> {
        match self.abi_of(contract) {
            Some(abi) => match find_binding(abi.tables, table, 0) {
                Some(t) => Ok(t),
                None => Err(ErrorKind::TableNotBound),
            },
            None => Err(ErrorKind::ContractNotRegistered),
        }
    }

    /// The type that a contract's ABI binds to the result of an action.
    pub open spec fn action_result_type_spec(&self, contract: u64, action: u64) -> Result<Seq<u8>, ErrorKind> {
        match self.abi_of(contract) {
            Some(abi) => match find_binding(abi.action_results, action, 0) {
                Some(t) => Ok(t),
                None => Err(ErrorKind::ActionNotBound),
            },
            None => Err(ErrorKind::ContractNotRegistered),
        }
    }

    /// A registry without any ABI.
    pub fn new() -> (r: AbieosContext)
        ensures
            forall|name: u64| r.abi_of(name) is None,
    {
        AbieosContext { contracts: Vec::new() }
    }

    /// The ABI registered under a contract name.
    pub fn abi(&self, name: u64) -> (r: Option<&AbiDocument>)
        ensures
            match r {
                Some(abi) => self.abi_of(name) == Some(abi@),
                None => self.abi_of(name) is None,
            },
    {
        match self.index_of(name) {
            Some(i) => Some(self.contracts[i].abi()),
            None => None,
        }
    }

    /// The context of a contract name.
    pub fn contract(&self, name: u64) -> (r: Option<&ContractContext>)
        ensures
            match r {
                Some(context) => self.abi_of(name) == Some(context.model()),
                None => self.abi_of(name) is None,
            },
    {
        match self.index_of(name) {
            Some(i) => Some(&self.contracts[i]),
            None => None,
        }
    }

    /// The index of the first context of a contract name.
    fn index_of(&self, name: u64) -> (r: Option<usize>)
        ensures
            match r {
                Some(i) => find_contract(self.contracts@, name, 0) == Some(i as int) && i < self.contracts.len(),
                None => find_contract(self.contracts@, name, 0) is None,
            },
    {
        let mut i: usize = 0;
        while i < self.contracts.len()
            invariant
                i <= self.contracts.len(),
                find_contract(self.contracts@, name, 0) == find_contract(self.contracts@, name, i as int),
            decreases self.contracts.len() - i,
        {
            if self.contracts[i].name() == name {
                return Some(i);
            }
            i += 1;
        }
        None
    }

    /// Registers an ABI under a contract name, in place of the one that was
    /// registered under it, if any. Refuses a document that is not valid, and
    /// then changes nothing.
    pub fn register(&mut self, name: u64, abi: AbiDocument) -> (r: Result<(), ErrorKind>)
        ensures
            abi_valid(abi@) ==> r is Ok && final(self).abi_of(name) == Some(abi@),
            !abi_valid(abi@) ==> r == Err::<(), ErrorKind>(ErrorKind::AbiParseError) && final(self).abi_of(name)
                == old(self).abi_of(name),
            forall|other: u64| other != name ==> final(self).abi_of(other) == old(self).abi_of(other),
    {
        if !validate(&abi) {
            return Err(ErrorKind::AbiParseError);
        }
        let ghost before = self.contracts@;
        match self.index_of(name) {
            Some(i) => {
                self.contracts.set(i, ContractContext::new(name, abi));
                proof {
                    let after = self.contracts@;
                    lemma_find_contract(before, name, 0);
                    lemma_same_names(before, after, name, 0);
                    assert forall|other: u64| other != name implies final(self).abi_of(other) == old(self).abi_of(
                        other,
                    ) by {
                        lemma_same_names(before, after, other, 0);
                        lemma_find_contract(before, other, 0);
                    }
                }
            },
            None => {
                self.contracts.push(ContractContext::new(name, abi));
                proof {
                    let after = self.contracts@;
                    lemma_pushed(before, after, name, 0);
                    assert forall|other: u64| other != name implies final(self).abi_of(other) == old(self).abi_of(
                        other,
                    ) by {
                        lemma_pushed(before, after, other, 0);
                        lemma_find_contract(before, other, 0);
                    }
                }
            },
        }
        Ok(())
    }

    /// The binary form of a JSON value under a type of a contract's ABI.
    pub fn to_bin(&self, contract: u64, datatype: &[u8], v: &JsonValue) -> (r: Result<Vec<u8>, ErrorKind>)
        ensures
            match self.to_bin_spec(contract, datatype@, v@) {
                Ok(bytes) => r matches Ok(out) && out@ == bytes,
                Err(e) => r matches Err(x) && x == e,
            },
    {
        match self.contract(contract) {
            Some(context) => context.to_bin(datatype, v),
            None => Err(ErrorKind::ContractNotRegistered),
        }
    }

    /// The JSON value that bytes hold under a type of a contract's ABI.
    pub fn to_json(&self, contract: u64, datatype: &[u8], bytes: &[u8]) -> (r: Result<JsonValue, ErrorKind>)
        ensures
            match self.to_json_spec(contract, datatype@, bytes@) {
                Ok(value) => r matches Ok(v) && v@ == value,
                Err(e) => r matches Err(x) && x == e,
            },
    {
        match self.contract(contract) {
            Some(context) => context.to_json(datatype, bytes),
            None => Err(ErrorKind::ContractNotRegistered),
        }
    }

    /// The type that a contract's ABI binds to an action.
    pub fn type_for_action(&self, contract: u64, action: u64) -> (r: Result<Vec<u8>, ErrorKind>)
        ensures
            match self.action_type_spec(contract, action) {
                Ok(t) => r matches Ok(out) && out@ == t,
                Err(e) => r matches Err(x) && x == e,
            },
    {
        match self.abi(contract) {
            Some(abi) => match binding_type(&abi.actions, action) {
                Some(t) => Ok(vstd::slice::slice_to_vec(t.as_slice())),
                None => Err(ErrorKind::ActionNotBound),
            },
            None => Err(ErrorKind::ContractNotRegistered),
        }
    }

    /// The type that a contract's ABI binds to a table.
    pub fn type_for_table(&self, contract: u64, table: u64) -> (r: Result<Vec<u8>, ErrorKind>)
        ensures
            match self.table_type_spec(contract, table) {
                Ok(t) => r matches Ok(out) && out@ == t,
                Err(e) => r matches Err(x) && x == e,
            },
    {
        match self.abi(contract) {
            Some(abi) => match binding_type(&abi.tables, table) {
                Some(t) => Ok(vstd::slice::slice_to_vec(t.as_slice())),
                None => Err(ErrorKind::TableNotBound),
            },
            None => Err(ErrorKind::ContractNotRegistered),
        }
    }

    /// The type that a contract's ABI binds to the result of an action.
    pub fn type_for_action_result(&self, contract: u64, action: u64) -> (r: Result<Vec<u8>, ErrorKind>)
        ensures
            match self.action_result_type_spec(contract, action) {
                Ok(t) => r matches Ok(out) && out@ == t,
                Err(e) => r matches Err(x) && x == e,
            },
    {
        match self.abi(contract) {
            Some(abi) => match binding_type(&abi.action_results, action) {
                Some(t) => Ok(vstd::slice::slice_to_vec(t.as_slice())),
                None => Err(ErrorKind::ActionNotBound),
            },
            None => Err(ErrorKind::ContractNotRegistered),
        }
    }
}

/// Lists that hold the same names at the same places find a name at the same place.
proof fn lemma_same_names(a: Seq<ContractContext>, b: Seq<ContractContext>, name: u64, from: int)
    requires
        a.len() == b.len(),
        forall|k: int| 0 <= k < a.len() ==> (#[trigger] a[k]).key() == b[k].key(),
        0 <= from,
    ensures
        find_contract(a, name, from) == find_contract(b, name, from),
    decreases a.len() - from,
{
    if from < a.len() {
        assert(a[from].key() == b[from].key());
        if a[from].key() != name {
            lemma_same_names(a, b, name, from + 1);
        }
    }
}

/// A context pushed behind a list is found only where the list has none of
/// its name.
proof fn lemma_pushed(before: Seq<ContractContext>, after: Seq<ContractContext>, name: u64, from: int)
    requires
        after.len() == before.len() + 1,
        forall|k: int| 0 <= k < before.len() ==> #[trigger] after[k] == before[k],
        0 <= from,
    ensures
        after[before.len() as int].key() != name ==> find_contract(after, name, from) == find_contract(
            before,
            name,
            from,
        ),
        find_contract(before, name, from) is Some ==> find_contract(after, name, from) == find_contract(
            before,
            name,
            from,
        ),
        find_contract(before, name, from) is None && after[before.len() as int].key() == name && from
            <= before.len() ==> find_contract(after, name, from) == Some(before.len() as int),
    decreases after.len() - from,
{
    if from < before.len() {
        assert(after[from] == before[from]);
        if before[from].key() != name {
            lemma_pushed(before, after, name, from + 1);
        }
    } else if from == before.len() {
        lemma_pushed(before, after, name, from + 1);
    }
}

} // verus!
