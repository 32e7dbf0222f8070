use rs_abieos::abi::{AbiDocument, Binding, FieldDef, StructDef, TypeDef, VariantDef};
use rs_abieos::json::JsonValue;
use rs_abieos::parse::parse_json;
use rs_abieos::print::to_text;
use rs_abieos::registry::{abi_bin_to_value, abi_from_binary, abi_from_value, abi_value_to_bin, bin_to_json, json_to_bin};
use rs_abieos::registry::ContractContext;
use rs_abieos::resolve::{resolve, Builtin, ResolutionCache, ResolvedType};
use rs_abieos::validate::validate;
use rs_abieos::{AbiLike, Abieos, AbieosContext, AbieosContract, AbieosError, ErrorKind, NameLike};

const TOKEN_HEX_ABI: &str = "0e656f73696f3a3a6162692f312e30010c6163636f756e745f6e616d65046e616d6505087472616e7366657200040466726f6d0c6163636f756e745f6e616d6502746f0c6163636f756e745f6e616d65087175616e74697479056173736574046d656d6f06737472696e67066372656174650002066973737565720c6163636f756e745f6e616d650e6d6178696d756d5f737570706c79056173736574056973737565000302746f0c6163636f756e745f6e616d65087175616e74697479056173736574046d656d6f06737472696e67076163636f756e7400010762616c616e63650561737365740e63757272656e63795f7374617473000306737570706c790561737365740a6d61785f737570706c79056173736574066973737565720c6163636f756e745f6e616d6503000000572d3ccdcd087472616e73666572000000000000a531760569737375650000000000a86cd445066372656174650002000000384f4d113203693634010863757272656e6379010675696e743634076163636f756e740000000000904dc603693634010863757272656e6379010675696e7436340e63757272656e63795f7374617473000000";

const TOKEN_JSON_ABI: &str = r#"{
    "version": "eosio::abi/1.0",
    "types": [{"new_type_name": "account_name", "type": "name"}],
    "structs": [
        {"name": "transfer", "base": "", "fields": [
            {"name": "from", "type": "account_name"},
            {"name": "to", "type": "account_name"},
            {"name": "quantity", "type": "asset"},
            {"name": "memo", "type": "string"}
        ]},
        {"name": "create", "base": "", "fields": [
            {"name": "issuer", "type": "account_name"},
            {"name": "maximum_supply", "type": "asset"}
        ]},
        {"name": "issue", "base": "", "fields": [
            {"name": "to", "type": "account_name"},
            {"name": "quantity", "type": "asset"},
            {"name": "memo", "type": "string"}
        ]},
        {"name": "account", "base": "", "fields": [
            {"name": "balance", "type": "asset"}
        ]},
        {"name": "currency_stats", "base": "", "fields": [
            {"name": "supply", "type": "asset"},
            {"name": "max_supply", "type": "asset"},
            {"name": "issuer", "type": "account_name"}
        ]}
    ],
    "actions": [
        {"name": "transfer", "type": "transfer", "ricardian_contract": ""},
        {"name": "issue", "type": "issue", "ricardian_contract": ""},
        {"name": "create", "type": "create", "ricardian_contract": ""}
    ],
    "tables": [
        {"name": "accounts", "index_type": "i64", "key_names": ["currency"], "key_types": ["uint64"], "type": "account"},
        {"name": "stat", "index_type": "i64", "key_names": ["currency"], "key_types": ["uint64"], "type": "currency_stats"}
    ],
    "ricardian_clauses": [],
    "error_messages": [],
    "abi_extensions": []
}"#;

const EXTENSION_ABI: &str = r#"{
    "version": "eosio::abi/1.1",
    "structs": [
        {"name": "transfer", "base": "", "fields": [
            {"name": "from", "type": "name"},
            {"name": "to", "type": "name"},
            {"name": "quantity", "type": "asset"},
            {"name": "memo", "type": "string$"}
        ]},
        {"name": "s1", "base": "", "fields": [{"name": "x1", "type": "int8"}]},
        {"name": "s2", "base": "", "fields": [
            {"name": "y1", "type": "int8$"},
            {"name": "y2", "type": "int8$"}
        ]},
        {"name": "s3", "base": "", "fields": [
            {"name": "z1", "type": "int8$"},
            {"name": "z2", "type": "v1$"},
            {"name": "z3", "type": "s2$"}
        ]},
        {"name": "s4", "base": "", "fields": [
            {"name": "a1", "type": "int8?$"},
            {"name": "b1", "type": "int8[]$"}
        ]}
    ],
    "variants": [{"name": "v1", "types": ["int8", "s1", "s2"]}],
    "action_results": [{"name": "transfer", "result_type": "s1"}]
}"#;

fn hex_bytes(text: &str) -> Vec<u8> {
    rs_abieos::hex::hex_decode(text.as_bytes()).unwrap()
}

fn bytes(text: &str) -> Vec<u8> {
    text.as_bytes().to_vec()
}

fn field(name: &str, type_expr: &str) -> FieldDef {
    FieldDef { name: bytes(name), type_expr: bytes(type_expr) }
}

fn document(types: Vec<TypeDef>, structs: Vec<StructDef>, variants: Vec<VariantDef>) -> AbiDocument {
    AbiDocument {
        version: bytes("eosio::abi/1.1"),
        types,
        structs,
        variants,
        actions: Vec::new(),
        tables: Vec::new(),
        action_results: Vec::new(),
    }
}

#[test]
fn set_abi_json() {
    let mut abieos: Abieos = Abieos::new();
    match abieos.set_abi_json("eosio", TOKEN_JSON_ABI.to_string()) {
        Ok(x) => assert_eq!(x, true, "load abi test"),
        Err(e) => panic!("set_abi_json failed: {}", e.to_string()),
    }
    abieos.destroy();
}

#[test]
fn the_three_forms_of_an_abi_register_the_same_document() {
    let mut by_json = Abieos::new();
    let mut by_hex = Abieos::new();
    let mut by_bin = Abieos::new();
    assert_eq!(by_json.set_abi_json("eosio.token", TOKEN_JSON_ABI.to_string()), Ok(true));
    assert_eq!(by_hex.set_abi_hex("eosio.token", TOKEN_HEX_ABI.to_string()), Ok(true));
    assert_eq!(by_bin.set_abi_bin("eosio.token", hex_bytes(TOKEN_HEX_ABI)), Ok(true));
    let json = r#"{"to":"bob","memo":"Hello!","from":"alice","quantity":"1.0000 EOS"}"#;
    let expected = "0000000000855C340000000000000E3D102700000000000004454F53000000000648656C6C6F21";
    for abieos in [&by_json, &by_hex, &by_bin] {
        assert_eq!(abieos.json_to_hex("eosio.token", "transfer", json.to_string()).unwrap(), expected);
        assert_eq!(abieos.get_type_for_action("eosio.token", "issue").unwrap(), "issue");
        assert_eq!(abieos.get_type_for_table("eosio.token", "stat").unwrap(), "currency_stats");
    }
}

#[test]
fn abi_document_round_trip() {
    let abieos = Abieos::new();
    let binary = hex_bytes(TOKEN_HEX_ABI);
    assert_eq!(abieos.abi_json_to_bin(TOKEN_JSON_ABI.to_string()).unwrap(), binary);
    let json = abieos.abi_bin_to_json(binary.clone()).unwrap();
    assert_eq!(abieos.abi_json_to_bin(json.clone()).unwrap(), binary);
    let first: serde_json::Value = serde_json::from_str(json.as_str()).unwrap();
    let given: serde_json::Value = serde_json::from_str(TOKEN_JSON_ABI).unwrap();
    assert_eq!(first["version"], given["version"]);
    assert_eq!(first["types"], given["types"]);
    assert_eq!(first["structs"], given["structs"]);
    assert_eq!(first["actions"], given["actions"]);
    assert_eq!(first["tables"], given["tables"]);
    let again = abieos.abi_bin_to_json(abieos.abi_json_to_bin(json.clone()).unwrap()).unwrap();
    assert_eq!(again, json);
}

#[test]
fn abi_json_may_leave_out_empty_lists() {
    let abieos = Abieos::new();
    let binary = abieos.abi_json_to_bin(r#"{"version":"eosio::abi/1.1"}"#.to_string()).unwrap();
    assert_eq!(binary, hex_bytes("0e656f73696f3a3a6162692f312e3100000000000000"));
    let json = abieos.abi_bin_to_json(binary).unwrap();
    assert_eq!(
        json,
        r#"{"version":"eosio::abi/1.1","types":[],"structs":[],"actions":[],"tables":[],"ricardian_clauses":[],"error_messages":[],"abi_extensions":[]}"#
    );
}

#[test]
fn abi_with_variants_and_action_results() {
    let mut abieos = Abieos::new();
    assert_eq!(abieos.set_abi_json("test", EXTENSION_ABI.to_string()), Ok(true));
    assert_eq!(abieos.get_type_for_action_result("test", "transfer").unwrap(), "s1");
    assert_eq!(
        abieos.get_type_for_action_result("test", "issue"),
        Err(AbieosError::GetTypeForActionResult(ErrorKind::ActionNotBound))
    );
    assert_eq!(
        abieos.get_type_for_action_result("nobody", "transfer"),
        Err(AbieosError::GetTypeForActionResult(ErrorKind::ContractNotRegistered))
    );
    let binary = abieos.abi_json_to_bin(EXTENSION_ABI.to_string()).unwrap();
    let json = abieos.abi_bin_to_json(binary).unwrap();
    let parsed: serde_json::Value = serde_json::from_str(json.as_str()).unwrap();
    assert_eq!(parsed["variants"][0]["name"], "v1");
    assert_eq!(parsed["variants"][0]["types"][2], "s2");
    assert_eq!(parsed["action_results"][0]["result_type"], "s1");
}

#[test]
fn transfer_with_a_missing_memo_extension() {
    let mut abieos = Abieos::new();
    abieos.set_abi_json("eosio.token", EXTENSION_ABI.to_string()).unwrap();
    let without = r#"{"from":"alice","to":"bob","quantity":"1.0000 EOS"}"#;
    let hex = abieos.json_to_hex("eosio.token", "transfer", without.to_string()).unwrap();
    assert_eq!(hex, "0000000000855C340000000000000E3D102700000000000004454F5300000000");
    assert_eq!(abieos.hex_to_json("eosio.token", "transfer", hex).unwrap(), without);
    let with = r#"{"from":"alice","to":"bob","quantity":"1.0000 EOS","memo":"Hello!"}"#;
    let hex = abieos.json_to_hex("eosio.token", "transfer", with.to_string()).unwrap();
    assert_eq!(hex, "0000000000855C340000000000000E3D102700000000000004454F53000000000648656C6C6F21");
    assert_eq!(abieos.hex_to_json("eosio.token", "transfer", hex).unwrap(), with);
}

#[test]
fn extensions_of_every_form() {
    let mut abieos = Abieos::new();
    abieos.set_abi_json("test", EXTENSION_ABI.to_string()).unwrap();
    let hex = |datatype: &str, json: &str| abieos.json_to_hex("test", datatype, json.to_string());
    let json = |datatype: &str, hex: &str| abieos.hex_to_json("test", datatype, hex.to_string());
    assert_eq!(hex("s2", "{}").unwrap(), "");
    assert_eq!(hex("s2", r#"{"y1":5}"#).unwrap(), "05");
    assert_eq!(hex("s2", r#"{"y1":5,"y2":6}"#).unwrap(), "0506");
    assert_eq!(hex("s2", r#"{"y2":6}"#), Err(AbieosError::JsonToHex(ErrorKind::MissingField)));
    assert_eq!(json("s2", "").unwrap(), "{}");
    assert_eq!(json("s2", "05").unwrap(), r#"{"y1":5}"#);
    assert_eq!(json("s2", "0506").unwrap(), r#"{"y1":5,"y2":6}"#);
    assert_eq!(hex("s3", r#"{"z1":1,"z2":["s1",{"x1":2}],"z3":{"y1":3}}"#).unwrap(), "01010203");
    assert_eq!(json("s3", "01010203").unwrap(), r#"{"z1":1,"z2":["s1",{"x1":2}],"z3":{"y1":3}}"#);
    assert_eq!(hex("s4", r#"{"a1":null,"b1":[1,2]}"#).unwrap(), "00020102");
    assert_eq!(hex("s4", r#"{"a1":7}"#).unwrap(), "0107");
    assert_eq!(json("s4", "0107").unwrap(), r#"{"a1":7}"#);
    assert_eq!(json("s4", "00").unwrap(), r#"{"a1":null}"#);
}

#[test]
fn abi_that_is_malformed_is_refused() {
    let mut abieos = Abieos::new();
    let refused = Err(AbieosError::SetAbi(ErrorKind::AbiParseError));
    assert_eq!(abieos.set_abi_json("test", "{".to_string()), refused);
    assert_eq!(abieos.set_abi_json("test", "[]".to_string()), refused);
    assert_eq!(abieos.set_abi_json("test", "{}".to_string()), refused);
    assert_eq!(abieos.set_abi_json("test", r#"{"version":5}"#.to_string()), refused);
    assert_eq!(abieos.set_abi_json("test", r#"{"version":"x","structs":{}}"#.to_string()), refused);
    assert_eq!(abieos.set_abi_json("test", r#"{"version":"x","structs":[{"name":"a"}]}"#.to_string()), refused);
    assert_eq!(abieos.set_abi_hex("test", "zz".to_string()), refused);
    assert_eq!(abieos.set_abi_hex("test", "0e656f".to_string()), refused);
    assert_eq!(abieos.set_abi_bin("test", vec![]), refused);
    assert_eq!(abieos.set_abi_bin("test", vec![1, 65, 0, 0, 0, 0, 0, 0, 0, 9]), refused);
    assert_eq!(abieos.set_abi_json("Test", "{}".to_string()), Err(AbieosError::StringToName));
    assert_eq!(abieos.set_abi_hex("abcdefghijklmno", "00".to_string()), Err(AbieosError::NameTooLong));
    assert_eq!(abieos.set_abi_json("abcdefghijklmn", "{}".to_string()), Err(AbieosError::NameTooLong));
    assert_eq!(abieos.set_abi_bin("abcdefghijklmn", vec![]), Err(AbieosError::NameTooLong));
    assert_eq!(abieos.set_abi_hex("Abcdefghijklmn", "00".to_string()), Err(AbieosError::NameTooLong));
    assert_eq!(abieos.context.as_ref().unwrap().contracts.len(), 0);
    assert_eq!(abieos.set_abi_bin("te st", vec![]), Err(AbieosError::StringToName));
    assert_eq!(
        abieos.json_to_hex("test", "uint8", "1".to_string()),
        Err(AbieosError::JsonToHex(ErrorKind::ContractNotRegistered))
    );
}

#[test]
fn abi_with_a_name_defined_twice_is_refused() {
    let mut abieos = Abieos::new();
    let twice = r#"{"version":"eosio::abi/1.1","structs":[
        {"name":"a","base":"","fields":[]},{"name":"a","base":"","fields":[]}]}"#;
    assert_eq!(abieos.set_abi_json("test", twice.to_string()), Err(AbieosError::SetAbi(ErrorKind::AbiParseError)));
    let alias_and_struct = r#"{"version":"eosio::abi/1.1","types":[{"new_type_name":"a","type":"int8"}],
        "structs":[{"name":"a","base":"","fields":[]}]}"#;
    assert_eq!(
        abieos.set_abi_json("test", alias_and_struct.to_string()),
        Err(AbieosError::SetAbi(ErrorKind::AbiParseError))
    );
    let struct_and_variant = r#"{"version":"eosio::abi/1.1","structs":[{"name":"a","base":"","fields":[]}],
        "variants":[{"name":"a","types":["int8"]}]}"#;
    assert_eq!(
        abieos.set_abi_json("test", struct_and_variant.to_string()),
        Err(AbieosError::SetAbi(ErrorKind::AbiParseError))
    );
}

#[test]
fn abi_with_a_dangling_base_is_refused() {
    let mut abieos = Abieos::new();
    let dangling = r#"{"version":"eosio::abi/1.1","structs":[{"name":"a","base":"b","fields":[]}]}"#;
    assert_eq!(abieos.set_abi_json("test", dangling.to_string()), Err(AbieosError::SetAbi(ErrorKind::AbiParseError)));
    let base_is_builtin = r#"{"version":"eosio::abi/1.1","structs":[{"name":"a","base":"int8","fields":[]}]}"#;
    assert_eq!(
        abieos.set_abi_json("test", base_is_builtin.to_string()),
        Err(AbieosError::SetAbi(ErrorKind::AbiParseError))
    );
    let base_by_alias = r#"{"version":"eosio::abi/1.1","types":[{"new_type_name":"c","type":"b"}],"structs":[
        {"name":"a","base":"c","fields":[{"name":"y","type":"int8"}]},
        {"name":"b","base":"","fields":[{"name":"x","type":"int8"}]}]}"#;
    assert_eq!(abieos.set_abi_json("test", base_by_alias.to_string()), Ok(true));
    assert_eq!(abieos.json_to_hex("test", "a", r#"{"y":2,"x":1}"#.to_string()).unwrap(), "0102");
}

#[test]
fn registering_again_replaces_the_abi() {
    let mut abieos = Abieos::new();
    let first = r#"{"version":"eosio::abi/1.1","structs":[{"name":"a","base":"","fields":[{"name":"x","type":"int8"}]}]}"#;
    let second = r#"{"version":"eosio::abi/1.1","structs":[{"name":"a","base":"","fields":[{"name":"x","type":"int16"}]}]}"#;
    abieos.set_abi_json("one", first.to_string()).unwrap();
    abieos.set_abi_json("two", first.to_string()).unwrap();
    assert_eq!(abieos.json_to_hex("one", "a", r#"{"x":1}"#.to_string()).unwrap(), "01");
    abieos.set_abi_json("one", second.to_string()).unwrap();
    assert_eq!(abieos.json_to_hex("one", "a", r#"{"x":1}"#.to_string()).unwrap(), "0100");
    assert_eq!(abieos.json_to_hex("two", "a", r#"{"x":1}"#.to_string()).unwrap(), "01");
    assert_eq!(abieos.set_abi_json("one", "{}".to_string()).is_err(), true);
    assert_eq!(abieos.json_to_hex("one", "a", r#"{"x":1}"#.to_string()).unwrap(), "0100");
    assert_eq!(abieos.context.as_ref().unwrap().contracts.len(), 2);
}

#[test]
fn contracts_of_a_registry() {
    let mut abieos = Abieos::new();
    let mut contract = abieos.contract(NameLike::StringRef("eosio.token"));
    assert_eq!(contract.name, 6138663591592764928);
    assert_eq!(contract.abiLoaded, false);
    assert_eq!(
        contract.json_to_hex(&abieos, "transfer", "{}".to_string()),
        Err(AbieosError::JsonToHex(ErrorKind::ContractNotRegistered))
    );
    assert_eq!(
        contract.load_abi(&mut abieos, AbiLike::Hex("00".to_string())).err(),
        Some(AbieosError::SetAbi(ErrorKind::AbiParseError))
    );
    assert_eq!(contract.abiLoaded, false);
    assert_eq!(contract.load_abi(&mut abieos, AbiLike::Hex(TOKEN_HEX_ABI.to_string())).unwrap().abiLoaded, true);
    assert_eq!(contract.abiLoaded, true);
    assert_eq!(contract.get_type_for_action(&abieos, "transfer").unwrap(), "transfer");
    assert_eq!(
        contract.get_type_for_action(&abieos, "nothing"),
        Err(AbieosError::GetTypeForAction(ErrorKind::ActionNotBound))
    );
    assert_eq!(contract.get_type_for_action(&abieos, "Transfer"), Err(AbieosError::StringToName));
    assert_eq!(contract.get_type_for_action(&abieos, "abcdefghijklmn"), Err(AbieosError::NameTooLong));
    let json = r#"{"from":"alice","to":"bob","quantity":"1.0000 EOS","memo":"Hello!"}"#;
    let hex = contract.json_to_hex(&abieos, "transfer", json.to_string()).unwrap();
    assert_eq!(hex, "0000000000855C340000000000000E3D102700000000000004454F53000000000648656C6C6F21");
    assert_eq!(contract.hex_to_json(&abieos, "transfer", hex).unwrap(), json);
    assert_eq!(abieos.get_type_for_action("eosio.token", "transfer").unwrap(), "transfer");
    let again = AbieosContract::new(6138663591592764928);
    assert_eq!(again.get_type_for_action(&abieos, "issue").unwrap(), "issue");
    let mut by_json = abieos.contract(NameLike::String("other".to_string()));
    assert_eq!(by_json.load_abi(&mut abieos, AbiLike::Json(TOKEN_JSON_ABI.to_string())).is_ok(), true);
    let mut by_bin = abieos.contract(NameLike::U64(7));
    assert_eq!(by_bin.load_abi(&mut abieos, AbiLike::Bin(hex_bytes(TOKEN_HEX_ABI))).map(|c| c.name), Ok(7));
    assert_eq!(abieos.get_type_for_action_native(7, 14829575313431724032).unwrap(), "transfer");
}

#[test]
fn contract_names_in_every_form() {
    let abieos = Abieos::new();
    assert_eq!(abieos.contract(NameLike::StringRef("eosio")).name, 6138663577826885632);
    assert_eq!(abieos.contract(NameLike::String("eosio".to_string())).name, 6138663577826885632);
    assert_eq!(abieos.contract(NameLike::U64(42)).name, 42);
    assert_eq!(abieos.contract(NameLike::I32(42)).name, 42);
    assert_eq!(abieos.contract(NameLike::I32(-1)).name, u64::MAX);
    assert_eq!(abieos.contract(NameLike::I32(i32::MIN)).name, 0xffff_ffff_8000_0000);
    assert_eq!(abieos.contract(NameLike::I32(0)).name, 0);
}

#[test]
fn destroyed_registry_holds_nothing() {
    let mut abieos = Abieos::new();
    abieos.set_abi_hex("eosio.token", TOKEN_HEX_ABI.to_string()).unwrap();
    assert_eq!(abieos.is_destroyed, false);
    abieos.destroy();
    assert_eq!(abieos.is_destroyed, true);
    assert_eq!(abieos.context.is_none(), true);
}

#[test]
fn registry_by_values() {
    let mut context = AbieosContext::new();
    assert_eq!(context.abi(5).is_none(), true);
    let abi = abi_from_binary(hex_bytes(TOKEN_HEX_ABI).as_slice()).unwrap();
    assert_eq!(context.register(5, abi), Ok(()));
    assert_eq!(context.abi(5).unwrap().structs.len(), 5);
    assert_eq!(context.type_for_action(5, 14829575313431724032), Ok(bytes("transfer")));
    assert_eq!(context.type_for_action(5, 1), Err(ErrorKind::ActionNotBound));
    assert_eq!(context.type_for_action(6, 1), Err(ErrorKind::ContractNotRegistered));
    assert_eq!(context.type_for_table(5, 3607749779137757184), Ok(bytes("account")));
    assert_eq!(context.type_for_table(5, 1), Err(ErrorKind::TableNotBound));
    assert_eq!(context.type_for_action_result(5, 1), Err(ErrorKind::ActionNotBound));
    let value = parse_json(r#"{"balance":"2.50 USD"}"#).unwrap();
    let binary = context.to_bin(5, b"account", &value).unwrap();
    assert_eq!(binary, hex_bytes("FA000000000000000255534400000000"));
    let back = context.to_json(5, b"account", binary.as_slice()).unwrap();
    assert_eq!(to_text(&back), bytes(r#"{"balance":"2.50 USD"}"#));
    assert_eq!(context.to_bin(6, b"account", &value), Err(ErrorKind::ContractNotRegistered));
    let broken = document(Vec::new(), vec![StructDef { name: bytes("a"), base: bytes("b"), fields: Vec::new() }], Vec::new());
    assert_eq!(context.register(5, broken), Err(ErrorKind::AbiParseError));
    assert_eq!(context.abi(5).unwrap().structs.len(), 5);
}

#[test]
fn documents_built_by_hand() {
    let abi = document(
        vec![TypeDef { alias_name: bytes("id"), type_expr: bytes("uint32") }],
        vec![
            StructDef { name: bytes("base"), base: bytes(""), fields: vec![field("id", "id")] },
            StructDef { name: bytes("item"), base: bytes("base"), fields: vec![field("kind", "kind?")] },
        ],
        vec![VariantDef { name: bytes("kind"), types: vec![bytes("bool"), bytes("string")] }],
    );
    assert_eq!(validate(&abi), true);
    let value = JsonValue::Object(vec![
        (bytes("kind"), JsonValue::Array(vec![JsonValue::Str(bytes("string")), JsonValue::Str(bytes("x"))])),
        (bytes("id"), JsonValue::Number(bytes("258"))),
    ]);
    let binary = json_to_bin(&abi, b"item", &value).unwrap();
    assert_eq!(binary, vec![2, 1, 0, 0, 1, 1, 1, b'x']);
    let back = bin_to_json(&abi, b"item", binary.as_slice()).unwrap();
    assert_eq!(to_text(&back), bytes(r#"{"id":258,"kind":["string","x"]}"#));
    let absent = JsonValue::Object(vec![(bytes("id"), JsonValue::Number(bytes("1")))]);
    assert_eq!(json_to_bin(&abi, b"item", &absent).unwrap(), vec![1, 0, 0, 0, 0]);
    assert_eq!(
        to_text(&bin_to_json(&abi, b"item", &[1, 0, 0, 0, 0]).unwrap()),
        bytes(r#"{"id":1,"kind":null}"#)
    );
    let bad_text = JsonValue::Str(vec![0xff]);
    assert_eq!(json_to_bin(&abi, b"string", &bad_text), Err(ErrorKind::InvalidUtf8));
}

#[test]
fn type_expressions_resolve_one_layer_at_a_time() {
    let abi = document(
        vec![
            TypeDef { alias_name: bytes("ids"), type_expr: bytes("uint32[]") },
            TypeDef { alias_name: bytes("again"), type_expr: bytes("ids") },
        ],
        vec![StructDef { name: bytes("s"), base: bytes(""), fields: Vec::new() }],
        vec![VariantDef { name: bytes("v"), types: vec![bytes("s")] }],
    );
    let same = |expr: &str, expected: ResolvedType| {
        let got = resolve(&abi, expr.as_bytes()).unwrap();
        let equal = match (&got, &expected) {
            (ResolvedType::Builtin(a), ResolvedType::Builtin(b)) => a == b,
            (ResolvedType::Struct(a), ResolvedType::Struct(b)) => a == b,
            (ResolvedType::Variant(a), ResolvedType::Variant(b)) => a == b,
            (ResolvedType::Array(a), ResolvedType::Array(b)) => a == b,
            (ResolvedType::Optional(a), ResolvedType::Optional(b)) => a == b,
            (ResolvedType::Extension(a), ResolvedType::Extension(b)) => a == b,
            _ => false,
        };
        assert_eq!(equal, true, "resolving {}", expr);
    };
    same("uint32", ResolvedType::Builtin(Builtin::Uint32));
    same("string", ResolvedType::Builtin(Builtin::Text));
    same("block_timestamp_type", ResolvedType::Builtin(Builtin::BlockTimestamp));
    same("s", ResolvedType::Struct(0));
    same("v", ResolvedType::Variant(0));
    same("ids", ResolvedType::Array(bytes("uint32")));
    same("again", ResolvedType::Array(bytes("uint32")));
    same("again?", ResolvedType::Optional(bytes("again")));
    same("s[]", ResolvedType::Array(bytes("s")));
    same("s?$", ResolvedType::Extension(bytes("s?")));
    same("s[]$", ResolvedType::Extension(bytes("s[]")));
    same("s$", ResolvedType::Extension(bytes("s")));
    same("[]", ResolvedType::Array(bytes("")));
    assert_eq!(resolve(&abi, b"unknown").err(), Some(ErrorKind::UnknownType));
    for nested in ["s?[]", "s[]?", "s[][]", "s??", "s$?", "s$[]", "s$$", "s?$?"] {
        assert_eq!(resolve(&abi, nested.as_bytes()).err(), Some(ErrorKind::UnknownType), "resolving {}", nested);
    }
    assert_eq!(resolve(&abi, b"S").err(), Some(ErrorKind::UnknownType));
}

#[test]
fn abi_values_by_the_schema_of_abis() {
    let value = abi_bin_to_value(hex_bytes(TOKEN_HEX_ABI).as_slice()).unwrap();
    let text = String::from_utf8(to_text(&value)).unwrap();
    assert_eq!(text.starts_with(r#"{"version":"eosio::abi/1.0","types":[{"new_type_name":"account_name","type":"name"}],"structs":[{"name":"transfer","base":"","fields":[{"name":"from","type":"account_name"}"#), true);
    assert_eq!(abi_value_to_bin(value).unwrap(), hex_bytes(TOKEN_HEX_ABI));
    let given = parse_json(TOKEN_JSON_ABI).unwrap();
    let abi = abi_from_value(given).unwrap();
    assert_eq!(abi.version, bytes("eosio::abi/1.0"));
    assert_eq!(abi.types.len(), 1);
    assert_eq!(abi.structs.len(), 5);
    assert_eq!(abi.structs[0].fields[2].type_expr, bytes("asset"));
    assert_eq!(abi.actions.len(), 3);
    assert_eq!(abi.actions[0].name, 14829575313431724032);
    assert_eq!(abi.tables[1].type_expr, bytes("currency_stats"));
    assert_eq!(abi_bin_to_value(&[1, 2, 3]).err(), Some(ErrorKind::TruncatedInput));
    let unused = Binding { name: 1, type_expr: bytes("x") };
    assert_eq!(unused.name, 1);
}

#[test]
fn error_messages() {
    assert_eq!(AbieosError::NameTooLong.to_string(), "Name is too long");
    assert_eq!(AbieosError::StringToName.to_string(), "Failed to convert string to name");
    assert_eq!(AbieosError::NameToString.to_string(), "Failed to convert name to string");
    assert_eq!(AbieosError::AbiNotLoaded.to_string(), "ABI not loaded in this contract");
    assert_eq!(AbieosError::FileRead.to_string(), "Failed to read file");
    assert_eq!(AbieosError::Unknown.to_string(), "Unknown error occurred");
    assert_eq!(AbieosError::SetAbi(ErrorKind::AbiParseError).to_string(), "Failed to set ABI: invalid ABI document");
    assert_eq!(
        AbieosError::JsonToHex(ErrorKind::MissingField).to_string(),
        "Failed to serialize JSON: missing field"
    );
    assert_eq!(
        AbieosError::HexToJson(ErrorKind::TruncatedInput).to_string(),
        "Failed to deserialize Binary: input ends too early"
    );
    assert_eq!(
        AbieosError::GetTypeForAction(ErrorKind::ActionNotBound).to_string(),
        "Failed to get type for action: action not bound"
    );
    assert_eq!(
        AbieosError::GetTypeForTable(ErrorKind::TableNotBound).to_string(),
        "Failed to get type for table: table not bound"
    );
    assert_eq!(
        AbieosError::GetTypeForActionResult(ErrorKind::ContractNotRegistered).to_string(),
        "Failed to get type for action result: contract not registered"
    );
    assert_eq!(
        AbieosError::AbiBinToJson(ErrorKind::ExtraData).to_string(),
        "Failed to convert ABI binary to JSON: extra data"
    );
    assert_eq!(
        AbieosError::AbiJsonToBin(ErrorKind::InvalidJson).to_string(),
        "Failed to convert ABI JSON to binary: invalid JSON text"
    );
    assert_eq!(
        AbieosError::BinToJson(ErrorKind::InvalidUtf8).to_string(),
        "Failed to convert binary to JSON: invalid UTF-8"
    );
    assert_eq!(ErrorKind::NameTooLong.message(), "name is longer than 13 characters");
    assert_eq!(ErrorKind::InvalidNameCharacter.message(), "character outside the name alphabet");
    assert_eq!(ErrorKind::UnknownType.message(), "unknown type");
    assert_eq!(ErrorKind::AliasCycle.message(), "alias chain too long");
    assert_eq!(ErrorKind::FieldTypeMismatch.message(), "value does not fit the type");
    assert_eq!(ErrorKind::NoMatchingVariantType.message(), "no matching variant type");
    assert_eq!(ErrorKind::VariantIndexOutOfRange.message(), "variant index out of range");
    assert_eq!(ErrorKind::NestingTooDeep.message(), "nesting too deep");
    assert_eq!(ErrorKind::InvalidVarint.message(), "invalid variable-length integer");
    assert_eq!(ErrorKind::InvalidHex.message(), "invalid hexadecimal text");
}

#[test]
fn json_values_from_text() {
    let value = parse_json(r#" { "b" : [1, -2.5e3, "x\n", true, null], "a" : {} } "#).unwrap();
    assert_eq!(to_text(&value), bytes(r#"{"a":{},"b":[1,-2500.0,"x\n",true,null]}"#));
    assert_eq!(parse_json("").is_none(), true);
    assert_eq!(parse_json("{,}").is_none(), true);
    assert_eq!(parse_json("nul").is_none(), true);
    let unicode = parse_json("\"\\u00e9\"").unwrap();
    assert_eq!(to_text(&unicode), "\"\u{e9}\"".as_bytes().to_vec());
}

#[test]
fn aliases_are_resolved_once_for_a_contract() {
    let abi = document(
        vec![
            TypeDef { alias_name: bytes("ids"), type_expr: bytes("uint32[]") },
            TypeDef { alias_name: bytes("again"), type_expr: bytes("ids") },
            TypeDef { alias_name: bytes("money"), type_expr: bytes("asset") },
            TypeDef { alias_name: bytes("me"), type_expr: bytes("me") },
            TypeDef { alias_name: bytes("thing"), type_expr: bytes("s") },
            TypeDef { alias_name: bytes("bad"), type_expr: bytes("missing") },
        ],
        vec![StructDef { name: bytes("s"), base: bytes(""), fields: vec![field("a", "again"), field("m", "money")] }],
        vec![VariantDef { name: bytes("v"), types: vec![bytes("thing"), bytes("again")] }],
    );
    let cache = ResolutionCache::build(&abi);
    assert_eq!(cache.aliases.len(), 6);
    assert_eq!(cache.aliases[3].as_ref().err(), Some(&ErrorKind::AliasCycle));
    assert_eq!(cache.aliases[5].as_ref().err(), Some(&ErrorKind::UnknownType));
    let text = |r: Result<ResolvedType, ErrorKind>| match r {
        Ok(ResolvedType::Builtin(b)) => format!("builtin {:?}", b),
        Ok(ResolvedType::Struct(i)) => format!("struct {}", i),
        Ok(ResolvedType::Variant(i)) => format!("variant {}", i),
        Ok(ResolvedType::Array(e)) => format!("array of {}", String::from_utf8(e).unwrap()),
        Ok(ResolvedType::Optional(e)) => format!("optional {}", String::from_utf8(e).unwrap()),
        Ok(ResolvedType::Extension(e)) => format!("extension {}", String::from_utf8(e).unwrap()),
        Err(e) => format!("error {:?}", e),
    };
    for expr in ["ids", "again", "money", "me", "thing", "bad", "s", "v", "again?", "thing[]", "uint8", "nothing", ""] {
        assert_eq!(text(cache.resolve(&abi, expr.as_bytes())), text(resolve(&abi, expr.as_bytes())), "resolving {}", expr);
    }
    assert_eq!(text(cache.resolve(&abi, b"again")), "array of uint32");
    assert_eq!(text(cache.resolve(&abi, b"money")), "builtin Asset");
    assert_eq!(text(cache.resolve(&abi, b"thing")), "struct 0");
    assert_eq!(text(cache.resolve(&abi, b"me")), "error AliasCycle");
    let context = ContractContext::new(9, abi);
    assert_eq!(context.name(), 9);
    assert_eq!(context.abi().types.len(), 6);
    let value = parse_json(r#"{"m":"1.5 USD","a":[1,2]}"#).unwrap();
    let binary = context.to_bin(b"thing", &value).unwrap();
    assert_eq!(binary, hex_bytes("0201000000020000000F000000000000000155534400000000"));
    assert_eq!(to_text(&context.to_json(b"s", binary.as_slice()).unwrap()), bytes(r#"{"a":[1,2],"m":"1.5 USD"}"#));
    let tagged = parse_json(r#"["again",[7]]"#).unwrap();
    assert_eq!(context.to_bin(b"v", &tagged).unwrap(), hex_bytes("010107000000"));
}

#[test]
fn abi_with_action_results_and_no_variants() {
    let abieos = Abieos::new();
    let given = r#"{"version":"eosio::abi/1.2","action_results":[{"name":"transfer","result_type":"int8"}]}"#;
    let binary = abieos.abi_json_to_bin(given.to_string()).unwrap();
    assert_eq!(
        abieos.abi_bin_to_json(binary).unwrap(),
        r#"{"version":"eosio::abi/1.2","types":[],"structs":[],"actions":[],"tables":[],"ricardian_clauses":[],"error_messages":[],"abi_extensions":[],"variants":[],"action_results":[{"name":"transfer","result_type":"int8"}]}"#
    );
}

const TRANSACTION_ABI: &str = r#"{
    "version": "eosio::abi/1.0",
    "types": [
        {"new_type_name": "account_name", "type": "name"},
        {"new_type_name": "action_name", "type": "name"},
        {"new_type_name": "permission_name", "type": "name"}
    ],
    "structs": [
        {"name": "permission_level", "base": "", "fields": [
            {"name": "actor", "type": "account_name"},
            {"name": "permission", "type": "permission_name"}
        ]},
        {"name": "action", "base": "", "fields": [
            {"name": "account", "type": "account_name"},
            {"name": "name", "type": "action_name"},
            {"name": "authorization", "type": "permission_level[]"},
            {"name": "data", "type": "bytes"}
        ]},
        {"name": "extension", "base": "", "fields": [
            {"name": "type", "type": "uint16"},
            {"name": "data", "type": "bytes"}
        ]},
        {"name": "transaction_header", "base": "", "fields": [
            {"name": "expiration", "type": "time_point_sec"},
            {"name": "ref_block_num", "type": "uint16"},
            {"name": "ref_block_prefix", "type": "uint32"},
            {"name": "max_net_usage_words", "type": "varuint32"},
            {"name": "max_cpu_usage_ms", "type": "uint8"},
            {"name": "delay_sec", "type": "varuint32"}
        ]},
        {"name": "transaction", "base": "transaction_header", "fields": [
            {"name": "context_free_actions", "type": "action[]"},
            {"name": "actions", "type": "action[]"},
            {"name": "transaction_extensions", "type": "extension[]"}
        ]},
        {"name": "delegatebw", "base": "", "fields": [
            {"name": "from", "type": "account_name"},
            {"name": "receiver", "type": "account_name"},
            {"name": "stake_net_quantity", "type": "asset"},
            {"name": "stake_cpu_quantity", "type": "asset"},
            {"name": "transfer", "type": "bool"}
        ]}
    ]
}"#;

#[test]
fn transaction_of_one_transfer() {
    let mut abieos = Abieos::new();
    let mut contract = abieos.contract(NameLike::StringRef("eosio"));
    assert_eq!(contract.load_abi(&mut abieos, AbiLike::Json(TRANSACTION_ABI.to_string())).is_ok(), true);
    let trx_json = r#"{
            "expiration": "2018-06-27T20:33:54.000",
            "ref_block_num": 45323,
            "ref_block_prefix": 2628749070,
            "max_net_usage_words": 0,
            "max_cpu_usage_ms": 0,
            "delay_sec": 0,
            "context_free_actions": [],
            "actions": [{
                "account": "eosio.token",
                "name": "transfer",
                "authorization":[{
                    "actor":"useraaaaaaaa",
                    "permission":"active"
                }],
                "data":"608C31C6187315D6708C31C6187315D60100000000000000045359530000000000"
            }],
            "transaction_extensions":[]
        }"#;
    let hex = contract.json_to_hex(&abieos, "transaction", trx_json.to_string()).unwrap();
    assert_eq!(
        hex,
        "B2F4335B0BB10E87AF9C000000000100A6823403EA3055000000572D3CCDCD01608C31C6187315D600000000A8ED323221608C31C6187315D6708C31C6187315D6010000000000000004535953000000000000"
    );
    let back = contract.hex_to_json(&abieos, "transaction", hex.clone()).unwrap();
    assert_eq!(
        back,
        r#"{"expiration":"2018-06-27T20:33:54.000","ref_block_num":45323,"ref_block_prefix":2628749070,"max_net_usage_words":0,"max_cpu_usage_ms":0,"delay_sec":0,"context_free_actions":[],"actions":[{"account":"eosio.token","name":"transfer","authorization":[{"actor":"useraaaaaaaa","permission":"active"}],"data":"608C31C6187315D6708C31C6187315D60100000000000000045359530000000000"}],"transaction_extensions":[]}"#
    );
    assert_eq!(contract.json_to_hex(&abieos, "transaction", back).unwrap(), hex);
}

#[test]
fn ordered_and_unordered_samples_give_the_same_bytes() {
    let mut abieos = Abieos::new();
    abieos.set_abi_json("eosio", TRANSACTION_ABI.to_string()).unwrap();
    let ordered = r#"{"from":"alice","receiver":"bob","stake_net_quantity":"1.0000 EOS",
        "stake_cpu_quantity":"2.5000 EOS","transfer":true}"#;
    let unordered = r#"{"transfer":true,"stake_cpu_quantity":"2.5000 EOS","receiver":"bob",
        "stake_net_quantity":"1.0000 EOS","from":"alice"}"#;
    let result = abieos.json_to_hex("eosio", "delegatebw", ordered.to_string()).unwrap();
    let result2 = abieos.json_to_hex("eosio", "delegatebw", unordered.to_string()).unwrap();
    assert_eq!(result, "0000000000855C340000000000000E3D102700000000000004454F5300000000A86100000000000004454F530000000001");
    assert_eq!(result, result2, "The result should be the same for ordered and unordered jsons");
    let parsed: serde_json::Value =
        serde_json::from_str(abieos.hex_to_json("eosio", "delegatebw", result).unwrap().as_str()).unwrap();
    assert_eq!(parsed["from"], "alice");
    assert_eq!(parsed["receiver"], "bob");
}

#[test]
fn abi_with_a_name_that_is_no_utf8_is_refused() {
    let mut abieos = Abieos::new();
    let mut binary = hex_bytes("0e656f73696f3a3a6162692f312e3100000000000000");
    binary[3] = 0xff;
    assert_eq!(abieos.set_abi_bin("test", binary.clone()), Err(AbieosError::SetAbi(ErrorKind::AbiParseError)));
    assert_eq!(abieos.abi_bin_to_json(binary), Err(AbieosError::AbiBinToJson(ErrorKind::InvalidUtf8)));
    let by_hand = document(
        Vec::new(),
        vec![StructDef { name: bytes_of_name(), base: bytes(""), fields: vec![FieldDef { name: vec![0xff], type_expr: bytes("uint8") }] }],
        Vec::new(),
    );
    let mut context = AbieosContext::new();
    assert_eq!(context.register(1, by_hand), Ok(()));
    let registry = Abieos::from_context(context);
    assert_eq!(registry.bin_to_json("............1", "s", vec![7]), Err(AbieosError::BinToJson(ErrorKind::InvalidUtf8)));
}

fn bytes_of_name() -> Vec<u8> {
    bytes("s")
}
