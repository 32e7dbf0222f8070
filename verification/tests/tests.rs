use rs_abieos::{Abieos, AbieosError, ErrorKind};

const EOSIO_TOKEN_U64: u64 = 6138663591592764928;

const EOSIO_TOKEN_HEX_ABI: &str = "0e656f73696f3a3a6162692f312e30010c6163636f756e745f6e616d65046e616d6505087472616e7366657200040466726f6d0c6163636f756e745f6e616d6502746f0c6163636f756e745f6e616d65087175616e74697479056173736574046d656d6f06737472696e67066372656174650002066973737565720c6163636f756e745f6e616d650e6d6178696d756d5f737570706c79056173736574056973737565000302746f0c6163636f756e745f6e616d65087175616e74697479056173736574046d656d6f06737472696e67076163636f756e7400010762616c616e63650561737365740e63757272656e63795f7374617473000306737570706c790561737365740a6d61785f737570706c79056173736574066973737565720c6163636f756e745f6e616d6503000000572d3ccdcd087472616e73666572000000000000a531760569737375650000000000a86cd445066372656174650002000000384f4d113203693634010863757272656e6379010675696e743634076163636f756e740000000000904dc603693634010863757272656e6379010675696e7436340e63757272656e63795f7374617473000000";

const HEX_ACTION_TRANSFER: &str =
    "0000000000855C340000000000000E3D102700000000000004454F53000000000648656C6C6F21";

const BIN_ACTION_TRANSFER: &[u8] = &[
    0, 0, 0, 0, 0, 133, 92, 52, 0, 0, 0, 0, 0, 0, 14, 61, 16, 39, 0, 0, 0, 0, 0, 0, 4, 69, 79, 83, 0, 0, 0, 0, 6,
    72, 101, 108, 108, 111, 33,
];

const TRANSFER_JSON: &str = r#"
        {
            "from":"alice",
            "to":"bob",
            "quantity":"1.0000 EOS",
            "memo":"Hello!"
        }"#;

fn hex_bytes(text: &str) -> Vec<u8> {
    rs_abieos::hex::hex_decode(text.as_bytes()).unwrap()
}

#[test]
fn new() {
    let mut abieos: Abieos = Abieos::new();
    assert_eq!(abieos.context.is_some(), true, "new test failed");
    abieos.destroy();
}

#[test]
fn new_from_context() {
    let old_abieos: Abieos = Abieos::new();
    let mut abieos: Abieos = Abieos::from_context(old_abieos.context.unwrap());
    assert_eq!(abieos.context.is_some(), true, "new_from_context test failed");
    abieos.destroy();
}

#[test]
fn string_to_name() {
    let mut abieos = Abieos::new();
    let true_name = EOSIO_TOKEN_U64;
    let name = abieos.string_to_name("eosio.token");
    match name {
        Ok(n) => assert_eq!(n, true_name),
        Err(e) => panic!("string_to_name test failed: {}", e.to_string()),
    }
    abieos.destroy();
}

#[test]
fn name_to_string() {
    let mut abieos = Abieos::new();
    let name = abieos.name_to_string(EOSIO_TOKEN_U64).unwrap();
    let true_name = "eosio.token".to_string();
    assert_eq!(true_name, name, "reverse name test for eosio.token - expecting: {} got {}", true_name, name);
    abieos.destroy();
}

#[test]
fn set_abi_hex() {
    let mut abieos: Abieos = Abieos::new();
    match abieos.set_abi_hex("eosio", EOSIO_TOKEN_HEX_ABI.to_string()) {
        Ok(x) => assert_eq!(x, true, "load abi test"),
        Err(e) => panic!("set_abi_hex failed: {}", e.to_string()),
    }
    abieos.destroy();
}

#[test]
fn set_abi_bin() {
    let mut abieos: Abieos = Abieos::new();
    let abi_data = hex_bytes(EOSIO_TOKEN_HEX_ABI);
    match abieos.set_abi_bin("eosio", abi_data) {
        Ok(x) => assert_eq!(x, true, "load abi test"),
        Err(e) => panic!("set_abi_bin failed: {}", e.to_string()),
    }
    abieos.destroy();
}

#[test]
fn json_to_hex() {
    let mut abieos: Abieos = Abieos::new();
    abieos.set_abi_hex("eosio.token", EOSIO_TOKEN_HEX_ABI.to_string()).unwrap();
    let bin = abieos.json_to_hex("eosio.token", "transfer", TRANSFER_JSON.to_string()).unwrap();
    assert_eq!(bin, HEX_ACTION_TRANSFER);
    abieos.destroy();
}

#[test]
fn json_to_bin() {
    let mut abieos: Abieos = Abieos::new();
    abieos.set_abi_hex("eosio.token", EOSIO_TOKEN_HEX_ABI.to_string()).unwrap();
    let bin = abieos.json_to_bin("eosio.token", "transfer", TRANSFER_JSON.to_string()).unwrap();
    assert_eq!(bin, BIN_ACTION_TRANSFER);
    abieos.destroy();
}

#[test]
fn hex_to_json() {
    let mut abieos: Abieos = Abieos::new();
    abieos.set_abi_hex("eosio.token", EOSIO_TOKEN_HEX_ABI.to_string()).unwrap();
    let bin = HEX_ACTION_TRANSFER;
    let json = abieos.hex_to_json("eosio.token", "transfer", bin.to_string()).unwrap();
    let reverse_bin = abieos.json_to_hex("eosio.token", "transfer", json.clone()).unwrap();
    assert_eq!(bin, reverse_bin);
    abieos.destroy();
}

#[test]
fn get_type_for_action() {
    let mut abieos: Abieos = Abieos::new();
    abieos.set_abi_hex("eosio.token", EOSIO_TOKEN_HEX_ABI.to_string()).unwrap();
    let action = "transfer";
    let bound_type = abieos.get_type_for_action("eosio.token", action).unwrap();
    assert_eq!(bound_type, "transfer");
    abieos.destroy();
}

#[test]
fn get_type_for_action_invalid() {
    let mut abieos: Abieos = Abieos::new();
    abieos.set_abi_hex("eosio.token", EOSIO_TOKEN_HEX_ABI.to_string()).unwrap();
    let action = "invalid";
    let bound_type = abieos.get_type_for_action("eosio.token", action);
    assert_eq!(bound_type.is_err(), true);
    assert_eq!(bound_type, Err(AbieosError::GetTypeForAction(ErrorKind::ActionNotBound)));
    abieos.destroy();
}

#[test]
fn get_type_for_action_invalid_contract() {
    let mut abieos: Abieos = Abieos::new();
    abieos.set_abi_hex("eosio.token", EOSIO_TOKEN_HEX_ABI.to_string()).unwrap();
    let action = "transfer";
    let bound_type = abieos.get_type_for_action("invalid", action);
    assert_eq!(bound_type.is_err(), true);
    assert_eq!(bound_type, Err(AbieosError::GetTypeForAction(ErrorKind::ContractNotRegistered)));
    abieos.destroy();
}

#[test]
fn get_type_for_table() {
    let mut abieos: Abieos = Abieos::new();
    abieos.set_abi_hex("eosio.token", EOSIO_TOKEN_HEX_ABI.to_string()).unwrap();
    let table = "accounts";
    let bound_type = abieos.get_type_for_table("eosio.token", table).unwrap();
    assert_eq!(bound_type, "account");
    abieos.destroy();
}

#[test]
fn get_type_for_table_invalid() {
    let mut abieos: Abieos = Abieos::new();
    abieos.set_abi_hex("eosio.token", EOSIO_TOKEN_HEX_ABI.to_string()).unwrap();
    let table = "invalid";
    let bound_type = abieos.get_type_for_table("eosio.token", table);
    assert_eq!(bound_type.is_err(), true);
    assert_eq!(bound_type, Err(AbieosError::GetTypeForTable(ErrorKind::TableNotBound)));
    abieos.destroy();
}

#[test]
fn get_type_for_table_invalid_contract() {
    let mut abieos: Abieos = Abieos::new();
    abieos.set_abi_hex("eosio.token", EOSIO_TOKEN_HEX_ABI.to_string()).unwrap();
    let table = "accounts";
    let bound_type = abieos.get_type_for_table("invalid", table);
    assert_eq!(bound_type.is_err(), true);
    abieos.destroy();
}

#[test]
fn hex_to_json_fields() {
    let mut abieos: Abieos = Abieos::new();
    abieos.set_abi_hex("eosio.token", EOSIO_TOKEN_HEX_ABI.to_string()).unwrap();
    let json = abieos.hex_to_json("eosio.token", "transfer", HEX_ACTION_TRANSFER.to_string()).unwrap();
    assert_eq!(json, r#"{"from":"alice","to":"bob","quantity":"1.0000 EOS","memo":"Hello!"}"#);
    let parsed: serde_json::Value = serde_json::from_str(json.as_str()).unwrap();
    assert_eq!(parsed["from"], "alice");
    assert_eq!(parsed["to"], "bob");
    assert_eq!(parsed["quantity"], "1.0000 EOS");
    assert_eq!(parsed["memo"], "Hello!");
}

#[test]
fn abi_bin_to_json() {
    let abieos: Abieos = Abieos::new();
    let abi_data = hex_bytes(EOSIO_TOKEN_HEX_ABI);
    let json_abi = match abieos.abi_bin_to_json(abi_data) {
        Ok(x) => x,
        Err(_) => panic!("abi_bin_to_json test failed"),
    };
    let abi: serde_json::Value = serde_json::from_str(json_abi.as_str()).unwrap();
    assert_eq!(abi["version"], "eosio::abi/1.0");
    assert_eq!(abi["structs"][0]["name"], "transfer");
    assert_eq!(abi["actions"][0]["name"], "transfer");
    assert_eq!(abi["tables"][0]["name"], "accounts");
}

#[test]
fn abi_json_to_bin() {
    let abieos: Abieos = Abieos::new();
    let abi_data = hex_bytes(EOSIO_TOKEN_HEX_ABI);
    let json_data = abieos.abi_bin_to_json(abi_data.clone()).unwrap();
    let abi = match abieos.abi_json_to_bin(json_data) {
        Ok(x) => x,
        Err(_) => panic!("abi_json_to_bin test failed"),
    };
    assert_eq!(abi, abi_data, "abi_json_to_bin test failed");
}

#[test]
fn get_type_for_action_result() {
    let mut abieos: Abieos = Abieos::new();
    let abi = r#"{"version":"eosio::abi/1.2",
        "structs":[{"name":"receipt","base":"","fields":[{"name":"paid","type":"asset"}]}],
        "action_results":[{"name":"transfer","result_type":"receipt"}]}"#;
    abieos.set_abi_json("eosio.token", abi.to_string()).unwrap();
    let bound_type = abieos.get_type_for_action_result("eosio.token", "transfer").unwrap();
    assert_eq!(bound_type, "receipt");
    assert_eq!(abieos.get_type_for_action_result("eosio.token", "issue").is_err(), true);
    abieos.destroy();
}
