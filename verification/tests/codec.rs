use rs_abieos::{Abieos, AbieosError, ErrorKind};

const TYPES_ABI: &str = r#"{
    "version": "eosio::abi/1.1",
    "types": [
        {"new_type_name": "account_name", "type": "name"},
        {"new_type_name": "numbers", "type": "uint8[]"},
        {"new_type_name": "maybe_numbers", "type": "numbers?"},
        {"new_type_name": "loop_a", "type": "loop_b"},
        {"new_type_name": "loop_b", "type": "loop_a"}
    ],
    "structs": [
        {"name": "point", "base": "", "fields": [
            {"name": "x", "type": "int32"},
            {"name": "y", "type": "int32"}
        ]},
        {"name": "point3", "base": "point", "fields": [
            {"name": "z", "type": "int32"}
        ]},
        {"name": "person", "base": "", "fields": [
            {"name": "who", "type": "account_name"},
            {"name": "age", "type": "uint8?"},
            {"name": "tags", "type": "string[]"},
            {"name": "note", "type": "string$"},
            {"name": "extra", "type": "uint16$"}
        ]},
        {"name": "shape", "base": "", "fields": [
            {"name": "kind", "type": "figure"}
        ]},
        {"name": "tree", "base": "", "fields": [
            {"name": "children", "type": "tree[]"}
        ]},
        {"name": "empty", "base": "", "fields": []},
        {"name": "holder", "base": "", "fields": [
            {"name": "inner", "type": "person"},
            {"name": "after", "type": "uint8"}
        ]}
    ],
    "variants": [
        {"name": "figure", "types": ["int8", "point", "string"]}
    ]
}"#;

fn registry() -> Abieos {
    let mut abieos = Abieos::new();
    assert_eq!(abieos.set_abi_json("test", TYPES_ABI.to_string()), Ok(true));
    abieos
}

fn to_hex(datatype: &str, json: &str) -> Result<String, AbieosError> {
    registry().json_to_hex("test", datatype, json.to_string())
}

fn to_json(datatype: &str, hex: &str) -> Result<String, AbieosError> {
    registry().hex_to_json("test", datatype, hex.to_string())
}

fn encode_error(datatype: &str, json: &str) -> ErrorKind {
    match to_hex(datatype, json) {
        Err(AbieosError::JsonToHex(kind)) => kind,
        other => panic!("expected an encoding error, got {:?}", other),
    }
}

fn decode_error(datatype: &str, hex: &str) -> ErrorKind {
    match to_json(datatype, hex) {
        Err(AbieosError::HexToJson(kind)) => kind,
        other => panic!("expected a decoding error, got {:?}", other),
    }
}

fn both_ways(datatype: &str, json: &str, hex: &str) {
    assert_eq!(to_hex(datatype, json).unwrap(), hex, "encoding {} as {}", json, datatype);
    assert_eq!(to_json(datatype, hex).unwrap(), json, "decoding {} as {}", hex, datatype);
}

#[test]
fn fixed_width_integers() {
    both_ways("uint8", "255", "FF");
    both_ways("int8", "-1", "FF");
    both_ways("int8", "-128", "80");
    both_ways("int8", "127", "7F");
    both_ways("uint16", "258", "0201");
    both_ways("int16", "-2", "FEFF");
    both_ways("uint32", "1", "01000000");
    both_ways("int32", "-2147483648", "00000080");
    both_ways("uint64", r#""18446744073709551615""#, "FFFFFFFFFFFFFFFF");
    both_ways("int64", r#""-1""#, "FFFFFFFFFFFFFFFF");
    both_ways("int64", r#""-9223372036854775808""#, "0000000000000080");
    both_ways("uint128", r#""340282366920938463463374607431768211455""#, "FFFFFFFFFFFFFFFFFFFFFFFFFFFFFFFF");
    both_ways("int128", r#""-170141183460469231731687303715884105728""#, "00000000000000000000000000000080");
    both_ways("int128", r#""-1""#, "FFFFFFFFFFFFFFFFFFFFFFFFFFFFFFFF");
    both_ways("uint128", r#""1""#, "01000000000000000000000000000000");
}

#[test]
fn integers_beyond_32_bits_are_read_from_numbers_and_from_strings() {
    assert_eq!(to_hex("uint64", "1").unwrap(), "0100000000000000");
    assert_eq!(to_hex("uint64", r#""1""#).unwrap(), "0100000000000000");
    assert_eq!(to_hex("int64", r#""007""#).unwrap(), "0700000000000000");
    assert_eq!(to_hex("int64", r#""-0""#).unwrap(), "0000000000000000");
    assert_eq!(to_hex("int128", "-1").unwrap(), "FFFFFFFFFFFFFFFFFFFFFFFFFFFFFFFF");
    assert_eq!(to_hex("uint128", r#""2""#).unwrap(), "02000000000000000000000000000000");
}

#[test]
fn a_string_where_a_number_is_required_does_not_fit() {
    assert_eq!(encode_error("uint8", r#""7""#), ErrorKind::FieldTypeMismatch);
    assert_eq!(encode_error("int8", r#""-1""#), ErrorKind::FieldTypeMismatch);
    assert_eq!(encode_error("uint16", r#""7""#), ErrorKind::FieldTypeMismatch);
    assert_eq!(encode_error("int32", r#""7""#), ErrorKind::FieldTypeMismatch);
    assert_eq!(encode_error("uint32", r#""7""#), ErrorKind::FieldTypeMismatch);
    assert_eq!(encode_error("varuint32", r#""7""#), ErrorKind::FieldTypeMismatch);
    assert_eq!(encode_error("varint32", r#""-7""#), ErrorKind::FieldTypeMismatch);
    assert_eq!(encode_error("point", r#"{"x":"1","y":2}"#), ErrorKind::FieldTypeMismatch);
    assert_eq!(to_hex("uint8", "7").unwrap(), "07");
    assert_eq!(to_hex("uint8", "007").is_err(), true);
}

#[test]
fn integers_out_of_range_do_not_fit() {
    assert_eq!(encode_error("uint8", "256"), ErrorKind::FieldTypeMismatch);
    assert_eq!(encode_error("uint8", "-1"), ErrorKind::FieldTypeMismatch);
    assert_eq!(encode_error("int8", "128"), ErrorKind::FieldTypeMismatch);
    assert_eq!(encode_error("int8", "-129"), ErrorKind::FieldTypeMismatch);
    assert_eq!(encode_error("uint32", "4294967296"), ErrorKind::FieldTypeMismatch);
    assert_eq!(encode_error("uint64", r#""18446744073709551616""#), ErrorKind::FieldTypeMismatch);
    assert_eq!(
        encode_error("uint128", r#""340282366920938463463374607431768211456""#),
        ErrorKind::FieldTypeMismatch
    );
    assert_eq!(
        encode_error("uint128", r#""9999999999999999999999999999999999999999999999999999""#),
        ErrorKind::FieldTypeMismatch
    );
    assert_eq!(encode_error("uint8", "1.5"), ErrorKind::FieldTypeMismatch);
    assert_eq!(encode_error("uint8", "true"), ErrorKind::FieldTypeMismatch);
    assert_eq!(encode_error("uint64", r#""""#), ErrorKind::FieldTypeMismatch);
    assert_eq!(encode_error("uint64", r#""-""#), ErrorKind::FieldTypeMismatch);
    assert_eq!(encode_error("uint64", r#""1a""#), ErrorKind::FieldTypeMismatch);
    assert_eq!(encode_error("uint64", r#""-1""#), ErrorKind::FieldTypeMismatch);
}

#[test]
fn variable_length_integers() {
    both_ways("varuint32", "0", "00");
    both_ways("varuint32", "127", "7F");
    both_ways("varuint32", "128", "8001");
    both_ways("varuint32", "300", "AC02");
    both_ways("varuint32", "4294967295", "FFFFFFFF0F");
    both_ways("varint32", "0", "00");
    both_ways("varint32", "-1", "01");
    both_ways("varint32", "1", "02");
    both_ways("varint32", "-2", "03");
    both_ways("varint32", "2147483647", "FEFFFFFF0F");
    both_ways("varint32", "-2147483648", "FFFFFFFF0F");
    assert_eq!(encode_error("varuint32", "4294967296"), ErrorKind::FieldTypeMismatch);
    assert_eq!(encode_error("varint32", "2147483648"), ErrorKind::FieldTypeMismatch);
}

#[test]
fn variable_length_integers_that_are_malformed() {
    assert_eq!(decode_error("varuint32", ""), ErrorKind::TruncatedInput);
    assert_eq!(decode_error("varuint32", "80"), ErrorKind::TruncatedInput);
    assert_eq!(decode_error("varuint32", "FFFFFFFF1F"), ErrorKind::InvalidVarint);
    assert_eq!(decode_error("varuint32", "808080808001"), ErrorKind::InvalidVarint);
}

#[test]
fn booleans() {
    both_ways("bool", "true", "01");
    both_ways("bool", "false", "00");
    assert_eq!(to_json("bool", "02").unwrap(), "true");
    assert_eq!(to_json("bool", "FF").unwrap(), "true");
    assert_eq!(encode_error("bool", "1"), ErrorKind::FieldTypeMismatch);
    assert_eq!(decode_error("bool", ""), ErrorKind::TruncatedInput);
}

#[test]
fn byte_strings_and_strings() {
    both_ways("bytes", r#""00FF10""#, "0300FF10");
    both_ways("bytes", r#""""#, "00");
    assert_eq!(to_hex("bytes", r#""00ff10""#).unwrap(), "0300FF10");
    assert_eq!(encode_error("bytes", r#""0""#), ErrorKind::FieldTypeMismatch);
    assert_eq!(encode_error("bytes", r#""zz""#), ErrorKind::FieldTypeMismatch);
    both_ways("string", r#""hi""#, "026869");
    both_ways("string", r#""""#, "00");
    both_ways("string", "\"h\u{e9}\"", "0368C3A9");
    assert_eq!(decode_error("string", "02FFFE"), ErrorKind::InvalidUtf8);
    assert_eq!(decode_error("string", "0568"), ErrorKind::TruncatedInput);
    assert_eq!(decode_error("bytes", "0568"), ErrorKind::TruncatedInput);
    assert_eq!(encode_error("string", "5"), ErrorKind::FieldTypeMismatch);
}

#[test]
fn strings_are_escaped_in_json_text() {
    let json = to_json("string", "0722095C0A0D0801").unwrap();
    assert_eq!(json, r#""\"\t\\\n\r\b\u0001""#);
    assert_eq!(to_hex("string", json.as_str()).unwrap(), "0722095C0A0D0801");
}

#[test]
fn names_as_values() {
    both_ways("name", r#""eosio.token""#, "00A6823403EA3055");
    both_ways("account_name", r#""alice""#, "0000000000855C34");
    both_ways("name", r#""""#, "0000000000000000");
    assert_eq!(encode_error("name", r#""abcdefghijklmn""#), ErrorKind::NameTooLong);
    assert_eq!(encode_error("name", r#""Alice""#), ErrorKind::InvalidNameCharacter);
    assert_eq!(encode_error("name", "5"), ErrorKind::FieldTypeMismatch);
    assert_eq!(decode_error("name", "00A6823403EA30"), ErrorKind::TruncatedInput);
}

#[test]
fn fixed_size_byte_arrays() {
    let c160 = "000102030405060708090A0B0C0D0E0F10111213";
    both_ways("checksum160", format!("\"{}\"", c160).as_str(), c160);
    let c256 = "000102030405060708090A0B0C0D0E0F101112131415161718191A1B1C1D1E1F";
    both_ways("checksum256", format!("\"{}\"", c256).as_str(), c256);
    let c512 = format!("{}{}", c256, c256);
    both_ways("checksum512", format!("\"{}\"", c512).as_str(), c512.as_str());
    let key = format!("00{}20", c256);
    both_ways("public_key", format!("\"{}\"", key).as_str(), key.as_str());
    let signature = format!("01{}{}20", c256, c256);
    both_ways("signature", format!("\"{}\"", signature).as_str(), signature.as_str());
    assert_eq!(encode_error("checksum160", format!("\"{}\"", c256).as_str()), ErrorKind::FieldTypeMismatch);
    assert_eq!(decode_error("checksum256", c160), ErrorKind::TruncatedInput);
    assert_eq!(decode_error("public_key", c256), ErrorKind::TruncatedInput);
    assert_eq!(decode_error("signature", c256), ErrorKind::TruncatedInput);
}

#[test]
fn floats_are_their_ieee_bytes() {
    let one = 1.0f64.to_le_bytes();
    let hex: String = one.iter().map(|b| format!("{:02X}", b)).collect();
    assert_eq!(hex, "000000000000F03F");
    both_ways("float64", format!("\"{}\"", hex).as_str(), hex.as_str());
    let small = 1.5f32.to_le_bytes();
    let hex32: String = small.iter().map(|b| format!("{:02X}", b)).collect();
    assert_eq!(hex32, "0000C03F");
    both_ways("float32", format!("\"{}\"", hex32).as_str(), hex32.as_str());
    both_ways("float128", r#""000102030405060708090A0B0C0D0E0F""#, "000102030405060708090A0B0C0D0E0F");
    assert_eq!(encode_error("float32", r#""00""#), ErrorKind::FieldTypeMismatch);
    assert_eq!(decode_error("float64", "00000000"), ErrorKind::TruncatedInput);
}

#[test]
fn symbols_and_assets() {
    both_ways("symbol_code", r#""EOS""#, "454F530000000000");
    both_ways("symbol", r#""4,EOS""#, "04454F5300000000");
    both_ways("symbol", r#""0,ABCDEFG""#, "0041424344454647");
    both_ways("asset", r#""1.0000 EOS""#, "102700000000000004454F5300000000");
    both_ways("asset", r#""-1.5 ABC""#, "F1FFFFFFFFFFFFFF0141424300000000");
    both_ways("asset", r#""7 X""#, "07000000000000000058000000000000");
    both_ways("asset", r#""0.001 EOS""#, "010000000000000003454F5300000000");
    both_ways("asset", r#""922337203685477.5807 EOS""#, "FFFFFFFFFFFFFF7F04454F5300000000");
    assert_eq!(encode_error("asset", r#""922337203685477.5808 EOS""#), ErrorKind::FieldTypeMismatch);
    assert_eq!(encode_error("asset", r#""1.0000""#), ErrorKind::FieldTypeMismatch);
    assert_eq!(encode_error("asset", r#""1.0000 eos""#), ErrorKind::FieldTypeMismatch);
    assert_eq!(encode_error("asset", r#""1. EOS""#), ErrorKind::FieldTypeMismatch);
    assert_eq!(encode_error("asset", r#"".5 EOS""#), ErrorKind::FieldTypeMismatch);
    assert_eq!(encode_error("asset", r#""1.0 TOOLONGCODE""#), ErrorKind::FieldTypeMismatch);
    assert_eq!(encode_error("symbol", r#""EOS""#), ErrorKind::FieldTypeMismatch);
    assert_eq!(encode_error("symbol", r#""256,EOS""#), ErrorKind::FieldTypeMismatch);
    assert_eq!(encode_error("symbol_code", r#""""#), ErrorKind::FieldTypeMismatch);
    assert_eq!(decode_error("asset", "1027000000000000"), ErrorKind::TruncatedInput);
    assert_eq!(decode_error("symbol", "04454F"), ErrorKind::TruncatedInput);
    assert_eq!(decode_error("symbol_code", "04454F"), ErrorKind::TruncatedInput);
}

#[test]
fn symbol_code_text_is_the_capital_letters_at_the_front() {
    assert_eq!(to_json("symbol_code", "454F730000000000").unwrap(), r#""EO""#);
    assert_eq!(to_json("symbol_code", "FF4F530000000000").unwrap(), r#""""#);
    assert_eq!(to_json("symbol_code", "4142434445464748").unwrap(), r#""ABCDEFGH""#);
    assert_eq!(to_json("symbol", "02C3A94100000000").unwrap(), r#""2,""#);
    assert_eq!(to_json("asset", "0100000000000000004100FF00000000").unwrap(), r#""1 A""#);
}

#[test]
fn times() {
    both_ways("time_point_sec", r#""2018-06-27T20:33:54.000""#, "B2F4335B");
    both_ways("time_point_sec", r#""1970-01-01T00:00:00.000""#, "00000000");
    both_ways("time_point_sec", r#""2106-02-07T06:28:15.000""#, "FFFFFFFF");
    both_ways("time_point", r#""2018-06-27T20:33:54.123""#, "F8F08288A56F0500");
    both_ways("time_point", r#""1970-01-01T00:00:00.001""#, "E803000000000000");
    both_ways("block_timestamp_type", r#""2018-06-27T20:33:54.500""#, "65628D45");
    both_ways("block_timestamp_type", r#""2000-01-01T00:00:00.000""#, "00000000");
    both_ways("time_point_sec", r#""2000-02-29T12:00:00.000""#, "C0B4BB38");
    assert_eq!(to_hex("time_point_sec", r#""2018-06-27T20:33:54""#).unwrap(), "B2F4335B");
    assert_eq!(to_hex("time_point", r#""1970-01-01T00:00:00.000001""#).unwrap(), "0100000000000000");
    assert_eq!(encode_error("time_point_sec", r#""2106-02-07T06:28:16""#), ErrorKind::FieldTypeMismatch);
    assert_eq!(encode_error("time_point_sec", r#""1969-12-31T23:59:59""#), ErrorKind::FieldTypeMismatch);
    assert_eq!(encode_error("block_timestamp_type", r#""1999-12-31T23:59:59""#), ErrorKind::FieldTypeMismatch);
    assert_eq!(encode_error("time_point_sec", r#""2018-13-27T20:33:54""#), ErrorKind::FieldTypeMismatch);
    assert_eq!(encode_error("time_point_sec", r#""2018-06-27 20:33:54""#), ErrorKind::FieldTypeMismatch);
    assert_eq!(encode_error("time_point_sec", "5"), ErrorKind::FieldTypeMismatch);
    assert_eq!(decode_error("time_point", "B2F4335B"), ErrorKind::TruncatedInput);
    assert_eq!(decode_error("time_point_sec", "B2F4"), ErrorKind::TruncatedInput);
    assert_eq!(decode_error("block_timestamp_type", "B2F4"), ErrorKind::TruncatedInput);
}

#[test]
fn optionals() {
    both_ways("uint8?", "null", "00");
    both_ways("uint8?", "5", "0105");
    both_ways("maybe_numbers", "[1,2]", "01020102");
    both_ways("maybe_numbers", "null", "00");
    assert_eq!(to_json("uint8?", "0205").unwrap(), "5");
    assert_eq!(decode_error("uint8?", ""), ErrorKind::TruncatedInput);
    assert_eq!(decode_error("uint8?", "01"), ErrorKind::TruncatedInput);
}

#[test]
fn arrays() {
    both_ways("uint8[]", "[1,2,3]", "03010203");
    both_ways("uint8[]", "[]", "00");
    both_ways("numbers", "[255]", "01FF");
    both_ways("string[]", r#"["a","bc"]"#, "0201610262 63".replace(' ', "").as_str());
    both_ways("point[]", r#"[{"x":1,"y":2}]"#, "010100000002000000");
    assert_eq!(encode_error("uint8[]", "5"), ErrorKind::FieldTypeMismatch);
    assert_eq!(encode_error("uint8[]", "[1,256]"), ErrorKind::FieldTypeMismatch);
    assert_eq!(decode_error("uint8[]", "0301"), ErrorKind::TruncatedInput);
}

#[test]
fn structs_with_a_base() {
    both_ways("point", r#"{"x":1,"y":-1}"#, "01000000FFFFFFFF");
    both_ways("point3", r#"{"x":1,"y":2,"z":3}"#, "010000000200000003000000");
    assert_eq!(to_hex("point3", r#"{"z":3,"y":2,"x":1}"#).unwrap(), "010000000200000003000000");
    assert_eq!(encode_error("point3", r#"{"x":1,"z":3}"#), ErrorKind::MissingField);
    assert_eq!(encode_error("point", "[1,2]"), ErrorKind::FieldTypeMismatch);
    assert_eq!(encode_error("point", r#"{"x":1,"y":"a"}"#), ErrorKind::FieldTypeMismatch);
    assert_eq!(decode_error("point", "01000000"), ErrorKind::TruncatedInput);
    both_ways("empty", "{}", "");
}

#[test]
fn variants() {
    both_ways("figure", r#"["int8",7]"#, "0007");
    both_ways("figure", r#"["point",{"x":1,"y":2}]"#, "010100000002000000");
    both_ways("figure", r#"["string","hi"]"#, "02026869");
    both_ways("shape", r#"{"kind":["int8",-1]}"#, "00FF");
    assert_eq!(encode_error("figure", r#"["uint8",7]"#), ErrorKind::NoMatchingVariantType);
    assert_eq!(encode_error("figure", "7"), ErrorKind::FieldTypeMismatch);
    assert_eq!(encode_error("figure", r#"["int8"]"#), ErrorKind::FieldTypeMismatch);
    assert_eq!(encode_error("figure", r#"[7,"int8"]"#), ErrorKind::FieldTypeMismatch);
    assert_eq!(decode_error("figure", "0307"), ErrorKind::VariantIndexOutOfRange);
    assert_eq!(decode_error("figure", ""), ErrorKind::TruncatedInput);
}

#[test]
fn binary_extensions_at_the_tail() {
    both_ways(
        "person",
        r#"{"who":"alice","age":30,"tags":["a"],"note":"hi","extra":513}"#,
        "0000000000855C34011E0101610268690102",
    );
    both_ways("person", r#"{"who":"alice","age":null,"tags":[],"note":"hi"}"#, "0000000000855C340000026869");
    both_ways("person", r#"{"who":"alice","age":null,"tags":[]}"#, "0000000000855C340000");
    assert_eq!(to_hex("person", r#"{"who":"alice","tags":[]}"#).unwrap(), "0000000000855C340000");
    assert_eq!(encode_error("person", r#"{"who":"alice","tags":[],"extra":1}"#), ErrorKind::MissingField);
    assert_eq!(encode_error("person", r#"{"age":1,"tags":[]}"#), ErrorKind::MissingField);
    assert_eq!(encode_error("person", r#"{"who":"alice"}"#), ErrorKind::MissingField);
}

#[test]
fn binary_extension_outside_a_struct_is_the_value() {
    both_ways("uint8$", "5", "05");
    both_ways("uint8?$", "null", "00");
    both_ways("uint8[]$", "[1]", "0101");
}

#[test]
fn unknown_keys_are_ignored_and_key_order_is_free() {
    let canonical = to_hex("person", r#"{"who":"bob","age":7,"tags":["x","y"],"note":"n"}"#).unwrap();
    let permuted = to_hex("person", r#"{"note":"n","tags":["x","y"],"who":"bob","age":7}"#).unwrap();
    let with_extras =
        to_hex("person", r#"{"zzz":[1,2],"note":"n","other":{"who":"eve"},"tags":["x","y"],"who":"bob","age":7}"#)
            .unwrap();
    assert_eq!(canonical, "0000000000000E3D0107020178017901 6E".replace(' ', ""));
    assert_eq!(permuted, canonical);
    assert_eq!(with_extras, canonical);
}

#[test]
fn binary_form_reads_back_as_the_canonical_form() {
    let abieos = registry();
    let given = r#"{"junk":1,"tags":["x"],"who":"bob..","age":7}"#;
    let hex = abieos.json_to_hex("test", "person", given.to_string()).unwrap();
    let back = abieos.hex_to_json("test", "person", hex.clone()).unwrap();
    assert_eq!(back, r#"{"who":"bob","age":7,"tags":["x"]}"#);
    assert_eq!(abieos.json_to_hex("test", "person", back).unwrap(), hex);
}

#[test]
fn an_omitted_extension_inside_another_struct_is_not_seen() {
    let hex = to_hex("holder", r#"{"inner":{"who":"bob","tags":[]},"after":9}"#).unwrap();
    assert_eq!(hex, "0000000000000E3D000009");
    assert_eq!(decode_error("holder", hex.as_str()), ErrorKind::TruncatedInput);
}

#[test]
fn types_that_resolve_to_nothing() {
    assert_eq!(encode_error("nothing", "1"), ErrorKind::UnknownType);
    assert_eq!(encode_error("nothing[]", "[1]"), ErrorKind::UnknownType);
    assert_eq!(encode_error("", "1"), ErrorKind::UnknownType);
    assert_eq!(decode_error("nothing", "00"), ErrorKind::UnknownType);
    assert_eq!(encode_error("loop_a", "1"), ErrorKind::AliasCycle);
    assert_eq!(decode_error("loop_b", "00"), ErrorKind::AliasCycle);
}

#[test]
fn nesting_has_a_limit() {
    let mut json = String::from(r#"{"children":[]}"#);
    for _ in 0..40 {
        json = format!(r#"{{"children":[{}]}}"#, json);
    }
    assert_eq!(encode_error("tree", json.as_str()), ErrorKind::NestingTooDeep);
    let shallow = r#"{"children":[{"children":[]},{"children":[]}]}"#;
    both_ways("tree", shallow, "020000");
    let deep_hex = "01".repeat(40) + "00";
    assert_eq!(decode_error("tree", deep_hex.as_str()), ErrorKind::NestingTooDeep);
}

#[test]
fn bytes_left_over_are_an_error() {
    assert_eq!(decode_error("uint8", "0102"), ErrorKind::ExtraData);
    assert_eq!(decode_error("point", "010000000200000003"), ErrorKind::ExtraData);
}

#[test]
fn text_that_is_no_hex_or_no_json() {
    assert_eq!(decode_error("uint8", "0"), ErrorKind::InvalidHex);
    assert_eq!(decode_error("uint8", "0g"), ErrorKind::InvalidHex);
    assert_eq!(encode_error("uint8", "{"), ErrorKind::InvalidJson);
    assert_eq!(encode_error("uint8", ""), ErrorKind::InvalidJson);
    assert_eq!(encode_error("uint8", "1 2"), ErrorKind::InvalidJson);
}

#[test]
fn contract_that_is_not_registered() {
    let abieos = registry();
    assert_eq!(
        abieos.json_to_hex("other", "uint8", "1".to_string()),
        Err(AbieosError::JsonToHex(ErrorKind::ContractNotRegistered))
    );
    assert_eq!(
        abieos.hex_to_json("other", "uint8", "01".to_string()),
        Err(AbieosError::HexToJson(ErrorKind::ContractNotRegistered))
    );
    assert_eq!(
        abieos.bin_to_json("other", "uint8", vec![1]),
        Err(AbieosError::BinToJson(ErrorKind::ContractNotRegistered))
    );
    assert_eq!(abieos.json_to_hex("Other", "uint8", "1".to_string()), Err(AbieosError::StringToName));
    assert_eq!(abieos.json_to_bin("abcdefghijklmno", "uint8", "1".to_string()), Err(AbieosError::NameTooLong));
}

#[test]
fn binary_in_and_out() {
    let abieos = registry();
    assert_eq!(abieos.json_to_bin("test", "uint16", "258".to_string()), Ok(vec![2, 1]));
    assert_eq!(abieos.bin_to_json("test", "uint16", vec![2, 1]), Ok("258".to_string()));
    assert_eq!(abieos.bin_to_json("test", "uint16", vec![2]), Err(AbieosError::BinToJson(ErrorKind::TruncatedInput)));
}

#[test]
fn canonical_forms_of_symbols_assets_and_times() {
    let canonical = |datatype: &str, json: &str| {
        let abieos = registry();
        let hex = abieos.json_to_hex("test", datatype, json.to_string()).unwrap();
        abieos.hex_to_json("test", datatype, hex).unwrap()
    };
    assert_eq!(canonical("symbol_code", r#""EOS""#), r#""EOS""#);
    assert_eq!(canonical("symbol", r#""004,EOS""#), r#""4,EOS""#);
    assert_eq!(canonical("symbol", r#""0,A""#), r#""0,A""#);
    assert_eq!(canonical("asset", r#""001.50 EOS""#), r#""1.50 EOS""#);
    assert_eq!(canonical("asset", r#""-0.0 EOS""#), r#""0.0 EOS""#);
    assert_eq!(canonical("asset", r#""-0.05 EOS""#), r#""-0.05 EOS""#);
    assert_eq!(canonical("asset", r#""12 EOS""#), r#""12 EOS""#);
    assert_eq!(canonical("time_point_sec", r#""2018-06-27T20:33:54""#), r#""2018-06-27T20:33:54.000""#);
    assert_eq!(canonical("time_point_sec", r#""2018-06-27T20:33:54.999""#), r#""2018-06-27T20:33:54.000""#);
    assert_eq!(canonical("time_point", r#""2018-06-27T20:33:54.123456""#), r#""2018-06-27T20:33:54.123""#);
    assert_eq!(canonical("time_point", r#""2018-06-27T20:33:54.5""#), r#""2018-06-27T20:33:54.500""#);
    assert_eq!(canonical("block_timestamp_type", r#""2018-06-27T20:33:54.750""#), r#""2018-06-27T20:33:54.500""#);
    assert_eq!(canonical("block_timestamp_type", r#""2018-06-27T20:33:54.499""#), r#""2018-06-27T20:33:54.000""#);
    assert_eq!(canonical("uint64", "7"), r#""7""#);
    assert_eq!(canonical("bytes", r#""abcdef""#), r#""ABCDEF""#);
    assert_eq!(canonical("name", r#""abc...""#), r#""abc""#);
}

#[test]
fn decoded_text_is_always_a_string() {
    let abieos = registry();
    for (datatype, hex) in [
        ("asset", "FFFFFFFFFFFFFFFFFFC3A9FFFE800000"),
        ("symbol", "FF80818283848586"),
        ("symbol_code", "C3A9000000000000"),
        ("name", "FFFFFFFFFFFFFFFF"),
        ("time_point", "FFFFFFFFFFFFFFFF"),
        ("time_point_sec", "FFFFFFFF"),
        ("block_timestamp_type", "FFFFFFFF"),
        ("checksum160", "FFFEFDFCFBFAF9F8F7F6F5F4F3F2F1F0EFEEEDEC"),
        ("int128", "FFFFFFFFFFFFFFFFFFFFFFFFFFFFFF7F"),
    ] {
        let text = abieos.hex_to_json("test", datatype, hex.to_string());
        assert_eq!(text.is_ok(), true, "decoding {} as {}", hex, datatype);
        let parsed: Result<serde_json::Value, _> = serde_json::from_str(text.unwrap().as_str());
        assert_eq!(parsed.is_ok(), true, "decoding {} as {}", hex, datatype);
    }
    assert_eq!(
        abieos.hex_to_json("test", "time_point", "FFFFFFFFFFFFFFFF".to_string()).unwrap(),
        r#""586524-01-19T08:01:49.551""#
    );
}
