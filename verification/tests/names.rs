use rs_abieos::name::{name_to_bytes, string_to_name};
use rs_abieos::{Abieos, AbieosError, ErrorKind};

#[test]
fn name_values_of_known_names() {
    let abieos = Abieos::new();
    assert_eq!(abieos.string_to_name("eosio"), Ok(6138663577826885632));
    assert_eq!(abieos.string_to_name("alice"), Ok(3773036822876127232));
    assert_eq!(abieos.string_to_name("bob"), Ok(4399453885987553280));
    assert_eq!(abieos.string_to_name("transfer"), Ok(14829575313431724032));
    assert_eq!(abieos.string_to_name("a"), Ok(3458764513820540928));
    assert_eq!(abieos.string_to_name("1"), Ok(576460752303423488));
    assert_eq!(abieos.string_to_name(""), Ok(0));
}

#[test]
fn name_of_fourteen_characters_is_too_long() {
    let abieos = Abieos::new();
    assert_eq!(abieos.string_to_name("abcdefghijklmn"), Err(AbieosError::NameTooLong));
    assert_eq!(string_to_name(b"abcdefghijklmn"), Err(ErrorKind::NameTooLong));
    assert_eq!(abieos.string_to_name("abcdefghijklm").is_ok(), true);
}

#[test]
fn name_with_a_character_outside_the_alphabet_is_refused() {
    let abieos = Abieos::new();
    assert_eq!(abieos.string_to_name("Alice"), Err(AbieosError::StringToName));
    assert_eq!(abieos.string_to_name("bob6"), Err(AbieosError::StringToName));
    assert_eq!(abieos.string_to_name("a b"), Err(AbieosError::StringToName));
    assert_eq!(string_to_name(b"0"), Err(ErrorKind::InvalidNameCharacter));
    assert_eq!(string_to_name("é".as_bytes()), Err(ErrorKind::InvalidNameCharacter));
}

#[test]
fn name_too_long_is_reported_before_an_invalid_character() {
    assert_eq!(string_to_name(b"ABCDEFGHIJKLMN"), Err(ErrorKind::NameTooLong));
}

#[test]
fn thirteenth_character_keeps_four_bits() {
    assert_eq!(string_to_name(b"zzzzzzzzzzzzj"), Ok(u64::MAX));
    assert_eq!(string_to_name(b"zzzzzzzzzzzzz"), Ok(u64::MAX));
    assert_eq!(name_to_bytes(u64::MAX), b"zzzzzzzzzzzzj".to_vec());
    assert_eq!(string_to_name(b"............1"), Ok(1));
    assert_eq!(name_to_bytes(1), b"............1".to_vec());
}

#[test]
fn trailing_dots_are_left_out() {
    assert_eq!(string_to_name(b"abc.."), Ok(3589368903014285312));
    assert_eq!(string_to_name(b"abc"), Ok(3589368903014285312));
    assert_eq!(name_to_bytes(3589368903014285312), b"abc".to_vec());
    assert_eq!(name_to_bytes(0), b"".to_vec());
}

#[test]
fn name_round_trip_on_samples() {
    let abieos = Abieos::new();
    for s in ["eosio.token", "a.b.c", "zzzzzzzzzzzz", "12345", "hello.world1a", ".a", "a"] {
        let n = abieos.string_to_name(s).unwrap();
        assert_eq!(abieos.name_to_string(n).unwrap(), s);
        assert_eq!(abieos.string_to_name(abieos.name_to_string(n).unwrap().as_str()), Ok(n));
    }
    for n in [0u64, 1, 15, 16, 0x8000_0000_0000_0000, u64::MAX, 6138663591592764928, 0x1234_5678_9abc_def0] {
        let s = abieos.name_to_string(n).unwrap();
        assert_eq!(abieos.string_to_name(s.as_str()), Ok(n));
    }
}
