use crate::abi::AbiModel;
use crate::error::{AbieosError, ErrorKind};
use crate::hex::{hex_decode, hex_decode_spec, hex_encode, hex_text};
use crate::json::Json;
use crate::name::{lemma_strip_shape, name_chars, name_text, name_to_bytes, string_to_name_spec};
use crate::parse::{parse_json, parsed_json};
use crate::print::{json_text, to_text};
use crate::registry::{
    abi_bin_to_json_spec, abi_bin_to_value, abi_from_binary, abi_from_value, abi_json_to_bin_spec, abi_of_binary,
    abi_of_value, abi_value_to_bin, AbieosContext,
};
use crate::text::{ascii_string, string_from_utf8};
use vstd::prelude::*;
use vstd::string::StringSliceAdditionalSpecFns;
use vstd::utf8::{encode_utf8, valid_utf8};

verus! {

/// A registry of ABIs and the conversions under them.
pub struct Abieos {
    pub context: Option<AbieosContext>,
    pub is_destroyed: bool,
}

/// The forms in which a contract name is accepted.
pub enum NameLike {
    String(String),
    StringRef(&'static str),
    U64(u64),
    I32(i32),
}

/// The forms in which an ABI is accepted.
pub enum AbiLike {
    Json(String),
    Hex(String),
    Bin(Vec<u8>),
}

/// A contract of a registry, by its name.
#[allow(non_snake_case)]
pub struct AbieosContract {
    pub name: u64,
    pub abiLoaded: bool,
}

/// The value of a name string, or the error that its conversion reports.
pub open spec fn name_of(text: Seq<u8>) -> Result<u64, AbieosError> {
    match string_to_name_spec(text) {
        Ok(n) => Ok(n),
        Err(ErrorKind::NameTooLong) => Err(AbieosError::NameTooLong),
        Err(_) => Err(AbieosError::StringToName),
    }
}

/// The ABI document that a JSON text writes, if it writes one that can be
/// registered.
pub open spec fn abi_of_text(text: Seq<char>) -> Option<AbiModel> {
    match parsed_json(text) {
        Some(v) => abi_of_value(v),
        None => None,
    }
}

/// The ABI document that a hexadecimal text holds, if it holds one that can
/// be registered.
pub open spec fn abi_of_hex(text: Seq<u8>) -> Option<AbiModel> {
    match hex_decode_spec(text) {
        Some(bytes) => abi_of_binary(bytes),
        None => None,
    }
}

/// The ABI document that one of the accepted forms gives, if it gives one
/// that can be registered.
pub open spec fn abi_of_like(abi: AbiLike) -> Option<AbiModel> {
    match abi {
        AbiLike::Json(text) => abi_of_text(text@),
        AbiLike::Hex(text) => abi_of_hex(encode_utf8(text@)),
        AbiLike::Bin(bytes) => abi_of_binary(bytes@),
    }
}

/// The 64-bit value that a 32-bit signed integer extends to.
pub open spec fn sign_extended(n: i32) -> u64 {
    if n >= 0 {
        n as u64
    } else {
        (0x1_0000_0000_0000_0000 + n) as u64
    }
}

/// The text of a string result, or the error of a failed conversion.
pub open spec fn is_text(r: Result<String, AbieosError>, expected: Result<Seq<u8>, AbieosError>) -> bool {
    match expected {
        Ok(bytes) => r matches Ok(s) && encode_utf8(s@) == bytes,
        Err(e) => r == Err::<String, AbieosError>(e),
    }
}

/// The bytes of a binary result, or the error of a failed conversion.
pub open spec fn is_bytes(r: Result<Vec<u8>, AbieosError>, expected: Result<Seq<u8>, AbieosError>) -> bool {
    match expected {
        Ok(bytes) => r matches Ok(v) && v@ == bytes,
        Err(e) => r matches Err(x) && x == e,
    }
}

/// The bytes as text where they are well-formed UTF-8.
pub open spec fn utf8_or_error(bytes: Seq<u8>) -> Result<Seq<u8>, ErrorKind> {
    if valid_utf8(bytes) {
        Ok(bytes)
    } else {
        Err(ErrorKind::InvalidUtf8)
    }
}

/// The string of bytes that are well-formed UTF-8.
fn checked_string(bytes: Vec<u8>) -> (r: Result<String, ErrorKind>)
    ensures
        match utf8_or_error(bytes@) {
            Ok(text) => r matches Ok(s) && encode_utf8(s@) == text,
            Err(e) => r matches Err(x) && x == e,
        },
{
    match string_from_utf8(bytes) {
        Some(s) => Ok(s),
        None => Err(ErrorKind::InvalidUtf8),
    }
}

/// The upper-case hexadecimal text of bytes, as a string.
fn hex_string(bytes: &[u8]) -> (r: String)
    ensures
        encode_utf8(r@) == hex_text(bytes@),
{
    let text = hex_encode(bytes);
    assert forall|i: int| 0 <= i < text@.len() implies text@[i] < 128 by {
        let b = bytes@[i / 2];
        assert(b / 16 < 16 && b % 16 < 16);
    }
    ascii_string(text)
}

/// A context without any ABI.
pub fn create() -> (r: AbieosContext)
    ensures
        forall|name: u64| r.abi_of(name) is None,
{
    AbieosContext::new()
}

impl Default for Abieos {
    fn default() -> (r: Abieos)
        ensures
            r.wf(),
            !r.is_destroyed,
            forall|name: u64| r.abi_of(name) is None,
    {
        Abieos::new()
    }
}

impl Abieos {
    /// Whether the registry is there.
    pub open spec fn wf(&self) -> bool {
        self.context is Some
    }

    /// The ABI registered under a contract name.
    pub open spec fn abi_of(&self, name: u64) -> Option<AbiModel> {
        match self.context {
            Some(context) => context.abi_of(name),
            None => None,
        }
    }

    /// How the registry stands after an attempt to register under `name`:
    /// with the new ABI under that name if there was one to register, and
    /// otherwise as before.
    pub open spec fn registered(&self, before: &Abieos, name: u64, abi: Option<AbiModel>) -> bool {
        &&& self.wf()
        &&& self.is_destroyed == before.is_destroyed
        &&& forall|other: u64| other != name ==> self.abi_of(other) == before.abi_of(other)
        &&& self.abi_of(name) == match abi {
            Some(abi) => Some(abi),
            None => before.abi_of(name),
        }
    }

    /// The outcome of an attempt to register.
    pub open spec fn set_outcome(abi: Option<AbiModel>) -> Result<bool, AbieosError> {
        match abi {
            Some(_) => Ok(true),
            None => Err(AbieosError::SetAbi(ErrorKind::AbiParseError)),
        }
    }

    /// The binary form of a JSON value under a type of a contract's ABI.
    pub open spec fn bin_of_json(&self, contract: u64, datatype: Seq<u8>, v: Option<Json>) -> Result<
        Seq<u8>,
        ErrorKind,
    > {
        match self.context {
            Some(context) => if context.abi_of(contract) is None {
                Err(ErrorKind::ContractNotRegistered)
            } else {
                match v {
                    Some(v) => context.to_bin_spec(contract, datatype, v),
                    None => Err(ErrorKind::InvalidJson),
                }
            },
            None => Err(ErrorKind::ContractNotRegistered),
        }
    }

    /// The JSON text of the value that bytes hold under a type of a
    /// contract's ABI.
    pub open spec fn json_of_bin(&self, contract: u64, datatype: Seq<u8>, bytes: Option<Seq<u8>>) -> Result<
        Seq<u8>,
        ErrorKind,
    > {
        match self.context {
            Some(context) => if context.abi_of(contract) is None {
                Err(ErrorKind::ContractNotRegistered)
            } else {
                match bytes {
                    Some(bytes) => match context.to_json_spec(contract, datatype, bytes) {
                        Ok(v) => utf8_or_error(json_text(v)),
                        Err(e) => Err(e),
                    },
                    None => Err(ErrorKind::InvalidHex),
                }
            },
            None => Err(ErrorKind::ContractNotRegistered),
        }
    }

    /// A registry without any ABI.
    pub fn new() -> (r: Abieos)
        ensures
            r.wf(),
            !r.is_destroyed,
            forall|name: u64| r.abi_of(name) is None,
    {
        Abieos { context: Some(create()), is_destroyed: false }
    }

    /// A registry with the ABIs of a context.
    pub fn from_context(context: AbieosContext) -> (r: Abieos)
        ensures
            r.context == Some(context),
            !r.is_destroyed,
    {
        Abieos { context: Some(context), is_destroyed: false }
    }

    /// Gives up the ABIs of the registry.
    pub fn destroy(&mut self)
        ensures
            final(self).context is None,
            final(self).is_destroyed,
    {
        self.context = None;
        self.is_destroyed = true;
    }

    /// The context of the registry.
    pub fn ctx(&self) -> (r: &AbieosContext)
        requires
            self.wf(),
        ensures
            self.context == Some(*r),
    {
        match &self.context {
            Some(context) => context,
            None => vstd::pervasive::unreached(),
        }
    }

    /// Converts a name string to its 64-bit value.
    pub fn string_to_name(&self, name: &str) -> (r: Result<u64, AbieosError>)
        ensures
            r == name_of(name.spec_bytes()),
    {
        match crate::name::string_to_name(name.as_bytes()) {
            Ok(n) => Ok(n),
            Err(ErrorKind::NameTooLong) => Err(AbieosError::NameTooLong),
            Err(_) => Err(AbieosError::StringToName),
        }
    }

    /// Converts a 64-bit name value to its canonical string.
    pub fn name_to_string(&self, name: u64) -> (r: Result<String, AbieosError>)
        ensures
            r matches Ok(s) && encode_utf8(s@) == name_text(name as nat),
    {
        let bytes = name_to_bytes(name);
        proof {
            let full = name_chars(name as nat);
            lemma_strip_shape(full);
            assert forall|i: int| 0 <= i < bytes@.len() implies bytes@[i] < 128 by {
                assert(bytes@[i] == full[i]);
            }
        }
        Ok(ascii_string(bytes))
    }

    /// Registers an ABI document under a contract name, if there is one.
    fn set_abi(&mut self, contract: u64, abi: Option<crate::abi::AbiDocument>) -> (r: Result<bool, AbieosError>)
        requires
            old(self).wf(),
            abi matches Some(doc) ==> crate::validate::abi_valid(doc@),
        ensures
            final(self).registered(
                old(self),
                contract,
                match abi {
                    Some(doc) => Some(doc@),
                    None => None,
                },
            ),
            r == Self::set_outcome(
                match abi {
                    Some(doc) => Some(doc@),
                    None => None,
                },
            ),
    {
        match abi {
            Some(doc) => {
                let mut taken: Option<AbieosContext> = None;
                core::mem::swap(&mut self.context, &mut taken);
                match taken {
                    Some(mut context) => {
                        let _ = context.register(contract, doc);
                        self.context = Some(context);
                    },
                    None => {},
                }
                Ok(true)
            },
            None => Err(AbieosError::SetAbi(ErrorKind::AbiParseError)),
        }
    }

    /// Registers the ABI that a JSON text writes under a contract name.
    pub fn set_abi_json_native(&mut self, contract: u64, abi_json: String) -> (r: Result<bool, AbieosError>)
        requires
            old(self).wf(),
        ensures
            final(self).registered(old(self), contract, abi_of_text(abi_json@)),
            r == Self::set_outcome(abi_of_text(abi_json@)),
    {
        let abi = match parse_json(abi_json.as_str()) {
            Some(v) => abi_from_value(v),
            None => None,
        };
        self.set_abi(contract, abi)
    }

    /// Registers the ABI that a hexadecimal text holds under a contract name.
    pub fn set_abi_hex_native(&mut self, contract: u64, abi_hex: String) -> (r: Result<bool, AbieosError>)
        requires
            old(self).wf(),
        ensures
            final(self).registered(old(self), contract, abi_of_hex(encode_utf8(abi_hex@))),
            r == Self::set_outcome(abi_of_hex(encode_utf8(abi_hex@))),
    {
        let abi = match hex_decode(abi_hex.as_str().as_bytes()) {
            Some(bytes) => abi_from_binary(bytes.as_slice()),
            None => None,
        };
        self.set_abi(contract, abi)
    }

    /// Registers the ABI that bytes hold under a contract name.
    pub fn set_abi_bin_native(&mut self, contract: u64, abi_bin: Vec<u8>) -> (r: Result<bool, AbieosError>)
        requires
            old(self).wf(),
        ensures
            final(self).registered(old(self), contract, abi_of_binary(abi_bin@)),
            r == Self::set_outcome(abi_of_binary(abi_bin@)),
    {
        let abi = abi_from_binary(abi_bin.as_slice());
        self.set_abi(contract, abi)
    }

    /// Registers the ABI that a JSON text writes under a contract given by
    /// its name string.
    pub fn set_abi_json(&mut self, contract: &str, abi_json: String) -> (r: Result<bool, AbieosError>)
        requires
            old(self).wf(),
        ensures
            match name_of(contract.spec_bytes()) {
                Ok(n) => final(self).registered(old(self), n, abi_of_text(abi_json@)) && r == Self::set_outcome(
                    abi_of_text(abi_json@),
                ),
                Err(e) => *final(self) == *old(self) && r == Err::<bool, AbieosError>(e),
            },
    {
        match self.string_to_name(contract) {
            Ok(n) => self.set_abi_json_native(n, abi_json),
            Err(e) => Err(e),
        }
    }

    /// Registers the ABI that a hexadecimal text holds under a contract given
    /// by its name string.
    pub fn set_abi_hex(&mut self, contract: &str, abi_hex: String) -> (r: Result<bool, AbieosError>)
        requires
            old(self).wf(),
        ensures
            match name_of(contract.spec_bytes()) {
                Ok(n) => final(self).registered(old(self), n, abi_of_hex(encode_utf8(abi_hex@))) && r
                    == Self::set_outcome(abi_of_hex(encode_utf8(abi_hex@))),
                Err(e) => *final(self) == *old(self) && r == Err::<bool, AbieosError>(e),
            },
    {
        match self.string_to_name(contract) {
            Ok(n) => self.set_abi_hex_native(n, abi_hex),
            Err(e) => Err(e),
        }
    }

    /// Registers the ABI that bytes hold under a contract given by its name
    /// string.
    pub fn set_abi_bin(&mut self, contract: &str, abi_bin: Vec<u8>) -> (r: Result<bool, AbieosError>)
        requires
            old(self).wf(),
        ensures
            match name_of(contract.spec_bytes()) {
                Ok(n) => final(self).registered(old(self), n, abi_of_binary(abi_bin@)) && r == Self::set_outcome(
                    abi_of_binary(abi_bin@),
                ),
                Err(e) => *final(self) == *old(self) && r == Err::<bool, AbieosError>(e),
            },
    {
        match self.string_to_name(contract) {
            Ok(n) => self.set_abi_bin_native(n, abi_bin),
            Err(e) => Err(e),
        }
    }

    /// The binary form of the value that a JSON text writes, under a type of
    /// a contract's ABI.
    fn text_to_bin(&self, account: u64, datatype: &str, json: &str) -> (r: Result<Vec<u8>, ErrorKind>)
        requires
            self.wf(),
        ensures
            match self.bin_of_json(account, datatype.spec_bytes(), parsed_json(json@)) {
                Ok(bytes) => r matches Ok(v) && v@ == bytes,
                Err(e) => r matches Err(x) && x == e,
            },
    {
        let context = self.ctx();
        if context.abi(account).is_none() {
            return Err(ErrorKind::ContractNotRegistered);
        }
        match parse_json(json) {
            Some(v) => context.to_bin(account, datatype.as_bytes(), &v),
            None => Err(ErrorKind::InvalidJson),
        }
    }

    /// The JSON text of the value that bytes hold under a type of a
    /// contract's ABI.
    fn bin_to_text(&self, account: u64, datatype: &str, bytes: Option<Vec<u8>>) -> (r: Result<String, ErrorKind>)
        requires
            self.wf(),
        ensures
            match self.json_of_bin(
                account,
                datatype.spec_bytes(),
                match bytes {
                    Some(b) => Some(b@),
                    None => None,
                },
            ) {
                Ok(text) => r matches Ok(s) && encode_utf8(s@) == text,
                Err(e) => r matches Err(x) && x == e,
            },
    {
        let context = self.ctx();
        if context.abi(account).is_none() {
            return Err(ErrorKind::ContractNotRegistered);
        }
        match bytes {
            Some(b) => match context.to_json(account, datatype.as_bytes(), b.as_slice()) {
                Ok(v) => checked_string(to_text(&v)),
                Err(e) => Err(e),
            },
            None => Err(ErrorKind::InvalidHex),
        }
    }

    /// The hexadecimal text of the binary form of a JSON text, under a type
    /// of a contract's ABI.
    pub fn json_to_hex_native(&self, account: u64, datatype: &str, json: String) -> (r: Result<
        String,
        AbieosError,
    >)
        requires
            self.wf(),
        ensures
            match self.bin_of_json(account, datatype.spec_bytes(), parsed_json(json@)) {
                Ok(bytes) => r matches Ok(s) && encode_utf8(s@) == hex_text(bytes),
                Err(e) => r == Err::<String, AbieosError>(AbieosError::JsonToHex(e)),
            },
    {
        match self.text_to_bin(account, datatype, json.as_str()) {
            Ok(bytes) => Ok(hex_string(bytes.as_slice())),
            Err(e) => Err(AbieosError::JsonToHex(e)),
        }
    }

    /// The hexadecimal text of the binary form of a JSON text, under a type
    /// of the ABI of a contract given by its name string.
    pub fn json_to_hex(&self, account: &str, datatype: &str, json: String) -> (r: Result<String, AbieosError>)
        requires
            self.wf(),
        ensures
            match name_of(account.spec_bytes()) {
                Ok(n) => match self.bin_of_json(n, datatype.spec_bytes(), parsed_json(json@)) {
                    Ok(bytes) => r matches Ok(s) && encode_utf8(s@) == hex_text(bytes),
                    Err(e) => r == Err::<String, AbieosError>(AbieosError::JsonToHex(e)),
                },
                Err(e) => r == Err::<String, AbieosError>(e),
            },
    {
        match self.string_to_name(account) {
            Ok(n) => self.json_to_hex_native(n, datatype, json),
            Err(e) => Err(e),
        }
    }

    /// The binary form of a JSON text, under a type of the ABI of a contract
    /// given by its name string.
    pub fn json_to_bin(&self, account: &str, datatype: &str, json: String) -> (r: Result<Vec<u8>, AbieosError>)
        requires
            self.wf(),
        ensures
            match name_of(account.spec_bytes()) {
                Ok(n) => match self.bin_of_json(n, datatype.spec_bytes(), parsed_json(json@)) {
                    Ok(bytes) => r matches Ok(v) && v@ == bytes,
                    Err(e) => r matches Err(x) && x == AbieosError::JsonToHex(e),
                },
                Err(e) => r matches Err(x) && x == e,
            },
    {
        match self.string_to_name(account) {
            Ok(n) => match self.text_to_bin(n, datatype, json.as_str()) {
                Ok(bytes) => Ok(bytes),
                Err(e) => Err(AbieosError::JsonToHex(e)),
            },
            Err(e) => Err(e),
        }
    }

    /// The JSON text of the value that a hexadecimal text holds, under a
    /// type of a contract's ABI.
    pub fn hex_to_json_native(&self, account: u64, datatype: &str, hex: String) -> (r: Result<String, AbieosError>)
        requires
            self.wf(),
        ensures
            match self.json_of_bin(account, datatype.spec_bytes(), hex_decode_spec(encode_utf8(hex@))) {
                Ok(text) => r matches Ok(s) && encode_utf8(s@) == text,
                Err(e) => r == Err::<String, AbieosError>(AbieosError::HexToJson(e)),
            },
    {
        match self.bin_to_text(account, datatype, hex_decode(hex.as_str().as_bytes())) {
            Ok(s) => Ok(s),
            Err(e) => Err(AbieosError::HexToJson(e)),
        }
    }

    /// The JSON text of the value that a hexadecimal text holds, under a
    /// type of the ABI of a contract given by its name string.
    pub fn hex_to_json(&self, account: &str, datatype: &str, hex: String) -> (r: Result<String, AbieosError>)
        requires
            self.wf(),
        ensures
            match name_of(account.spec_bytes()) {
                Ok(n) => match self.json_of_bin(n, datatype.spec_bytes(), hex_decode_spec(encode_utf8(hex@))) {
                    Ok(text) => r matches Ok(s) && encode_utf8(s@) == text,
                    Err(e) => r == Err::<String, AbieosError>(AbieosError::HexToJson(e)),
                },
                Err(e) => r == Err::<String, AbieosError>(e),
            },
    {
        match self.string_to_name(account) {
            Ok(n) => self.hex_to_json_native(n, datatype, hex),
            Err(e) => Err(e),
        }
    }

    /// The JSON text of the value that bytes hold, under a type of the ABI of
    /// a contract given by its name string.
    pub fn bin_to_json(&self, account: &str, datatype: &str, bin: Vec<u8>) -> (r: Result<String, AbieosError>)
        requires
            self.wf(),
        ensures
            match name_of(account.spec_bytes()) {
                Ok(n) => match self.json_of_bin(n, datatype.spec_bytes(), Some(bin@)) {
                    Ok(text) => r matches Ok(s) && encode_utf8(s@) == text,
                    Err(e) => r == Err::<String, AbieosError>(AbieosError::BinToJson(e)),
                },
                Err(e) => r == Err::<String, AbieosError>(e),
            },
    {
        match self.string_to_name(account) {
            Ok(n) => match self.bin_to_text(n, datatype, Some(bin)) {
                Ok(s) => Ok(s),
                Err(e) => Err(AbieosError::BinToJson(e)),
            },
            Err(e) => Err(e),
        }
    }

    /// The type that a contract's ABI binds to an action, as text.
    pub open spec fn action_type(&self, contract: u64, action: u64) -> Result<Seq<u8>, ErrorKind> {
        match self.context {
            Some(context) => match context.action_type_spec(contract, action) {
                Ok(t) => utf8_or_error(t),
                Err(e) => Err(e),
            },
            None => Err(ErrorKind::ContractNotRegistered),
        }
    }

    /// The type that a contract's ABI binds to a table, as text.
    pub open spec fn table_type(&self, contract: u64, table: u64) -> Result<Seq<u8>, ErrorKind> {
        match self.context {
            Some(context) => match context.table_type_spec(contract, table) {
                Ok(t) => utf8_or_error(t),
                Err(e) => Err(e),
            },
            None => Err(ErrorKind::ContractNotRegistered),
        }
    }

    /// The type that a contract's ABI binds to the result of an action, as text.
    pub open spec fn action_result_type(&self, contract: u64, action: u64) -> Result<Seq<u8>, ErrorKind> {
        match self.context {
            Some(context) => match context.action_result_type_spec(contract, action) {
                Ok(t) => utf8_or_error(t),
                Err(e) => Err(e),
            },
            None => Err(ErrorKind::ContractNotRegistered),
        }
    }

    /// The type that a contract's ABI binds to an action.
    pub fn get_type_for_action_native(&self, contract: u64, action: u64) -> (r: Result<String, AbieosError>)
        requires
            self.wf(),
        ensures
            match self.action_type(contract, action) {
                Ok(t) => r matches Ok(s) && encode_utf8(s@) == t,
                Err(e) => r == Err::<String, AbieosError>(AbieosError::GetTypeForAction(e)),
            },
    {
        match self.ctx().type_for_action(contract, action) {
            Ok(t) => match checked_string(t) {
                Ok(s) => Ok(s),
                Err(e) => Err(AbieosError::GetTypeForAction(e)),
            },
            Err(e) => Err(AbieosError::GetTypeForAction(e)),
        }
    }

    /// The type that the ABI of a contract binds to an action, both given by
    /// their name strings.
    pub fn get_type_for_action(&self, contract: &str, action: &str) -> (r: Result<String, AbieosError>)
        requires
            self.wf(),
        ensures
            match (name_of(contract.spec_bytes()), name_of(action.spec_bytes())) {
                (Ok(c), Ok(a)) => match self.action_type(c, a) {
                    Ok(t) => r matches Ok(s) && encode_utf8(s@) == t,
                    Err(e) => r == Err::<String, AbieosError>(AbieosError::GetTypeForAction(e)),
                },
                (Err(e), _) => r == Err::<String, AbieosError>(e),
                (Ok(_), Err(e)) => r == Err::<String, AbieosError>(e),
            },
    {
        let c = match self.string_to_name(contract) {
            Ok(c) => c,
            Err(e) => {
                return Err(e);
            },
        };
        let a = match self.string_to_name(action) {
            Ok(a) => a,
            Err(e) => {
                return Err(e);
            },
        };
        self.get_type_for_action_native(c, a)
    }

    /// The type that the ABI of a contract binds to a table, both given by
    /// their name strings.
    pub fn get_type_for_table(&self, contract: &str, table: &str) -> (r: Result<String, AbieosError>)
        requires
            self.wf(),
        ensures
            match (name_of(contract.spec_bytes()), name_of(table.spec_bytes())) {
                (Ok(c), Ok(t)) => match self.table_type(c, t) {
                    Ok(t) => r matches Ok(s) && encode_utf8(s@) == t,
                    Err(e) => r == Err::<String, AbieosError>(AbieosError::GetTypeForTable(e)),
                },
                (Err(e), _) => r == Err::<String, AbieosError>(e),
                (Ok(_), Err(e)) => r == Err::<String, AbieosError>(e),
            },
    {
        let c = match self.string_to_name(contract) {
            Ok(c) => c,
            Err(e) => {
                return Err(e);
            },
        };
        let t = match self.string_to_name(table) {
            Ok(t) => t,
            Err(e) => {
                return Err(e);
            },
        };
        match self.ctx().type_for_table(c, t) {
            Ok(t) => match checked_string(t) {
                Ok(s) => Ok(s),
                Err(e) => Err(AbieosError::GetTypeForTable(e)),
            },
            Err(e) => Err(AbieosError::GetTypeForTable(e)),
        }
    }

    /// The type that the ABI of a contract binds to the result of an action,
    /// both given by their name strings.
    pub fn get_type_for_action_result(&self, contract: &str, action: &str) -> (r: Result<String, AbieosError>)
        requires
            self.wf(),
        ensures
            match (name_of(contract.spec_bytes()), name_of(action.spec_bytes())) {
                (Ok(c), Ok(a)) => match self.action_result_type(c, a) {
                    Ok(t) => r matches Ok(s) && encode_utf8(s@) == t,
                    Err(e) => r == Err::<String, AbieosError>(AbieosError::GetTypeForActionResult(e)),
                },
                (Err(e), _) => r == Err::<String, AbieosError>(e),
                (Ok(_), Err(e)) => r == Err::<String, AbieosError>(e),
            },
    {
        let c = match self.string_to_name(contract) {
            Ok(c) => c,
            Err(e) => {
                return Err(e);
            },
        };
        let a = match self.string_to_name(action) {
            Ok(a) => a,
            Err(e) => {
                return Err(e);
            },
        };
        match self.ctx().type_for_action_result(c, a) {
            Ok(t) => match checked_string(t) {
                Ok(s) => Ok(s),
                Err(e) => Err(AbieosError::GetTypeForActionResult(e)),
            },
            Err(e) => Err(AbieosError::GetTypeForActionResult(e)),
        }
    }

    /// The JSON text of an ABI document given in binary.
    pub fn abi_bin_to_json(&self, abi: Vec<u8>) -> (r: Result<String, AbieosError>)
        ensures
            match abi_bin_to_json_spec(abi@) {
                Ok(v) => match utf8_or_error(json_text(v)) {
                    Ok(text) => r matches Ok(s) && encode_utf8(s@) == text,
                    Err(e) => r == Err::<String, AbieosError>(AbieosError::AbiBinToJson(e)),
                },
                Err(e) => r == Err::<String, AbieosError>(AbieosError::AbiBinToJson(e)),
            },
    {
        match abi_bin_to_value(abi.as_slice()) {
            Ok(v) => match checked_string(to_text(&v)) {
                Ok(s) => Ok(s),
                Err(e) => Err(AbieosError::AbiBinToJson(e)),
            },
            Err(e) => Err(AbieosError::AbiBinToJson(e)),
        }
    }

    /// The binary form of an ABI document given as JSON text.
    pub fn abi_json_to_bin(&self, json: String) -> (r: Result<Vec<u8>, AbieosError>)
        ensures
            match parsed_json(json@) {
                Some(v) => match abi_json_to_bin_spec(v) {
                    Ok(bytes) => r matches Ok(out) && out@ == bytes,
                    Err(e) => r matches Err(x) && x == AbieosError::AbiJsonToBin(e),
                },
                None => r matches Err(x) && x == AbieosError::AbiJsonToBin(ErrorKind::InvalidJson),
            },
    {
        match parse_json(json.as_str()) {
            Some(v) => match abi_value_to_bin(v) {
                Ok(bytes) => Ok(bytes),
                Err(e) => Err(AbieosError::AbiJsonToBin(e)),
            },
            None => Err(AbieosError::AbiJsonToBin(ErrorKind::InvalidJson)),
        }
    }

    /// A contract of this registry, by its name in one of the accepted forms.
    pub fn contract(&self, account_name: NameLike) -> (r: AbieosContract)
        requires
            account_name matches NameLike::String(s) ==> string_to_name_spec(encode_utf8(s@)) is Ok,
            account_name matches NameLike::StringRef(s) ==> string_to_name_spec(s.spec_bytes()) is Ok,
        ensures
            !r.abiLoaded,
            r.name == match account_name {
                NameLike::String(s) => string_to_name_spec(encode_utf8(s@))->Ok_0,
                NameLike::StringRef(s) => string_to_name_spec(s.spec_bytes())->Ok_0,
                NameLike::U64(n) => n,
                NameLike::I32(n) => sign_extended(n),
            },
    {
        match account_name {
            NameLike::StringRef(name) => {
                match crate::name::string_to_name(name.as_bytes()) {
                    Ok(n) => AbieosContract::new(n),
                    Err(_) => vstd::pervasive::unreached(),
                }
            },
            NameLike::String(name) => {
                match crate::name::string_to_name(name.as_str().as_bytes()) {
                    Ok(n) => AbieosContract::new(n),
                    Err(_) => vstd::pervasive::unreached(),
                }
            },
            NameLike::U64(name) => AbieosContract::new(name),
            NameLike::I32(name) => {
                if name >= 0 {
                    AbieosContract::new(name as u64)
                } else {
                    let below: u64 = (-(name + 1)) as u64;
                    AbieosContract::new(u64::MAX - below)
                }
            },
        }
    }
}

impl AbieosContract {
    /// A contract by its name, with no ABI loaded through it yet.
    pub fn new(name: u64) -> (r: AbieosContract)
        ensures
            r.name == name,
            !r.abiLoaded,
    {
        AbieosContract { name, abiLoaded: false }
    }

    /// Registers an ABI, given in one of the accepted forms, under this
    /// contract in a registry.
    pub fn load_abi(&mut self, abieos: &mut Abieos, abi: AbiLike) -> (r: Result<&mut Self, AbieosError>)
        requires
            old(abieos).wf(),
        ensures
            final(abieos).registered(old(abieos), old(self).name, abi_of_like(abi)),
            match abi_of_like(abi) {
                Some(_) => match r {
                    Ok(contract) => contract.name == old(self).name && contract.abiLoaded && *final(self)
                        == *final(contract),
                    Err(_) => false,
                },
                None => match r {
                    Ok(_) => false,
                    Err(e) => e == AbieosError::SetAbi(ErrorKind::AbiParseError) && *final(self) == *old(self),
                },
            },
    {
        let result = match abi {
            AbiLike::Json(abi_json) => abieos.set_abi_json_native(self.name, abi_json),
            AbiLike::Hex(abi_hex) => abieos.set_abi_hex_native(self.name, abi_hex),
            AbiLike::Bin(abi_bin) => abieos.set_abi_bin_native(self.name, abi_bin),
        };
        match result {
            Ok(_) => {
                self.abiLoaded = true;
                Ok(self)
            },
            Err(e) => Err(e),
        }
    }

    /// The type that this contract's ABI in a registry binds to an action
    /// given by its name string.
    pub fn get_type_for_action(&self, abieos: &Abieos, action: &str) -> (r: Result<String, AbieosError>)
        requires
            abieos.wf(),
        ensures
            match name_of(action.spec_bytes()) {
                Ok(a) => match abieos.action_type(self.name, a) {
                    Ok(t) => r matches Ok(s) && encode_utf8(s@) == t,
                    Err(e) => r == Err::<String, AbieosError>(AbieosError::GetTypeForAction(e)),
                },
                Err(e) => r == Err::<String, AbieosError>(e),
            },
    {
        match abieos.string_to_name(action) {
            Ok(a) => abieos.get_type_for_action_native(self.name, a),
            Err(e) => Err(e),
        }
    }

    /// The hexadecimal text of the binary form of a JSON text, under a type
    /// of this contract's ABI in a registry.
    pub fn json_to_hex(&self, abieos: &Abieos, datatype: &str, json: String) -> (r: Result<String, AbieosError>)
        requires
            abieos.wf(),
        ensures
            match abieos.bin_of_json(self.name, datatype.spec_bytes(), parsed_json(json@)) {
                Ok(bytes) => r matches Ok(s) && encode_utf8(s@) == hex_text(bytes),
                Err(e) => r == Err::<String, AbieosError>(AbieosError::JsonToHex(e)),
            },
    {
        abieos.json_to_hex_native(self.name, datatype, json)
    }

    /// The JSON text of the value that a hexadecimal text holds, under a
    /// type of this contract's ABI in a registry.
    pub fn hex_to_json(&self, abieos: &Abieos, datatype: &str, hex: String) -> (r: Result<String, AbieosError>)
        requires
            abieos.wf(),
        ensures
            match abieos.json_of_bin(self.name, datatype.spec_bytes(), hex_decode_spec(encode_utf8(hex@))) {
                Ok(text) => r matches Ok(s) && encode_utf8(s@) == text,
                Err(e) => r == Err::<String, AbieosError>(AbieosError::HexToJson(e)),
            },
    {
        abieos.hex_to_json_native(self.name, datatype, hex)
    }
}

} // verus!
