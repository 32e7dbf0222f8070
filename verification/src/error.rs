use vstd::prelude::*;
use vstd::string::StringExecFns;

verus! {

/// Why a conversion, a lookup or a registration was refused.
#[derive(Debug, Clone, Copy, PartialEq, Eq, Structural)]
pub enum ErrorKind {
    /// A name string of more than thirteen bytes.
    NameTooLong,
    /// A name string with a byte outside the name alphabet.
    InvalidNameCharacter,
    /// An ABI document that is structurally invalid.
    AbiParseError,
    /// A type expression that names nothing known.
    UnknownType,
    /// An alias chain longer than the resolver follows.
    AliasCycle,
    /// A required field that the JSON object lacks.
    MissingField,
    /// A JSON value whose shape does not fit the type.
    FieldTypeMismatch,
    /// A variant value whose tag names no member.
    NoMatchingVariantType,
    /// A variant index beyond the member list.
    VariantIndexOutOfRange,
    /// Binary input that ends too early.
    TruncatedInput,
    /// Bytes that are not UTF-8 where a string is required.
    InvalidUtf8,
    /// No ABI is registered under the contract name.
    ContractNotRegistered,
    /// The contract binds no type to the action.
    ActionNotBound,
    /// The contract binds no type to the table.
    TableNotBound,
    /// Values or types nested deeper than the codec descends.
    NestingTooDeep,
    /// A variable-length integer that does not fit 32 bits.
    InvalidVarint,
    /// Binary input with bytes left over after the value.
    ExtraData,
    /// Text that is not hexadecimal.
    InvalidHex,
    /// Text that is not a JSON document.
    InvalidJson,
}

impl ErrorKind {
    /// The words that describe the kind of error.
    pub open spec fn text(self) -> Seq<char> {
        match self {
            ErrorKind::NameTooLong => "name is longer than 13 characters"@,
            ErrorKind::InvalidNameCharacter => "character outside the name alphabet"@,
            ErrorKind::AbiParseError => "invalid ABI document"@,
            ErrorKind::UnknownType => "unknown type"@,
            ErrorKind::AliasCycle => "alias chain too long"@,
            ErrorKind::MissingField => "missing field"@,
            ErrorKind::FieldTypeMismatch => "value does not fit the type"@,
            ErrorKind::NoMatchingVariantType => "no matching variant type"@,
            ErrorKind::VariantIndexOutOfRange => "variant index out of range"@,
            ErrorKind::TruncatedInput => "input ends too early"@,
            ErrorKind::InvalidUtf8 => "invalid UTF-8"@,
            ErrorKind::ContractNotRegistered => "contract not registered"@,
            ErrorKind::ActionNotBound => "action not bound"@,
            ErrorKind::TableNotBound => "table not bound"@,
            ErrorKind::NestingTooDeep => "nesting too deep"@,
            ErrorKind::InvalidVarint => "invalid variable-length integer"@,
            ErrorKind::ExtraData => "extra data"@,
            ErrorKind::InvalidHex => "invalid hexadecimal text"@,
            ErrorKind::InvalidJson => "invalid JSON text"@,
        }
    }

    /// The words that describe the kind of error.
    pub fn message(&self) -> (r: String)
        ensures
            r@ == self.text(),
    {
        match self {
            ErrorKind::NameTooLong => String::from_str("name is longer than 13 characters"),
            ErrorKind::InvalidNameCharacter => String::from_str("character outside the name alphabet"),
            ErrorKind::AbiParseError => String::from_str("invalid ABI document"),
            ErrorKind::UnknownType => String::from_str("unknown type"),
            ErrorKind::AliasCycle => String::from_str("alias chain too long"),
            ErrorKind::MissingField => String::from_str("missing field"),
            ErrorKind::FieldTypeMismatch => String::from_str("value does not fit the type"),
            ErrorKind::NoMatchingVariantType => String::from_str("no matching variant type"),
            ErrorKind::VariantIndexOutOfRange => String::from_str("variant index out of range"),
            ErrorKind::TruncatedInput => String::from_str("input ends too early"),
            ErrorKind::InvalidUtf8 => String::from_str("invalid UTF-8"),
            ErrorKind::ContractNotRegistered => String::from_str("contract not registered"),
            ErrorKind::ActionNotBound => String::from_str("action not bound"),
            ErrorKind::TableNotBound => String::from_str("table not bound"),
            ErrorKind::NestingTooDeep => String::from_str("nesting too deep"),
            ErrorKind::InvalidVarint => String::from_str("invalid variable-length integer"),
            ErrorKind::ExtraData => String::from_str("extra data"),
            ErrorKind::InvalidHex => String::from_str("invalid hexadecimal text"),
            ErrorKind::InvalidJson => String::from_str("invalid JSON text"),
        }
    }
}

/// What an operation of the library reports when it fails: which operation
/// failed and, where a conversion or a lookup refused, why.
#[derive(Debug, Clone, Copy, PartialEq, Eq, Structural)]
pub enum AbieosError {
    Unknown,
    StringToName,
    NameToString,
    NameTooLong,
    AbiNotLoaded,
    FileRead,
    SetAbi(ErrorKind),
    JsonToHex(ErrorKind),
    HexToJson(ErrorKind),
    GetTypeForAction(ErrorKind),
    GetTypeForTable(ErrorKind),
    GetTypeForActionResult(ErrorKind),
    AbiBinToJson(ErrorKind),
    AbiJsonToBin(ErrorKind),
    BinToJson(ErrorKind),
}

impl AbieosError {
    /// The message of the error: the operation that failed, then the reason.
    pub open spec fn text(self) -> Seq<char> {
        match self {
            AbieosError::NameTooLong => "Name is too long"@,
            AbieosError::StringToName => "Failed to convert string to name"@,
            AbieosError::NameToString => "Failed to convert name to string"@,
            AbieosError::SetAbi(e) => "Failed to set ABI: "@ + e.text(),
            AbieosError::JsonToHex(e) => "Failed to serialize JSON: "@ + e.text(),
            AbieosError::HexToJson(e) => "Failed to deserialize Binary: "@ + e.text(),
            AbieosError::GetTypeForAction(e) => "Failed to get type for action: "@ + e.text(),
            AbieosError::GetTypeForTable(e) => "Failed to get type for table: "@ + e.text(),
            AbieosError::GetTypeForActionResult(e) => "Failed to get type for action result: "@ + e.text(),
            AbieosError::AbiBinToJson(e) => "Failed to convert ABI binary to JSON: "@ + e.text(),
            AbieosError::AbiJsonToBin(e) => "Failed to convert ABI JSON to binary: "@ + e.text(),
            AbieosError::AbiNotLoaded => "ABI not loaded in this contract"@,
            AbieosError::FileRead => "Failed to read file"@,
            AbieosError::BinToJson(e) => "Failed to convert binary to JSON: "@ + e.text(),
            AbieosError::Unknown => "Unknown error occurred"@,
        }
    }

    /// The message of the error.
    pub fn to_string(&self) -> (r: String)
        ensures
            r@ == self.text(),
    {
        match self {
            AbieosError::NameTooLong => String::from_str("Name is too long"),
            AbieosError::StringToName => String::from_str("Failed to convert string to name"),
            AbieosError::NameToString => String::from_str("Failed to convert name to string"),
            AbieosError::SetAbi(e) => String::from_str("Failed to set ABI: ").concat(e.message().as_str()),
            AbieosError::JsonToHex(e) => String::from_str("Failed to serialize JSON: ").concat(
                e.message().as_str(),
            ),
            AbieosError::HexToJson(e) => String::from_str("Failed to deserialize Binary: ").concat(
                e.message().as_str(),
            ),
            AbieosError::GetTypeForAction(e) => String::from_str("Failed to get type for action: ").concat(
                e.message().as_str(),
            ),
            AbieosError::GetTypeForTable(e) => String::from_str("Failed to get type for table: ").concat(
                e.message().as_str(),
            ),
            AbieosError::GetTypeForActionResult(e) => String::from_str(
                "Failed to get type for action result: ",
            ).concat(e.message().as_str()),
            AbieosError::AbiBinToJson(e) => String::from_str("Failed to convert ABI binary to JSON: ").concat(
                e.message().as_str(),
            ),
            AbieosError::AbiJsonToBin(e) => String::from_str("Failed to convert ABI JSON to binary: ").concat(
                e.message().as_str(),
            ),
            AbieosError::AbiNotLoaded => String::from_str("ABI not loaded in this contract"),
            AbieosError::FileRead => String::from_str("Failed to read file"),
            AbieosError::BinToJson(e) => String::from_str("Failed to convert binary to JSON: ").concat(
                e.message().as_str(),
            ),
            AbieosError::Unknown => String::from_str("Unknown error occurred"),
        }
    }
}

} // verus!
