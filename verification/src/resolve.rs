use crate::abi::{find_alias, find_struct, find_variant, AbiDocument, AbiModel};
use crate::error::ErrorKind;
use crate::json::same_bytes;
use vstd::prelude::*;
use vstd::string::StringSliceAdditionalSpecFns;

verus! {

/// The types that every ABI knows without declaring them.
#[derive(Debug, Clone, Copy, PartialEq, Eq, Structural)]
pub enum Builtin {
    /// One byte, 0 or 1.
    Bool,
    Int8,
    Uint8,
    Int16,
    Uint16,
    Int32,
    Uint32,
    Int64,
    Uint64,
    Int128,
    Uint128,
    /// A 32-bit unsigned integer in groups of seven bits.
    Varuint32,
    /// A 32-bit signed integer, zig-zag mapped, in groups of seven bits.
    Varint32,
    /// The four bytes of an IEEE-754 single, least significant first.
    Float32,
    /// The eight bytes of an IEEE-754 double, least significant first.
    Float64,
    /// The sixteen bytes of an IEEE-754 quadruple, least significant first.
    Float128,
    /// Microseconds since 1970, in eight bytes.
    TimePoint,
    /// Seconds since 1970, in four bytes.
    TimePointSec,
    /// Half seconds since 2000, in four bytes.
    BlockTimestamp,
    /// A name, as the eight bytes of its value.
    Name,
    /// A length and that many bytes.
    Bytes,
    /// A length and that many bytes of UTF-8.
    Text,
    Checksum160,
    Checksum256,
    Checksum512,
    /// One byte that tells the curve, then the 33 bytes of the key.
    PublicKey,
    /// One byte that tells the curve, then the 65 bytes of the signature.
    Signature,
    /// Up to seven capital letters in eight bytes.
    SymbolCode,
    /// One byte of precision and seven bytes of code.
    Symbol,
    /// An amount in eight bytes and a symbol.
    Asset,
}

/// What a type expression denotes, one layer deep.
pub enum Shape {
    Builtin(Builtin),
    Struct(int),
    Variant(int),
    Array(Seq<u8>),
    Optional(Seq<u8>),
    Extension(Seq<u8>),
}

/// What a type expression resolved to: a built-in type, a struct or a variant
/// of the document by index, or one modifier around an inner expression.
pub enum ResolvedType {
    Builtin(Builtin),
    Struct(usize),
    Variant(usize),
    Array(Vec<u8>),
    Optional(Vec<u8>),
    Extension(Vec<u8>),
}

impl View for ResolvedType {
    type V = Shape;

    open spec fn view(&self) -> Shape {
        match self {
            ResolvedType::Builtin(b) => Shape::Builtin(*b),
            ResolvedType::Struct(i) => Shape::Struct(*i as int),
            ResolvedType::Variant(i) => Shape::Variant(*i as int),
            ResolvedType::Array(e) => Shape::Array(e@),
            ResolvedType::Optional(e) => Shape::Optional(e@),
            ResolvedType::Extension(e) => Shape::Extension(e@),
        }
    }
}

/// How many aliases in a row the resolver follows.
pub const MAX_ALIAS_DEPTH: usize = 32;

/// The built-in type of a name.
#[verifier::opaque]
pub open spec fn builtin_of(name: Seq<u8>) -> Option<Builtin> {
    if name == "bool".spec_bytes() {
        Some(Builtin::Bool)
    } else if name == "int8".spec_bytes() {
        Some(Builtin::Int8)
    } else if name == "uint8".spec_bytes() {
        Some(Builtin::Uint8)
    } else if name == "int16".spec_bytes() {
        Some(Builtin::Int16)
    } else if name == "uint16".spec_bytes() {
        Some(Builtin::Uint16)
    } else if name == "int32".spec_bytes() {
        Some(Builtin::Int32)
    } else if name == "uint32".spec_bytes() {
        Some(Builtin::Uint32)
    } else if name == "int64".spec_bytes() {
        Some(Builtin::Int64)
    } else if name == "uint64".spec_bytes() {
        Some(Builtin::Uint64)
    } else if name == "int128".spec_bytes() {
        Some(Builtin::Int128)
    } else if name == "uint128".spec_bytes() {
        Some(Builtin::Uint128)
    } else if name == "varuint32".spec_bytes() {
        Some(Builtin::Varuint32)
    } else if name == "varint32".spec_bytes() {
        Some(Builtin::Varint32)
    } else if name == "float32".spec_bytes() {
        Some(Builtin::Float32)
    } else if name == "float64".spec_bytes() {
        Some(Builtin::Float64)
    } else if name == "float128".spec_bytes() {
        Some(Builtin::Float128)
    } else if name == "time_point".spec_bytes() {
        Some(Builtin::TimePoint)
    } else if name == "time_point_sec".spec_bytes() {
        Some(Builtin::TimePointSec)
    } else if name == "block_timestamp_type".spec_bytes() {
        Some(Builtin::BlockTimestamp)
    } else if name == "name".spec_bytes() {
        Some(Builtin::Name)
    } else if name == "bytes".spec_bytes() {
        Some(Builtin::Bytes)
    } else if name == "string".spec_bytes() {
        Some(Builtin::Text)
    } else if name == "checksum160".spec_bytes() {
        Some(Builtin::Checksum160)
    } else if name == "checksum256".spec_bytes() {
        Some(Builtin::Checksum256)
    } else if name == "checksum512".spec_bytes() {
        Some(Builtin::Checksum512)
    } else if name == "public_key".spec_bytes() {
        Some(Builtin::PublicKey)
    } else if name == "signature".spec_bytes() {
        Some(Builtin::Signature)
    } else if name == "symbol_code".spec_bytes() {
        Some(Builtin::SymbolCode)
    } else if name == "symbol".spec_bytes() {
        Some(Builtin::Symbol)
    } else if name == "asset".spec_bytes() {
        Some(Builtin::Asset)
    } else {
        None
    }
}

/// Whether bytes are the UTF-8 form of a text.
pub fn is_text(name: &[u8], text: &str) -> (r: bool)
    ensures
        r == (name@ == text.spec_bytes()),
{
    same_bytes(name, text.as_bytes())
}

/// Looks a name up among the built-in types.
pub fn builtin_by_name(name: &[u8]) -> (r: Option<Builtin>)
    ensures
        r == builtin_of(name@),
{
    reveal(builtin_of);
    if is_text(name, "bool") {
        Some(Builtin::Bool)
    } else if is_text(name, "int8") {
        Some(Builtin::Int8)
    } else if is_text(name, "uint8") {
        Some(Builtin::Uint8)
    } else if is_text(name, "int16") {
        Some(Builtin::Int16)
    } else if is_text(name, "uint16") {
        Some(Builtin::Uint16)
    } else if is_text(name, "int32") {
        Some(Builtin::Int32)
    } else if is_text(name, "uint32") {
        Some(Builtin::Uint32)
    } else if is_text(name, "int64") {
        Some(Builtin::Int64)
    } else if is_text(name, "uint64") {
        Some(Builtin::Uint64)
    } else if is_text(name, "int128") {
        Some(Builtin::Int128)
    } else if is_text(name, "uint128") {
        Some(Builtin::Uint128)
    } else if is_text(name, "varuint32") {
        Some(Builtin::Varuint32)
    } else if is_text(name, "varint32") {
        Some(Builtin::Varint32)
    } else if is_text(name, "float32") {
        Some(Builtin::Float32)
    } else if is_text(name, "float64") {
        Some(Builtin::Float64)
    } else if is_text(name, "float128") {
        Some(Builtin::Float128)
    } else if is_text(name, "time_point") {
        Some(Builtin::TimePoint)
    } else if is_text(name, "time_point_sec") {
        Some(Builtin::TimePointSec)
    } else if is_text(name, "block_timestamp_type") {
        Some(Builtin::BlockTimestamp)
    } else if is_text(name, "name") {
        Some(Builtin::Name)
    } else if is_text(name, "bytes") {
        Some(Builtin::Bytes)
    } else if is_text(name, "string") {
        Some(Builtin::Text)
    } else if is_text(name, "checksum160") {
        Some(Builtin::Checksum160)
    } else if is_text(name, "checksum256") {
        Some(Builtin::Checksum256)
    } else if is_text(name, "checksum512") {
        Some(Builtin::Checksum512)
    } else if is_text(name, "public_key") {
        Some(Builtin::PublicKey)
    } else if is_text(name, "signature") {
        Some(Builtin::Signature)
    } else if is_text(name, "symbol_code") {
        Some(Builtin::SymbolCode)
    } else if is_text(name, "symbol") {
        Some(Builtin::Symbol)
    } else if is_text(name, "asset") {
        Some(Builtin::Asset)
    } else {
        None
    }
}

/// The modifier that ends a type expression, with the expression inside it:
/// `$` for a binary extension, `?` for an optional, `[]` for an array.
pub open spec fn outer_modifier(expr: Seq<u8>) -> Option<Shape> {
    if expr.len() >= 1 && expr.last() == 36 {
        Some(Shape::Extension(expr.drop_last()))
    } else if expr.len() >= 1 && expr.last() == 63 {
        Some(Shape::Optional(expr.drop_last()))
    } else if expr.len() >= 2 && expr[expr.len() - 2] == 91 && expr[expr.len() - 1] == 93 {
        Some(Shape::Array(expr.take(expr.len() - 2)))
    } else {
        None
    }
}

/// Whether a modifier stands directly around another where it may not: one
/// structural modifier applies to a name, and only `$` may stand around `?` or
/// `[]`. Deeper nesting goes through an alias.
pub open spec fn nests(shape: Shape) -> bool {
    match shape {
        Shape::Extension(inner) => inner.len() >= 1 && inner.last() == 36,
        Shape::Optional(inner) => outer_modifier(inner) is Some,
        Shape::Array(inner) => outer_modifier(inner) is Some,
        _ => false,
    }
}

/// What a type expression denotes in a document: its last modifier if it has
/// one; else the built-in type of that name; else what the alias of that name
/// stands for, following at most `fuel` aliases; else the struct, else the
/// variant of that name.
#[verifier::opaque]
pub open spec fn resolve_spec(abi: AbiModel, expr: Seq<u8>, fuel: nat) -> Result<Shape, ErrorKind>
    decreases fuel,
{
    match outer_modifier(expr) {
        Some(shape) => if nests(shape) {
            Err(ErrorKind::UnknownType)
        } else {
            Ok(shape)
        },
        None => match builtin_of(expr) {
            Some(b) => Ok(Shape::Builtin(b)),
            None => match find_alias(abi.types, expr, 0) {
                Some(target) => if fuel == 0 {
                    Err(ErrorKind::AliasCycle)
                } else {
                    resolve_spec(abi, target, (fuel - 1) as nat)
                },
                None => match find_struct(abi.structs, expr, 0) {
                    Some(i) => Ok(Shape::Struct(i)),
                    None => match find_variant(abi.variants, expr, 0) {
                        Some(i) => Ok(Shape::Variant(i)),
                        None => Err(ErrorKind::UnknownType),
                    },
                },
            },
        },
    }
}

/// A struct or a variant that a type expression resolves to is one of the
/// document's.
pub proof fn lemma_resolved_bounds(abi: AbiModel, expr: Seq<u8>, fuel: nat)
    ensures
        resolve_spec(abi, expr, fuel) matches Ok(Shape::Struct(i)) ==> 0 <= i < abi.structs.len(),
        resolve_spec(abi, expr, fuel) matches Ok(Shape::Variant(i)) ==> 0 <= i < abi.variants.len(),
    decreases fuel,
{
    reveal(resolve_spec);
    crate::abi::lemma_find_struct_bounds(abi.structs, expr, 0);
    crate::abi::lemma_find_variant_bounds(abi.variants, expr, 0);
    if outer_modifier(expr) is None && builtin_of(expr) is None {
        match find_alias(abi.types, expr, 0) {
            Some(target) => {
                if fuel > 0 {
                    lemma_resolved_bounds(abi, target, (fuel - 1) as nat);
                }
            },
            None => {},
        }
    }
}

/// What a type expression denotes in a document, following at most
/// `MAX_ALIAS_DEPTH` aliases.
pub open spec fn resolved(abi: AbiModel, expr: Seq<u8>) -> Result<Shape, ErrorKind> {
    resolve_spec(abi, expr, MAX_ALIAS_DEPTH as nat)
}

/// Whether a type expression ends in a modifier.
fn has_modifier(expr: &[u8]) -> (r: bool)
    ensures
        r == outer_modifier(expr@) is Some,
{
    let n = expr.len();
    (n >= 1 && (expr[n - 1] == 36 || expr[n - 1] == 63)) || (n >= 2 && expr[n - 2] == 91 && expr[n - 1] == 93)
}

/// Whether a modifier stands directly around another where it may not.
fn is_nested(shape: &ResolvedType) -> (r: bool)
    ensures
        r == nests(shape@),
{
    match shape {
        ResolvedType::Extension(inner) => inner.len() >= 1 && inner[inner.len() - 1] == 36,
        ResolvedType::Optional(inner) => has_modifier(inner.as_slice()),
        ResolvedType::Array(inner) => has_modifier(inner.as_slice()),
        _ => false,
    }
}

/// The modifier that ends a type expression, with the expression inside it.
fn modifier_of(expr: &[u8]) -> (r: Option<ResolvedType>)
    ensures
        match r {
            Some(t) => outer_modifier(expr@) == Some(t@),
            None => outer_modifier(expr@) is None,
        },
{
    let n = expr.len();
    if n >= 1 && expr[n - 1] == 36 {
        let inner = vstd::slice::slice_subrange(expr, 0, n - 1);
        assert(inner@ =~= expr@.drop_last());
        Some(ResolvedType::Extension(vstd::slice::slice_to_vec(inner)))
    } else if n >= 1 && expr[n - 1] == 63 {
        let inner = vstd::slice::slice_subrange(expr, 0, n - 1);
        assert(inner@ =~= expr@.drop_last());
        Some(ResolvedType::Optional(vstd::slice::slice_to_vec(inner)))
    } else if n >= 2 && expr[n - 2] == 91 && expr[n - 1] == 93 {
        let inner = vstd::slice::slice_subrange(expr, 0, n - 2);
        assert(inner@ =~= expr@.take(n - 2));
        Some(ResolvedType::Array(vstd::slice::slice_to_vec(inner)))
    } else {
        None
    }
}

/// Resolves a type expression against a document, following at most `fuel`
/// aliases.
pub fn resolve_within(abi: &AbiDocument, expr: &[u8], fuel: usize) -> (r: Result<ResolvedType, ErrorKind>)
    ensures
        match r {
            Ok(t) => resolve_spec(abi@, expr@, fuel as nat) == Ok::<Shape, ErrorKind>(t@),
            Err(e) => resolve_spec(abi@, expr@, fuel as nat) == Err::<Shape, ErrorKind>(e),
        },
        r matches Ok(ResolvedType::Struct(i)) ==> i < abi.structs.len(),
        r matches Ok(ResolvedType::Variant(i)) ==> i < abi.variants.len(),
{
    let mut cur: &[u8] = expr;
    let mut left: usize = fuel;
    loop
        invariant
            resolve_spec(abi@, expr@, fuel as nat) == resolve_spec(abi@, cur@, left as nat),
        decreases left,
    {
        reveal(resolve_spec);
        if let Some(t) = modifier_of(cur) {
            if is_nested(&t) {
                return Err(ErrorKind::UnknownType);
            }
            return Ok(t);
        }
        if let Some(b) = builtin_by_name(cur) {
            return Ok(ResolvedType::Builtin(b));
        }
        match abi.alias_target(cur) {
            Some(target) => {
                if left == 0 {
                    return Err(ErrorKind::AliasCycle);
                }
                left -= 1;
                cur = target.as_slice();
            },
            None => {
                if let Some(i) = abi.struct_index(cur) {
                    return Ok(ResolvedType::Struct(i));
                }
                if let Some(i) = abi.variant_index(cur) {
                    return Ok(ResolvedType::Variant(i));
                }
                return Err(ErrorKind::UnknownType);
            },
        }
    }
}

/// Resolves a type expression against a document.
pub fn resolve(abi: &AbiDocument, expr: &[u8]) -> (r: Result<ResolvedType, ErrorKind>)
    ensures
        match r {
            Ok(t) => resolved(abi@, expr@) == Ok::<Shape, ErrorKind>(t@),
            Err(e) => resolved(abi@, expr@) == Err::<Shape, ErrorKind>(e),
        },
        r matches Ok(ResolvedType::Struct(i)) ==> i < abi.structs.len(),
        r matches Ok(ResolvedType::Variant(i)) ==> i < abi.variants.len(),
{
    resolve_within(abi, expr, MAX_ALIAS_DEPTH)
}

/// What the aliases of a document resolve to, kept beside the document so
/// that no alias chain is followed twice.
pub struct ResolutionCache {
    /// For each alias of the document, in order, what its target resolves to.
    pub aliases: Vec<Result<ResolvedType, ErrorKind>>,
}

/// A copy of bytes.
fn copy_bytes(bytes: &Vec<u8>) -> (r: Vec<u8>)
    ensures
        r@ == bytes@,
{
    vstd::slice::slice_to_vec(bytes.as_slice())
}

impl ResolutionCache {
    /// Whether the cache holds, for each alias of a document, what the alias
    /// resolves to.
    pub open spec fn sound(&self, abi: AbiModel) -> bool {
        &&& self.aliases@.len() == abi.types.len()
        &&& forall|i: int|
            0 <= i < self.aliases@.len() ==> match #[trigger] self.aliases@[i] {
                Ok(t) => {
                    &&& resolve_spec(abi, abi.types[i].1, (MAX_ALIAS_DEPTH - 1) as nat) == Ok::<Shape, ErrorKind>(t@)
                    &&& (t matches ResolvedType::Struct(k) ==> k < abi.structs.len())
                    &&& (t matches ResolvedType::Variant(k) ==> k < abi.variants.len())
                },
                Err(e) => resolve_spec(abi, abi.types[i].1, (MAX_ALIAS_DEPTH - 1) as nat) == Err::<Shape, ErrorKind>(
                    e,
                ),
            }
    }

    /// Resolves every alias of a document once.
    pub fn build(abi: &AbiDocument) -> (r: ResolutionCache)
        ensures
            r.sound(abi@),
    {
        let mut aliases: Vec<Result<ResolvedType, ErrorKind>> = Vec::new();
        let mut i: usize = 0;
        while i < abi.types.len()
            invariant
                i <= abi.types.len(),
                aliases@.len() == i,
                forall|k: int|
                    0 <= k < i ==> match #[trigger] aliases@[k] {
                        Ok(t) => {
                            &&& resolve_spec(abi@, abi@.types[k].1, (MAX_ALIAS_DEPTH - 1) as nat) == Ok::<
                                Shape,
                                ErrorKind,
                            >(t@)
                            &&& (t matches ResolvedType::Struct(n) ==> n < abi@.structs.len())
                            &&& (t matches ResolvedType::Variant(n) ==> n < abi@.variants.len())
                        },
                        Err(e) => resolve_spec(abi@, abi@.types[k].1, (MAX_ALIAS_DEPTH - 1) as nat) == Err::<
                            Shape,
                            ErrorKind,
                        >(e),
                    },
            decreases abi.types.len() - i,
        {
            aliases.push(resolve_within(abi, abi.types[i].type_expr.as_slice(), MAX_ALIAS_DEPTH - 1));
            i += 1;
        }
        ResolutionCache { aliases }
    }

    /// Resolves a type expression against a document, taking what an alias
    /// resolves to from the cache.
    pub fn resolve(&self, abi: &AbiDocument, expr: &[u8]) -> (r: Result<ResolvedType, ErrorKind>)
        requires
            self.sound(abi@),
        ensures
            match r {
                Ok(t) => resolved(abi@, expr@) == Ok::<Shape, ErrorKind>(t@),
                Err(e) => resolved(abi@, expr@) == Err::<Shape, ErrorKind>(e),
            },
            r matches Ok(ResolvedType::Struct(i)) ==> i < abi.structs.len(),
            r matches Ok(ResolvedType::Variant(i)) ==> i < abi.variants.len(),
    {
        reveal(resolve_spec);
        if let Some(t) = modifier_of(expr) {
            if is_nested(&t) {
                return Err(ErrorKind::UnknownType);
            }
            return Ok(t);
        }
        if let Some(b) = builtin_by_name(expr) {
            return Ok(ResolvedType::Builtin(b));
        }
        match abi.alias_index(expr) {
            Some(i) => match &self.aliases[i] {
                Ok(ResolvedType::Builtin(b)) => Ok(ResolvedType::Builtin(*b)),
                Ok(ResolvedType::Struct(k)) => Ok(ResolvedType::Struct(*k)),
                Ok(ResolvedType::Variant(k)) => Ok(ResolvedType::Variant(*k)),
                Ok(ResolvedType::Array(inner)) => Ok(ResolvedType::Array(copy_bytes(inner))),
                Ok(ResolvedType::Optional(inner)) => Ok(ResolvedType::Optional(copy_bytes(inner))),
                Ok(ResolvedType::Extension(inner)) => Ok(ResolvedType::Extension(copy_bytes(inner))),
                Err(e) => Err(*e),
            },
            None => {
                if let Some(i) = abi.struct_index(expr) {
                    return Ok(ResolvedType::Struct(i));
                }
                if let Some(i) = abi.variant_index(expr) {
                    return Ok(ResolvedType::Variant(i));
                }
                Err(ErrorKind::UnknownType)
            },
        }
    }
}

} // verus!
