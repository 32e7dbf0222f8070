//! A codec between a compact binary form and JSON, driven by a schema (an
//! ABI) that is given at run time.
//!
//! An [`Abieos`] holds one ABI for each contract name. Under a type of a
//! contract's ABI a JSON value has a binary form ([`encode`]) and a binary
//! form reads back as a JSON value ([`decode`]); what both mean is stated in
//! [`codec`], and that they agree in [`roundtrip`] and [`laws`]. [`schema`]
//! states the round trip for ABI documents themselves, and [`wellformed`]
//! that what is read under a registered document is well-formed UTF-8.

pub mod abi;
pub mod abieos;
pub mod asset;
pub mod canon;
pub mod codec;
pub mod decode;
pub mod encode;
pub mod error;
pub mod extract;
pub mod framing;
pub mod hex;
pub mod json;
pub mod laws;
pub mod meta;
pub mod name;
pub mod number;
pub mod parse;
pub mod primitive;
pub mod print;
pub mod registry;
pub mod resolve;
pub mod roundtrip;
pub mod schema;
pub mod text;
pub mod time;
pub mod validate;
pub mod varint;
pub mod wellformed;

pub use abieos::{AbiLike, Abieos, AbieosContract, NameLike};
pub use error::{AbieosError, ErrorKind};
pub use json::JsonValue;
pub use registry::AbieosContext;
