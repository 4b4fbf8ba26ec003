//! Decoding of MCCS display capability strings and of the version
//! requirement expressions that gate catalogued feature records.
//!
//! A display reports what it can do as a capability string, a parenthesised
//! text such as `(prot(monitor)type(lcd)cmds(01 02 03)vcp(10 12 60(01 03)))`.
//! [`entries`] splits such a string into its tagged entries, [`caps`] decodes
//! each entry by the grammar of its tag ([`grammar`], [`names`]), [`parse`]
//! does both in one go, and [`aggregate`] folds the result into one record.
//! [`version_req`] reads the requirement expressions of a feature database,
//! and [`db`] and [`database_file`] hold the database itself.
//!
//! Every function has a contract over plain values, which the verifier
//! proves of its body; [`laws`] and [`req_laws`] hold what is proved of the
//! functions together.

pub mod aggregate;
pub mod caps;
pub mod database_file;
pub mod db;
pub mod entries;
pub mod error;
pub mod format;
pub mod grammar;
pub mod laws;
pub mod lex;
pub mod model;
pub mod names;
pub mod parse;
pub mod req_laws;
pub mod version_req;

pub use aggregate::parse_capabilities;
pub use model::{
    Capabilities, EdidData, FeatureCode, Protocol, Type, UnknownData, UnknownTag, Value,
    ValueNames, VcpDescriptor, VdifData, Version, Void,
};
