//! Generates Rust record and enumeration declarations from a ClickHouse
//! table's column types: a verified grammar parser for the column type
//! descriptions, a resolver that maps each type to an output type under a
//! three-tier override policy, and an emitter whose output text is pinned
//! down, clause by clause, by the contracts in each module.

pub mod codegen;
pub mod lex;
pub mod options;
pub mod parse;
pub mod roundtrip;
pub mod schema;
pub mod text;
