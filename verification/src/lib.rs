//! A property-based, coverage-guided fuzzing engine for ink! smart contracts.
//!
//! The crate verifies the fuzzing core: the selector/invariant discovery from
//! contract metadata, the input-to-call-sequence decoder, the statement
//! instrumentation pass, the coverage tracker, the bug manager, and the
//! per-iteration harness running against an in-memory model chain that
//! executes the bundled sample domain-name-service contract.
//!
//! File and network I/O, the command-line surface, and the syntax-tree
//! rewriting of real contract sources live in the unverified application
//! layer around this library.

pub mod bug;
pub mod cli;
pub mod bytesutil;
pub mod config;
pub mod coverage;
pub mod dns;
pub mod fuzz;
pub mod hexutil;
pub mod instrument;
pub mod metadata;
pub mod parser;
pub mod remote;
pub mod selector;
