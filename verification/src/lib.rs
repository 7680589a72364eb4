//! Host-side contract of the GUST Rust-to-Slang GPU compiler: the Rust subset
//! that `#[gpu]` modules may use and what a module declares to the host,
//! storage ABI descriptions, kernel descriptors, compiler-diagnostic mapping,
//! SPIR-V format checks, Slang reflection evidence and the runtime's dispatch
//! rules.
use vstd::prelude::*;

pub mod abi;
pub mod descriptor;
pub mod job;
pub mod spirv;
pub mod text;
pub mod slang;
pub mod runtime;
pub mod json;
pub mod reflect;
pub mod backend;
pub mod render;
pub mod graph;
pub mod pool;
pub mod source_map;
pub mod tooling;
pub mod validation;
pub mod syntax;
pub mod dialect;
pub mod rejection;
pub mod subset;
pub mod compat;
pub mod expand;
