//! Aegis: bounded static triage and a deterministic dynamic-analysis model.
use vstd::prelude::*;

pub mod dynamic_error;
pub mod text;
pub mod memory;
pub mod memory64;
pub mod core_model;
pub mod code;
pub mod api;
pub mod cpu;
pub mod cpu64;
pub mod generation;
pub mod provenance;
pub mod dynamic_model;
pub mod assoc;
pub mod network;
pub mod windows;
pub mod triage;
pub mod yara_model;
pub mod loader;
pub mod engine;
pub mod artifact;
pub mod digest;
pub mod linux;
pub mod engine64;
pub mod linux_runtime;
pub mod machine64;
pub mod x64;
pub mod linux_exec;
pub mod static_triage;
pub mod formats;
pub mod x86;
pub mod x86_exec;
pub mod pe_exec;

verus! {

} // verus!
