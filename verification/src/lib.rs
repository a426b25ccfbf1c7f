//! Verified core of the Nyar compiler's emitter and language front end: executable function
//! forms and their provider, the semantic MIR contract, export specs, and the linking of
//! dependency MIR into a consumer module.
use vstd::prelude::*;

pub mod builtin_helpers;
pub mod contracts;
pub mod executable;
pub mod executable_conversion;
pub mod executable_provider;
pub mod export_spec;
pub mod hosts;
pub mod layout;
pub mod link;
pub mod mir;
pub mod names;
pub mod search;
pub mod semantic_mir_contract;
pub mod suspend_payload;
pub mod text;
pub mod type_rules;
pub mod types;

verus! {

} // verus!
