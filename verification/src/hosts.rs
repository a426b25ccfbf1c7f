//! Host binding identities.
use vstd::prelude::*;

verus! {

/// Name of the Wasm GC host binding; the actual lowering is produced by the compiler pipeline.
pub fn wasm_placeholder() -> (name: &'static str)
    ensures
        name@ == "nyar-wasm"@,
{
    "nyar-wasm"
}

/// Name of the Node-API host binding, where the runtime's exports will be attached.
pub fn napi_placeholder() -> (name: &'static str)
    ensures
        name@ == "nyar-napi"@,
{
    "nyar-napi"
}

} // verus!
