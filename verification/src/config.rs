//! The orchestrator configuration the fuzzer core reads. The application
//! layer fills it from the configuration file.

use vstd::prelude::*;

verus! {

/// Settings that steer deployment and calls.
pub struct Configuration {
    /// A user-supplied constructor payload, as hex text, deployed instead
    /// of the crafter's default when present.
    pub constructor_payload: Option<Vec<u8>>,
    /// The per-call gas limit, when overridden.
    pub default_gas_limit: Option<u64>,
    /// The per-call storage deposit limit, when set.
    pub storage_deposit_limit: Option<u128>,
    pub verbose: bool,
}

impl Default for Configuration {
    fn default() -> (r: Configuration)
        ensures
            r.constructor_payload is None,
            r.default_gas_limit is None,
            r.storage_deposit_limit is None,
            !r.verbose,
    {
        Configuration {
            constructor_payload: None,
            default_gas_limit: None,
            storage_deposit_limit: None,
            verbose: false,
        }
    }
}

} // verus!
