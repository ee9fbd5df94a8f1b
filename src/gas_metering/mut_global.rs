//! The mutable global backend, under its standalone name.
use vstd::prelude::*;

use crate::wasm::Module;
use super::mutable_global::{mutable_global_meter, spec_mutable_global_meter};
use super::{Backend, GasMeter, GasMeterModel, Rules};

verus! {

/// Injects a mutable global that holds the gas left, and a local function that charges it
/// at the start of every metered block.
///
/// When the gas runs out, the global is set to the sentinel `u64::MAX` and `unreachable`
/// traps; the execution engine keeps the global in sync with the gas left.
pub struct MutableGlobalInjector {
    /// The export name of the gas tracking global.
    pub global_name: String,
}

impl MutableGlobalInjector {
    pub fn new(global_name: &str) -> (r: Self)
        ensures
            r.global_name@ == global_name@,
    {
        MutableGlobalInjector { global_name: String::from_str(global_name) }
    }
}

impl<R: Rules> Backend<R> for MutableGlobalInjector {
    open spec fn spec_gas_meter(&self, module: Module, rules: R) -> GasMeterModel {
        spec_mutable_global_meter(self.global_name@, module, rules)
    }

    fn gas_meter(self, module: &Module, rules: &R) -> (r: GasMeter) {
        mutable_global_meter(self.global_name, module, rules)
    }
}

} // verus!
