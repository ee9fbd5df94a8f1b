//! Gas metering with an imported host function.
use vstd::prelude::*;

use crate::wasm::Module;
use super::{Backend, GasMeter, GasMeterModel, Rules};

verus! {

/// Injects calls of an imported gas charging host function into each metered block.
pub struct Injector {
    /// The name of the module to import the gas function from.
    pub module: String,
    /// The name of the gas function to import.
    pub name: String,
}

impl Injector {
    pub fn new(module: &str, name: &str) -> (r: Self)
        ensures
            r.module@ == module@,
            r.name@ == name@,
    {
        Injector { module: String::from_str(module), name: String::from_str(name) }
    }
}

impl<R: Rules> Backend<R> for Injector {
    open spec fn spec_gas_meter(&self, module: Module, rules: R) -> GasMeterModel {
        GasMeterModel::External { module: self.module@, function: self.name@ }
    }

    fn gas_meter(self, module: &Module, rules: &R) -> (r: GasMeter) {
        GasMeter::External { module: self.module, function: self.name }
    }
}

} // verus!
