//! Gas metering with a mutable global.
//!
//! Not for all execution engines does this method perform better than an imported host
//! function. Applying the stack limiter to a module metered this way can make it much larger.
use vstd::prelude::*;

use crate::wasm::{BlockType, Instr, Module, I64_GE_U, I64_SUB};
use super::{Backend, GasMeter, GasMeterModel, Rules};

verus! {

/// The body of the local gas function, over the gas global `g`: subtract the charge from the
/// global where it suffices; otherwise set the global to `u64::MAX` and trap.
pub open spec fn spec_gas_function_body(g: u32) -> Seq<Instr> {
    seq![
        Instr::GetGlobal(g),
        Instr::GetLocal(0),
        Instr::Numeric(I64_GE_U),
        Instr::If(BlockType::NoResult),
        Instr::GetGlobal(g),
        Instr::GetLocal(0),
        Instr::Numeric(I64_SUB),
        Instr::SetGlobal(g),
        Instr::Else,
        Instr::I64Const(-1i64),
        Instr::SetGlobal(g),
        Instr::Unreachable,
        Instr::End,
        Instr::End,
    ]
}

/// The instructions of the gas function that run when the charge succeeds: all but the three
/// of the out-of-gas path.
pub open spec fn spec_charged_part(g: u32) -> Seq<Instr> {
    seq![
        Instr::GetGlobal(g),
        Instr::GetLocal(0),
        Instr::Numeric(I64_GE_U),
        Instr::If(BlockType::NoResult),
        Instr::GetGlobal(g),
        Instr::GetLocal(0),
        Instr::Numeric(I64_SUB),
        Instr::SetGlobal(g),
        Instr::Else,
        Instr::End,
        Instr::End,
    ]
}

/// The cost of an instruction under `rules`, where a forbidden one counts `u32::MAX`.
pub open spec fn cost_or_max<R: Rules>(rules: R, instr: Instr) -> nat {
    match rules.spec_instruction_cost(instr) {
        Some(c) => c as nat,
        None => u32::MAX as nat,
    }
}

/// The sum of the costs of `instrs` under `rules`.
pub open spec fn cost_sum<R: Rules>(rules: R, instrs: Seq<Instr>) -> nat
    decreases instrs.len(),
{
    if instrs.len() == 0 {
        0
    } else {
        cost_sum(rules, instrs.drop_last()) + cost_or_max(rules, instrs.last())
    }
}

/// The gas meter that keeps the gas left in a global exported as `global_name`.
pub open spec fn spec_mutable_global_meter<R: Rules>(
    global_name: Seq<char>,
    module: Module,
    rules: R,
) -> GasMeterModel {
    let g = module.spec_globals_space() as u32;
    GasMeterModel::Internal {
        global: global_name,
        func_instructions: spec_gas_function_body(g),
        cost: cost_sum(rules, spec_charged_part(g)) as u64,
    }
}

fn push_charged_part(out: &mut Vec<Instr>, g: u32)
    ensures
        final(out)@ == old(out)@ + spec_charged_part(g),
{
    out.push(Instr::GetGlobal(g));
    out.push(Instr::GetLocal(0));
    out.push(Instr::Numeric(I64_GE_U));
    out.push(Instr::If(BlockType::NoResult));
    out.push(Instr::GetGlobal(g));
    out.push(Instr::GetLocal(0));
    out.push(Instr::Numeric(I64_SUB));
    out.push(Instr::SetGlobal(g));
    out.push(Instr::Else);
    out.push(Instr::End);
    out.push(Instr::End);
    assert(final(out)@ =~= old(out)@ + spec_charged_part(g));
}

fn gas_function_body(g: u32) -> (r: Vec<Instr>)
    ensures
        r@ == spec_gas_function_body(g),
{
    let mut body: Vec<Instr> = Vec::new();
    body.push(Instr::GetGlobal(g));
    body.push(Instr::GetLocal(0));
    body.push(Instr::Numeric(I64_GE_U));
    body.push(Instr::If(BlockType::NoResult));
    body.push(Instr::GetGlobal(g));
    body.push(Instr::GetLocal(0));
    body.push(Instr::Numeric(I64_SUB));
    body.push(Instr::SetGlobal(g));
    body.push(Instr::Else);
    body.push(Instr::I64Const(-1));
    body.push(Instr::SetGlobal(g));
    body.push(Instr::Unreachable);
    body.push(Instr::End);
    body.push(Instr::End);
    assert(body@ =~= spec_gas_function_body(g));
    body
}

/// The gas meter that keeps the gas left in a global exported as `global_name`.
pub fn mutable_global_meter<R: Rules>(global_name: String, module: &Module, rules: &R) -> (r:
    GasMeter)
    requires
        module.fits_index_space(),
    ensures
        r.model() == spec_mutable_global_meter(global_name@, *module, *rules),
{
    let g = module.globals_space();
    let mut charged: Vec<Instr> = Vec::new();
    push_charged_part(&mut charged, g);
    assert(charged@ =~= spec_charged_part(g));
    let mut cost: u64 = 0;
    let mut i: usize = 0;
    while i < charged.len()
        invariant
            i <= charged@.len(),
            charged@.len() == 11,
            cost == cost_sum(*rules, charged@.subrange(0, i as int)),
            cost <= i * (u32::MAX as nat),
        decreases charged@.len() - i,
    {
        assert(charged@.subrange(0, i + 1).drop_last() == charged@.subrange(0, i as int));
        let c: u32 = match rules.instruction_cost(&charged[i]) {
            Some(c) => c,
            None => u32::MAX,
        };
        assert(i * (u32::MAX as nat) + (u32::MAX as nat) == (i + 1) * (u32::MAX as nat)) by (nonlinear_arith);
        assert(11 * (u32::MAX as nat) < u64::MAX);
        assert((i + 1) * (u32::MAX as nat) <= 11 * (u32::MAX as nat)) by (nonlinear_arith)
            requires i + 1 <= 11;
        cost = cost + c as u64;
        i += 1;
    }
    assert(charged@.subrange(0, i as int) == charged@);
    GasMeter::Internal { global: global_name, func_instructions: gas_function_body(g), cost }
}

/// Injects a mutable global that holds the gas left, and a local function that charges it.
///
/// The function is called at the start of every metered block. When the gas runs out, the
/// global is set to the sentinel `u64::MAX` and `unreachable` traps. The execution engine
/// reads the global and writes it back to keep the gas left in sync.
pub struct Injector {
    /// The export name of the gas tracking global.
    pub global_name: String,
}

impl Injector {
    pub fn new(global_name: &str) -> (r: Self)
        ensures
            r.global_name@ == global_name@,
    {
        Injector { global_name: String::from_str(global_name) }
    }
}

impl<R: Rules> Backend<R> for Injector {
    open spec fn spec_gas_meter(&self, module: Module, rules: R) -> GasMeterModel {
        spec_mutable_global_meter(self.global_name@, module, rules)
    }

    fn gas_meter(self, module: &Module, rules: &R) -> (r: GasMeter) {
        mutable_global_meter(self.global_name, module, rules)
    }
}

} // verus!
