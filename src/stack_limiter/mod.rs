//! The stack height limiter: makes running out of native stack deterministic by bounding
//! the height of a stack kept in a global.
use vstd::prelude::*;

use crate::wasm::{
    lemma_func_import_count_bound, locals_count, locals_sum, refs_in_range, reversed, BlockType, ExportEntry,
    FuncBody, GlobalEntry, Instr, Internal, Module, ValueType, I32_ADD, I32_GT_U, I32_SUB,
};
use max_height::spec_max_height;
use thunk::{
    fixup, generate_thunks, is_thunk_of, is_thunked, signature_of, thunk_cost, thunk_height,
    thunks_check, thunks_error, thunk_targets, thunked_below, lemma_thunked_below_len,
    thunks_measurable, targets_known,
};

pub mod max_height;
pub mod thunk;

verus! {

/// The instructions put in place of `call callee`: raise the stack height global by
/// `cost`, trap above `limit`, make the call, and lower the global again.
pub open spec fn spec_call_bracket(callee: u32, cost: i32, global: u32, limit: i32) -> Seq<Instr> {
    seq![
        Instr::GetGlobal(global),
        Instr::I32Const(cost),
        Instr::Numeric(I32_ADD),
        Instr::SetGlobal(global),
        Instr::GetGlobal(global),
        Instr::I32Const(limit),
        Instr::Numeric(I32_GT_U),
        Instr::If(BlockType::NoResult),
        Instr::Unreachable,
        Instr::End,
        Instr::Call(callee),
        Instr::GetGlobal(global),
        Instr::I32Const(cost),
        Instr::Numeric(I32_SUB),
        Instr::SetGlobal(global),
    ]
}

/// Appends the instructions of [`spec_call_bracket`] to `out`.
pub fn call_bracket(out: &mut Vec<Instr>, callee: u32, cost: i32, global: u32, limit: i32)
    ensures
        final(out)@ == old(out)@ + spec_call_bracket(callee, cost, global, limit),
{
    out.push(Instr::GetGlobal(global));
    out.push(Instr::I32Const(cost));
    out.push(Instr::Numeric(I32_ADD));
    out.push(Instr::SetGlobal(global));
    out.push(Instr::GetGlobal(global));
    out.push(Instr::I32Const(limit));
    out.push(Instr::Numeric(I32_GT_U));
    out.push(Instr::If(BlockType::NoResult));
    out.push(Instr::Unreachable);
    out.push(Instr::End);
    out.push(Instr::Call(callee));
    out.push(Instr::GetGlobal(global));
    out.push(Instr::I32Const(cost));
    out.push(Instr::Numeric(I32_SUB));
    out.push(Instr::SetGlobal(global));
    assert(final(out)@ =~= old(out)@ + spec_call_bracket(callee, cost, global, limit));
}

/// What the stack limiter knows of a module while it rewrites it.
pub struct Context {
    /// Number of imported functions.
    pub func_imports: u32,
    /// The type index of each function of the function space.
    pub func_types: Vec<u32>,
    /// Index of the global that holds the current stack height.
    pub stack_height_global_idx: u32,
    /// The stack cost of each function of the function space; imported functions cost 0.
    pub func_stack_costs: Vec<u32>,
    pub stack_limit: u32,
}

impl Context {
    /// Index of the stack height global in the global index space.
    pub fn stack_height_global_idx(&self) -> (r: u32)
        ensures
            r == self.stack_height_global_idx,
    {
        self.stack_height_global_idx
    }

    /// The stack cost of `func_idx`, if it is in the function space.
    pub fn stack_cost(&self, func_idx: u32) -> (r: Option<u32>)
        ensures
            r == (if func_idx < self.func_stack_costs@.len() {
                Some(self.func_stack_costs@[func_idx as int])
            } else {
                None
            }),
    {
        if (func_idx as usize) < self.func_stack_costs.len() {
            Some(self.func_stack_costs[func_idx as usize])
        } else {
            None
        }
    }

    /// The type index of `func_idx`, if it is in the function space.
    pub fn func_type(&self, func_idx: u32) -> (r: Option<u32>)
        ensures
            r == (if func_idx < self.func_types@.len() {
                Some(self.func_types@[func_idx as int])
            } else {
                None
            }),
    {
        if (func_idx as usize) < self.func_types.len() {
            Some(self.func_types[func_idx as usize])
        } else {
            None
        }
    }

    /// The stack limit.
    pub fn stack_limit(&self) -> (r: u32)
        ensures
            r == self.stack_limit,
    {
        self.stack_limit
    }
}

/// The stack cost of defined function `def_func_idx`: its declared locals plus the greatest
/// height of its value stack, counted with the instructions put around its calls.
pub open spec fn spec_stack_cost(module: Module, def_func_idx: u32) -> Result<u32, &'static str> {
    if def_func_idx >= module.code@.len() {
        Err("Function body is out of bounds")
    } else if locals_sum(module.code@[def_func_idx as int].locals@) > u32::MAX {
        Err("Overflow in local count")
    } else {
        match spec_max_height(module, def_func_idx, true) {
            Err(e) => Err(e),
            Ok(h) => if locals_sum(module.code@[def_func_idx as int].locals@) + h <= u32::MAX {
                Ok((locals_sum(module.code@[def_func_idx as int].locals@) + h) as u32)
            } else {
                Err("Overflow in adding locals_count and max_stack_height")
            },
        }
    }
}

/// The costs of the first `n` defined functions, checked in order: the first one that has
/// no cost gives the error.
pub open spec fn costs_check(module: Module, n: nat) -> Result<(), &'static str>
    decreases n,
{
    if n == 0 {
        Ok(())
    } else {
        match costs_check(module, (n - 1) as nat) {
            Err(e) => Err(e),
            Ok(()) => match spec_stack_cost(module, (n - 1) as u32) {
                Err(e) => Err(e),
                Ok(_) => Ok(()),
            },
        }
    }
}

proof fn lemma_costs_check_err_extends(module: Module, i: nat, n: nat)
    requires
        i <= n,
        costs_check(module, i) is Err,
    ensures
        costs_check(module, n) == costs_check(module, i),
    decreases n - i,
{
    if i < n {
        lemma_costs_check_err_extends(module, i, (n - 1) as nat);
    }
}

/// Every defined function has a stack cost.
pub open spec fn all_costs_defined(module: Module) -> bool {
    forall|i: int|
        0 <= i < module.functions@.len() ==> #[trigger] spec_stack_cost(module, i as u32) is Ok
}

/// The stack costs of the function space: zero for each import, then the cost of each
/// defined function.
pub open spec fn spec_stack_costs(module: Module) -> Seq<u32> {
    Seq::new(module.spec_func_imports(), |i: int| 0u32) + Seq::new(
        module.functions@.len(),
        |i: int| spec_stack_cost(module, i as u32).unwrap(),
    )
}

/// Every function of the function space has a valid type index.
pub open spec fn func_types_valid(module: Module) -> bool {
    forall|k: int|
        0 <= k < module.spec_func_types().len() ==> #[trigger] module.spec_func_types()[k]
            < module.types@.len()
}

/// Computes the stack cost of defined function `func_idx` of `module`.
///
/// The stack cost is the sum of the function's declared locals and of the greatest height
/// of its value stack, where each call to a defined function counts the instructions that
/// the stack limiter puts around it.
pub fn compute_stack_cost(func_idx: u32, module: &Module) -> (r: Result<u32, &'static str>)
    ensures
        r == spec_stack_cost(*module, func_idx),
{
    if func_idx as usize >= module.code.len() {
        return Err("Function body is out of bounds");
    }
    let locals_count = match locals_count(&module.code[func_idx as usize].locals) {
        Some(n) => n,
        None => {
            return Err("Overflow in local count");
        },
    };
    let max_stack_height = max_height::compute(func_idx, module)?;
    match locals_count.checked_add(max_stack_height) {
        Some(c) => Ok(c),
        None => Err("Overflow in adding locals_count and max_stack_height"),
    }
}

/// Checks that every function of the function space has a valid type index, and returns
/// those indices.
fn collect_func_types(module: &Module) -> (r: Result<Vec<u32>, &'static str>)
    ensures
        r is Ok <==> func_types_valid(*module),
        r is Ok ==> r.unwrap()@ == module.spec_func_types(),
        r is Err ==> r->Err_0 == "The signature as specified by a function isn't defined",
{
    let (func_types, _) = module.func_type_indices();
    let mut i: usize = 0;
    while i < func_types.len()
        invariant
            i <= func_types.len(),
            func_types@ == module.spec_func_types(),
            forall|k: int| 0 <= k < i ==> #[trigger] func_types@[k] < module.types@.len(),
        decreases func_types.len() - i,
    {
        if func_types[i] as usize >= module.types.len() {
            return Err("The signature as specified by a function isn't defined");
        }
        i += 1;
    }
    Ok(func_types)
}

/// Computes the stack cost of every function of the function space.
fn compute_stack_costs(module: &Module) -> (r: Result<Vec<u32>, &'static str>)
    requires
        module.fits_index_space(),
    ensures
        r is Ok <==> all_costs_defined(*module),
        r is Ok ==> r.unwrap()@ == spec_stack_costs(*module),
        r is Err ==> r->Err_0 == costs_check(*module, module.functions@.len())->Err_0,
{
    let func_imports = module.func_imports();
    let mut costs: Vec<u32> = Vec::new();
    let mut i: u32 = 0;
    while i < func_imports
        invariant
            i <= func_imports,
            func_imports == module.spec_func_imports(),
            costs@ == Seq::new(i as nat, |k: int| 0u32),
        decreases func_imports - i,
    {
        costs.push(0);
        i += 1;
        assert(costs@ =~= Seq::new(i as nat, |k: int| 0u32));
    }
    let n = module.functions.len();
    let mut j: usize = 0;
    while j < n
        invariant
            j <= n,
            n == module.functions@.len(),
            module.fits_index_space(),
            func_imports == module.spec_func_imports(),
            forall|k: int| 0 <= k < j ==> #[trigger] spec_stack_cost(*module, k as u32) is Ok,
            costs_check(*module, j as nat) is Ok,
            costs@ == Seq::new(func_imports as nat, |k: int| 0u32) + Seq::new(
                j as nat,
                |k: int| spec_stack_cost(*module, k as u32).unwrap(),
            ),
        decreases n - j,
    {
        let cost = match compute_stack_cost(j as u32, module) {
            Ok(c) => c,
            Err(e) => {
                proof {
                    lemma_costs_check_err_extends(*module, j as nat + 1, n as nat);
                }
                return Err(e);
            },
        };
        costs.push(cost);
        j += 1;
        assert(costs@ =~= Seq::new(func_imports as nat, |k: int| 0u32) + Seq::new(
            j as nat,
            |k: int| spec_stack_cost(*module, k as u32).unwrap(),
        ));
    }
    Ok(costs)
}

/// Builds the context of the stack limiter for `module`.
fn prepare_context(module: &Module, stack_limit: u32) -> (r: Result<Context, &'static str>)
    requires
        module.fits_index_space(),
    ensures
        r is Ok <==> func_types_valid(*module) && all_costs_defined(*module),
        r is Err ==> r->Err_0 == (if !func_types_valid(*module) {
            "The signature as specified by a function isn't defined"
        } else {
            costs_check(*module, module.functions@.len())->Err_0
        }),
        r is Ok ==> r.unwrap().func_imports == module.spec_func_imports() && r.unwrap().func_types@
            == module.spec_func_types() && r.unwrap().func_stack_costs@ == spec_stack_costs(
            *module,
        ) && r.unwrap().stack_limit == stack_limit && r.unwrap().stack_height_global_idx == 0,
{
    let func_types = collect_func_types(module)?;
    let func_stack_costs = compute_stack_costs(module)?;
    Ok(
        Context {
            func_imports: module.func_imports(),
            func_types,
            stack_height_global_idx: 0,
            func_stack_costs,
            stack_limit,
        },
    )
}

/// The global that holds the stack height: a mutable `i32` that starts at 0.
pub open spec fn is_stack_height_global(g: GlobalEntry) -> bool {
    &&& g.value_type == ValueType::I32
    &&& g.mutable
    &&& g.init@ == seq![Instr::I32Const(0), Instr::End]
}

/// Adds the stack height global to `module` and returns its index in the global index space.
fn generate_stack_height_global(module: &mut Module) -> (r: u32)
    requires
        old(module).fits_index_space(),
    ensures
        r == old(module).spec_globals_space(),
        final(module).globals@.len() == old(module).globals@.len() + 1,
        final(module).globals@.drop_last() == old(module).globals@,
        is_stack_height_global(final(module).globals@.last()),
        final(module).types == old(module).types,
        final(module).imports == old(module).imports,
        final(module).functions == old(module).functions,
        final(module).exports == old(module).exports,
        final(module).elements == old(module).elements,
        final(module).start == old(module).start,
        final(module).code == old(module).code,
        final(module).function_names == old(module).function_names,
{
    let idx = module.globals_space();
    let mut init: Vec<Instr> = Vec::new();
    init.push(Instr::I32Const(0));
    init.push(Instr::End);
    assert(init@ =~= seq![Instr::I32Const(0), Instr::End]);
    module.globals.push(GlobalEntry { value_type: ValueType::I32, mutable: true, init });
    assert(module.globals@.drop_last() =~= old(module).globals@);
    idx
}

/// What one instruction becomes: a call to a function of nonzero cost is bracketed by the
/// instructions that raise and lower the stack height global; anything else stays.
pub open spec fn instrument_item(costs: Seq<u32>, global: u32, limit: u32, instr: Instr) -> Seq<
    Instr,
> {
    match instr {
        Instr::Call(callee) => if callee < costs.len() && costs[callee as int] > 0 {
            spec_call_bracket(callee, costs[callee as int] as i32, global, limit as i32)
        } else {
            seq![instr]
        },
        _ => seq![instr],
    }
}

/// A body with each of its calls instrumented.
pub open spec fn spec_instrument(costs: Seq<u32>, global: u32, limit: u32, instrs: Seq<Instr>) -> Seq<
    Instr,
>
    decreases instrs.len(),
{
    if instrs.len() == 0 {
        seq![]
    } else {
        spec_instrument(costs, global, limit, instrs.drop_last()) + instrument_item(
            costs,
            global,
            limit,
            instrs.last(),
        )
    }
}

/// Puts the preamble and postamble around each call in `func` to a function of nonzero
/// stack cost.
fn instrument_function(ctx: &Context, func: Vec<Instr>) -> (r: Vec<Instr>)
    ensures
        r@ == spec_instrument(
            ctx.func_stack_costs@,
            ctx.stack_height_global_idx,
            ctx.stack_limit,
            func@,
        ),
{
    let ghost orig = func@;
    let n = func.len();
    let mut rest = reversed(func);
    let mut out: Vec<Instr> = Vec::new();
    let mut k: usize = 0;
    while rest.len() > 0
        invariant
            k + rest@.len() == n,
            n == orig.len(),
            rest@ == orig.subrange(k as int, n as int).reverse(),
            out@ == spec_instrument(
                ctx.func_stack_costs@,
                ctx.stack_height_global_idx,
                ctx.stack_limit,
                orig.subrange(0, k as int),
            ),
        decreases rest.len(),
    {
        let instr = rest.pop().unwrap();
        assert(instr == orig[k as int]);
        assert(orig.subrange(0, k + 1).drop_last() == orig.subrange(0, k as int));
        let callee_cost = match &instr {
            Instr::Call(callee) => ctx.stack_cost(*callee),
            _ => None,
        };
        match callee_cost {
            Some(cost) if cost > 0 => {
                let callee = match &instr {
                    Instr::Call(callee) => *callee,
                    _ => 0,
                };
                call_bracket(
                    &mut out,
                    callee,
                    #[verifier::truncate] (cost as i32),
                    ctx.stack_height_global_idx(),
                    #[verifier::truncate] (ctx.stack_limit() as i32),
                );
            },
            _ => {
                out.push(instr);
            },
        }
        k += 1;
        assert(rest@ =~= orig.subrange(k as int, n as int).reverse());
    }
    assert(orig.subrange(0, n as int) == orig);
    out
}

/// Instruments the calls of every function body of `module`.
fn instrument_functions(ctx: &Context, module: &mut Module)
    ensures
        final(module).code@.len() == old(module).code@.len(),
        forall|k: int|
            0 <= k < old(module).code@.len() ==> (#[trigger] final(module).code@[k]).locals == old(
                module,
            ).code@[k].locals && final(module).code@[k].code@ == spec_instrument(
                ctx.func_stack_costs@,
                ctx.stack_height_global_idx,
                ctx.stack_limit,
                old(module).code@[k].code@,
            ),
        final(module).types == old(module).types,
        final(module).imports == old(module).imports,
        final(module).functions == old(module).functions,
        final(module).globals == old(module).globals,
        final(module).exports == old(module).exports,
        final(module).elements == old(module).elements,
        final(module).start == old(module).start,
        final(module).function_names == old(module).function_names,
{
    let ghost orig = module.code@;
    let mut code: Vec<FuncBody> = Vec::new();
    core::mem::swap(&mut code, &mut module.code);
    let n = code.len();
    let mut rest = reversed(code);
    let mut out: Vec<FuncBody> = Vec::new();
    let mut k: usize = 0;
    while rest.len() > 0
        invariant
            k + rest@.len() == n,
            n == orig.len(),
            rest@ == orig.subrange(k as int, n as int).reverse(),
            out@.len() == k,
            forall|j: int|
                0 <= j < k ==> (#[trigger] out@[j]).locals == orig[j].locals && out@[j].code@
                    == spec_instrument(
                    ctx.func_stack_costs@,
                    ctx.stack_height_global_idx,
                    ctx.stack_limit,
                    orig[j].code@,
                ),
        decreases rest.len(),
    {
        let body = rest.pop().unwrap();
        assert(body == orig[k as int]);
        let FuncBody { locals, code } = body;
        out.push(FuncBody { locals, code: instrument_function(ctx, code) });
        k += 1;
        assert(rest@ =~= orig.subrange(k as int, n as int).reverse());
    }
    module.code = out;
}

/// The error of [`inject`] on `module`: an invalid signature, or else the first function
/// without a stack cost, or else the error of the thunk generation.
pub open spec fn stack_limit_error(module: Module, stack_limit: u32) -> &'static str {
    if !func_types_valid(module) {
        "The signature as specified by a function isn't defined"
    } else if !all_costs_defined(module) {
        costs_check(module, module.functions@.len())->Err_0
    } else {
        thunks_error(
            module,
            spec_stack_costs(module),
            stack_limit,
            module.spec_globals_space() as u32,
        )
    }
}

/// Thunk generation fails in the same way on two modules with the same reachable functions
/// and the same thunk costs.
proof fn lemma_thunks_check_same(
    a: Module,
    b: Module,
    costs: Seq<u32>,
    targets: Seq<u32>,
    limit: u32,
    global: u32,
    n: nat,
)
    requires
        n <= costs.len(),
        forall|f: int|
            0 <= f < costs.len() ==> #[trigger] thunk_cost(a, costs, limit, global, f as u32)
                == thunk_cost(b, costs, limit, global, f as u32),
    ensures
        thunks_check(a, costs, targets, limit, global, n) == thunks_check(
            b,
            costs,
            targets,
            limit,
            global,
            n,
        ),
    decreases n,
{
    if n > 0 {
        lemma_thunks_check_same(a, b, costs, targets, limit, global, (n - 1) as nat);
        assert(thunk_cost(a, costs, limit, global, (n - 1) as u32) == thunk_cost(
            b,
            costs,
            limit,
            global,
            (n - 1) as u32,
        ));
    }
}

/// What [`inject`] returns for `module` and `stack_limit`: success exactly where every
/// function has a valid signature and a stack cost and every thunk can be measured; then the
/// module with its stack height global, its calls instrumented, and its thunks.
pub open spec fn stack_limited(module: Module, stack_limit: u32, r: Result<Module, &'static str>) -> bool {
    &&& (r is Ok <==> func_types_valid(module) && all_costs_defined(module) && targets_known(
            module,
            spec_stack_costs(module),
        ) && thunks_measurable(
            module,
            spec_stack_costs(module),
            stack_limit,
            module.spec_globals_space() as u32,
        ))
    &&& (r is Err ==> r->Err_0 == stack_limit_error(module, stack_limit))
    &&& (r is Ok ==> ({
            let m = r.unwrap();
            let costs = spec_stack_costs(module);
            let global = module.spec_globals_space() as u32;
            let targets = thunk_targets(module);
            let thunked = thunked_below(costs, targets, costs.len() as int);
            let base = module.spec_functions_space() as u32;
            &&& m.types == module.types
            &&& m.imports == module.imports
            &&& m.function_names == module.function_names
            &&& m.globals@.len() == module.globals@.len() + 1
            &&& m.globals@.drop_last() == module.globals@
            &&& is_stack_height_global(m.globals@.last())
            &&& m.functions@.len() == module.functions@.len() + thunked.len()
            &&& m.functions@.subrange(0, module.functions@.len() as int) == module.functions@
            &&& m.code@.len() == module.code@.len() + thunked.len()
            &&& forall|k: int|
                0 <= k < module.code@.len() ==> (#[trigger] m.code@[k]).locals
                    == module.code@[k].locals && m.code@[k].code@ == spec_instrument(
                    costs,
                    global,
                    stack_limit,
                    module.code@[k].code@,
                )
            &&& forall|k: int|
                0 <= k < thunked.len() ==> is_thunk_of(
                    module,
                    costs,
                    stack_limit,
                    global,
                    #[trigger] thunked[k],
                    m.functions@[module.functions@.len() + k],
                    m.code@[module.code@.len() + k],
                )
            &&& m.exports@.len() == module.exports@.len()
            &&& forall|k: int|
                0 <= k < m.exports@.len() ==> {
                    let e = module.exports@[k];
                    #[trigger] m.exports@[k] == ExportEntry {
                        field: e.field,
                        internal: match e.internal {
                            Internal::Function(f) => Internal::Function(
                                fixup(costs, targets, base, f),
                            ),
                            other => other,
                        },
                    }
                }
            &&& m.elements@.len() == module.elements@.len()
            &&& forall|k: int|
                0 <= k < m.elements@.len() ==> (#[trigger] m.elements@[k]).members@
                    == module.elements@[k].members@.map_values(
                    |f: u32| fixup(costs, targets, base, f),
                )
            &&& m.start == match module.start {
                Some(s) => Some(fixup(costs, targets, base, s)),
                None => None,
            }
        }))
}

/// Injects the instrumentation that makes running out of stack deterministic, by bounding
/// the stack size.
///
/// A mutable global tracks the stack height. Each call to a function of nonzero stack cost
/// raises it by the callee's cost before the call, traps with `unreachable` if it then exceeds
/// `stack_limit`, and lowers it after the call. Exported functions, table elements and the
/// start function are reached through thunks that make the same instrumented call, so that
/// calls from outside the module are counted too.
///
/// Fails where a function has no valid signature or body, where an analysis fails, or where
/// a cost overflows.
#[verifier::rlimit(100)]
pub fn inject(module: Module, stack_limit: u32) -> (r: Result<Module, &'static str>)
    requires
        module.fits_index_space(),
    ensures
        stack_limited(module, stack_limit, r),
{
    let mut ctx = prepare_context(&module, stack_limit)?;
    let ghost orig = module;
    let mut module = module;
    ctx.stack_height_global_idx = generate_stack_height_global(&mut module);
    let ghost with_global = module;
    instrument_functions(&ctx, &mut module);
    proof {
        lemma_func_import_count_bound(orig.imports@);
        assert(thunk_targets(module) == thunk_targets(orig));
        assert(module.spec_func_types() == orig.spec_func_types());
        assert forall|f: int|
            0 <= f < ctx.func_stack_costs@.len() implies #[trigger] thunk_cost(
                module,
                ctx.func_stack_costs@,
                stack_limit,
                ctx.stack_height_global_idx,
                f as u32,
            ) == thunk_cost(
                orig,
                ctx.func_stack_costs@,
                stack_limit,
                ctx.stack_height_global_idx,
                f as u32,
            ) by {}
        lemma_thunks_check_same(
            module,
            orig,
            ctx.func_stack_costs@,
            thunk_targets(orig),
            stack_limit,
            ctx.stack_height_global_idx,
            ctx.func_stack_costs@.len(),
        );
        assert(thunks_error(
            module,
            ctx.func_stack_costs@,
            stack_limit,
            ctx.stack_height_global_idx,
        ) == thunks_error(orig, ctx.func_stack_costs@, stack_limit, ctx.stack_height_global_idx));
        assert(targets_known(module, ctx.func_stack_costs@) == targets_known(
            orig,
            ctx.func_stack_costs@,
        ));
        if thunks_measurable(orig, ctx.func_stack_costs@, stack_limit, ctx.stack_height_global_idx) {
            assert forall|f: int|
                is_thunked(
                    ctx.func_stack_costs@,
                    thunk_targets(module),
                    f,
                ) implies #[trigger] thunk_cost(
                module,
                ctx.func_stack_costs@,
                stack_limit,
                ctx.stack_height_global_idx,
                f as u32,
            ) is Ok by {
                assert(thunk_cost(
                    orig,
                    ctx.func_stack_costs@,
                    stack_limit,
                    ctx.stack_height_global_idx,
                    f as u32,
                ) is Ok);
            }
        }
        if thunks_measurable(module, ctx.func_stack_costs@, stack_limit, ctx.stack_height_global_idx) {
            assert forall|f: int|
                is_thunked(
                    ctx.func_stack_costs@,
                    thunk_targets(orig),
                    f,
                ) implies #[trigger] thunk_cost(
                orig,
                ctx.func_stack_costs@,
                stack_limit,
                ctx.stack_height_global_idx,
                f as u32,
            ) is Ok by {
                assert(thunk_cost(
                    module,
                    ctx.func_stack_costs@,
                    stack_limit,
                    ctx.stack_height_global_idx,
                    f as u32,
                ) is Ok);
            }
        }
        assert(thunks_measurable(
            module,
            ctx.func_stack_costs@,
            stack_limit,
            ctx.stack_height_global_idx,
        ) == thunks_measurable(
            orig,
            ctx.func_stack_costs@,
            stack_limit,
            ctx.stack_height_global_idx,
        ));
    }
    let ghost instrumented = module;
    let r = generate_thunks(&ctx, module);
    proof {
        if r is Ok {
            let m = r.unwrap();
            assert forall|k: int| 0 <= k < orig.code@.len() implies (#[trigger] m.code@[k]).locals
                == orig.code@[k].locals && m.code@[k].code@ == spec_instrument(
                ctx.func_stack_costs@,
                ctx.stack_height_global_idx,
                stack_limit,
                orig.code@[k].code@,
            ) by {
                assert(m.code@[k] == m.code@.subrange(0, instrumented.code@.len() as int)[k]);
            }
        }
    }
    r
}

/// There are no more thunked functions below `a` than below `b >= a`, and a thunked function
/// `f < b` has fewer thunked functions below it than there are below `b`.
proof fn lemma_thunked_below_monotone(costs: Seq<u32>, targets: Seq<u32>, a: int, b: int)
    requires
        0 <= a <= b,
    ensures
        thunked_below(costs, targets, a).len() <= thunked_below(costs, targets, b).len(),
        a < b && is_thunked(costs, targets, a) ==> thunked_below(costs, targets, a).len()
            < thunked_below(costs, targets, b).len(),
    decreases b - a,
{
    if a < b {
        lemma_thunked_below_monotone(costs, targets, a, b - 1);
        if a == b - 1 {
            assert(thunked_below(costs, targets, b) == thunked_below(costs, targets, a) + seq![
                a as u32,
            ] || !is_thunked(costs, targets, a));
        }
    }
}

/// The stack limiter keeps every function reference of a module in its function index
/// space: references that it points at thunks point at functions that it adds.
pub proof fn lemma_stack_limit_keeps_refs_in_range(
    module: Module,
    stack_limit: u32,
    r: Result<Module, &'static str>,
)
    requires
        module.fits_index_space(),
        refs_in_range(module),
        stack_limited(module, stack_limit, r),
        r is Ok,
    ensures
        refs_in_range(r->Ok_0),
{
    let m = r->Ok_0;
    let costs = spec_stack_costs(module);
    let targets = thunk_targets(module);
    let n = costs.len() as int;
    let thunked = thunked_below(costs, targets, n);
    let base = module.spec_functions_space() as u32;
    lemma_func_import_count_bound(module.imports@);
    assert(m.spec_functions_space() == module.spec_functions_space() + thunked.len());
    assert(n == module.spec_functions_space());
    assert forall|f: u32| f < n implies #[trigger] fixup(costs, targets, base, f)
        < m.spec_functions_space() by {
        lemma_thunked_below_monotone(costs, targets, f as int, n);
    }
    assert forall|k: int|
        0 <= k < m.exports@.len() && (#[trigger] m.exports@[k]).internal is Function implies m.exports@[k].internal->Function_0
        < m.spec_functions_space() by {
        let f = module.exports@[k].internal->Function_0;
        assert(module.exports@[k].internal is Function);
        assert(f < n);
        assert(fixup(costs, targets, base, f) < m.spec_functions_space());
    }
    assert forall|k: int, j: int|
        0 <= k < m.elements@.len() && 0 <= j < m.elements@[k].members@.len() implies #[trigger] m.elements@[k].members@[j]
        < m.spec_functions_space() by {
        let f = module.elements@[k].members@[j];
        assert(f < n);
        assert(m.elements@[k].members@[j] == fixup(costs, targets, base, f));
        assert(fixup(costs, targets, base, f) < m.spec_functions_space());
    }
    if let Some(s) = module.start {
        assert(fixup(costs, targets, base, s) < m.spec_functions_space());
    }
}

/// The thunked functions below `a` are the first ones of those below `b >= a`.
proof fn lemma_thunked_below_prefix(costs: Seq<u32>, targets: Seq<u32>, a: int, b: int)
    requires
        0 <= a <= b,
    ensures
        thunked_below(costs, targets, a).len() <= thunked_below(costs, targets, b).len(),
        thunked_below(costs, targets, b).subrange(0, thunked_below(costs, targets, a).len() as int)
            == thunked_below(costs, targets, a),
    decreases b - a,
{
    if a < b {
        lemma_thunked_below_prefix(costs, targets, a, b - 1);
        let sa = thunked_below(costs, targets, a);
        let sb1 = thunked_below(costs, targets, b - 1);
        let sb = thunked_below(costs, targets, b);
        assert(sb.subrange(0, sb1.len() as int) == sb1);
        assert(sb.subrange(0, sa.len() as int) =~= sb1.subrange(0, sa.len() as int));
    }
}

/// An export of a function that gets a thunk points, once the stack limiter has run, at a
/// function that it added: the thunk of that function, of the same signature.
#[verifier::rlimit(100)]
pub proof fn lemma_export_points_to_thunk(
    module: Module,
    stack_limit: u32,
    r: Result<Module, &'static str>,
    k: int,
)
    requires
        module.fits_index_space(),
        stack_limited(module, stack_limit, r),
        r is Ok,
        module.code@.len() == module.functions@.len(),
        0 <= k < module.exports@.len(),
        module.exports@[k].internal is Function,
        is_thunked(
            spec_stack_costs(module),
            thunk_targets(module),
            module.exports@[k].internal->Function_0 as int,
        ),
    ensures
        ({
            let m = r->Ok_0;
            let f = module.exports@[k].internal->Function_0;
            let t = m.exports@[k].internal->Function_0;
            let d = t - module.spec_func_imports();
            &&& m.exports@[k].internal is Function
            &&& module.spec_functions_space() <= t < m.spec_functions_space()
            &&& m.exports@[k].field == module.exports@[k].field
            &&& is_thunk_of(
                module,
                spec_stack_costs(module),
                stack_limit,
                module.spec_globals_space() as u32,
                f,
                m.functions@[d],
                m.code@[d],
            )
        }),
{
    let m = r->Ok_0;
    let costs = spec_stack_costs(module);
    let targets = thunk_targets(module);
    let n = costs.len() as int;
    let f = module.exports@[k].internal->Function_0;
    let thunked = thunked_below(costs, targets, n);
    lemma_func_import_count_bound(module.imports@);
    assert(m.exports@[k] == ExportEntry {
        field: module.exports@[k].field,
        internal: Internal::Function(fixup(costs, targets, module.spec_functions_space() as u32, f)),
    });
    let p = thunked_below(costs, targets, f as int).len() as int;
    lemma_thunked_below_monotone(costs, targets, f as int, n);
    lemma_thunked_below_len(costs, targets, n);
    assert(p < thunked.len() <= n);
    assert(n == module.spec_functions_space());
    assert(m.spec_functions_space() == module.spec_functions_space() + thunked.len());
    assert(m.exports@[k].internal->Function_0 == module.spec_functions_space() + p);
    lemma_thunked_below_prefix(costs, targets, f as int + 1, n);
    let s1 = thunked_below(costs, targets, f as int + 1);
    assert(s1 == thunked_below(costs, targets, f as int) + seq![f]);
    assert(thunked.subrange(0, s1.len() as int) == s1);
    assert(thunked[p] == s1[p]);
    assert(thunked[p] == f);
    let d = m.exports@[k].internal->Function_0 - module.spec_func_imports();
    assert(d == module.functions@.len() + p);
    assert(d == module.code@.len() + p);
    assert(is_thunk_of(
        module,
        costs,
        stack_limit,
        module.spec_globals_space() as u32,
        thunked[p],
        m.functions@[module.functions@.len() + p],
        m.code@[module.code@.len() + p],
    ));
}

/// The cost that the thunk of defined function `f` charges is the stack cost of `f`, as
/// [`compute_stack_cost`] gives it, plus the height that the thunk's own body reaches.
pub proof fn lemma_thunk_cost_is_stack_cost_plus_height(
    module: Module,
    stack_limit: u32,
    global: u32,
    f: u32,
)
    requires
        all_costs_defined(module),
        module.spec_func_imports() <= f < module.spec_functions_space(),
        thunk_cost(module, spec_stack_costs(module), stack_limit, global, f) is Ok,
    ensures
        thunk_cost(module, spec_stack_costs(module), stack_limit, global, f).unwrap()
            == spec_stack_cost(module, (f - module.spec_func_imports()) as u32).unwrap()
            + thunk_height(module, stack_limit, global, f).unwrap(),
{
    let i = f - module.spec_func_imports();
    assert(spec_stack_costs(module)[f as int] == spec_stack_cost(module, i as u32).unwrap());
}

} // verus!
