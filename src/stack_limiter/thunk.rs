//! Thunks: functions that put each entry point reachable from outside the module (exports,
//! table elements, the start function) behind one instrumented call.
use vstd::prelude::*;

use crate::wasm::{
    lemma_func_import_count_bound, reversed, same_type, same_values, ElementSegment, ExportEntry,
    FuncBody, FunctionType, Instr, Internal, Local, Module,
};
use super::max_height::{spec_max_height_raw, MaxStackHeightCounter};
use super::{call_bracket, spec_call_bracket, Context};

verus! {

/// The function indices exported as functions, in export order.
pub open spec fn exported_funcs(exports: Seq<ExportEntry>) -> Seq<u32>
    decreases exports.len(),
{
    if exports.len() == 0 {
        seq![]
    } else {
        exported_funcs(exports.drop_last()) + match exports.last().internal {
            Internal::Function(f) => seq![f],
            _ => seq![],
        }
    }
}

/// The members of all element segments, in order.
pub open spec fn element_funcs(segments: Seq<ElementSegment>) -> Seq<u32>
    decreases segments.len(),
{
    if segments.len() == 0 {
        seq![]
    } else {
        element_funcs(segments.drop_last()) + segments.last().members@
    }
}

/// The functions reachable from outside the module: exported ones, table elements and the
/// start function.
pub open spec fn thunk_targets(module: Module) -> Seq<u32> {
    exported_funcs(module.exports@) + element_funcs(module.elements@) + match module.start {
        Some(s) => seq![s],
        None => seq![],
    }
}

/// Whether function `f` gets a thunk: it is reachable from outside and has nonzero cost.
pub open spec fn is_thunked(costs: Seq<u32>, targets: Seq<u32>, f: int) -> bool {
    0 <= f < costs.len() && targets.contains(f as u32) && costs[f] > 0
}

/// The functions below `n` that get a thunk, in increasing order.
pub open spec fn thunked_below(costs: Seq<u32>, targets: Seq<u32>, n: int) -> Seq<u32>
    decreases n,
{
    if n <= 0 {
        seq![]
    } else {
        thunked_below(costs, targets, n - 1) + if is_thunked(costs, targets, n - 1) {
            seq![(n - 1) as u32]
        } else {
            seq![]
        }
    }
}

/// Where a reference to function `f` points once thunks, numbered from `base`, are added.
pub open spec fn fixup(costs: Seq<u32>, targets: Seq<u32>, base: u32, f: u32) -> u32 {
    if is_thunked(costs, targets, f as int) {
        (base + thunked_below(costs, targets, f as int).len()) as u32
    } else {
        f
    }
}

/// The body of the thunk of `callee`: push each of its `n_params` parameters, make the
/// instrumented call with cost `cost`, end.
pub open spec fn spec_thunk_body(callee: u32, n_params: u32, cost: u32, global: u32, limit: u32) -> Seq<
    Instr,
> {
    Seq::new(n_params as nat, |i: int| Instr::GetLocal(i as u32)) + spec_call_bracket(
        callee,
        cost as i32,
        global,
        limit as i32,
    ) + seq![Instr::End]
}

/// The signature of function `f` of the function space.
pub open spec fn signature_of(module: Module, f: u32) -> FunctionType {
    module.types@[module.spec_func_types()[f as int] as int]
}

/// The height that the thunk of `f` itself adds to the stack, its call to `f` counted with
/// the instructions put around calls.
pub open spec fn thunk_height(module: Module, ctx_limit: u32, global: u32, f: u32) -> Result<
    u32,
    &'static str,
> {
    let sig = signature_of(module, f);
    spec_max_height_raw(
        module.types@,
        module.spec_func_types(),
        module.spec_func_imports(),
        true,
        sig,
        spec_thunk_body(f, sig.params@.len() as u32, 0, global, ctx_limit),
    )
}

/// The cost charged by the thunk of `f`: the cost of `f` plus the height of the thunk.
pub open spec fn thunk_cost(module: Module, costs: Seq<u32>, limit: u32, global: u32, f: u32) -> Result<
    u32,
    &'static str,
> {
    match thunk_height(module, limit, global, f) {
        Err(e) => Err(e),
        Ok(h) => if costs[f as int] + h <= u32::MAX {
            Ok((costs[f as int] + h) as u32)
        } else {
            Err("overflow during callee_stack_cost calculation")
        },
    }
}

/// The thunks of the functions below `n` that get one, measured in increasing order: the
/// first one that cannot be measured gives the error.
pub open spec fn thunks_check(
    module: Module,
    costs: Seq<u32>,
    targets: Seq<u32>,
    limit: u32,
    global: u32,
    n: nat,
) -> Result<(), &'static str>
    decreases n,
{
    if n == 0 {
        Ok(())
    } else {
        match thunks_check(module, costs, targets, limit, global, (n - 1) as nat) {
            Err(e) => Err(e),
            Ok(()) => if is_thunked(costs, targets, n - 1) {
                match thunk_cost(module, costs, limit, global, (n - 1) as u32) {
                    Err(e) => Err(e),
                    Ok(_) => Ok(()),
                }
            } else {
                Ok(())
            },
        }
    }
}

proof fn lemma_thunks_check_err_extends(
    module: Module,
    costs: Seq<u32>,
    targets: Seq<u32>,
    limit: u32,
    global: u32,
    i: nat,
    n: nat,
)
    requires
        i <= n,
        thunks_check(module, costs, targets, limit, global, i) is Err,
    ensures
        thunks_check(module, costs, targets, limit, global, n) == thunks_check(
            module,
            costs,
            targets,
            limit,
            global,
            i,
        ),
    decreases n - i,
{
    if i < n {
        lemma_thunks_check_err_extends(module, costs, targets, limit, global, i, (n - 1) as nat);
    }
}

/// The error of the thunk generation for `module`: a reachable function outside the function
/// space, or else the first thunk that cannot be measured.
pub open spec fn thunks_error(module: Module, costs: Seq<u32>, limit: u32, global: u32) -> &'static str {
    if !targets_known(module, costs) {
        "function index isn't found"
    } else {
        thunks_check(module, costs, thunk_targets(module), limit, global, costs.len())->Err_0
    }
}

/// Function `t` with `body` is the thunk of `f`: it has the signature of `f`, given by its
/// first index in the type section, no locals, and the body of the thunk with its cost.
pub open spec fn is_thunk_of(
    module: Module,
    costs: Seq<u32>,
    limit: u32,
    global: u32,
    f: u32,
    t: u32,
    body: FuncBody,
) -> bool {
    &&& t < module.types@.len()
    &&& same_type(module.types@[t as int], signature_of(module, f))
    &&& forall|j: int|
        0 <= j < t ==> !same_type(#[trigger] module.types@[j], signature_of(module, f))
    &&& body.locals@.len() == 0
    &&& body.code@ == spec_thunk_body(
        f,
        signature_of(module, f).params@.len() as u32,
        thunk_cost(module, costs, limit, global, f).unwrap(),
        global,
        limit,
    )
}

/// Whether `g` is among the first `i` targets.
pub open spec fn seen_before(targets: Seq<u32>, i: int, g: int) -> bool {
    exists|k: int| 0 <= k < i && #[trigger] targets[k] == g as u32
}

/// Every thunk of the functions of `targets` can be measured.
pub open spec fn thunks_measurable_for(
    module: Module,
    costs: Seq<u32>,
    targets: Seq<u32>,
    limit: u32,
    global: u32,
) -> bool {
    forall|f: int|
        is_thunked(costs, targets, f) ==> #[trigger] thunk_cost(
            module,
            costs,
            limit,
            global,
            f as u32,
        ) is Ok
}

/// Every thunk can be measured.
pub open spec fn thunks_measurable(module: Module, costs: Seq<u32>, limit: u32, global: u32) -> bool {
    thunks_measurable_for(module, costs, thunk_targets(module), limit, global)
}

/// Every function reachable from outside is in the function space.
pub open spec fn targets_known(module: Module, costs: Seq<u32>) -> bool {
    forall|k: int|
        0 <= k < thunk_targets(module).len() ==> #[trigger] thunk_targets(module)[k] < costs.len()
}

/// The context describes the function space of `module`.
pub open spec fn context_of(ctx: Context, module: Module) -> bool {
    &&& ctx.func_types@ == module.spec_func_types()
    &&& ctx.func_stack_costs@.len() == module.spec_functions_space()
    &&& forall|k: int|
        0 <= k < module.spec_func_types().len() ==> #[trigger] module.spec_func_types()[k]
            < module.types@.len()
    &&& module.fits_function_space()
}

/// The first index of `types` that holds type `t`, where there is one.
fn find_type(types: &Vec<FunctionType>, t: u32) -> (r: u32)
    requires
        t < types@.len(),
        types@.len() <= u32::MAX,
    ensures
        r <= t,
        same_type(types@[r as int], types@[t as int]),
        forall|j: int| 0 <= j < r ==> !same_type(#[trigger] types@[j], types@[t as int]),
{
    let target = &types[t as usize];
    let mut i: u32 = 0;
    while i < t
        invariant
            i <= t,
            t < types@.len(),
            target == types@[t as int],
            forall|j: int| 0 <= j < i ==> !same_type(#[trigger] types@[j], types@[t as int]),
        decreases t - i,
    {
        let cand = &types[i as usize];
        if same_values(&cand.params, &target.params) && same_values(
            &cand.results,
            &target.results,
        ) {
            return i;
        }
        i += 1;
    }
    t
}

/// The body of the thunk of `callee`.
fn thunk_body(callee: u32, n_params: u32, cost: u32, global: u32, limit: u32) -> (r: Vec<Instr>)
    ensures
        r@ == spec_thunk_body(callee, n_params, cost, global, limit),
{
    let mut body: Vec<Instr> = Vec::new();
    let mut i: u32 = 0;
    while i < n_params
        invariant
            i <= n_params,
            body@ == Seq::new(i as nat, |k: int| Instr::GetLocal(k as u32)),
        decreases n_params - i,
    {
        body.push(Instr::GetLocal(i));
        i += 1;
        assert(body@ =~= Seq::new(i as nat, |k: int| Instr::GetLocal(k as u32)));
    }
    call_bracket(
        &mut body,
        callee,
        #[verifier::truncate] (cost as i32),
        global,
        #[verifier::truncate] (limit as i32),
    );
    body.push(Instr::End);
    body
}

/// The function indices reachable from outside `module`.
fn collect_targets(module: &Module) -> (r: Vec<u32>)
    ensures
        r@ == thunk_targets(*module),
{
    let mut targets: Vec<u32> = Vec::new();
    let mut i: usize = 0;
    while i < module.exports.len()
        invariant
            i <= module.exports.len(),
            targets@ == exported_funcs(module.exports@.subrange(0, i as int)),
        decreases module.exports.len() - i,
    {
        assert(module.exports@.subrange(0, i + 1).drop_last() == module.exports@.subrange(
            0,
            i as int,
        ));
        if let Internal::Function(f) = module.exports[i].internal {
            targets.push(f);
        }
        i += 1;
        assert(targets@ =~= exported_funcs(module.exports@.subrange(0, i as int)));
    }
    assert(module.exports@.subrange(0, i as int) == module.exports@);
    let ghost exp = targets@;
    let mut s: usize = 0;
    while s < module.elements.len()
        invariant
            s <= module.elements.len(),
            targets@ == exp + element_funcs(module.elements@.subrange(0, s as int)),
        decreases module.elements.len() - s,
    {
        assert(module.elements@.subrange(0, s + 1).drop_last() == module.elements@.subrange(
            0,
            s as int,
        ));
        let members = &module.elements[s].members;
        let ghost before = targets@;
        let mut j: usize = 0;
        while j < members.len()
            invariant
                j <= members.len(),
                targets@ == before + members@.subrange(0, j as int),
            decreases members.len() - j,
        {
            targets.push(members[j]);
            j += 1;
            assert(targets@ =~= before + members@.subrange(0, j as int));
        }
        assert(members@.subrange(0, j as int) == members@);
        s += 1;
        assert(targets@ =~= exp + element_funcs(module.elements@.subrange(0, s as int)));
    }
    assert(module.elements@.subrange(0, s as int) == module.elements@);
    if let Some(start) = module.start {
        targets.push(start);
    }
    assert(targets@ =~= thunk_targets(*module));
    targets
}

/// Generates a thunk for each function reachable from outside `module` whose stack cost is
/// nonzero, and points the exports, table elements and start function at the thunks.
///
/// The thunks are added in increasing order of the function they stand for, after the
/// module's functions; each has no locals and the signature of its function.
pub fn generate_thunks(ctx: &Context, module: Module) -> (r: Result<Module, &'static str>)
    requires
        context_of(*ctx, module),
    ensures
        r is Ok <==> targets_known(module, ctx.func_stack_costs@) && thunks_measurable(
            module,
            ctx.func_stack_costs@,
            ctx.stack_limit,
            ctx.stack_height_global_idx,
        ),
        r is Err ==> r->Err_0 == thunks_error(
            module,
            ctx.func_stack_costs@,
            ctx.stack_limit,
            ctx.stack_height_global_idx,
        ),
        r is Ok ==> ({
            let m = r.unwrap();
            let costs = ctx.func_stack_costs@;
            let targets = thunk_targets(module);
            let thunked = thunked_below(costs, targets, costs.len() as int);
            let base = module.spec_functions_space() as u32;
            &&& m.types == module.types
            &&& m.imports == module.imports
            &&& m.globals == module.globals
            &&& m.function_names == module.function_names
            &&& m.functions@.len() == module.functions@.len() + thunked.len()
            &&& m.functions@.subrange(0, module.functions@.len() as int) == module.functions@
            &&& m.code@.len() == module.code@.len() + thunked.len()
            &&& m.code@.subrange(0, module.code@.len() as int) == module.code@
            &&& forall|k: int|
                0 <= k < thunked.len() ==> is_thunk_of(
                    module,
                    costs,
                    ctx.stack_limit,
                    ctx.stack_height_global_idx,
                    #[trigger] thunked[k],
                    m.functions@[module.functions@.len() + k],
                    m.code@[module.code@.len() + k],
                )
            &&& m.exports@.len() == module.exports@.len()
            &&& forall|k: int|
                0 <= k < m.exports@.len() ==> {
                    let e = module.exports@[k];
                    #[trigger] m.exports@[k] == ExportEntry {
                        field: e.field,
                        internal: match e.internal {
                            Internal::Function(f) => Internal::Function(
                                fixup(costs, targets, base, f),
                            ),
                            other => other,
                        },
                    }
                }
            &&& m.elements@.len() == module.elements@.len()
            &&& forall|k: int|
                0 <= k < m.elements@.len() ==> (#[trigger] m.elements@[k]).members@ == module.elements@[k].members@.map_values(
                    |f: u32| fixup(costs, targets, base, f),
                )
            &&& m.start == match module.start {
                Some(s) => Some(fixup(costs, targets, base, s)),
                None => None,
            }
        }),
{
    let ghost costs = ctx.func_stack_costs@;
    let ghost targets = thunk_targets(module);
    proof {
        lemma_func_import_count_bound(module.imports@);
    }
    let target_list = collect_targets(&module);
    let flags = match mark_thunked(ctx, &target_list) {
        Ok(flags) => flags,
        Err(e) => {
            return Err(e);
        },
    };
    let base = module.functions_space();
    let (positions, new_types, new_bodies) = build_thunks(ctx, &module, &flags, Ghost(targets))?;
    let ghost old_module = module;
    let mut module = append_thunks(module, new_types, new_bodies);
    assert(module.functions@.subrange(0, old_module.functions@.len() as int)
        =~= old_module.functions@);
    assert(module.code@.subrange(0, old_module.code@.len() as int) =~= old_module.code@);

    // Point the entries reachable from outside at the thunks.
    let exports = fixup_exports(
        &flags,
        &positions,
        base,
        module.exports,
        Ghost(costs),
        Ghost(targets),
    );
    module.exports = exports;
    let elements = fixup_elements(
        &flags,
        &positions,
        base,
        module.elements,
        Ghost(costs),
        Ghost(targets),
    );
    module.elements = elements;
    module.start = match module.start {
        Some(s) => Some(fixup_index(&flags, &positions, base, s, Ghost(costs), Ghost(targets))),
        None => None,
    };
    Ok(module)
}

/// Marks the functions that get a thunk.
fn mark_thunked(ctx: &Context, targets: &Vec<u32>) -> (r: Result<Vec<bool>, &'static str>)
    requires
        ctx.func_stack_costs@.len() <= u32::MAX,
    ensures
        r is Ok <==> forall|k: int|
            0 <= k < targets@.len() ==> #[trigger] targets@[k] < ctx.func_stack_costs@.len(),
        r is Err ==> r->Err_0 == "function index isn't found",
        r is Ok ==> r.unwrap()@.len() == ctx.func_stack_costs@.len() && forall|h: int|
            0 <= h < ctx.func_stack_costs@.len() ==> #[trigger] r.unwrap()@[h] == is_thunked(
                ctx.func_stack_costs@,
                targets@,
                h,
            ),
{
    let ghost costs = ctx.func_stack_costs@;
    let n_funcs = ctx.func_stack_costs.len();
    let mut flags: Vec<bool> = Vec::new();
    let mut f: usize = 0;
    while f < n_funcs
        invariant
            f <= n_funcs,
            flags@ == Seq::new(f as nat, |k: int| false),
        decreases n_funcs - f,
    {
        flags.push(false);
        f += 1;
        assert(flags@ =~= Seq::new(f as nat, |k: int| false));
    }
    let mut i: usize = 0;
    while i < targets.len()
        invariant
            i <= targets@.len(),
            n_funcs == costs.len(),
            n_funcs <= u32::MAX,
            costs == ctx.func_stack_costs@,
            flags@.len() == n_funcs,
            forall|k: int| 0 <= k < i ==> #[trigger] targets@[k] < costs.len(),
            forall|g: int|
                0 <= g < n_funcs ==> #[trigger] flags@[g] == (seen_before(targets@, i as int, g)
                    && costs[g] > 0),
        decreases targets@.len() - i,
    {
        let t = targets[i];
        if t as usize >= n_funcs {
            return Err("function index isn't found");
        }
        if ctx.func_stack_costs[t as usize] > 0 {
            flags.set(t as usize, true);
        }
        i += 1;
        assert forall|g: int| 0 <= g < n_funcs implies #[trigger] flags@[g] == (seen_before(
            targets@,
            i as int,
            g,
        ) && costs[g] > 0) by {
            assert(targets@[i - 1] == t);
            if seen_before(targets@, i - 1, g) {
                let w = choose|w: int| 0 <= w < i - 1 && #[trigger] targets@[w] == g as u32;
                assert(0 <= w < i && targets@[w] == g as u32);
            }
            if seen_before(targets@, i as int, g) && g != t as int {
                let w = choose|w: int| 0 <= w < i && #[trigger] targets@[w] == g as u32;
                assert(w != i - 1);
                assert(0 <= w < i - 1 && targets@[w] == g as u32);
            }
        }
    }
    assert forall|g: int| 0 <= g < n_funcs implies #[trigger] flags@[g] == is_thunked(
        costs,
        targets@,
        g,
    ) by {
        if seen_before(targets@, i as int, g) {
            let w = choose|w: int| 0 <= w < i && #[trigger] targets@[w] == g as u32;
            assert(targets@.contains(g as u32));
        }
        if targets@.contains(g as u32) {
            let w = choose|w: int| 0 <= w < targets@.len() && #[trigger] targets@[w] == g as u32;
            assert(seen_before(targets@, i as int, g));
        }
    }
    Ok(flags)
}

/// Builds the thunks, in increasing order of their function, with the position of each
/// function among them.
#[verifier::rlimit(60)]
fn build_thunks(
    ctx: &Context,
    module: &Module,
    flags: &Vec<bool>,
    Ghost(targets): Ghost<Seq<u32>>,
) -> (r: Result<(Vec<u32>, Vec<u32>, Vec<FuncBody>), &'static str>)
    requires
        context_of(*ctx, *module),
        flags@.len() == ctx.func_stack_costs@.len(),
        forall|h: int|
            0 <= h < ctx.func_stack_costs@.len() ==> #[trigger] flags@[h] == is_thunked(
                ctx.func_stack_costs@,
                targets,
                h,
            ),
    ensures
        r is Ok <==> thunks_measurable_for(
            *module,
            ctx.func_stack_costs@,
            targets,
            ctx.stack_limit,
            ctx.stack_height_global_idx,
        ),
        r is Err ==> r->Err_0 == thunks_check(
            *module,
            ctx.func_stack_costs@,
            targets,
            ctx.stack_limit,
            ctx.stack_height_global_idx,
            ctx.func_stack_costs@.len(),
        )->Err_0,
        r is Ok ==> ({
            let (positions, types, bodies) = r.unwrap();
            let costs = ctx.func_stack_costs@;
            let thunked = thunked_below(costs, targets, costs.len() as int);
            &&& thunk_tables(flags@, positions@, module.spec_functions_space() as u32, costs, targets)
            &&& types@.len() == thunked.len()
            &&& bodies@.len() == thunked.len()
            &&& forall|k: int|
                0 <= k < thunked.len() ==> is_thunk_of(
                    *module,
                    costs,
                    ctx.stack_limit,
                    ctx.stack_height_global_idx,
                    #[trigger] thunked[k],
                    types@[k],
                    bodies@[k],
                )
        }),
{
    let ghost costs = ctx.func_stack_costs@;
    proof {
        lemma_func_import_count_bound(module.imports@);
    }
    let n_funcs = ctx.func_stack_costs.len();
    assert(ctx.func_types@.len() == n_funcs);
    assert(n_funcs < u32::MAX);
    let mut positions: Vec<u32> = Vec::new();
    let mut new_types: Vec<u32> = Vec::new();
    let mut new_bodies: Vec<FuncBody> = Vec::new();
    let mut g: usize = 0;
    while g < n_funcs
        invariant
            g <= n_funcs,
            n_funcs == costs.len(),
            n_funcs == ctx.func_types@.len(),
            n_funcs == module.spec_functions_space(),
            n_funcs < u32::MAX,
            costs == ctx.func_stack_costs@,
            context_of(*ctx, *module),
            flags@.len() == n_funcs,
            forall|h: int| 0 <= h < n_funcs ==> #[trigger] flags@[h] == is_thunked(costs, targets, h),
            positions@.len() == g,
            forall|h: int|
                0 <= h < g ==> #[trigger] positions@[h] == thunked_below(costs, targets, h).len(),
            new_types@.len() == thunked_below(costs, targets, g as int).len(),
            new_bodies@.len() == thunked_below(costs, targets, g as int).len(),
            forall|k: int|
                0 <= k < new_types@.len() ==> is_thunk_of(
                    *module,
                    costs,
                    ctx.stack_limit,
                    ctx.stack_height_global_idx,
                    #[trigger] thunked_below(costs, targets, g as int)[k],
                    new_types@[k],
                    new_bodies@[k],
                ),
            forall|h: int|
                0 <= h < g && is_thunked(costs, targets, h) ==> #[trigger] thunk_cost(
                    *module,
                    costs,
                    ctx.stack_limit,
                    ctx.stack_height_global_idx,
                    h as u32,
                ) is Ok,
            thunks_check(
                *module,
                costs,
                targets,
                ctx.stack_limit,
                ctx.stack_height_global_idx,
                g as nat,
            ) is Ok,
        decreases n_funcs - g,
    {
        let ghost before = thunked_below(costs, targets, g as int);
        proof {
            lemma_thunked_below_len(costs, targets, g as int);
        }
        assert(new_types@.len() <= g < u32::MAX);
        positions.push(new_types.len() as u32);
        assert(positions@[g as int] == before.len());
        if flags[g] {
            match make_thunk(ctx, module, g as u32) {
                Ok((t, body)) => {
                    new_types.push(t);
                    new_bodies.push(body);
                },
                Err(e) => {
                    proof {
                        lemma_thunks_check_err_extends(
                            *module,
                            costs,
                            targets,
                            ctx.stack_limit,
                            ctx.stack_height_global_idx,
                            g as nat + 1,
                            n_funcs as nat,
                        );
                    }
                    return Err(e);
                },
            }
        }
        g += 1;
        assert(thunked_below(costs, targets, g as int) == before + if is_thunked(
            costs,
            targets,
            g - 1,
        ) {
            seq![(g - 1) as u32]
        } else {
            seq![]
        });
        assert forall|k: int| 0 <= k < new_types@.len() implies is_thunk_of(
            *module,
            costs,
            ctx.stack_limit,
            ctx.stack_height_global_idx,
            #[trigger] thunked_below(costs, targets, g as int)[k],
            new_types@[k],
            new_bodies@[k],
        ) by {
            if k < before.len() {
                assert(thunked_below(costs, targets, g as int)[k] == before[k]);
            }
        }
    }
    Ok((positions, new_types, new_bodies))
}

/// Appends functions with type indices `types` and bodies `bodies` to `module`.
fn append_thunks(module: Module, types: Vec<u32>, bodies: Vec<FuncBody>) -> (r: Module)
    requires
        types@.len() == bodies@.len(),
    ensures
        r.functions@ == module.functions@ + types@,
        r.code@ == module.code@ + bodies@,
        r.types == module.types,
        r.imports == module.imports,
        r.globals == module.globals,
        r.exports == module.exports,
        r.elements == module.elements,
        r.start == module.start,
        r.function_names == module.function_names,
{
    let ghost old_module = module;
    let ghost types_s = types@;
    let ghost bodies_s = bodies@;
    let mut module = module;
    let mut types_rev = reversed(types);
    let mut bodies_rev = reversed(bodies);
    let ghost mut k: int = 0;
    while types_rev.len() > 0
        invariant
            k + types_rev@.len() == types_s.len(),
            types_rev@.len() == bodies_rev@.len(),
            types_s.len() == bodies_s.len(),
            0 <= k,
            types_rev@ == types_s.subrange(k, types_s.len() as int).reverse(),
            bodies_rev@ == bodies_s.subrange(k, bodies_s.len() as int).reverse(),
            module.functions@ == old_module.functions@ + types_s.subrange(0, k),
            module.code@ == old_module.code@ + bodies_s.subrange(0, k),
            module.types == old_module.types,
            module.imports == old_module.imports,
            module.globals == old_module.globals,
            module.exports == old_module.exports,
            module.elements == old_module.elements,
            module.start == old_module.start,
            module.function_names == old_module.function_names,
        decreases types_rev@.len(),
    {
        let t = types_rev.pop().unwrap();
        let body = bodies_rev.pop().unwrap();
        module.functions.push(t);
        module.code.push(body);
        proof {
            k = k + 1;
        }
        assert(types_rev@ =~= types_s.subrange(k, types_s.len() as int).reverse());
        assert(bodies_rev@ =~= bodies_s.subrange(k, bodies_s.len() as int).reverse());
        assert(module.functions@ =~= old_module.functions@ + types_s.subrange(0, k));
        assert(module.code@ =~= old_module.code@ + bodies_s.subrange(0, k));
    }
    assert(types_s.subrange(0, k) == types_s);
    assert(bodies_s.subrange(0, k) == bodies_s);
    module
}

/// The marks and positions computed for the thunks of a module.
pub open spec fn thunk_tables(
    flags: Seq<bool>,
    positions: Seq<u32>,
    base: u32,
    costs: Seq<u32>,
    targets: Seq<u32>,
) -> bool {
    &&& flags.len() == costs.len()
    &&& positions.len() == costs.len()
    &&& forall|h: int| 0 <= h < costs.len() ==> #[trigger] flags[h] == is_thunked(costs, targets, h)
    &&& forall|h: int|
        0 <= h < costs.len() ==> #[trigger] positions[h] == thunked_below(costs, targets, h).len()
    &&& base + costs.len() <= u32::MAX
}

/// Where a reference to `f` points once the thunks are added.
fn fixup_index(
    flags: &Vec<bool>,
    positions: &Vec<u32>,
    base: u32,
    f: u32,
    Ghost(costs): Ghost<Seq<u32>>,
    Ghost(targets): Ghost<Seq<u32>>,
) -> (r: u32)
    requires
        thunk_tables(flags@, positions@, base, costs, targets),
    ensures
        r == fixup(costs, targets, base, f),
{
    if (f as usize) < flags.len() && flags[f as usize] {
        proof {
            lemma_thunked_below_len(costs, targets, f as int);
        }
        base + positions[f as usize]
    } else {
        f
    }
}

/// There are no more thunks below `n` than functions below `n`.
pub(crate) proof fn lemma_thunked_below_len(costs: Seq<u32>, targets: Seq<u32>, n: int)
    ensures
        thunked_below(costs, targets, n).len() <= if n < 0 {
            0
        } else {
            n
        },
    decreases n,
{
    if n > 0 {
        lemma_thunked_below_len(costs, targets, n - 1);
    }
}

/// The exports, with each function export pointed at its thunk.
fn fixup_exports(
    flags: &Vec<bool>,
    positions: &Vec<u32>,
    base: u32,
    exports: Vec<ExportEntry>,
    Ghost(costs): Ghost<Seq<u32>>,
    Ghost(targets): Ghost<Seq<u32>>,
) -> (r: Vec<ExportEntry>)
    requires
        thunk_tables(flags@, positions@, base, costs, targets),
    ensures
        r@.len() == exports@.len(),
        forall|k: int|
            0 <= k < r@.len() ==> {
                let e = exports@[k];
                #[trigger] r@[k] == ExportEntry {
                    field: e.field,
                    internal: match e.internal {
                        Internal::Function(f) => Internal::Function(fixup(costs, targets, base, f)),
                        other => other,
                    },
                }
            },
{
    let ghost orig = exports@;
    let n = exports.len();
    let mut rest = reversed(exports);
    let mut out: Vec<ExportEntry> = Vec::new();
    let mut k: usize = 0;
    while rest.len() > 0
        invariant
            k + rest@.len() == n,
            n == orig.len(),
            thunk_tables(flags@, positions@, base, costs, targets),
            rest@ == orig.subrange(k as int, n as int).reverse(),
            out@.len() == k,
            forall|j: int|
                0 <= j < k ==> {
                    let e = orig[j];
                    #[trigger] out@[j] == ExportEntry {
                        field: e.field,
                        internal: match e.internal {
                            Internal::Function(f) => Internal::Function(
                                fixup(costs, targets, base, f),
                            ),
                            other => other,
                        },
                    }
                },
        decreases rest.len(),
    {
        let mut e = rest.pop().unwrap();
        assert(e == orig[k as int]);
        if let Internal::Function(f) = e.internal {
            e.internal = Internal::Function(
                fixup_index(flags, positions, base, f, Ghost(costs), Ghost(targets)),
            );
        }
        out.push(e);
        k += 1;
        assert(rest@ =~= orig.subrange(k as int, n as int).reverse());
    }
    out
}

/// The element segments, with each member pointed at its thunk.
fn fixup_elements(
    flags: &Vec<bool>,
    positions: &Vec<u32>,
    base: u32,
    elements: Vec<ElementSegment>,
    Ghost(costs): Ghost<Seq<u32>>,
    Ghost(targets): Ghost<Seq<u32>>,
) -> (r: Vec<ElementSegment>)
    requires
        thunk_tables(flags@, positions@, base, costs, targets),
    ensures
        r@.len() == elements@.len(),
        forall|k: int|
            0 <= k < r@.len() ==> (#[trigger] r@[k]).members@ == elements@[k].members@.map_values(
                |f: u32| fixup(costs, targets, base, f),
            ),
{
    let ghost orig = elements@;
    let n = elements.len();
    let mut rest = reversed(elements);
    let mut out: Vec<ElementSegment> = Vec::new();
    let mut k: usize = 0;
    while rest.len() > 0
        invariant
            k + rest@.len() == n,
            n == orig.len(),
            thunk_tables(flags@, positions@, base, costs, targets),
            rest@ == orig.subrange(k as int, n as int).reverse(),
            out@.len() == k,
            forall|j: int|
                0 <= j < k ==> (#[trigger] out@[j]).members@ == orig[j].members@.map_values(
                    |f: u32| fixup(costs, targets, base, f),
                ),
        decreases rest.len(),
    {
        let mut seg = rest.pop().unwrap();
        assert(seg == orig[k as int]);
        let ghost members = seg.members@;
        let mut j: usize = 0;
        while j < seg.members.len()
            invariant
                j <= seg.members@.len(),
                seg.members@.len() == members.len(),
                thunk_tables(flags@, positions@, base, costs, targets),
                forall|i: int| 0 <= i < j ==> #[trigger] seg.members@[i] == fixup(costs, targets, base, members[i]),
                forall|i: int| j <= i < members.len() ==> #[trigger] seg.members@[i] == members[i],
            decreases members.len() - j,
        {
            let f = seg.members[j];
            let g = fixup_index(flags, positions, base, f, Ghost(costs), Ghost(targets));
            seg.members.set(j, g);
            j += 1;
        }
        assert(seg.members@ =~= members.map_values(|f: u32| fixup(costs, targets, base, f)));
        out.push(seg);
        k += 1;
        assert(rest@ =~= orig.subrange(k as int, n as int).reverse());
    }
    out
}

/// The type index and body of the thunk of function `f`.
fn make_thunk(ctx: &Context, module: &Module, f: u32) -> (r: Result<(u32, FuncBody), &'static str>)
    requires
        context_of(*ctx, *module),
        f < ctx.func_types@.len(),
        f < ctx.func_stack_costs@.len(),
    ensures
        r is Ok <==> thunk_cost(
            *module,
            ctx.func_stack_costs@,
            ctx.stack_limit,
            ctx.stack_height_global_idx,
            f,
        ) is Ok,
        r is Err ==> r->Err_0 == thunk_cost(
            *module,
            ctx.func_stack_costs@,
            ctx.stack_limit,
            ctx.stack_height_global_idx,
            f,
        )->Err_0,
        r is Ok ==> is_thunk_of(
            *module,
            ctx.func_stack_costs@,
            ctx.stack_limit,
            ctx.stack_height_global_idx,
            f,
            r.unwrap().0,
            r.unwrap().1,
        ),
{
    let t = ctx.func_types[f as usize];
    let sig = &module.types[t as usize];
    let n_params: u32 = #[verifier::truncate] (sig.params.len() as u32);
    let probe = thunk_body(f, n_params, 0, ctx.stack_height_global_idx, ctx.stack_limit);
    let counter = MaxStackHeightCounter::new(module).count_instrumented_calls(true);
    let mut counter = counter;
    let height = counter.compute_for_raw_func(module, sig, &probe)?;
    let cost = match ctx.func_stack_costs[f as usize].checked_add(height) {
        Some(c) => c,
        None => {
            return Err("overflow during callee_stack_cost calculation");
        },
    };
    let code = thunk_body(f, n_params, cost, ctx.stack_height_global_idx, ctx.stack_limit);
    let locals: Vec<Local> = Vec::new();
    Ok((find_type(&module.types, t), FuncBody { locals, code }))
}

} // verus!
