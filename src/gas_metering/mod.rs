//! Instruments a module so that it charges gas for the code it executes.
//!
//! The primary interface is [`inject`], which splits every function body into metered
//! blocks and charges the cost of each block when the block begins.
use vstd::prelude::*;

use crate::wasm::{
    func_import_count, lemma_func_import_count_bound, locals_count, refs_in_range, locals_sum, reversed, ElementSegment,
    ExportEntry, External, FuncBody, FunctionName, FunctionType, GlobalEntry, ImportEntry, Instr,
    Internal, Module, ValueType, I64_EXTEND_I32_U, I64_MUL,
};
use counter::{
    can_insert_metering_calls, charge, determine_metered_blocks, first_after, grow_item, has_grow,
    spec_initial,
    spec_run, ControlBlock,
    inject_grow_counter, insert_metering_calls, shift_calls, shift_index, shifted_code,
    spec_insert_metering_calls, spec_insert_state, spec_metered_blocks, spec_shift_index, shift_instr,
    spec_sort, MeteredBlock,
};

pub mod counter;
pub mod host_func;
pub mod host_function;
pub mod mut_global;
pub mod mutable_global;

pub use host_func::ImportedFunctionInjector;
pub use mut_global::MutableGlobalInjector;

verus! {

/// Dynamic costs for memory growth.
#[derive(Debug, PartialEq, Eq, Copy, Clone, Structural)]
pub enum MemoryGrowCost {
    /// Skip per page charge.
    Free,
    /// Charge the specified amount, never zero, for each page that the memory is grown by.
    Linear(u32),
}

impl MemoryGrowCost {
    /// True iff memory growths code needs to be injected.
    pub open spec fn spec_enabled(&self) -> bool {
        self is Linear
    }

    /// True iff memory growths code needs to be injected.
    pub fn enabled(&self) -> (r: bool)
        ensures
            r == self.spec_enabled(),
    {
        match self {
            MemoryGrowCost::Free => false,
            MemoryGrowCost::Linear(_) => true,
        }
    }
}

/// An interface that describes instruction costs.
pub trait Rules {
    /// The cost of `instruction`; `None` forbids it.
    spec fn spec_instruction_cost(&self, instruction: Instr) -> Option<u32>;

    /// The dynamic cost of growing the memory.
    spec fn spec_memory_grow_cost(&self) -> MemoryGrowCost;

    /// The surcharge per local of a called function.
    spec fn spec_call_per_local_cost(&self) -> u32;

    /// Returns the cost for the passed `instruction`.
    ///
    /// Returning `None` makes the gas instrumentation end with an error: an instruction
    /// that the rules do not price is forbidden.
    fn instruction_cost(&self, instruction: &Instr) -> (r: Option<u32>)
        ensures
            r == self.spec_instruction_cost(*instruction),
    ;

    /// Returns the costs for growing the memory using the `memory.grow` instruction.
    ///
    /// These come on top of the cost of the `memory.grow` instruction itself, and depend on
    /// the number of pages, which is only known when the code runs.
    fn memory_grow_cost(&self) -> (r: MemoryGrowCost)
        ensures
            r == self.spec_memory_grow_cost(),
            r is Linear ==> r->Linear_0 > 0,
    ;

    /// A surcharge cost to calling a function that is added per local of that function.
    fn call_per_local_cost(&self) -> (r: u32)
        ensures
            r == self.spec_call_per_local_cost(),
    ;
}

/// Rules under which every instruction costs the same.
///
/// Mostly useful for development and testing: in production the cost of each instruction
/// would come from benchmarks.
pub struct ConstantCostRules {
    pub instruction_cost: u32,
    pub memory_grow_cost: u32,
    pub call_per_local_cost: u32,
}

impl ConstantCostRules {
    /// Uses `instruction_cost` for every instruction and `memory_grow_cost` per page of
    /// memory growth, where it is not zero.
    pub fn new(instruction_cost: u32, memory_grow_cost: u32, call_per_local_cost: u32) -> (r: Self)
        ensures
            r.instruction_cost == instruction_cost,
            r.memory_grow_cost == memory_grow_cost,
            r.call_per_local_cost == call_per_local_cost,
    {
        ConstantCostRules { instruction_cost, memory_grow_cost, call_per_local_cost }
    }
}

impl Default for ConstantCostRules {
    /// Uses instruction cost of `1` and disables memory growth instrumentation.
    fn default() -> (r: Self)
        ensures
            r.instruction_cost == 1,
            r.memory_grow_cost == 0,
            r.call_per_local_cost == 1,
    {
        ConstantCostRules { instruction_cost: 1, memory_grow_cost: 0, call_per_local_cost: 1 }
    }
}

impl Rules for ConstantCostRules {
    open spec fn spec_instruction_cost(&self, instruction: Instr) -> Option<u32> {
        Some(self.instruction_cost)
    }

    open spec fn spec_memory_grow_cost(&self) -> MemoryGrowCost {
        if self.memory_grow_cost == 0 {
            MemoryGrowCost::Free
        } else {
            MemoryGrowCost::Linear(self.memory_grow_cost)
        }
    }

    open spec fn spec_call_per_local_cost(&self) -> u32 {
        self.call_per_local_cost
    }

    fn instruction_cost(&self, instruction: &Instr) -> (r: Option<u32>) {
        Some(self.instruction_cost)
    }

    fn memory_grow_cost(&self) -> (r: MemoryGrowCost) {
        if self.memory_grow_cost == 0 {
            MemoryGrowCost::Free
        } else {
            MemoryGrowCost::Linear(self.memory_grow_cost)
        }
    }

    fn call_per_local_cost(&self) -> (r: u32) {
        self.call_per_local_cost
    }
}

/// How gas is charged: by calling an imported host function, or a local function that
/// decrements a mutable global.
pub enum GasMeter {
    /// Gas metering with an external function.
    External {
        /// Name of the module to import the gas function from.
        module: String,
        /// Name of the external gas function to be imported.
        function: String,
    },
    /// Gas metering with a local function and a mutable global.
    Internal {
        /// Name of the mutable global to be exported.
        global: String,
        /// Body of the local gas counting function to be injected.
        func_instructions: Vec<Instr>,
        /// Cost of the gas function execution.
        cost: u64,
    },
}

/// A [`GasMeter`], as values.
pub enum GasMeterModel {
    External { module: Seq<char>, function: Seq<char> },
    Internal { global: Seq<char>, func_instructions: Seq<Instr>, cost: u64 },
}

impl GasMeter {
    pub open spec fn model(&self) -> GasMeterModel {
        match self {
            GasMeter::External { module, function } => GasMeterModel::External {
                module: module@,
                function: function@,
            },
            GasMeter::Internal { global, func_instructions, cost } => GasMeterModel::Internal {
                global: global@,
                func_instructions: func_instructions@,
                cost: *cost,
            },
        }
    }
}

/// Decides how gas is charged in a module.
pub trait Backend<R: Rules>: Sized {
    /// The gas meter for `module` under `rules`.
    spec fn spec_gas_meter(&self, module: Module, rules: R) -> GasMeterModel;

    /// Provides the gas metering implementation details.
    fn gas_meter(self, module: &Module, rules: &R) -> (r: GasMeter)
        requires
            module.fits_index_space(),
        ensures
            r.model() == self.spec_gas_meter(*module, *rules),
    ;
}

/// The signature of the gas function: it takes the amount to charge, an `i64`.
pub open spec fn gas_signature(t: FunctionType) -> bool {
    t.params@ == seq![ValueType::I64] && t.results@ == Seq::<ValueType>::empty()
}

/// The signature of the grow counter: it takes and returns a page count, an `i32`.
pub open spec fn grow_signature(t: FunctionType) -> bool {
    t.params@ == seq![ValueType::I32] && t.results@ == seq![ValueType::I32]
}

fn gas_function_type() -> (r: FunctionType)
    ensures
        gas_signature(r),
{
    let mut params: Vec<ValueType> = Vec::new();
    params.push(ValueType::I64);
    let results: Vec<ValueType> = Vec::new();
    assert(params@ =~= seq![ValueType::I64]);
    FunctionType { params, results }
}

fn grow_function_type() -> (r: FunctionType)
    ensures
        grow_signature(r),
{
    let mut params: Vec<ValueType> = Vec::new();
    params.push(ValueType::I32);
    let mut results: Vec<ValueType> = Vec::new();
    results.push(ValueType::I32);
    assert(params@ =~= seq![ValueType::I32]);
    assert(results@ =~= seq![ValueType::I32]);
    FunctionType { params, results }
}

/// The metered blocks of `body`, ordered by start position, where the body can be metered:
/// its locals can be counted, every instruction has a cost, no cost overflows.
pub open spec fn spec_body_plan<R: Rules>(
    rules: R,
    body: FuncBody,
    call_shift: Option<u32>,
    gas_cost: u64,
    gas_func: u32,
) -> Option<Seq<MeteredBlock>> {
    let code = shifted_code(body.code@, call_shift);
    if locals_sum(body.locals@) > u32::MAX || body.code@.len() >= usize::MAX {
        None
    } else {
        match spec_metered_blocks(rules, code, locals_sum(body.locals@) as u32) {
            None => None,
            Some(blocks) => if spec_insert_metering_calls(
                code,
                spec_sort(blocks),
                gas_cost,
                gas_func,
            ) is Some {
                Some(spec_sort(blocks))
            } else {
                None
            },
        }
    }
}

/// The metered body: calls shifted, a charge at the start of each metered block, and, where
/// memory growth is charged, `memory.grow` sent through the grow counter.
pub open spec fn spec_metered_code<R: Rules>(
    rules: R,
    body: FuncBody,
    call_shift: Option<u32>,
    gas_cost: u64,
    gas_func: u32,
    grow_counter: u32,
) -> Seq<Instr> {
    let charged = spec_insert_metering_calls(
        shifted_code(body.code@, call_shift),
        spec_body_plan(rules, body, call_shift, gas_cost, gas_func).unwrap(),
        gas_cost,
        gas_func,
    ).unwrap();
    if rules.spec_memory_grow_cost().spec_enabled() {
        charged.map_values(|i: Instr| grow_item(i, grow_counter))
    } else {
        charged
    }
}

/// Every body of `code` can be metered.
pub open spec fn all_bodies_meterable<R: Rules>(
    rules: R,
    code: Seq<FuncBody>,
    call_shift: Option<u32>,
    gas_cost: u64,
    gas_func: u32,
) -> bool {
    forall|k: int|
        0 <= k < code.len() ==> #[trigger] spec_body_plan(
            rules,
            code[k],
            call_shift,
            gas_cost,
            gas_func,
        ) is Some
}

/// Some body of `code` grows the memory.
pub open spec fn some_body_grows(code: Seq<FuncBody>) -> bool {
    exists|k: int| 0 <= k < code.len() && has_grow(#[trigger] code[k].code@)
}

/// The body of the grow counter: charge `cost` per page, then grow.
pub open spec fn spec_grow_counter_body(cost: u32, gas_func: u32) -> Seq<Instr> {
    seq![
        Instr::GetLocal(0),
        Instr::GetLocal(0),
        Instr::Numeric(I64_EXTEND_I32_U),
        Instr::I64Const(cost as i64),
        Instr::Numeric(I64_MUL),
        Instr::Call(gas_func),
        Instr::GrowMemory(0),
        Instr::End,
    ]
}

fn grow_counter_body(cost: u32, gas_func: u32) -> (r: Vec<Instr>)
    ensures
        r@ == spec_grow_counter_body(cost, gas_func),
{
    let mut body: Vec<Instr> = Vec::new();
    body.push(Instr::GetLocal(0));
    body.push(Instr::GetLocal(0));
    body.push(Instr::Numeric(I64_EXTEND_I32_U));
    body.push(Instr::I64Const(cost as i64));
    body.push(Instr::Numeric(I64_MUL));
    body.push(Instr::Call(gas_func));
    body.push(Instr::GrowMemory(0));
    body.push(Instr::End);
    assert(body@ =~= spec_grow_counter_body(cost, gas_func));
    body
}

/// Adds the grow counter, which charges `gas_func` per page before growing the memory, at
/// the end of `module`, where the rules charge for memory growth.
fn add_grow_counter<R: Rules>(module: Module, rules: &R, gas_func: u32) -> (r: Module)
    requires
        module.types@.len() + 1 <= u32::MAX,
    ensures
        rules.spec_memory_grow_cost() is Free ==> r == module,
        rules.spec_memory_grow_cost() is Linear ==> {
            let t = r.functions@.last();
            &&& r.types@.len() >= module.types@.len()
            &&& r.types@.subrange(0, module.types@.len() as int) == module.types@
            &&& r.functions@.drop_last() == module.functions@
            &&& r.functions@.len() == module.functions@.len() + 1
            &&& t < r.types@.len() && grow_signature(r.types@[t as int])
            &&& r.code@.drop_last() == module.code@
            &&& r.code@.len() == module.code@.len() + 1
            &&& r.code@.last().locals@.len() == 0
            &&& r.code@.last().code@ == spec_grow_counter_body(
                rules.spec_memory_grow_cost()->Linear_0,
                gas_func,
            )
            &&& r.imports == module.imports
            &&& r.globals == module.globals
            &&& r.exports == module.exports
            &&& r.elements == module.elements
            &&& r.start == module.start
            &&& r.function_names == module.function_names
        },
{
    let cost = match rules.memory_grow_cost() {
        MemoryGrowCost::Free => {
            return module;
        },
        MemoryGrowCost::Linear(c) => c,
    };
    let ghost before = module;
    let mut module = module;
    let t = module.resolve_type(grow_function_type());
    module.functions.push(t);
    module.code.push(FuncBody { locals: Vec::new(), code: grow_counter_body(cost, gas_func) });
    assert(module.types@.subrange(0, before.types@.len() as int) =~= before.types@);
    assert(module.functions@.drop_last() =~= before.functions@);
    assert(module.code@.drop_last() =~= before.code@);
    module
}

/// Computes the metered blocks of the first `n` bodies of `code`.
fn plan_bodies<R: Rules>(
    code: &Vec<FuncBody>,
    call_shift: Option<u32>,
    rules: &R,
    gas_cost: u64,
    gas_func: u32,
) -> (r: Result<Vec<Vec<MeteredBlock>>, ()>)
    ensures
        r is Ok <==> all_bodies_meterable(*rules, code@, call_shift, gas_cost, gas_func),
        r is Ok ==> r.unwrap()@.len() == code@.len() && forall|k: int|
            0 <= k < code@.len() ==> #[trigger] r.unwrap()@[k]@ == spec_body_plan(
                *rules,
                code@[k],
                call_shift,
                gas_cost,
                gas_func,
            ).unwrap(),
{
    let mut plans: Vec<Vec<MeteredBlock>> = Vec::new();
    let mut k: usize = 0;
    while k < code.len()
        invariant
            k <= code@.len(),
            plans@.len() == k,
            forall|j: int|
                0 <= j < k ==> #[trigger] spec_body_plan(*rules, code@[j], call_shift, gas_cost, gas_func)
                    is Some && plans@[j]@ == spec_body_plan(
                    *rules,
                    code@[j],
                    call_shift,
                    gas_cost,
                    gas_func,
                ).unwrap(),
        decreases code@.len() - k,
    {
        let body = &code[k];
        let locals = match locals_count(&body.locals) {
            Some(n) => n,
            None => {
                assert(spec_body_plan(*rules, code@[k as int], call_shift, gas_cost, gas_func) is None);
                return Err(());
            },
        };
        let blocks = match determine_metered_blocks(&body.code, call_shift, rules, locals) {
            Ok(b) => b,
            Err(()) => {
                assert(spec_body_plan(*rules, code@[k as int], call_shift, gas_cost, gas_func) is None);
                return Err(());
            },
        };
        if !can_insert_shifted(&body.code, call_shift, gas_cost, &blocks, gas_func) {
            assert(spec_body_plan(*rules, code@[k as int], call_shift, gas_cost, gas_func) is None);
            return Err(());
        }
        plans.push(blocks);
        k += 1;
    }
    Ok(plans)
}

/// Whether the charges of `blocks` can be put into `body` with its calls shifted.
fn can_insert_shifted(
    body: &Vec<Instr>,
    call_shift: Option<u32>,
    gas_cost: u64,
    blocks: &Vec<MeteredBlock>,
    gas_func: u32,
) -> (r: bool)
    ensures
        r == spec_insert_metering_calls(
            shifted_code(body@, call_shift),
            blocks@,
            gas_cost,
            gas_func,
        ) is Some,
{
    // Shifting a call changes no position, so the check reads the body as it is.
    proof {
        lemma_insert_depends_on_length(body@, shifted_code(body@, call_shift), blocks@, gas_cost, gas_func, body@.len());
    }
    can_insert_metering_calls(body, gas_cost, blocks, gas_func)
}

/// Whether charges can be inserted depends on the length of the body alone.
proof fn lemma_insert_depends_on_length(
    a: Seq<Instr>,
    b: Seq<Instr>,
    blocks: Seq<MeteredBlock>,
    gas_cost: u64,
    gas_func: u32,
    n: nat,
)
    requires
        a.len() == b.len(),
        n <= a.len(),
    ensures
        spec_insert_state(a, blocks, gas_cost, gas_func, n) is Some == spec_insert_state(
            b,
            blocks,
            gas_cost,
            gas_func,
            n,
        ) is Some,
        spec_insert_state(a, blocks, gas_cost, gas_func, n) is Some ==> spec_insert_state(
            a,
            blocks,
            gas_cost,
            gas_func,
            n,
        ).unwrap().1 == spec_insert_state(b, blocks, gas_cost, gas_func, n).unwrap().1,
    decreases n,
{
    if n > 0 {
        lemma_insert_depends_on_length(a, b, blocks, gas_cost, gas_func, (n - 1) as nat);
    }
}

/// Meters each body of `code` by its plan.
fn meter_bodies<R: Rules>(
    code: Vec<FuncBody>,
    plans: Vec<Vec<MeteredBlock>>,
    call_shift: Option<u32>,
    rules: &R,
    gas_cost: u64,
    gas_func: u32,
    grow_counter: u32,
) -> (r: Vec<FuncBody>)
    requires
        all_bodies_meterable(*rules, code@, call_shift, gas_cost, gas_func),
        plans@.len() == code@.len(),
        forall|k: int|
            0 <= k < code@.len() ==> #[trigger] plans@[k]@ == spec_body_plan(
                *rules,
                code@[k],
                call_shift,
                gas_cost,
                gas_func,
            ).unwrap(),
    ensures
        r@.len() == code@.len(),
        forall|k: int|
            0 <= k < code@.len() ==> (#[trigger] r@[k]).locals == code@[k].locals && r@[k].code@
                == spec_metered_code(*rules, code@[k], call_shift, gas_cost, gas_func, grow_counter),
{
    let ghost orig = code@;
    let ghost orig_plans = plans@;
    let n = code.len();
    let mut rest = reversed(code);
    let mut rest_plans = reversed(plans);
    let mut out: Vec<FuncBody> = Vec::new();
    let grow = rules.memory_grow_cost().enabled();
    let mut k: usize = 0;
    while rest.len() > 0
        invariant
            k + rest@.len() == n,
            rest@.len() == rest_plans@.len(),
            n == orig.len(),
            n == orig_plans.len(),
            grow == rules.spec_memory_grow_cost().spec_enabled(),
            rest@ == orig.subrange(k as int, n as int).reverse(),
            rest_plans@ == orig_plans.subrange(k as int, n as int).reverse(),
            all_bodies_meterable(*rules, orig, call_shift, gas_cost, gas_func),
            forall|j: int|
                0 <= j < n ==> #[trigger] orig_plans[j]@ == spec_body_plan(
                    *rules,
                    orig[j],
                    call_shift,
                    gas_cost,
                    gas_func,
                ).unwrap(),
            out@.len() == k,
            forall|j: int|
                0 <= j < k ==> (#[trigger] out@[j]).locals == orig[j].locals && out@[j].code@
                    == spec_metered_code(*rules, orig[j], call_shift, gas_cost, gas_func, grow_counter),
        decreases rest.len(),
    {
        let body = rest.pop().unwrap();
        let blocks = rest_plans.pop().unwrap();
        assert(body == orig[k as int]);
        assert(blocks == orig_plans[k as int]);
        assert(spec_body_plan(*rules, orig[k as int], call_shift, gas_cost, gas_func) is Some);
        let FuncBody { locals, code } = body;
        let shifted = shift_calls(code, call_shift);
        let charged = match insert_metering_calls(shifted, gas_cost, blocks, gas_func) {
            Ok(c) => c,
            Err(()) => {
                proof {
                    assert(false);
                }
                Vec::new()
            },
        };
        let code = if grow {
            inject_grow_counter(charged, grow_counter).0
        } else {
            charged
        };
        out.push(FuncBody { locals, code });
        k += 1;
        assert(rest@ =~= orig.subrange(k as int, n as int).reverse());
        assert(rest_plans@ =~= orig_plans.subrange(k as int, n as int).reverse());
    }
    out
}

/// The exports, with each function index shifted past a new import at `g`.
fn shift_exports(exports: Vec<ExportEntry>, g: u32) -> (r: Vec<ExportEntry>)
    ensures
        r@.len() == exports@.len(),
        forall|k: int|
            0 <= k < r@.len() ==> #[trigger] r@[k] == shifted_export(exports@[k], g),
{
    let ghost orig = exports@;
    let n = exports.len();
    let mut rest = reversed(exports);
    let mut out: Vec<ExportEntry> = Vec::new();
    let mut k: usize = 0;
    while rest.len() > 0
        invariant
            k + rest@.len() == n,
            n == orig.len(),
            rest@ == orig.subrange(k as int, n as int).reverse(),
            out@.len() == k,
            forall|j: int| 0 <= j < k ==> #[trigger] out@[j] == shifted_export(orig[j], g),
        decreases rest.len(),
    {
        let mut e = rest.pop().unwrap();
        assert(e == orig[k as int]);
        if let Internal::Function(f) = e.internal {
            e.internal = Internal::Function(shift_index(f, g));
        }
        out.push(e);
        k += 1;
        assert(rest@ =~= orig.subrange(k as int, n as int).reverse());
    }
    out
}

/// An export with its function index shifted past a new import at `g`.
pub open spec fn shifted_export(e: ExportEntry, g: u32) -> ExportEntry {
    ExportEntry {
        field: e.field,
        internal: match e.internal {
            Internal::Function(f) => Internal::Function(spec_shift_index(f, g)),
            other => other,
        },
    }
}

/// The element segments, with each member shifted past a new import at `g`.
fn shift_elements(elements: Vec<ElementSegment>, g: u32) -> (r: Vec<ElementSegment>)
    ensures
        r@.len() == elements@.len(),
        forall|k: int|
            0 <= k < r@.len() ==> (#[trigger] r@[k]).members@ == elements@[k].members@.map_values(
                |f: u32| spec_shift_index(f, g),
            ),
{
    let ghost orig = elements@;
    let n = elements.len();
    let mut rest = reversed(elements);
    let mut out: Vec<ElementSegment> = Vec::new();
    let mut k: usize = 0;
    while rest.len() > 0
        invariant
            k + rest@.len() == n,
            n == orig.len(),
            rest@ == orig.subrange(k as int, n as int).reverse(),
            out@.len() == k,
            forall|j: int|
                0 <= j < k ==> (#[trigger] out@[j]).members@ == orig[j].members@.map_values(
                    |f: u32| spec_shift_index(f, g),
                ),
        decreases rest.len(),
    {
        let mut seg = rest.pop().unwrap();
        assert(seg == orig[k as int]);
        let ghost members = seg.members@;
        let mut j: usize = 0;
        while j < seg.members.len()
            invariant
                j <= seg.members@.len(),
                seg.members@.len() == members.len(),
                forall|i: int| 0 <= i < j ==> #[trigger] seg.members@[i] == spec_shift_index(members[i], g),
                forall|i: int| j <= i < members.len() ==> #[trigger] seg.members@[i] == members[i],
            decreases members.len() - j,
        {
            let f = seg.members[j];
            seg.members.set(j, shift_index(f, g));
            j += 1;
        }
        assert(seg.members@ =~= members.map_values(|f: u32| spec_shift_index(f, g)));
        out.push(seg);
        k += 1;
        assert(rest@ =~= orig.subrange(k as int, n as int).reverse());
    }
    out
}

/// The function names, with each index shifted past a new import at `g`.
fn shift_names(names: Vec<FunctionName>, g: u32) -> (r: Vec<FunctionName>)
    ensures
        r@.len() == names@.len(),
        forall|k: int|
            0 <= k < r@.len() ==> #[trigger] r@[k] == (FunctionName {
                index: spec_shift_index(names@[k].index, g),
                name: names@[k].name,
            }),
{
    let ghost orig = names@;
    let n = names.len();
    let mut rest = reversed(names);
    let mut out: Vec<FunctionName> = Vec::new();
    let mut k: usize = 0;
    while rest.len() > 0
        invariant
            k + rest@.len() == n,
            n == orig.len(),
            rest@ == orig.subrange(k as int, n as int).reverse(),
            out@.len() == k,
            forall|j: int|
                0 <= j < k ==> #[trigger] out@[j] == (FunctionName {
                    index: spec_shift_index(orig[j].index, g),
                    name: orig[j].name,
                }),
        decreases rest.len(),
    {
        let mut e = rest.pop().unwrap();
        assert(e == orig[k as int]);
        e.index = shift_index(e.index, g);
        out.push(e);
        k += 1;
        assert(rest@ =~= orig.subrange(k as int, n as int).reverse());
    }
    out
}

/// Some function reference of the module is `u32::MAX`, which cannot be shifted past a new
/// import.
pub open spec fn has_max_ref(m: Module) -> bool {
    ||| exists|k: int, j: int|
        0 <= k < m.code@.len() && 0 <= j < m.code@[k].code@.len() && #[trigger] m.code@[k].code@[j]
            == Instr::Call(u32::MAX)
    ||| exists|k: int|
        0 <= k < m.exports@.len() && #[trigger] m.exports@[k].internal == Internal::Function(
            u32::MAX,
        )
    ||| exists|k: int, j: int|
        0 <= k < m.elements@.len() && 0 <= j < m.elements@[k].members@.len()
            && #[trigger] m.elements@[k].members@[j] == u32::MAX
    ||| m.start == Some(u32::MAX)
    ||| exists|k: int|
        0 <= k < m.function_names@.len() && #[trigger] m.function_names@[k].index == u32::MAX
}

/// Whether no function reference of the module is `u32::MAX`.
#[verifier::loop_isolation(false)]
fn refs_below_max(m: &Module) -> (r: bool)
    ensures
        r == !has_max_ref(*m),
{
    let mut k: usize = 0;
    while k < m.code.len()
        invariant
            k <= m.code@.len(),
            forall|a: int, j: int|
                0 <= a < k && 0 <= j < m.code@[a].code@.len() ==> #[trigger] m.code@[a].code@[j]
                    != Instr::Call(u32::MAX),
        decreases m.code@.len() - k,
    {
        let body = &m.code[k].code;
        let mut j: usize = 0;
        while j < body.len()
            invariant
                j <= body@.len(),
                forall|i: int| 0 <= i < j ==> #[trigger] body@[i] != Instr::Call(u32::MAX),
            decreases body@.len() - j,
        {
            if let Instr::Call(f) = &body[j] {
                if *f == u32::MAX {
                    assert(m.code@[k as int].code@[j as int] == Instr::Call(u32::MAX));
                    return false;
                }
            }
            j += 1;
        }
        k += 1;
    }
    let mut e: usize = 0;
    while e < m.exports.len()
        invariant
            e <= m.exports@.len(),
            forall|a: int| 0 <= a < e ==> #[trigger] m.exports@[a].internal != Internal::Function(u32::MAX),
        decreases m.exports@.len() - e,
    {
        if let Internal::Function(f) = m.exports[e].internal {
            if f == u32::MAX {
                assert(m.exports@[e as int].internal == Internal::Function(u32::MAX));
                return false;
            }
        }
        e += 1;
    }
    let mut s: usize = 0;
    while s < m.elements.len()
        invariant
            s <= m.elements@.len(),
            forall|a: int, j: int|
                0 <= a < s && 0 <= j < m.elements@[a].members@.len() ==> #[trigger] m.elements@[a].members@[j]
                    != u32::MAX,
        decreases m.elements@.len() - s,
    {
        let members = &m.elements[s].members;
        let mut j: usize = 0;
        while j < members.len()
            invariant
                j <= members@.len(),
                forall|i: int| 0 <= i < j ==> #[trigger] members@[i] != u32::MAX,
            decreases members@.len() - j,
        {
            if members[j] == u32::MAX {
                assert(m.elements@[s as int].members@[j as int] == u32::MAX);
                return false;
            }
            j += 1;
        }
        s += 1;
    }
    if let Some(st) = m.start {
        if st == u32::MAX {
            return false;
        }
    }
    let mut n: usize = 0;
    while n < m.function_names.len()
        invariant
            n <= m.function_names@.len(),
            forall|a: int| 0 <= a < n ==> #[trigger] m.function_names@[a].index != u32::MAX,
        decreases m.function_names@.len() - n,
    {
        if m.function_names[n].index == u32::MAX {
            assert(m.function_names@[n as int].index == u32::MAX);
            return false;
        }
        n += 1;
    }
    true
}

/// The index of the gas function: after the imports for an imported one, after the
/// functions for a local one.
pub open spec fn gas_func_index(module: Module, meter: GasMeterModel) -> u32 {
    if meter is External {
        module.spec_func_imports() as u32
    } else {
        module.spec_functions_space() as u32
    }
}

/// Calls are shifted past the gas function where it is imported.
pub open spec fn call_shift_of(module: Module, meter: GasMeterModel) -> Option<u32> {
    if meter is External {
        Some(module.spec_func_imports() as u32)
    } else {
        None
    }
}

/// What each charge adds for running the gas function itself.
pub open spec fn gas_cost_of(meter: GasMeterModel) -> u64 {
    match meter {
        GasMeterModel::Internal { cost, .. } => cost,
        _ => 0,
    }
}

/// What [`inject`] returns for `module` and `meter` under `rules`.
pub open spec fn injected<R: Rules>(
    module: Module,
    meter: GasMeterModel,
    rules: R,
    r: Result<Module, Module>,
) -> bool {
    let gas_func = gas_func_index(module, meter);
    let shift = call_shift_of(module, meter);
    let gas_cost = gas_cost_of(meter);
    let grow_counter = (module.spec_functions_space() + 1) as u32;
    let grows = rules.spec_memory_grow_cost().spec_enabled() && some_body_grows(module.code@);
    let n_code = module.code@.len();
    let n_funcs = module.functions@.len();
    &&& r is Ok <==> all_bodies_meterable(rules, module.code@, shift, gas_cost, gas_func) && !(
    meter is External && has_max_ref(module))
    &&& r is Err ==> r->Err_0 == module
    &&& r is Ok ==> {
        let m = r->Ok_0;
        let n_added: int = if meter is Internal { 1 } else { 0 };
        &&& m.types@.len() >= module.types@.len()
        &&& m.types@.subrange(0, module.types@.len() as int) == module.types@
        &&& m.code@.len() == n_code + n_added + if grows { 1int } else { 0 }
        &&& m.functions@.len() == n_funcs + n_added + if grows { 1int } else { 0 }
        &&& m.functions@.subrange(0, n_funcs as int) == module.functions@
        &&& forall|k: int|
            0 <= k < n_code ==> (#[trigger] m.code@[k]).locals == module.code@[k].locals
                && m.code@[k].code@ == spec_metered_code(
                rules,
                module.code@[k],
                shift,
                gas_cost,
                gas_func,
                grow_counter,
            )
        &&& grows ==> {
            let t = m.functions@[m.functions@.len() - 1];
            &&& t < m.types@.len() && grow_signature(m.types@[t as int])
            &&& m.code@.last().locals@.len() == 0
            &&& m.code@.last().code@ == spec_grow_counter_body(
                rules.spec_memory_grow_cost()->Linear_0,
                gas_func,
            )
        }
        &&& match meter {
            GasMeterModel::External { module: import_module, function } => {
                let import = m.imports@.last();
                &&& m.imports@.len() == module.imports@.len() + 1
                &&& m.imports@.drop_last() == module.imports@
                &&& import.module@ == import_module && import.field@ == function
                &&& import.external is Function
                &&& import.external->Function_0 < m.types@.len()
                &&& gas_signature(m.types@[import.external->Function_0 as int])
                &&& m.globals == module.globals
                &&& m.exports@.len() == module.exports@.len()
                &&& forall|k: int|
                    0 <= k < m.exports@.len() ==> #[trigger] m.exports@[k] == shifted_export(
                        module.exports@[k],
                        gas_func,
                    )
                &&& m.elements@.len() == module.elements@.len()
                &&& forall|k: int|
                    0 <= k < m.elements@.len() ==> (#[trigger] m.elements@[k]).members@
                        == module.elements@[k].members@.map_values(
                        |f: u32| spec_shift_index(f, gas_func),
                    )
                &&& m.start == match module.start {
                    Some(s) => Some(spec_shift_index(s, gas_func)),
                    None => None,
                }
                &&& m.function_names@.len() == module.function_names@.len()
                &&& forall|k: int|
                    0 <= k < m.function_names@.len() ==> #[trigger] m.function_names@[k] == (
                    FunctionName {
                        index: spec_shift_index(module.function_names@[k].index, gas_func),
                        name: module.function_names@[k].name,
                    })
            },
            GasMeterModel::Internal { global, func_instructions, cost } => {
                let t = m.functions@[n_funcs as int];
                &&& m.imports == module.imports
                &&& m.globals@.len() == module.globals@.len() + 1
                &&& m.globals@.drop_last() == module.globals@
                &&& m.globals@.last().value_type == ValueType::I64
                &&& m.globals@.last().mutable
                &&& m.globals@.last().init@ == seq![Instr::I64Const(0), Instr::End]
                &&& m.exports@.len() == module.exports@.len() + 1
                &&& m.exports@.drop_last() == module.exports@
                &&& m.exports@.last().field@ == global
                &&& m.exports@.last().internal == Internal::Global(
                    module.spec_globals_space() as u32,
                )
                &&& t < m.types@.len() && gas_signature(m.types@[t as int])
                &&& m.code@[n_code as int].locals@.len() == 0
                &&& m.code@[n_code as int].code@ == func_instructions
                &&& m.elements == module.elements
                &&& m.start == module.start
                &&& m.function_names == module.function_names
            },
        }
    }
}

/// Transforms `module` into one that charges gas, under `rules`, for the code it runs, in the
/// way `backend` chooses.
///
/// The body of each function is divided into metered blocks: runs of instructions that,
/// barring a trap, either all execute or none do. A call of the gas function with the block's
/// cost is put at the start of each block. Where the rules charge for memory growth, each
/// `memory.grow` is sent through a grow counter function that charges per page first.
///
/// Where the gas function is imported, every function index at or after it in code, exports,
/// element segments, the start function and the names is shifted by one.
///
/// Fails, returning the module untouched, where an instruction has no cost under the rules
/// or a cost overflows.
pub fn inject<R: Rules, B: Backend<R>>(module: Module, backend: B, rules: &R) -> (r: Result<
    Module,
    Module,
>)
    requires
        module.fits_index_space(),
    ensures
        injected(module, backend.spec_gas_meter(module, *rules), *rules, r),
{
    let meter = backend.gas_meter(&module, rules);
    inject_meter(module, meter, rules)
}

/// Transforms `module` into one that charges gas with `meter` under `rules`.
#[verifier::rlimit(100)]
pub fn inject_meter<R: Rules>(module: Module, meter: GasMeter, rules: &R) -> (r: Result<
    Module,
    Module,
>)
    requires
        module.fits_index_space(),
    ensures
        injected(module, meter.model(), *rules, r),
{
    let ghost model = meter.model();
    let functions_space = module.functions_space();
    let func_imports = module.func_imports();
    let globals_space = module.globals_space();
    let (gas_func, call_shift, gas_cost): (u32, Option<u32>, u64) = match &meter {
        GasMeter::External { .. } => (func_imports, Some(func_imports), 0),
        GasMeter::Internal { cost, .. } => (functions_space, None, *cost),
    };
    proof {
        lemma_func_import_count_bound(module.imports@);
    }
    let grow_counter = functions_space + 1;
    if call_shift.is_some() && !refs_below_max(&module) {
        return Err(module);
    }
    let plans = match plan_bodies(&module.code, call_shift, rules, gas_cost, gas_func) {
        Ok(p) => p,
        Err(()) => {
            return Err(module);
        },
    };
    let grows = rules.memory_grow_cost().enabled() && any_body_grows(&module.code);
    let ghost orig = module;
    let mut module = module;
    let mut code: Vec<FuncBody> = Vec::new();
    core::mem::swap(&mut code, &mut module.code);
    module.code = meter_bodies(code, plans, call_shift, rules, gas_cost, gas_func, grow_counter);
    let ghost metered = module.code@;
    match meter {
        GasMeter::External { module: import_module, function } => {
            let t = module.resolve_type(gas_function_type());
            module.imports.push(
                ImportEntry {
                    module: import_module,
                    field: function,
                    external: External::Function(t),
                },
            );
            let exports = shift_exports(module.exports, gas_func);
            module.exports = exports;
            let elements = shift_elements(module.elements, gas_func);
            module.elements = elements;
            module.start = match module.start {
                Some(s) => Some(shift_index(s, gas_func)),
                None => None,
            };
            let names = shift_names(module.function_names, gas_func);
            module.function_names = names;
        },
        GasMeter::Internal { global, func_instructions, cost } => {
            let mut init: Vec<Instr> = Vec::new();
            init.push(Instr::I64Const(0));
            init.push(Instr::End);
            assert(init@ =~= seq![Instr::I64Const(0), Instr::End]);
            module.globals.push(GlobalEntry { value_type: ValueType::I64, mutable: true, init });
            module.exports.push(
                ExportEntry { field: global, internal: Internal::Global(globals_space) },
            );
            let t = module.resolve_type(gas_function_type());
            module.functions.push(t);
            module.code.push(FuncBody { locals: Vec::new(), code: func_instructions });
        },
    }
    let ghost before_grow = module;
    if grows {
        module = add_grow_counter(module, rules, gas_func);
    }
    proof {
        assert(before_grow.types@.len() >= orig.types@.len());
        assert(before_grow.types@.subrange(0, orig.types@.len() as int) =~= orig.types@);
        assert(module.types@.subrange(0, before_grow.types@.len() as int) =~= before_grow.types@);
        assert(module.types@.subrange(0, orig.types@.len() as int) =~= orig.types@);
        assert(module.functions@.subrange(0, orig.functions@.len() as int) =~= orig.functions@);
        assert forall|k: int| 0 <= k < orig.code@.len() implies #[trigger] module.code@[k] == metered[k] by {
            assert(before_grow.code@[k] == metered[k]);
            if grows {
                assert(module.code@[k] == module.code@.drop_last()[k]);
            }
        }
        assert(grows == (rules.spec_memory_grow_cost().spec_enabled() && some_body_grows(orig.code@)));
        if model is External {
            let import = module.imports@.last();
            assert(module.imports@.drop_last() =~= orig.imports@);
            assert(import == before_grow.imports@.last());
            assert(import.external->Function_0 < before_grow.types@.len());
            assert(module.types@[import.external->Function_0 as int] == before_grow.types@[import.external->Function_0 as int]);
        } else {
            let t = module.functions@[orig.functions@.len() as int];
            assert(t == before_grow.functions@[orig.functions@.len() as int]);
            assert(t < before_grow.types@.len());
            assert(module.types@[t as int] == before_grow.types@[t as int]);
            assert(module.code@[orig.code@.len() as int] == before_grow.code@[orig.code@.len() as int]);
            assert(module.exports@.drop_last() == orig.exports@);
            assert(module.globals@.drop_last() == orig.globals@);
        }
        assert(module.code@.len() == orig.code@.len() + (if model is Internal { 1int } else { 0 }) + if grows { 1int } else { 0 });
        assert(module.functions@.len() == orig.functions@.len() + (if model is Internal { 1int } else { 0 }) + if grows { 1int } else { 0 });
        if grows {
            let t = module.functions@[module.functions@.len() - 1];
            assert(t < module.types@.len() && grow_signature(module.types@[t as int]));
            assert(module.code@.last().code@ == spec_grow_counter_body(
                rules.spec_memory_grow_cost()->Linear_0,
                gas_func,
            ));
        }
        assert(gas_func == gas_func_index(orig, model));
        assert(call_shift == call_shift_of(orig, model));
        assert(gas_cost == gas_cost_of(model));
    }
    Ok(module)
}

/// Whether some body grows the memory.
#[verifier::loop_isolation(false)]
fn any_body_grows(code: &Vec<FuncBody>) -> (r: bool)
    ensures
        r == some_body_grows(code@),
{
    let mut k: usize = 0;
    while k < code.len()
        invariant
            k <= code@.len(),
            forall|j: int| 0 <= j < k ==> !has_grow(#[trigger] code@[j].code@),
        decreases code@.len() - k,
    {
        let body = &code[k].code;
        let mut i: usize = 0;
        while i < body.len()
            invariant
                i <= body@.len(),
                forall|j: int| 0 <= j < i ==> !((#[trigger] body@[j]) is GrowMemory),
            decreases body@.len() - i,
        {
            if let Instr::GrowMemory(_) = body[i] {
                assert(has_grow(code@[k as int].code@));
                return true;
            }
            i += 1;
        }
        k += 1;
    }
    false
}

/// With an imported gas function, the function references of a module whose references lie
/// in its function index space still lie in the index space of the metered module, which has
/// one function more in front of the defined ones.
pub proof fn lemma_imported_gas_keeps_refs_in_range<R: Rules>(
    module: Module,
    import_module: Seq<char>,
    function: Seq<char>,
    rules: R,
    r: Result<Module, Module>,
)
    requires
        module.fits_index_space(),
        refs_in_range(module),
        injected(module, GasMeterModel::External { module: import_module, function }, rules, r),
        r is Ok,
    ensures
        refs_in_range(r->Ok_0),
        (r->Ok_0).spec_func_imports() == module.spec_func_imports() + 1,
        (r->Ok_0).spec_functions_space() >= module.spec_functions_space() + 1,
{
    let m = r->Ok_0;
    let g = module.spec_func_imports() as u32;
    lemma_func_import_count_bound(module.imports@);
    assert(m.imports@.drop_last() == module.imports@);
    assert(func_import_count(m.imports@) == func_import_count(m.imports@.drop_last()) + 1);
    let old_n = module.spec_functions_space();
    let n = m.spec_functions_space();
    assert(n >= old_n + 1);
    assert forall|k: int|
        0 <= k < m.exports@.len() && (#[trigger] m.exports@[k]).internal is Function implies m.exports@[k].internal->Function_0
        < n by {
        assert(m.exports@[k] == shifted_export(module.exports@[k], g));
    }
    assert forall|k: int, j: int|
        0 <= k < m.elements@.len() && 0 <= j < m.elements@[k].members@.len() implies #[trigger] m.elements@[k].members@[j]
        < n by {
        assert(m.elements@[k].members@[j] == spec_shift_index(module.elements@[k].members@[j], g));
    }
    assert forall|k: int| 0 <= k < m.function_names@.len() implies (#[trigger] m.function_names@[k]).index
        < n by {
        assert(m.function_names@[k].index == spec_shift_index(module.function_names@[k].index, g));
    }
}

/// Every instruction of a body with charges put in is a charge's `i64.const` or `call`, or
/// one of the first `n` instructions of the body.
proof fn lemma_insert_elements(
    instrs: Seq<Instr>,
    blocks: Seq<MeteredBlock>,
    gas_cost: u64,
    gas_func: u32,
    n: nat,
)
    requires
        n <= instrs.len(),
        spec_insert_state(instrs, blocks, gas_cost, gas_func, n) is Some,
    ensures
        ({
            let out = spec_insert_state(instrs, blocks, gas_cost, gas_func, n).unwrap().0;
            forall|j: int|
                0 <= j < out.len() ==> (#[trigger] out[j]) is I64Const || out[j] == Instr::Call(
                    gas_func,
                ) || exists|i: int| 0 <= i < n && out[j] == instrs[i]
        }),
    decreases n,
{
    if n > 0 {
        lemma_insert_elements(instrs, blocks, gas_cost, gas_func, (n - 1) as nat);
        let prev = spec_insert_state(instrs, blocks, gas_cost, gas_func, (n - 1) as nat).unwrap().0;
        let out = spec_insert_state(instrs, blocks, gas_cost, gas_func, n).unwrap().0;
        assert forall|j: int| 0 <= j < out.len() implies (#[trigger] out[j]) is I64Const || out[j]
            == Instr::Call(gas_func) || exists|i: int| 0 <= i < n && out[j] == instrs[i] by {
            if j < prev.len() {
                assert(out[j] == prev[j]);
                if !(prev[j] is I64Const) && prev[j] != Instr::Call(gas_func) {
                    let i = choose|i: int| 0 <= i < n - 1 && prev[j] == instrs[i];
                    assert(out[j] == instrs[i]);
                }
            } else if j == out.len() - 1 {
                assert(out[j] == instrs[n - 1]);
            }
        }
    }
}

/// With an imported gas function at index `g`, a metered body calls only the gas function,
/// the grow counter, and the shifted callees of its own calls; and no call of the body is
/// shifted onto the gas function.
pub proof fn lemma_imported_gas_maps_calls<R: Rules>(
    rules: R,
    body: FuncBody,
    gas_cost: u64,
    g: u32,
    grow_counter: u32,
)
    requires
        spec_body_plan(rules, body, Some(g), gas_cost, g) is Some,
        forall|i: int| 0 <= i < body.code@.len() ==> #[trigger] body.code@[i] != Instr::Call(u32::MAX),
    ensures
        ({
            let out = spec_metered_code(rules, body, Some(g), gas_cost, g, grow_counter);
            forall|j: int|
                0 <= j < out.len() && (#[trigger] out[j]) is Call ==> out[j] == Instr::Call(g)
                    || out[j] == Instr::Call(grow_counter) || exists|i: int|
                    0 <= i < body.code@.len() && body.code@[i] is Call && out[j] == Instr::Call(
                        spec_shift_index(body.code@[i]->Call_0, g),
                    )
        }),
        forall|i: int|
            0 <= i < body.code@.len() && (#[trigger] body.code@[i]) is Call ==> spec_shift_index(
                body.code@[i]->Call_0,
                g,
            ) != g,
{
    let code = shifted_code(body.code@, Some(g));
    let blocks = spec_body_plan(rules, body, Some(g), gas_cost, g).unwrap();
    lemma_insert_elements(code, blocks, gas_cost, g, code.len());
    let charged = spec_insert_metering_calls(code, blocks, gas_cost, g).unwrap();
    let out = spec_metered_code(rules, body, Some(g), gas_cost, g, grow_counter);
    assert forall|j: int|
        0 <= j < out.len() && (#[trigger] out[j]) is Call implies out[j] == Instr::Call(g)
        || out[j] == Instr::Call(grow_counter) || exists|i: int|
        0 <= i < body.code@.len() && body.code@[i] is Call && out[j] == Instr::Call(
            spec_shift_index(body.code@[i]->Call_0, g),
        ) by {
        let c = charged[j];
        assert(out[j] == c || out[j] == grow_item(c, grow_counter));
        if out[j] != Instr::Call(g) && out[j] != Instr::Call(grow_counter) {
            assert(out[j] == c);
            let i = choose|i: int| 0 <= i < code.len() && c == code[i];
            assert(code[i] == shift_instr(body.code@[i], Some(g)));
            assert(body.code@[i] is Call);
        }
    }
}

/// A function whose body is `i64.const 0; drop` and that has no locals is metered as one
/// block charged before its first instruction: `i64.const c; call g; i64.const 0; drop; end`,
/// where `c` is the cost of its two charged instructions plus the cost of the gas function
/// itself. (`end` costs nothing; a block that costs nothing gets no charge.)
pub proof fn lemma_const_drop_body<R: Rules>(
    rules: R,
    body: FuncBody,
    call_shift: Option<u32>,
    gas_cost: u64,
    gas_func: u32,
    grow_counter: u32,
    const_cost: u32,
    drop_cost: u32,
    end_cost: u32,
)
    requires
        body.locals@.len() == 0,
        body.code@ == seq![Instr::I64Const(0), Instr::Drop, Instr::End],
        rules.spec_instruction_cost(Instr::I64Const(0)) == Some(const_cost),
        rules.spec_instruction_cost(Instr::Drop) == Some(drop_cost),
        rules.spec_instruction_cost(Instr::End) == Some(end_cost),
        const_cost + drop_cost > 0,
        const_cost + drop_cost + gas_cost <= u64::MAX,
    ensures
        spec_body_plan(rules, body, call_shift, gas_cost, gas_func) is Some,
        spec_metered_code(rules, body, call_shift, gas_cost, gas_func, grow_counter) == seq![
            Instr::I64Const((const_cost + drop_cost + gas_cost) as i64),
            Instr::Call(gas_func),
            Instr::I64Const(0),
            Instr::Drop,
            Instr::End,
        ],
{
    let code = shifted_code(body.code@, call_shift);
    assert(code =~= body.code@);
    assert(locals_sum(body.locals@) == 0);
    let c0 = spec_initial(rules, 0).unwrap();
    assert(spec_run(rules, code, 0, 0) == Some(c0));
    assert(c0.stack =~= seq![
        ControlBlock {
            lowest_forward_br_target: 0,
            active_metered_block: MeteredBlock { start_pos: 0, cost: 0 },
            is_loop: false,
        },
    ]);
    let c1 = spec_run(rules, code, 0, 1).unwrap();
    assert(c1.stack[0].active_metered_block == MeteredBlock { start_pos: 0, cost: const_cost as u64 });
    assert(c1.stack.len() == 1 && c1.finalized_blocks.len() == 0);
    let c2 = spec_run(rules, code, 0, 2).unwrap();
    assert(c2.stack[0].active_metered_block == MeteredBlock {
        start_pos: 0,
        cost: (const_cost + drop_cost) as u64,
    });
    assert(c2.stack.len() == 1 && c2.finalized_blocks.len() == 0);
    let block = MeteredBlock { start_pos: 0, cost: (const_cost + drop_cost) as u64 };
    let c3 = spec_run(rules, code, 0, 3).unwrap();
    assert(c3.finalized_blocks =~= seq![block]);
    let blocks = spec_metered_blocks(rules, code, 0).unwrap();
    assert(blocks == seq![block]);
    assert(seq![block].drop_last() =~= Seq::<MeteredBlock>::empty());
    assert(spec_sort(Seq::<MeteredBlock>::empty()) == Seq::<MeteredBlock>::empty());
    assert(first_after(Seq::<MeteredBlock>::empty(), block.start_pos) == 0);
    assert(Seq::<MeteredBlock>::empty().insert(0, block) =~= seq![block]);
    assert(spec_sort(seq![block]) =~= seq![block]);
    let charged = charge((const_cost + drop_cost + gas_cost) as u64, gas_func);
    assert(spec_insert_state(code, seq![block], gas_cost, gas_func, 0) == Some(
        (Seq::<Instr>::empty(), 0nat),
    ));
    let s1 = spec_insert_state(code, seq![block], gas_cost, gas_func, 1).unwrap();
    assert(s1.0 =~= charged + seq![Instr::I64Const(0)]);
    assert(s1.1 == 1);
    let s2 = spec_insert_state(code, seq![block], gas_cost, gas_func, 2).unwrap();
    assert(s2.0 =~= (charged + seq![Instr::I64Const(0)]).push(Instr::Drop));
    assert(s2.1 == 1);
    let out = (charged + seq![Instr::I64Const(0)]).push(Instr::Drop).push(Instr::End);
    let s3 = spec_insert_state(code, seq![block], gas_cost, gas_func, 3).unwrap();
    assert(s3.0 =~= out);
    assert(s3.1 == 1);
    assert(out =~= seq![
        Instr::I64Const((const_cost + drop_cost + gas_cost) as i64),
        Instr::Call(gas_func),
        Instr::I64Const(0),
        Instr::Drop,
        Instr::End,
    ]);
    assert(out.map_values(|i: Instr| grow_item(i, grow_counter)) =~= out);
}

} // verus!
