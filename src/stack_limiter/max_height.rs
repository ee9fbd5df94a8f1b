//! Bounds the height of the value stack that a function body can reach, by abstract
//! interpretation over the heights of the value stack and the frames of the control stack.
use vstd::prelude::*;

use crate::wasm::{numeric_arity, numeric_is_binary, BlockType, FunctionType, Instr, Module};
use super::{call_bracket, spec_call_bracket};

verus! {

/// Control stack frame.
#[derive(Clone, Copy, Debug, PartialEq, Eq, Structural)]
pub struct Frame {
    /// The stack becomes polymorphic once an instruction that never passes control on has
    /// been met in this frame.
    pub is_polymorphic: bool,
    /// Count of values left on the stack after the frame's `end`.
    pub end_arity: u32,
    /// Count of values taken by a branch to this frame; zero for a loop.
    pub branch_arity: u32,
    /// Height of the value stack when the frame was entered.
    pub start_height: u32,
}

/// The value-stack height and the control frames, as values.
pub struct StackModel {
    pub height: u32,
    pub frames: Seq<Frame>,
}

/// A value-stack height together with a control stack.
pub struct Stack {
    height: u32,
    control_stack: Vec<Frame>,
}

impl View for Stack {
    type V = StackModel;

    closed spec fn view(&self) -> StackModel {
        StackModel { height: self.height, frames: self.control_stack@ }
    }
}

/// The frame `rel_depth` frames below the top.
pub open spec fn spec_frame(s: StackModel, rel_depth: u32) -> Result<Frame, &'static str> {
    if s.frames.len() == 0 {
        Err("control stack is empty")
    } else if rel_depth < s.frames.len() {
        Ok(s.frames[s.frames.len() - 1 - rel_depth])
    } else {
        Err("control stack out-of-bounds")
    }
}

/// Marks the top frame polymorphic.
pub open spec fn spec_mark_unreachable(s: StackModel) -> Result<StackModel, &'static str> {
    if s.frames.len() == 0 {
        Err("stack must be non-empty")
    } else {
        let top = s.frames.last();
        Ok(
            StackModel {
                height: s.height,
                frames: s.frames.update(
                    s.frames.len() - 1,
                    Frame { is_polymorphic: true, ..top },
                ),
            },
        )
    }
}

/// Pushes `n` values; fails where the height leaves `u32`.
pub open spec fn spec_push_values(s: StackModel, n: u32) -> Result<StackModel, &'static str> {
    if s.height + n > u32::MAX {
        Err("stack overflow")
    } else {
        Ok(StackModel { height: (s.height + n) as u32, frames: s.frames })
    }
}

/// Pops `n` values. In a frame that is not polymorphic, popping more values than the frame
/// pushed is an error. A polymorphic frame at its start height pops nothing.
pub open spec fn spec_pop_values(s: StackModel, n: u32) -> Result<StackModel, &'static str> {
    if n == 0 {
        Ok(s)
    } else if s.frames.len() == 0 {
        Err("control stack is empty")
    } else if s.frames.last().is_polymorphic && s.height == s.frames.last().start_height {
        Ok(s)
    } else if !s.frames.last().is_polymorphic && s.height < s.frames.last().start_height + n {
        Err("trying to pop more values than pushed")
    } else if s.height < n {
        Err("stack underflow")
    } else {
        Ok(StackModel { height: (s.height - n) as u32, frames: s.frames })
    }
}

impl Stack {
    pub fn new() -> (r: Stack)
        ensures
            r@.height == 0,
            r@.frames == Seq::<Frame>::empty(),
    {
        Stack { height: 0, control_stack: Vec::new() }
    }

    /// Current height of the value stack.
    pub fn height(&self) -> (r: u32)
        ensures
            r == self@.height,
    {
        self.height
    }

    /// The frame `rel_depth` frames below the top of the control stack.
    pub fn frame(&self, rel_depth: u32) -> (r: Result<Frame, &'static str>)
        ensures
            r == spec_frame(self@, rel_depth),
    {
        let len: usize = self.control_stack.len();
        if len == 0 {
            return Err("control stack is empty");
        }
        let last_idx = len - 1;
        if last_idx < rel_depth as usize {
            return Err("control stack out-of-bounds");
        }
        Ok(self.control_stack[last_idx - rel_depth as usize])
    }

    /// Marks the instructions that follow, up to the end of the top frame, as unreachable.
    pub fn mark_unreachable(&mut self) -> (r: Result<(), &'static str>)
        ensures
            r is Ok <==> spec_mark_unreachable(old(self)@) is Ok,
            r is Ok ==> final(self)@ == spec_mark_unreachable(old(self)@).unwrap(),
            r is Err ==> r->Err_0 == spec_mark_unreachable(old(self)@)->Err_0,
    {
        let len = self.control_stack.len();
        if len == 0 {
            return Err("stack must be non-empty");
        }
        let top = self.control_stack[len - 1];
        self.control_stack.set(len - 1, Frame { is_polymorphic: true, ..top });
        Ok(())
    }

    /// Pushes a control frame.
    pub fn push_frame(&mut self, frame: Frame)
        ensures
            final(self)@.height == old(self)@.height,
            final(self)@.frames == old(self)@.frames.push(frame),
    {
        self.control_stack.push(frame);
    }

    /// Pops the top control frame.
    pub fn pop_frame(&mut self) -> (r: Result<Frame, &'static str>)
        ensures
            r is Ok <==> old(self)@.frames.len() > 0,
            r is Ok ==> r.unwrap() == old(self)@.frames.last() && final(self)@.frames == old(
                self,
            )@.frames.drop_last() && final(self)@.height == old(self)@.height,
            r is Err ==> r->Err_0 == "stack must be non-empty",
    {
        match self.control_stack.pop() {
            Some(f) => Ok(f),
            None => Err("stack must be non-empty"),
        }
    }

    /// Sets the height of the value stack.
    pub fn trunc(&mut self, new_height: u32)
        ensures
            final(self)@.height == new_height,
            final(self)@.frames == old(self)@.frames,
    {
        self.height = new_height;
    }

    /// Pushes `value_count` values.
    pub fn push_values(&mut self, value_count: u32) -> (r: Result<(), &'static str>)
        ensures
            r is Ok <==> spec_push_values(old(self)@, value_count) is Ok,
            r is Ok ==> final(self)@ == spec_push_values(old(self)@, value_count).unwrap(),
            r is Err ==> r->Err_0 == spec_push_values(old(self)@, value_count)->Err_0,
    {
        match self.height.checked_add(value_count) {
            Some(h) => {
                self.height = h;
                Ok(())
            },
            None => Err("stack overflow"),
        }
    }

    /// Pops `value_count` values.
    pub fn pop_values(&mut self, value_count: u32) -> (r: Result<(), &'static str>)
        ensures
            r is Ok <==> spec_pop_values(old(self)@, value_count) is Ok,
            r is Ok ==> final(self)@ == spec_pop_values(old(self)@, value_count).unwrap(),
            r is Err ==> r->Err_0 == spec_pop_values(old(self)@, value_count)->Err_0,
    {
        if value_count == 0 {
            return Ok(());
        }
        let top_frame = self.frame(0)?;
        if top_frame.is_polymorphic && self.height == top_frame.start_height {
            return Ok(());
        }
        if !top_frame.is_polymorphic && (self.height < top_frame.start_height || self.height
            - top_frame.start_height < value_count) {
            return Err("trying to pop more values than pushed");
        }
        match self.height.checked_sub(value_count) {
            Some(h) => {
                self.height = h;
                Ok(())
            },
            None => Err("stack underflow"),
        }
    }
}

/// What the analysis of one function reads: the module's signatures, the type index of every
/// function of the function space, the number of imported functions, the arity of the
/// analysed function, and whether each call to a defined function is counted with the
/// instructions that the stack limiter puts around it.
pub struct HeightEnv {
    pub types: Seq<FunctionType>,
    pub func_types: Seq<u32>,
    pub func_imports: nat,
    pub func_arity: u32,
    pub count_instrumented_calls: bool,
}

/// The analysis state: the stack and the greatest height seen so far.
pub struct HeightState {
    pub stack: StackModel,
    pub max_height: u32,
}

/// Number of values for the end of a block of type `t`.
pub open spec fn block_arity(t: BlockType) -> u32 {
    if t is NoResult {
        0
    } else {
        1
    }
}

/// Pops `a`, then `b`, then pushes `c` values.
pub open spec fn spec_pop_pop_push(s: StackModel, a: u32, b: u32, c: u32) -> Result<
    StackModel,
    &'static str,
> {
    match spec_pop_values(s, a) {
        Err(e) => Err(e),
        Ok(s1) => match spec_pop_values(s1, b) {
            Err(e) => Err(e),
            Ok(s2) => spec_push_values(s2, c),
        },
    }
}

/// Pops `a` values and marks the rest of the frame unreachable.
pub open spec fn spec_pop_unreachable(s: StackModel, a: u32) -> Result<StackModel, &'static str> {
    match spec_pop_values(s, a) {
        Err(e) => Err(e),
        Ok(s1) => spec_mark_unreachable(s1),
    }
}

/// Checks, in order, that every target of a `br_table` has a frame whose branch arity is
/// `arity`; the first target that does not gives the error.
pub open spec fn check_table(s: StackModel, table: Seq<u32>, arity: u32) -> Result<(), &'static str>
    decreases table.len(),
{
    if table.len() == 0 {
        Ok(())
    } else {
        match check_table(s, table.drop_last(), arity) {
            Err(e) => Err(e),
            Ok(()) => match spec_frame(s, table.last()) {
                Err(e) => Err(e),
                Ok(f) => if f.branch_arity != arity {
                    Err("Arity of all jump-targets must be equal")
                } else {
                    Ok(())
                },
            },
        }
    }
}

/// The signature of function `idx` of the function space, if it has a valid one.
pub open spec fn spec_resolve(env: HeightEnv, idx: u32) -> Result<FunctionType, &'static str> {
    if idx >= env.func_types.len() {
        Err("Function at the specified index is not defined")
    } else if env.func_types[idx as int] >= env.types.len() {
        Err("The signature as specified by a function isn't defined")
    } else {
        Ok(env.types[env.func_types[idx as int] as int])
    }
}

/// The stack effect of one instruction.
pub open spec fn spec_effect(env: HeightEnv, s: StackModel, instr: Instr) -> Result<
    StackModel,
    &'static str,
> {
    match instr {
        Instr::Nop | Instr::Else => Ok(s),
        Instr::Block(t) | Instr::Loop(t) => {
            let end_arity = block_arity(t);
            let branch_arity = if instr is Loop {
                0
            } else {
                end_arity
            };
            Ok(
                StackModel {
                    height: s.height,
                    frames: s.frames.push(
                        Frame {
                            is_polymorphic: false,
                            end_arity,
                            branch_arity,
                            start_height: s.height,
                        },
                    ),
                },
            )
        },
        Instr::If(t) => match spec_pop_values(s, 1) {
            Err(e) => Err(e),
            Ok(s1) => Ok(
                StackModel {
                    height: s1.height,
                    frames: s1.frames.push(
                        Frame {
                            is_polymorphic: false,
                            end_arity: block_arity(t),
                            branch_arity: block_arity(t),
                            start_height: s1.height,
                        },
                    ),
                },
            ),
        },
        Instr::End => if s.frames.len() == 0 {
            Err("stack must be non-empty")
        } else {
            let f = s.frames.last();
            spec_push_values(
                StackModel { height: f.start_height, frames: s.frames.drop_last() },
                f.end_arity,
            )
        },
        Instr::Unreachable => spec_mark_unreachable(s),
        Instr::Br(target) => match spec_frame(s, target) {
            Err(e) => Err(e),
            Ok(f) => spec_pop_unreachable(s, f.branch_arity),
        },
        Instr::BrIf(target) => match spec_frame(s, target) {
            Err(e) => Err(e),
            Ok(f) => spec_pop_pop_push(s, f.branch_arity, 1, f.branch_arity),
        },
        Instr::BrTable(table, default) => match spec_frame(s, default) {
            Err(e) => Err(e),
            Ok(f) => match check_table(s, table@, f.branch_arity) {
                Err(e) => Err(e),
                Ok(()) => spec_pop_unreachable(s, f.branch_arity),
            },
        },
        Instr::Return => spec_pop_unreachable(s, env.func_arity),
        Instr::Call(idx) => match spec_resolve(env, idx) {
            Err(e) => Err(e),
            Ok(ty) => spec_pop_pop_push(s, ty.params@.len() as u32, 0, ty.results@.len() as u32),
        },
        Instr::CallIndirect(x, _) => if x < env.types.len() {
            let ty = env.types[x as int];
            spec_pop_pop_push(s, 1, ty.params@.len() as u32, ty.results@.len() as u32)
        } else {
            Err("Type not found")
        },
        Instr::Drop | Instr::SetLocal(_) | Instr::SetGlobal(_) => spec_pop_values(s, 1),
        Instr::Select => spec_pop_pop_push(s, 2, 1, 1),
        Instr::GetLocal(_) | Instr::GetGlobal(_) | Instr::CurrentMemory(_) | Instr::I32Const(_)
        | Instr::I64Const(_) | Instr::F32Const(_) | Instr::F64Const(_) => spec_push_values(s, 1),
        Instr::TeeLocal(_) | Instr::Load(_, _, _) | Instr::GrowMemory(_) => spec_pop_pop_push(
            s,
            1,
            0,
            1,
        ),
        Instr::Store(_, _, _) => spec_pop_values(s, 2),
        Instr::Numeric(op) => spec_pop_pop_push(
            s,
            if numeric_is_binary(op) {
                2
            } else {
                1
            },
            0,
            1,
        ),
    }
}

/// One step of the analysis: note the current height where it is reachable and greater than
/// any seen, then apply the instruction's effect.
pub open spec fn spec_process(env: HeightEnv, st: HeightState, instr: Instr) -> Result<
    HeightState,
    &'static str,
> {
    let s = st.stack;
    if s.height > st.max_height && spec_frame(s, 0) is Err {
        Err(spec_frame(s, 0)->Err_0)
    } else {
        let max_height = if s.height > st.max_height && !spec_frame(s, 0).unwrap().is_polymorphic {
            s.height
        } else {
            st.max_height
        };
        match spec_effect(env, s, instr) {
            Err(e) => Err(e),
            Ok(s1) => Ok(HeightState { stack: s1, max_height }),
        }
    }
}

/// The analysis applied to each instruction of `instrs` in turn; the first failing step
/// gives the error.
pub open spec fn spec_run_plain(env: HeightEnv, st: HeightState, instrs: Seq<Instr>) -> Result<
    HeightState,
    &'static str,
>
    decreases instrs.len(),
{
    if instrs.len() == 0 {
        Ok(st)
    } else {
        match spec_run_plain(env, st, instrs.drop_last()) {
            Err(e) => Err(e),
            Ok(st1) => spec_process(env, st1, instrs.last()),
        }
    }
}

/// Whether `instr` is a call that is analysed together with the instructions around it.
pub open spec fn counted_as_instrumented(env: HeightEnv, instr: Instr) -> bool {
    env.count_instrumented_calls && instr is Call && instr->Call_0 >= env.func_imports
}

/// The analysis of one instruction of the body.
pub open spec fn spec_process_item(env: HeightEnv, st: HeightState, instr: Instr) -> Result<
    HeightState,
    &'static str,
> {
    if counted_as_instrumented(env, instr) {
        spec_run_plain(env, st, spec_call_bracket(instr->Call_0, 0, 0, 0))
    } else {
        spec_process(env, st, instr)
    }
}

/// The analysis of a body; the first failing step gives the error.
pub open spec fn spec_run(env: HeightEnv, st: HeightState, instrs: Seq<Instr>) -> Result<
    HeightState,
    &'static str,
>
    decreases instrs.len(),
{
    if instrs.len() == 0 {
        Ok(st)
    } else {
        match spec_run(env, st, instrs.drop_last()) {
            Err(e) => Err(e),
            Ok(st1) => spec_process_item(env, st1, instrs.last()),
        }
    }
}

/// The state in which a function of arity `func_arity` starts: its implicit frame alone.
pub open spec fn initial_state(func_arity: u32) -> HeightState {
    HeightState {
        stack: StackModel {
            height: 0,
            frames: seq![
                Frame {
                    is_polymorphic: false,
                    end_arity: func_arity,
                    branch_arity: func_arity,
                    start_height: 0,
                },
            ],
        },
        max_height: 0,
    }
}

/// The greatest height reached by `instrs`, the body of a function with `sig`.
pub open spec fn spec_max_height_raw(
    types: Seq<FunctionType>,
    func_types: Seq<u32>,
    func_imports: nat,
    count_instrumented_calls: bool,
    sig: FunctionType,
    instrs: Seq<Instr>,
) -> Result<u32, &'static str> {
    let arity = sig.results@.len() as u32;
    let env = HeightEnv { types, func_types, func_imports, func_arity: arity, count_instrumented_calls };
    match spec_run(env, initial_state(arity), instrs) {
        Err(e) => Err(e),
        Ok(st) => Ok(st.max_height),
    }
}

/// The greatest height reached by defined function `func_idx` of `module`.
pub open spec fn spec_max_height(
    module: Module,
    func_idx: u32,
    count_instrumented_calls: bool,
) -> Result<u32, &'static str> {
    let functions = module.functions@;
    if func_idx >= functions.len() || functions[func_idx as int] >= module.types@.len() {
        Err("Function is not found in func section")
    } else if func_idx >= module.code@.len() {
        Err("Function body for the index isn't found")
    } else {
        spec_max_height_raw(
            module.types@,
            module.spec_func_types(),
            module.spec_func_imports(),
            count_instrumented_calls,
            module.types@[functions[func_idx as int] as int],
            module.code@[func_idx as int].code@,
        )
    }
}

/// Counts the greatest height of the value stack over a function body.
pub struct MaxStackHeightCounter {
    pub func_types: Vec<u32>,
    pub func_imports: usize,
    pub stack: Stack,
    pub max_height: u32,
    pub count_instrumented_calls: bool,
}

impl MaxStackHeightCounter {
    pub closed spec fn state(&self) -> HeightState {
        HeightState { stack: self.stack@, max_height: self.max_height }
    }

    pub closed spec fn env(&self, module: &Module, func_arity: u32) -> HeightEnv {
        HeightEnv {
            types: module.types@,
            func_types: self.func_types@,
            func_imports: self.func_imports as nat,
            func_arity,
            count_instrumented_calls: self.count_instrumented_calls,
        }
    }

    /// A counter for the functions of `module`, with nothing analysed yet.
    pub fn new(module: &Module) -> (r: Self)
        ensures
            r.func_types@ == module.spec_func_types(),
            r.func_imports == module.spec_func_imports(),
            r.stack@.height == 0,
            r.stack@.frames == Seq::<Frame>::empty(),
            r.max_height == 0,
            !r.count_instrumented_calls,
    {
        let (func_types, func_imports) = module.func_type_indices();
        MaxStackHeightCounter {
            func_types,
            func_imports,
            stack: Stack::new(),
            max_height: 0,
            count_instrumented_calls: false,
        }
    }

    /// Sets whether each call to a defined function is analysed with the instructions that
    /// the stack limiter puts around it.
    pub fn count_instrumented_calls(self, count_instrumented_calls: bool) -> (r: Self)
        ensures
            r.count_instrumented_calls == count_instrumented_calls,
            r.func_types == self.func_types,
            r.func_imports == self.func_imports,
            r.stack == self.stack,
            r.max_height == self.max_height,
    {
        let mut this = self;
        this.count_instrumented_calls = count_instrumented_calls;
        this
    }

    fn resolve(&self, module: &Module, idx: u32, Ghost(env): Ghost<HeightEnv>) -> (r: Result<
        (u32, u32),
        &'static str,
    >)
        requires
            env.types == module.types@,
            env.func_types == self.func_types@,
        ensures
            r is Ok <==> spec_resolve(env, idx) is Ok,
            r is Ok ==> r.unwrap() == (
                spec_resolve(env, idx).unwrap().params@.len() as u32,
                spec_resolve(env, idx).unwrap().results@.len() as u32,
            ),
            r is Err ==> r->Err_0 == spec_resolve(env, idx)->Err_0,
    {
        if (idx as usize) >= self.func_types.len() {
            return Err("Function at the specified index is not defined");
        }
        let t = self.func_types[idx as usize];
        if (t as usize) >= module.types.len() {
            return Err("The signature as specified by a function isn't defined");
        }
        let ty = &module.types[t as usize];
        Ok((#[verifier::truncate] (ty.params.len() as u32), #[verifier::truncate] (ty.results.len() as u32)))
    }

    /// Analyses one instruction.
    #[verifier::loop_isolation(false)]
    fn process_instruction(&mut self, module: &Module, opcode: &Instr, func_arity: u32) -> (r:
        Result<(), &'static str>)
        ensures
            final(self).func_types == old(self).func_types,
            final(self).func_imports == old(self).func_imports,
            final(self).count_instrumented_calls == old(self).count_instrumented_calls,
            r is Ok <==> spec_process(old(self).env(module, func_arity), old(self).state(), *opcode) is Ok,
            r is Ok ==> final(self).state() == spec_process(
                old(self).env(module, func_arity),
                old(self).state(),
                *opcode,
            ).unwrap(),
            r is Err ==> r->Err_0 == spec_process(
                old(self).env(module, func_arity),
                old(self).state(),
                *opcode,
            )->Err_0,
    {
        let ghost env = self.env(module, func_arity);
        let ghost s0 = self.stack@;
        if self.stack.height() > self.max_height && !self.stack.frame(0)?.is_polymorphic {
            self.max_height = self.stack.height();
        }
        let stack = &mut self.stack;
        match opcode {
            Instr::Nop | Instr::Else => {},
            Instr::Block(ty) | Instr::Loop(ty) | Instr::If(ty) => {
                let end_arity: u32 = match ty {
                    BlockType::NoResult => 0,
                    BlockType::Value(_) => 1,
                };
                let branch_arity: u32 = if let Instr::Loop(_) = opcode {
                    0
                } else {
                    end_arity
                };
                if let Instr::If(_) = opcode {
                    stack.pop_values(1)?;
                }
                let height = stack.height();
                stack.push_frame(
                    Frame { is_polymorphic: false, end_arity, branch_arity, start_height: height },
                );
            },
            Instr::End => {
                let frame = stack.pop_frame()?;
                stack.trunc(frame.start_height);
                stack.push_values(frame.end_arity)?;
            },
            Instr::Unreachable => {
                stack.mark_unreachable()?;
            },
            Instr::Br(target) => {
                let target_arity = stack.frame(*target)?.branch_arity;
                stack.pop_values(target_arity)?;
                stack.mark_unreachable()?;
            },
            Instr::BrIf(target) => {
                let target_arity = stack.frame(*target)?.branch_arity;
                stack.pop_values(target_arity)?;
                stack.pop_values(1)?;
                stack.push_values(target_arity)?;
            },
            Instr::BrTable(table, default) => {
                let arity_of_default = self.stack.frame(*default)?.branch_arity;
                let mut k: usize = 0;
                while k < table.len()
                    invariant
                        k <= table.len(),
                        self.stack@ == s0,
                        self.func_types == old(self).func_types,
                        self.func_imports == old(self).func_imports,
                        self.count_instrumented_calls == old(self).count_instrumented_calls,
                        check_table(s0, table@.subrange(0, k as int), arity_of_default) is Ok,
                    decreases table.len() - k,
                {
                    assert(table@.subrange(0, k + 1).drop_last() == table@.subrange(0, k as int));
                    let arity = match self.stack.frame(table[k]) {
                        Ok(f) => f.branch_arity,
                        Err(e) => {
                            proof {
                                lemma_check_table_err_extends(s0, table@, arity_of_default, k + 1);
                            }
                            return Err(e);
                        },
                    };
                    if arity != arity_of_default {
                        proof {
                            lemma_check_table_err_extends(s0, table@, arity_of_default, k + 1);
                        }
                        return Err("Arity of all jump-targets must be equal");
                    }
                    k += 1;
                }
                assert(table@.subrange(0, k as int) == table@);
                self.stack.pop_values(arity_of_default)?;
                self.stack.mark_unreachable()?;
            },
            Instr::Return => {
                stack.pop_values(func_arity)?;
                stack.mark_unreachable()?;
            },
            Instr::Call(idx) => {
                let (params, results) = self.resolve(module, *idx, Ghost(env))?;
                let stack = &mut self.stack;
                stack.pop_values(params)?;
                stack.pop_values(0)?;
                stack.push_values(results)?;
            },
            Instr::CallIndirect(x, _) => {
                if (*x as usize) >= module.types.len() {
                    return Err("Type not found");
                }
                let ty = &module.types[*x as usize];
                stack.pop_values(1)?;
                stack.pop_values(#[verifier::truncate] (ty.params.len() as u32))?;
                stack.push_values(#[verifier::truncate] (ty.results.len() as u32))?;
            },
            Instr::Drop | Instr::SetLocal(_) | Instr::SetGlobal(_) => {
                stack.pop_values(1)?;
            },
            Instr::Select => {
                stack.pop_values(2)?;
                stack.pop_values(1)?;
                stack.push_values(1)?;
            },
            Instr::GetLocal(_) | Instr::GetGlobal(_) | Instr::CurrentMemory(_) | Instr::I32Const(
                _,
            ) | Instr::I64Const(_) | Instr::F32Const(_) | Instr::F64Const(_) => {
                stack.push_values(1)?;
            },
            Instr::TeeLocal(_) | Instr::Load(_, _, _) | Instr::GrowMemory(_) => {
                stack.pop_values(1)?;
                stack.pop_values(0)?;
                stack.push_values(1)?;
            },
            Instr::Store(_, _, _) => {
                stack.pop_values(2)?;
            },
            Instr::Numeric(op) => {
                stack.pop_values(numeric_arity(*op))?;
                stack.pop_values(0)?;
                stack.push_values(1)?;
            },
        }
        Ok(())
    }

    /// Analyses the instructions that the stack limiter puts in place of `call idx`.
    #[verifier::loop_isolation(false)]
    fn process_instrumented_call(&mut self, module: &Module, idx: u32, func_arity: u32) -> (r:
        Result<(), &'static str>)
        ensures
            final(self).func_types == old(self).func_types,
            final(self).func_imports == old(self).func_imports,
            final(self).count_instrumented_calls == old(self).count_instrumented_calls,
            r is Ok <==> spec_run_plain(
                old(self).env(module, func_arity),
                old(self).state(),
                spec_call_bracket(idx, 0, 0, 0),
            ) is Ok,
            r is Ok ==> final(self).state() == spec_run_plain(
                old(self).env(module, func_arity),
                old(self).state(),
                spec_call_bracket(idx, 0, 0, 0),
            ).unwrap(),
            r is Err ==> r->Err_0 == spec_run_plain(
                old(self).env(module, func_arity),
                old(self).state(),
                spec_call_bracket(idx, 0, 0, 0),
            )->Err_0,
    {
        let ghost env = self.env(module, func_arity);
        let ghost st0 = self.state();
        let mut seq: Vec<Instr> = Vec::new();
        call_bracket(&mut seq, idx, 0, 0, 0);
        assert(seq@ == spec_call_bracket(idx, 0, 0, 0));
        let mut j: usize = 0;
        while j < seq.len()
            invariant
                j <= seq.len(),
                seq@ == spec_call_bracket(idx, 0, 0, 0),
                self.func_types == old(self).func_types,
                self.func_imports == old(self).func_imports,
                self.count_instrumented_calls == old(self).count_instrumented_calls,
                env == self.env(module, func_arity),
                spec_run_plain(env, st0, seq@.subrange(0, j as int)) == Ok::<
                    HeightState,
                    &'static str,
                >(self.state()),
            decreases seq.len() - j,
        {
            assert(seq@.subrange(0, j + 1).drop_last() == seq@.subrange(0, j as int));
            assert(seq@.subrange(0, j + 1).last() == seq@[j as int]);
            match self.process_instruction(module, &seq[j], func_arity) {
                Ok(()) => {},
                Err(e) => {
                    proof {
                        lemma_run_plain_err_extends(env, st0, seq@, j as int + 1);
                    }
                    return Err(e);
                },
            }
            j += 1;
        }
        assert(seq@.subrange(0, j as int) == seq@);
        Ok(())
    }

    /// The greatest height of the value stack over `instructions`, the body of a function
    /// with signature `func_signature`.
    #[verifier::loop_isolation(false)]
    pub fn compute_for_raw_func(
        &mut self,
        module: &Module,
        func_signature: &FunctionType,
        instructions: &Vec<Instr>,
    ) -> (r: Result<u32, &'static str>)
        requires
            old(self).stack@.height == 0,
            old(self).stack@.frames.len() == 0,
            old(self).max_height == 0,
        ensures
            r == spec_max_height_raw(
                module.types@,
                old(self).func_types@,
                old(self).func_imports as nat,
                old(self).count_instrumented_calls,
                *func_signature,
                instructions@,
            ),
    {
        let func_arity: u32 = #[verifier::truncate] (func_signature.results.len() as u32);
        self.stack.push_frame(
            Frame {
                is_polymorphic: false,
                end_arity: func_arity,
                branch_arity: func_arity,
                start_height: 0,
            },
        );
        let ghost env = self.env(module, func_arity);
        let ghost st0 = initial_state(func_arity);
        assert(self.stack@.frames =~= st0.stack.frames);
        let mut i: usize = 0;
        while i < instructions.len()
            invariant
                i <= instructions.len(),
                self.func_types == old(self).func_types,
                self.func_imports == old(self).func_imports,
                self.count_instrumented_calls == old(self).count_instrumented_calls,
                env == self.env(module, func_arity),
                spec_run(env, st0, instructions@.subrange(0, i as int)) == Ok::<
                    HeightState,
                    &'static str,
                >(self.state()),
            decreases instructions.len() - i,
        {
            assert(instructions@.subrange(0, i + 1).drop_last() == instructions@.subrange(
                0,
                i as int,
            ));
            let instruction = &instructions[i];
            assert(instructions@.subrange(0, i + 1).last() == instructions@[i as int]);
            let counted = match instruction {
                Instr::Call(idx) => self.count_instrumented_calls && (*idx as usize)
                    >= self.func_imports,
                _ => false,
            };
            let res = if counted {
                let idx = match instruction {
                    Instr::Call(idx) => *idx,
                    _ => 0,
                };
                self.process_instrumented_call(module, idx, func_arity)
            } else {
                self.process_instruction(module, instruction, func_arity)
            };
            if let Err(e) = res {
                proof {
                    assert(counted == counted_as_instrumented(env, *instruction));
                    lemma_run_err_extends(env, st0, instructions@, i as int + 1);
                }
                return Err(e);
            }
            i += 1;
        }
        assert(instructions@.subrange(0, i as int) == instructions@);
        Ok(self.max_height)
    }

    /// The greatest height of the value stack over defined function `func_idx` of `module`.
    pub fn compute_for_defined_func(&mut self, module: &Module, func_idx: u32) -> (r: Result<
        u32,
        &'static str,
    >)
        requires
            old(self).stack@.height == 0,
            old(self).stack@.frames.len() == 0,
            old(self).max_height == 0,
            old(self).func_types@ == module.spec_func_types(),
            old(self).func_imports == module.spec_func_imports(),
        ensures
            r == spec_max_height(*module, func_idx, old(self).count_instrumented_calls),
    {
        if func_idx as usize >= module.functions.len() {
            return Err("Function is not found in func section");
        }
        let func_sig_idx = module.functions[func_idx as usize];
        if func_sig_idx as usize >= module.types.len() {
            return Err("Function is not found in func section");
        }
        if func_idx as usize >= module.code.len() {
            return Err("Function body for the index isn't found");
        }
        let func_signature = &module.types[func_sig_idx as usize];
        let body = &module.code[func_idx as usize];
        self.compute_for_raw_func(module, func_signature, &body.code)
    }
}

/// A failed prefix of a `br_table`'s targets gives the check its error.
proof fn lemma_check_table_err_extends(s: StackModel, table: Seq<u32>, arity: u32, i: int)
    requires
        0 <= i <= table.len(),
        check_table(s, table.subrange(0, i), arity) is Err,
    ensures
        check_table(s, table, arity) == check_table(s, table.subrange(0, i), arity),
    decreases table.len() - i,
{
    if i < table.len() {
        assert(table.subrange(0, i + 1).drop_last() == table.subrange(0, i));
        lemma_check_table_err_extends(s, table, arity, i + 1);
    } else {
        assert(table.subrange(0, i) == table);
    }
}

/// A failed prefix gives the whole analysis its error.
proof fn lemma_run_err_extends(env: HeightEnv, st: HeightState, instrs: Seq<Instr>, i: int)
    requires
        0 <= i <= instrs.len(),
        spec_run(env, st, instrs.subrange(0, i)) is Err,
    ensures
        spec_run(env, st, instrs) == spec_run(env, st, instrs.subrange(0, i)),
    decreases instrs.len() - i,
{
    if i < instrs.len() {
        assert(instrs.subrange(0, i + 1).drop_last() == instrs.subrange(0, i));
        lemma_run_err_extends(env, st, instrs, i + 1);
    } else {
        assert(instrs.subrange(0, i) == instrs);
    }
}

/// A failed prefix gives the whole analysis its error.
proof fn lemma_run_plain_err_extends(env: HeightEnv, st: HeightState, instrs: Seq<Instr>, i: int)
    requires
        0 <= i <= instrs.len(),
        spec_run_plain(env, st, instrs.subrange(0, i)) is Err,
    ensures
        spec_run_plain(env, st, instrs) == spec_run_plain(env, st, instrs.subrange(0, i)),
    decreases instrs.len() - i,
{
    if i < instrs.len() {
        assert(instrs.subrange(0, i + 1).drop_last() == instrs.subrange(0, i));
        lemma_run_plain_err_extends(env, st, instrs, i + 1);
    } else {
        assert(instrs.subrange(0, i) == instrs);
    }
}

/// The greatest height of the value stack over defined function `func_idx` of `module`,
/// counting the instructions that the stack limiter puts around each call to a defined
/// function.
pub fn compute(func_idx: u32, module: &Module) -> (r: Result<u32, &'static str>)
    ensures
        r == spec_max_height(*module, func_idx, true),
{
    let counter = MaxStackHeightCounter::new(module);
    let mut counter = counter.count_instrumented_calls(true);
    counter.compute_for_defined_func(module, func_idx)
}

/// The greatest height of the value stack over a function that is not in `module`, such as
/// a thunk, with signature `func_signature` and body `instructions`, calling into `module`.
pub fn compute_raw(func_signature: &FunctionType, instructions: &Vec<Instr>, module: &Module) -> (r:
    Result<u32, &'static str>)
    ensures
        r == spec_max_height_raw(
            module.types@,
            module.spec_func_types(),
            module.spec_func_imports(),
            false,
            *func_signature,
            instructions@,
        ),
{
    let mut counter = MaxStackHeightCounter::new(module);
    counter.compute_for_raw_func(module, func_signature, instructions)
}

} // verus!
