//! Splits a function body into metered blocks: runs of instructions that, barring a trap,
//! execute all together or not at all, so that one charge at the start of each pays for it.
use vstd::prelude::*;

use crate::wasm::{reversed, Instr};
use super::Rules;

verus! {

/// A block of code that metering instructions are inserted at the beginning of.
#[derive(Debug, Clone, Copy, PartialEq, Eq, Structural)]
pub struct MeteredBlock {
    /// Index of the first instruction in the block.
    pub start_pos: usize,
    /// Sum of the costs of the instructions of the block.
    pub cost: u64,
}

/// A control block, opened by `block`, `loop` or `if` and closed by `end`. The first one on
/// the stack stands for the function body.
#[derive(Debug, Clone, Copy, PartialEq, Eq, Structural)]
pub struct ControlBlock {
    /// The lowest stack index that a forward branch from within this block targets; at most
    /// the block's own index.
    pub lowest_forward_br_target: usize,
    /// The metered block that instructions are currently charged to.
    pub active_metered_block: MeteredBlock,
    /// Branches to a loop go back to its start rather than forward to its end.
    pub is_loop: bool,
}

/// The state of the metering algorithm, as values.
pub struct CounterModel {
    pub stack: Seq<ControlBlock>,
    pub finalized_blocks: Seq<MeteredBlock>,
}

/// The state of the metering algorithm over one function body.
pub struct Counter {
    /// Open control blocks; a block's label is one less than its position.
    pub stack: Vec<ControlBlock>,
    /// Metered blocks whose cost will not change any more.
    pub finalized_blocks: Vec<MeteredBlock>,
}

impl Counter {
    pub open spec fn model(&self) -> CounterModel {
        CounterModel { stack: self.stack@, finalized_blocks: self.finalized_blocks@ }
    }
}

/// Opens a control block whose active metered block starts at `cursor`.
pub open spec fn spec_begin_control_block(c: CounterModel, cursor: usize, is_loop: bool) -> CounterModel {
    CounterModel {
        stack: c.stack.push(
            ControlBlock {
                lowest_forward_br_target: c.stack.len() as usize,
                active_metered_block: MeteredBlock { start_pos: cursor, cost: 0 },
                is_loop,
            },
        ),
        finalized_blocks: c.finalized_blocks,
    }
}

/// Finalizes the active metered block of the top control block, and starts a new one after
/// `cursor`. A block that starts where the block of the control block below starts is merged
/// into it; an empty block is dropped.
pub open spec fn spec_finalize_metered_block(c: CounterModel, cursor: usize) -> Option<CounterModel> {
    if c.stack.len() == 0 {
        None
    } else {
        let last = c.stack.len() - 1;
        let closing = c.stack[last].active_metered_block;
        let stack = c.stack.update(
            last,
            ControlBlock {
                active_metered_block: MeteredBlock { start_pos: (cursor + 1) as usize, cost: 0 },
                ..c.stack[last]
            },
        );
        if last > 0 && closing.start_pos == stack[last - 1].active_metered_block.start_pos {
            let prev = stack[last - 1];
            if prev.active_metered_block.cost + closing.cost > u64::MAX {
                None
            } else {
                Some(
                    CounterModel {
                        stack: stack.update(
                            last - 1,
                            ControlBlock {
                                active_metered_block: MeteredBlock {
                                    start_pos: prev.active_metered_block.start_pos,
                                    cost: (prev.active_metered_block.cost + closing.cost) as u64,
                                },
                                ..prev
                            },
                        ),
                        finalized_blocks: c.finalized_blocks,
                    },
                )
            }
        } else {
            Some(
                CounterModel {
                    stack,
                    finalized_blocks: if closing.cost > 0 {
                        c.finalized_blocks.push(closing)
                    } else {
                        c.finalized_blocks
                    },
                },
            )
        }
    }
}

/// The smaller of two indices.
pub open spec fn min_index(a: usize, b: usize) -> usize {
    if a <= b {
        a
    } else {
        b
    }
}

/// Sets the lowest forward branch target of the top control block to at most `target`.
pub open spec fn lower_target(c: CounterModel, target: usize) -> CounterModel {
    let last = c.stack.len() - 1;
    CounterModel {
        stack: c.stack.update(
            last,
            ControlBlock {
                lowest_forward_br_target: min_index(c.stack[last].lowest_forward_br_target, target),
                ..c.stack[last]
            },
        ),
        finalized_blocks: c.finalized_blocks,
    }
}

/// Closes the top control block at `cursor`.
pub open spec fn spec_finalize_control_block(c: CounterModel, cursor: usize) -> Option<CounterModel> {
    match spec_finalize_metered_block(c, cursor) {
        None => None,
        Some(c1) => {
            let closing = c1.stack.last();
            let c2 = CounterModel { stack: c1.stack.drop_last(), finalized_blocks: c1.finalized_blocks };
            if c2.stack.len() == 0 {
                Some(c2)
            } else {
                let c3 = lower_target(c2, closing.lowest_forward_br_target);
                if closing.lowest_forward_br_target < c2.stack.len() {
                    spec_finalize_metered_block(c3, cursor)
                } else {
                    Some(c3)
                }
            }
        },
    }
}

/// Notes branches to the control blocks at stack positions `indices` in the top control block.
pub open spec fn spec_branch_targets(c: CounterModel, indices: Seq<usize>) -> Option<CounterModel>
    decreases indices.len(),
{
    if indices.len() == 0 {
        Some(c)
    } else {
        match spec_branch_targets(c, indices.drop_last()) {
            None => None,
            Some(c1) => {
                let index = indices.last();
                if index >= c1.stack.len() {
                    None
                } else if c1.stack[index as int].is_loop {
                    Some(c1)
                } else {
                    Some(lower_target(c1, index))
                }
            },
        }
    }
}

/// Handles a branch at `cursor` to the control blocks at stack positions `indices`.
pub open spec fn spec_branch(c: CounterModel, cursor: usize, indices: Seq<usize>) -> Option<
    CounterModel,
> {
    match spec_finalize_metered_block(c, cursor) {
        None => None,
        Some(c1) => spec_branch_targets(c1, indices),
    }
}

/// Adds `val` to the cost of the active metered block.
pub open spec fn spec_increment(c: CounterModel, val: u32) -> Option<CounterModel> {
    if c.stack.len() == 0 {
        None
    } else {
        let last = c.stack.len() - 1;
        let top = c.stack[last];
        if top.active_metered_block.cost + val > u64::MAX {
            None
        } else {
            Some(
                CounterModel {
                    stack: c.stack.update(
                        last,
                        ControlBlock {
                            active_metered_block: MeteredBlock {
                                start_pos: top.active_metered_block.start_pos,
                                cost: (top.active_metered_block.cost + val) as u64,
                            },
                            ..top
                        },
                    ),
                    finalized_blocks: c.finalized_blocks,
                },
            )
        }
    }
}

impl Counter {
    pub fn new() -> (r: Counter)
        ensures
            r.stack@.len() == 0,
            r.finalized_blocks@.len() == 0,
    {
        Counter { stack: Vec::new(), finalized_blocks: Vec::new() }
    }

    /// Opens a new control block. The cursor is the position of the first instruction in
    /// the block.
    pub fn begin_control_block(&mut self, cursor: usize, is_loop: bool)
        ensures
            final(self).model() == spec_begin_control_block(old(self).model(), cursor, is_loop),
    {
        let index = self.stack.len();
        self.stack.push(
            ControlBlock {
                lowest_forward_br_target: index,
                active_metered_block: MeteredBlock { start_pos: cursor, cost: 0 },
                is_loop,
            },
        );
    }

    /// Closes the top control block. The cursor is the position of its `end`.
    pub fn finalize_control_block(&mut self, cursor: usize) -> (r: Result<(), ()>)
        requires
            cursor < usize::MAX,
        ensures
            r is Ok <==> spec_finalize_control_block(old(self).model(), cursor) is Some,
            r is Ok ==> final(self).model() == spec_finalize_control_block(
                old(self).model(),
                cursor,
            ).unwrap(),
    {
        self.finalize_metered_block(cursor)?;
        let closing_control_block = match self.stack.pop() {
            Some(b) => b,
            None => {
                return Err(());
            },
        };
        let closing_control_index = self.stack.len();
        if self.stack.len() == 0 {
            return Ok(());
        }
        let last = self.stack.len() - 1;
        let top = self.stack[last];
        let lowest = if top.lowest_forward_br_target <= closing_control_block.lowest_forward_br_target {
            top.lowest_forward_br_target
        } else {
            closing_control_block.lowest_forward_br_target
        };
        self.stack.set(last, ControlBlock { lowest_forward_br_target: lowest, ..top });
        let may_br_out = closing_control_block.lowest_forward_br_target < closing_control_index;
        if may_br_out {
            self.finalize_metered_block(cursor)?;
        }
        Ok(())
    }

    /// Finalizes the current active metered block.
    pub fn finalize_metered_block(&mut self, cursor: usize) -> (r: Result<(), ()>)
        requires
            cursor < usize::MAX,
        ensures
            r is Ok <==> spec_finalize_metered_block(old(self).model(), cursor) is Some,
            r is Ok ==> final(self).model() == spec_finalize_metered_block(
                old(self).model(),
                cursor,
            ).unwrap(),
    {
        let len = self.stack.len();
        if len == 0 {
            return Err(());
        }
        let last = len - 1;
        let top = self.stack[last];
        let closing = top.active_metered_block;
        self.stack.set(
            last,
            ControlBlock {
                active_metered_block: MeteredBlock { start_pos: cursor + 1, cost: 0 },
                ..top
            },
        );
        if last > 0 {
            let prev = self.stack[last - 1];
            if closing.start_pos == prev.active_metered_block.start_pos {
                let cost = match prev.active_metered_block.cost.checked_add(closing.cost) {
                    Some(c) => c,
                    None => {
                        return Err(());
                    },
                };
                self.stack.set(
                    last - 1,
                    ControlBlock {
                        active_metered_block: MeteredBlock {
                            start_pos: prev.active_metered_block.start_pos,
                            cost,
                        },
                        ..prev
                    },
                );
                return Ok(());
            }
        }
        if closing.cost > 0 {
            self.finalized_blocks.push(closing);
        }
        Ok(())
    }

    /// Handles a branch instruction at `cursor` to the control blocks at stack positions
    /// `indices`.
    #[verifier::loop_isolation(false)]
    pub fn branch(&mut self, cursor: usize, indices: &Vec<usize>) -> (r: Result<(), ()>)
        requires
            cursor < usize::MAX,
        ensures
            r is Ok <==> spec_branch(old(self).model(), cursor, indices@) is Some,
            r is Ok ==> final(self).model() == spec_branch(
                old(self).model(),
                cursor,
                indices@,
            ).unwrap(),
    {
        self.finalize_metered_block(cursor)?;
        let ghost c1 = self.model();
        let mut i: usize = 0;
        while i < indices.len()
            invariant
                i <= indices@.len(),
                spec_branch_targets(c1, indices@.subrange(0, i as int)) == Some(self.model()),
            decreases indices@.len() - i,
        {
            assert(indices@.subrange(0, i + 1).drop_last() == indices@.subrange(0, i as int));
            let index = indices[i];
            assert(indices@.subrange(0, i + 1).last() == index);
            if index >= self.stack.len() {
                proof {
                    assert(spec_branch_targets(c1, indices@.subrange(0, i + 1)) is None);
                    lemma_branch_targets_none_extends(c1, indices@, i + 1);
                }
                return Err(());
            }
            if !self.stack[index].is_loop {
                let last = self.stack.len() - 1;
                let top = self.stack[last];
                let lowest = if top.lowest_forward_br_target <= index {
                    top.lowest_forward_br_target
                } else {
                    index
                };
                self.stack.set(last, ControlBlock { lowest_forward_br_target: lowest, ..top });
            }
            i += 1;
        }
        assert(indices@.subrange(0, i as int) == indices@);
        Ok(())
    }

    /// Returns the stack index of the active control block, if any.
    pub fn active_control_block_index(&self) -> (r: Option<usize>)
        ensures
            r == (if self.stack@.len() == 0 {
                None
            } else {
                Some((self.stack@.len() - 1) as usize)
            }),
    {
        self.stack.len().checked_sub(1)
    }

    /// The currently active metered block.
    pub fn active_metered_block(&self) -> (r: Result<MeteredBlock, ()>)
        ensures
            r is Ok <==> self.stack@.len() > 0,
            r is Ok ==> r.unwrap() == self.stack@.last().active_metered_block,
    {
        let len = self.stack.len();
        if len == 0 {
            return Err(());
        }
        Ok(self.stack[len - 1].active_metered_block)
    }

    /// Increments the cost of the current block by the specified value.
    pub fn increment(&mut self, val: u32) -> (r: Result<(), ()>)
        ensures
            r is Ok <==> spec_increment(old(self).model(), val) is Some,
            r is Ok ==> final(self).model() == spec_increment(old(self).model(), val).unwrap(),
    {
        let len = self.stack.len();
        if len == 0 {
            return Err(());
        }
        let top = self.stack[len - 1];
        let cost = match top.active_metered_block.cost.checked_add(val as u64) {
            Some(c) => c,
            None => {
                return Err(());
            },
        };
        self.stack.set(
            len - 1,
            ControlBlock {
                active_metered_block: MeteredBlock {
                    start_pos: top.active_metered_block.start_pos,
                    cost,
                },
                ..top
            },
        );
        Ok(())
    }
}

/// The stack positions of the branch targets `labels`, relative to the control block at
/// `active`; `None` where a label reaches below the bottom of the stack.
pub open spec fn label_targets(active: usize, labels: Seq<u32>) -> Option<Seq<usize>> {
    if forall|k: int| 0 <= k < labels.len() ==> #[trigger] labels[k] <= active {
        Some(labels.map_values(|l: u32| (active - l) as usize))
    } else {
        None
    }
}

/// The stack positions of the targets of a branch instruction, where it is one.
pub open spec fn branch_labels(instr: Instr) -> Seq<u32> {
    match instr {
        Instr::Br(l) | Instr::BrIf(l) => seq![l],
        Instr::BrTable(table, default) => seq![default] + table@,
        _ => seq![],
    }
}

/// One step of the metering algorithm: the instruction at `cursor`, of cost `cost`.
pub open spec fn spec_step(c: CounterModel, cursor: usize, instr: Instr, cost: u32) -> Option<
    CounterModel,
> {
    if instr is End {
        spec_finalize_control_block(c, cursor)
    } else if instr is Else {
        spec_finalize_metered_block(c, cursor)
    } else {
        match spec_increment(c, cost) {
            None => None,
            Some(c1) => match instr {
                Instr::Block(_) => Some(
                    spec_begin_control_block(
                        c1,
                        c1.stack.last().active_metered_block.start_pos,
                        false,
                    ),
                ),
                Instr::If(_) => Some(spec_begin_control_block(c1, (cursor + 1) as usize, false)),
                Instr::Loop(_) => Some(spec_begin_control_block(c1, (cursor + 1) as usize, true)),
                Instr::Br(_) | Instr::BrIf(_) | Instr::BrTable(_, _) => match label_targets(
                    (c1.stack.len() - 1) as usize,
                    branch_labels(instr),
                ) {
                    None => None,
                    Some(targets) => spec_branch(c1, cursor, targets),
                },
                Instr::Return => spec_branch(c1, cursor, seq![0usize]),
                _ => Some(c1),
            },
        }
    }
}

/// The state in which the analysis of a body starts: the function's control block, charged
/// for the initialization of `locals_count` locals.
pub open spec fn spec_initial<R: Rules>(rules: R, locals_count: u32) -> Option<CounterModel> {
    let c0 = spec_begin_control_block(
        CounterModel { stack: seq![], finalized_blocks: seq![] },
        0,
        false,
    );
    if rules.spec_call_per_local_cost() * locals_count > u32::MAX {
        None
    } else {
        spec_increment(c0, (rules.spec_call_per_local_cost() * locals_count) as u32)
    }
}

/// The state of the metering algorithm after the first `n` instructions of `instrs`.
pub open spec fn spec_run<R: Rules>(rules: R, instrs: Seq<Instr>, locals_count: u32, n: nat) -> Option<
    CounterModel,
>
    decreases n,
{
    if n == 0 {
        spec_initial(rules, locals_count)
    } else {
        match spec_run(rules, instrs, locals_count, (n - 1) as nat) {
            None => None,
            Some(c) => match rules.spec_instruction_cost(instrs[n - 1]) {
                None => None,
                Some(cost) => spec_step(c, (n - 1) as usize, instrs[n - 1], cost),
            },
        }
    }
}

/// The metered blocks of a body, in the order in which they were finalized.
pub open spec fn spec_metered_blocks<R: Rules>(rules: R, instrs: Seq<Instr>, locals_count: u32) -> Option<
    Seq<MeteredBlock>,
> {
    match spec_run(rules, instrs, locals_count, instrs.len()) {
        None => None,
        Some(c) => Some(c.finalized_blocks),
    }
}

/// Where function index `k` goes when an imported function is added at index `g`; indices
/// wrap around at `u32::MAX`.
pub open spec fn spec_shift_index(k: u32, g: u32) -> u32 {
    if k >= g {
        if k == u32::MAX {
            0
        } else {
            (k + 1) as u32
        }
    } else {
        k
    }
}

/// Where function index `k` goes when an imported function is added at index `g`.
pub fn shift_index(k: u32, g: u32) -> (r: u32)
    ensures
        r == spec_shift_index(k, g),
{
    if k >= g {
        if k == u32::MAX {
            0
        } else {
            k + 1
        }
    } else {
        k
    }
}

/// An instruction with its call index shifted, where `call_shift` says so.
pub open spec fn shift_instr(instr: Instr, call_shift: Option<u32>) -> Instr {
    match (instr, call_shift) {
        (Instr::Call(k), Some(g)) => Instr::Call(spec_shift_index(k, g)),
        _ => instr,
    }
}

/// A body with its call indices shifted, where `call_shift` says so.
pub open spec fn shifted_code(instrs: Seq<Instr>, call_shift: Option<u32>) -> Seq<Instr> {
    instrs.map_values(|i: Instr| shift_instr(i, call_shift))
}

/// The blocks are ordered by start position.
pub open spec fn sorted_by_start(blocks: Seq<MeteredBlock>) -> bool {
    forall|i: int, j: int|
        0 <= i < j < blocks.len() ==> (#[trigger] blocks[i]).start_pos <= (#[trigger] blocks[j]).start_pos
}

/// The first position of `s` whose block starts after `x`, or its length.
pub open spec fn first_after(s: Seq<MeteredBlock>, x: usize) -> nat
    decreases s.len(),
{
    if s.len() == 0 {
        0
    } else if s[0].start_pos > x {
        0
    } else {
        1 + first_after(s.subrange(1, s.len() as int), x)
    }
}

/// Insertion sort by start position; blocks with equal start positions keep their order.
pub open spec fn spec_sort(s: Seq<MeteredBlock>) -> Seq<MeteredBlock>
    decreases s.len(),
{
    if s.len() == 0 {
        seq![]
    } else {
        let sorted = spec_sort(s.drop_last());
        sorted.insert(first_after(sorted, s.last().start_pos) as int, s.last())
    }
}

proof fn lemma_first_after(s: Seq<MeteredBlock>, x: usize, p: int)
    requires
        0 <= p <= s.len(),
        forall|k: int| 0 <= k < p ==> (#[trigger] s[k]).start_pos <= x,
        p == s.len() || s[p].start_pos > x,
    ensures
        first_after(s, x) == p,
    decreases s.len(),
{
    if s.len() > 0 && p > 0 {
        let t = s.subrange(1, s.len() as int);
        assert forall|k: int| 0 <= k < p - 1 implies (#[trigger] t[k]).start_pos <= x by {
            assert(t[k] == s[k + 1]);
        }
        if p < s.len() {
            assert(t[p - 1] == s[p]);
        }
        lemma_first_after(t, x, p - 1);
    }
}

/// Sorts metered blocks by start position.
pub fn sort_blocks(blocks: Vec<MeteredBlock>) -> (r: Vec<MeteredBlock>)
    ensures
        r@ == spec_sort(blocks@),
        sorted_by_start(r@),
        r@.to_multiset() == blocks@.to_multiset(),
{
    broadcast use vstd::seq_lib::to_multiset_build, vstd::seq_lib::to_multiset_insert;

    let mut out: Vec<MeteredBlock> = Vec::new();
    let mut i: usize = 0;
    assert(out@ =~= blocks@.subrange(0, 0));
    while i < blocks.len()
        invariant
            i <= blocks@.len(),
            sorted_by_start(out@),
            out@.to_multiset() == blocks@.subrange(0, i as int).to_multiset(),
            out@ == spec_sort(blocks@.subrange(0, i as int)),
        decreases blocks@.len() - i,
    {
        let b = blocks[i];
        let mut p: usize = 0;
        while p < out.len() && out[p].start_pos <= b.start_pos
            invariant
                p <= out@.len(),
                forall|k: int| 0 <= k < p ==> (#[trigger] out@[k]).start_pos <= b.start_pos,
            decreases out@.len() - p,
        {
            p += 1;
        }
        proof {
            lemma_first_after(out@, b.start_pos, p as int);
            assert(blocks@.subrange(0, i + 1).drop_last() == blocks@.subrange(0, i as int));
        }
        let ghost before = out@;
        out.insert(p, b);
        assert(out@ == before.insert(p as int, b));
        assert forall|x: int, y: int|
            0 <= x < y < out@.len() implies (#[trigger] out@[x]).start_pos <= (
            #[trigger] out@[y]).start_pos by {
            if y < p {
                assert(out@[x] == before[x] && out@[y] == before[y]);
            } else if y == p {
                assert(out@[x] == before[x]);
            } else if x < p {
                assert(out@[x] == before[x] && out@[y] == before[y - 1]);
                assert(before[x].start_pos <= b.start_pos);
                assert(p < before.len() ==> before[p as int].start_pos > b.start_pos);
                assert(before[p as int].start_pos <= before[y - 1].start_pos);
            } else if x == p {
                assert(out@[y] == before[y - 1]);
                assert(before[p as int].start_pos > b.start_pos);
                assert(before[p as int].start_pos <= before[y - 1].start_pos || p == y - 1);
            } else {
                assert(out@[x] == before[x - 1] && out@[y] == before[y - 1]);
            }
        }
        assert(blocks@.subrange(0, i + 1) == blocks@.subrange(0, i as int).push(b));
        proof {
            vstd::seq_lib::to_multiset_insert(before, p as int, b);
            vstd::seq_lib::to_multiset_build(blocks@.subrange(0, i as int), b);
        }
        i += 1;
    }
    assert(blocks@.subrange(0, i as int) == blocks@);
    out
}

/// Splits `instructions` into metered blocks under `rules`, charging the function's block
/// for the initialization of `locals_count` locals. The blocks come out ordered by start
/// position.
///
/// Where `call_shift` is `Some(g)`, the body is read as if each `call k` with `k >= g` were
/// `call k+1`.
#[verifier::loop_isolation(false)]
pub fn determine_metered_blocks<R: Rules>(
    body: &Vec<Instr>,
    call_shift: Option<u32>,
    rules: &R,
    locals_count: u32,
) -> (r: Result<Vec<MeteredBlock>, ()>)
    ensures
        r is Ok <==> body@.len() < usize::MAX && spec_metered_blocks(
            *rules,
            shifted_code(body@, call_shift),
            locals_count,
        ) is Some,
        r is Ok ==> r.unwrap()@ == spec_sort(
            spec_metered_blocks(*rules, shifted_code(body@, call_shift), locals_count).unwrap(),
        ),
        r is Ok ==> sorted_by_start(r.unwrap()@) && r.unwrap()@.to_multiset() == spec_metered_blocks(
            *rules,
            shifted_code(body@, call_shift),
            locals_count,
        ).unwrap().to_multiset(),
        r is Ok ==> forall|k: int| 0 <= k < r.unwrap()@.len() ==> (#[trigger] r.unwrap()@[k]).cost > 0,
{
    if body.len() == usize::MAX {
        return Err(());
    }
    let ghost instructions = shifted_code(body@, call_shift);
    let mut counter = Counter::new();
    counter.begin_control_block(0, false);
    let locals_init_cost = match rules.call_per_local_cost().checked_mul(locals_count) {
        Some(c) => c,
        None => {
            proof {
                lemma_run_none_extends(*rules, instructions, locals_count, 0);
            }
            return Err(());
        },
    };
    assert(counter.stack@ =~= spec_begin_control_block(
        CounterModel { stack: seq![], finalized_blocks: seq![] },
        0,
        false,
    ).stack);
    assert(counter.finalized_blocks@ =~= Seq::<MeteredBlock>::empty());
    if counter.increment(locals_init_cost).is_err() {
        proof {
            lemma_run_none_extends(*rules, instructions, locals_count, 0);
        }
        return Err(());
    }
    let mut cursor: usize = 0;
    while cursor < body.len()
        invariant
            cursor <= body@.len(),
            body@.len() < usize::MAX,
            instructions.len() == body@.len(),
            spec_run(*rules, instructions, locals_count, cursor as nat) == Some(counter.model()),
        decreases body@.len() - cursor,
    {
        let ok = match (&body[cursor], call_shift) {
            (Instr::Call(k), Some(g)) => {
                let shifted = Instr::Call(shift_index(*k, g));
                match rules.instruction_cost(&shifted) {
                    None => false,
                    Some(cost) => step(&mut counter, cursor, &shifted, cost).is_ok(),
                }
            },
            (instruction, _) => match rules.instruction_cost(instruction) {
                None => false,
                Some(cost) => step(&mut counter, cursor, instruction, cost).is_ok(),
            },
        };
        if !ok {
            proof {
                lemma_run_none_extends(*rules, instructions, locals_count, cursor as nat + 1);
            }
            return Err(());
        }
        cursor += 1;
    }
    proof {
        lemma_run_positive(*rules, instructions, locals_count, instructions.len());
    }
    let ghost finalized = counter.finalized_blocks@;
    let sorted = sort_blocks(counter.finalized_blocks);
    proof {
        assert forall|k: int| 0 <= k < sorted@.len() implies (#[trigger] sorted@[k]).cost > 0 by {
            vstd::seq_lib::to_multiset_contains(sorted@, sorted@[k]);
            vstd::seq_lib::to_multiset_contains(finalized, sorted@[k]);
            assert(sorted@.contains(sorted@[k]));
        }
    }
    Ok(sorted)
}

/// Every block of `blocks` costs something.
pub open spec fn all_positive(blocks: Seq<MeteredBlock>) -> bool {
    forall|k: int| 0 <= k < blocks.len() ==> (#[trigger] blocks[k]).cost > 0
}

proof fn lemma_finalize_positive(c: CounterModel, cursor: usize)
    requires
        all_positive(c.finalized_blocks),
        spec_finalize_metered_block(c, cursor) is Some,
    ensures
        all_positive(spec_finalize_metered_block(c, cursor).unwrap().finalized_blocks),
{
    let r = spec_finalize_metered_block(c, cursor).unwrap();
    assert forall|k: int| 0 <= k < r.finalized_blocks.len() implies (
    #[trigger] r.finalized_blocks[k]).cost > 0 by {
        if k < c.finalized_blocks.len() {
            assert(r.finalized_blocks[k] == c.finalized_blocks[k]);
        }
    }
}

proof fn lemma_branch_targets_keep(c: CounterModel, indices: Seq<usize>)
    requires
        spec_branch_targets(c, indices) is Some,
    ensures
        spec_branch_targets(c, indices).unwrap().finalized_blocks == c.finalized_blocks,
    decreases indices.len(),
{
    if indices.len() > 0 {
        lemma_branch_targets_keep(c, indices.drop_last());
    }
}

proof fn lemma_step_positive(c: CounterModel, cursor: usize, instr: Instr, cost: u32)
    requires
        all_positive(c.finalized_blocks),
        spec_step(c, cursor, instr, cost) is Some,
    ensures
        all_positive(spec_step(c, cursor, instr, cost).unwrap().finalized_blocks),
{
    if instr is End {
        lemma_finalize_positive(c, cursor);
        let c1 = spec_finalize_metered_block(c, cursor).unwrap();
        let c2 = CounterModel { stack: c1.stack.drop_last(), finalized_blocks: c1.finalized_blocks };
        if c2.stack.len() > 0 {
            let c3 = lower_target(c2, c1.stack.last().lowest_forward_br_target);
            if c1.stack.last().lowest_forward_br_target < c2.stack.len() {
                lemma_finalize_positive(c3, cursor);
            }
        }
    } else if instr is Else {
        lemma_finalize_positive(c, cursor);
    } else {
        let c1 = spec_increment(c, cost).unwrap();
        match instr {
            Instr::Br(_) | Instr::BrIf(_) | Instr::BrTable(_, _) | Instr::Return => {
                lemma_finalize_positive(c1, cursor);
                let c2 = spec_finalize_metered_block(c1, cursor).unwrap();
                if instr is Return {
                    lemma_branch_targets_keep(c2, seq![0usize]);
                } else {
                    let targets = label_targets((c1.stack.len() - 1) as usize, branch_labels(instr)).unwrap();
                    lemma_branch_targets_keep(c2, targets);
                }
            },
            _ => {},
        }
    }
}

proof fn lemma_run_positive<R: Rules>(rules: R, instrs: Seq<Instr>, locals_count: u32, n: nat)
    requires
        spec_run(rules, instrs, locals_count, n) is Some,
    ensures
        all_positive(spec_run(rules, instrs, locals_count, n).unwrap().finalized_blocks),
    decreases n,
{
    if n > 0 {
        lemma_run_positive(rules, instrs, locals_count, (n - 1) as nat);
        let c = spec_run(rules, instrs, locals_count, (n - 1) as nat).unwrap();
        let cost = rules.spec_instruction_cost(instrs[n - 1]).unwrap();
        lemma_step_positive(c, (n - 1) as usize, instrs[n - 1], cost);
    }
}

/// Processes the instruction at `cursor`, of cost `cost`.
#[verifier::loop_isolation(false)]
fn step(counter: &mut Counter, cursor: usize, instruction: &Instr, cost: u32) -> (r: Result<(), ()>)
    requires
        cursor < usize::MAX,
    ensures
        r is Ok <==> spec_step(old(counter).model(), cursor, *instruction, cost) is Some,
        r is Ok ==> final(counter).model() == spec_step(
            old(counter).model(),
            cursor,
            *instruction,
            cost,
        ).unwrap(),
{
    match instruction {
        Instr::End => {
            return counter.finalize_control_block(cursor);
        },
        Instr::Else => {
            return counter.finalize_metered_block(cursor);
        },
        _ => {},
    }
    counter.increment(cost)?;
    match instruction {
        Instr::Block(_) => {
            let top_block_start_pos = counter.active_metered_block()?.start_pos;
            counter.begin_control_block(top_block_start_pos, false);
            Ok(())
        },
        Instr::If(_) => {
            counter.begin_control_block(cursor + 1, false);
            Ok(())
        },
        Instr::Loop(_) => {
            counter.begin_control_block(cursor + 1, true);
            Ok(())
        },
        Instr::Br(label) | Instr::BrIf(label) => {
            let active_index = match counter.active_control_block_index() {
                Some(i) => i,
                None => {
                    return Err(());
                },
            };
            if (*label as usize) > active_index {
                assert(branch_labels(*instruction)[0] == *label);
                return Err(());
            }
            let mut targets: Vec<usize> = Vec::new();
            targets.push(active_index - *label as usize);
            assert(targets@ =~= branch_labels(*instruction).map_values(
                |l: u32| (active_index - l) as usize,
            ));
            counter.branch(cursor, &targets)
        },
        Instr::BrTable(table, default) => {
            let active_index = match counter.active_control_block_index() {
                Some(i) => i,
                None => {
                    return Err(());
                },
            };
            let ghost labels = branch_labels(*instruction);
            assert(labels == seq![*default] + table@);
            if (*default as usize) > active_index {
                assert(labels[0] == *default);
                return Err(());
            }
            let mut targets: Vec<usize> = Vec::new();
            targets.push(active_index - *default as usize);
            let mut k: usize = 0;
            while k < table.len()
                invariant
                    k <= table@.len(),
                    labels == seq![*default] + table@,
                    *default as usize <= active_index,
                    targets@ == labels.subrange(0, k + 1).map_values(
                        |l: u32| (active_index - l) as usize,
                    ),
                    forall|j: int| 0 <= j < k + 1 ==> #[trigger] labels[j] <= active_index,
                decreases table@.len() - k,
            {
                let label = table[k];
                assert(labels[k + 1] == label);
                if (label as usize) > active_index {
                    return Err(());
                }
                targets.push(active_index - label as usize);
                k += 1;
                assert(targets@ =~= labels.subrange(0, k + 1).map_values(
                    |l: u32| (active_index - l) as usize,
                ));
            }
            assert(labels.subrange(0, k + 1) == labels);
            counter.branch(cursor, &targets)
        },
        Instr::Return => {
            let mut targets: Vec<usize> = Vec::new();
            targets.push(0);
            assert(targets@ =~= seq![0usize]);
            counter.branch(cursor, &targets)
        },
        _ => Ok(()),
    }
}

/// A failed prefix makes the whole analysis fail.
proof fn lemma_run_none_extends<R: Rules>(rules: R, instrs: Seq<Instr>, locals_count: u32, n: nat)
    requires
        n <= instrs.len(),
        spec_run(rules, instrs, locals_count, n) is None,
    ensures
        spec_metered_blocks(rules, instrs, locals_count) is None,
    decreases instrs.len() - n,
{
    if n < instrs.len() {
        lemma_run_none_extends(rules, instrs, locals_count, n + 1);
    }
}

/// The charge put before the first instruction of a block: `i64.const cost; call gas_func`.
pub open spec fn charge(cost: u64, gas_func: u32) -> Seq<Instr> {
    seq![Instr::I64Const(cost as i64), Instr::Call(gas_func)]
}

/// The first `n` instructions of `instrs` with the charges of `blocks` put in, and how many
/// blocks were used. Each block adds `gas_function_cost` to its cost.
pub open spec fn spec_insert_state(
    instrs: Seq<Instr>,
    blocks: Seq<MeteredBlock>,
    gas_function_cost: u64,
    gas_func: u32,
    n: nat,
) -> Option<(Seq<Instr>, nat)>
    decreases n,
{
    if n == 0 {
        Some((seq![], 0))
    } else {
        match spec_insert_state(instrs, blocks, gas_function_cost, gas_func, (n - 1) as nat) {
            None => None,
            Some((out, j)) => if j < blocks.len() && blocks[j as int].start_pos == n - 1 {
                if blocks[j as int].cost + gas_function_cost > u64::MAX {
                    None
                } else {
                    Some(
                        (
                            out + charge(
                                (blocks[j as int].cost + gas_function_cost) as u64,
                                gas_func,
                            ) + seq![instrs[n - 1]],
                            j + 1,
                        ),
                    )
                }
            } else {
                Some((out.push(instrs[n - 1]), j))
            },
        }
    }
}

/// `instrs` with a charge before the first instruction of each block of `blocks`; `None`
/// where a charge overflows or a block is left over.
pub open spec fn spec_insert_metering_calls(
    instrs: Seq<Instr>,
    blocks: Seq<MeteredBlock>,
    gas_function_cost: u64,
    gas_func: u32,
) -> Option<Seq<Instr>> {
    match spec_insert_state(instrs, blocks, gas_function_cost, gas_func, instrs.len()) {
        Some((out, j)) => if j == blocks.len() {
            Some(out)
        } else {
            None
        },
        None => None,
    }
}

/// Inserts a charge before the first instruction of each block, in one pass; the blocks
/// must come ordered by start position.
#[verifier::loop_isolation(false)]
pub fn insert_metering_calls(
    instructions: Vec<Instr>,
    gas_function_cost: u64,
    blocks: Vec<MeteredBlock>,
    gas_func: u32,
) -> (r: Result<Vec<Instr>, ()>)
    ensures
        r is Ok <==> spec_insert_metering_calls(
            instructions@,
            blocks@,
            gas_function_cost,
            gas_func,
        ) is Some,
        r is Ok ==> r.unwrap()@ == spec_insert_metering_calls(
            instructions@,
            blocks@,
            gas_function_cost,
            gas_func,
        ).unwrap(),
{
    let ghost orig = instructions@;
    let n = instructions.len();
    let mut rest = reversed(instructions);
    let mut out: Vec<Instr> = Vec::new();
    let mut pos: usize = 0;
    let mut j: usize = 0;
    while rest.len() > 0
        invariant
            pos + rest@.len() == n,
            n == orig.len(),
            rest@ == orig.subrange(pos as int, n as int).reverse(),
            j <= blocks@.len(),
            spec_insert_state(orig, blocks@, gas_function_cost, gas_func, pos as nat) == Some(
                (out@, j as nat),
            ),
        decreases rest.len(),
    {
        let instr = rest.pop().unwrap();
        assert(instr == orig[pos as int]);
        if j < blocks.len() && blocks[j].start_pos == pos {
            let cost = match blocks[j].cost.checked_add(gas_function_cost) {
                Some(c) => c,
                None => {
                    proof {
                        assert(spec_insert_state(
                            orig,
                            blocks@,
                            gas_function_cost,
                            gas_func,
                            (pos + 1) as nat,
                        ) is None);
                        lemma_insert_none_extends(
                            orig,
                            blocks@,
                            gas_function_cost,
                            gas_func,
                            pos as nat + 1,
                        );
                    }
                    return Err(());
                },
            };
            out.push(Instr::I64Const(#[verifier::truncate] (cost as i64)));
            out.push(Instr::Call(gas_func));
            j += 1;
        }
        out.push(instr);
        pos += 1;
        assert(rest@ =~= orig.subrange(pos as int, n as int).reverse());
        assert(spec_insert_state(orig, blocks@, gas_function_cost, gas_func, pos as nat) matches Some(
            (o, jj),
        ) && o =~= out@ && jj == j);
    }
    if j < blocks.len() {
        return Err(());
    }
    Ok(out)
}

proof fn lemma_insert_none_extends(
    instrs: Seq<Instr>,
    blocks: Seq<MeteredBlock>,
    gas_function_cost: u64,
    gas_func: u32,
    n: nat,
)
    requires
        n <= instrs.len(),
        spec_insert_state(instrs, blocks, gas_function_cost, gas_func, n) is None,
    ensures
        spec_insert_metering_calls(instrs, blocks, gas_function_cost, gas_func) is None,
    decreases instrs.len() - n,
{
    if n < instrs.len() {
        lemma_insert_none_extends(instrs, blocks, gas_function_cost, gas_func, n + 1);
    }
}

/// Whether [`insert_metering_calls`] succeeds on a body of `instrs` with `blocks`, without
/// building the result.
#[verifier::loop_isolation(false)]
pub fn can_insert_metering_calls(
    instrs: &Vec<Instr>,
    gas_function_cost: u64,
    blocks: &Vec<MeteredBlock>,
    gas_func: u32,
) -> (r: bool)
    ensures
        r == spec_insert_metering_calls(instrs@, blocks@, gas_function_cost, gas_func) is Some,
{
    let mut pos: usize = 0;
    let mut j: usize = 0;
    while pos < instrs.len()
        invariant
            pos <= instrs@.len(),
            j <= blocks@.len(),
            spec_insert_state(instrs@, blocks@, gas_function_cost, gas_func, pos as nat) matches Some(
                (_, jj),
            ) && jj == j,
        decreases instrs@.len() - pos,
    {
        if j < blocks.len() && blocks[j].start_pos == pos {
            if blocks[j].cost.checked_add(gas_function_cost).is_none() {
                proof {
                    assert(spec_insert_state(
                        instrs@,
                        blocks@,
                        gas_function_cost,
                        gas_func,
                        (pos + 1) as nat,
                    ) is None);
                    lemma_insert_none_extends(
                        instrs@,
                        blocks@,
                        gas_function_cost,
                        gas_func,
                        pos as nat + 1,
                    );
                }
                return false;
            }
            j += 1;
        }
        pos += 1;
    }
    j == blocks.len()
}

/// A body with each `call k` with `k >= g` made `call k+1`, where `call_shift` is `Some(g)`.
pub fn shift_calls(instrs: Vec<Instr>, call_shift: Option<u32>) -> (r: Vec<Instr>)
    ensures
        r@ == shifted_code(instrs@, call_shift),
{
    let ghost orig = instrs@;
    let n = instrs.len();
    let mut rest = reversed(instrs);
    let mut out: Vec<Instr> = Vec::new();
    let mut pos: usize = 0;
    while rest.len() > 0
        invariant
            pos + rest@.len() == n,
            n == orig.len(),
            rest@ == orig.subrange(pos as int, n as int).reverse(),
            out@ == shifted_code(orig.subrange(0, pos as int), call_shift),
        decreases rest.len(),
    {
        let instr = rest.pop().unwrap();
        assert(instr == orig[pos as int]);
        match (&instr, call_shift) {
            (Instr::Call(k), Some(g)) => {
                out.push(Instr::Call(shift_index(*k, g)));
            },
            _ => {
                out.push(instr);
            },
        }
        pos += 1;
        assert(rest@ =~= orig.subrange(pos as int, n as int).reverse());
        assert(out@ =~= shifted_code(orig.subrange(0, pos as int), call_shift));
    }
    assert(orig.subrange(0, pos as int) == orig);
    out
}

/// What an instruction becomes when `memory.grow` is sent through the grow counter.
pub open spec fn grow_item(instr: Instr, grow_counter_func: u32) -> Instr {
    if instr is GrowMemory {
        Instr::Call(grow_counter_func)
    } else {
        instr
    }
}

/// Whether some instruction of `instrs` is a `memory.grow`.
pub open spec fn has_grow(instrs: Seq<Instr>) -> bool {
    exists|k: int| 0 <= k < instrs.len() && (#[trigger] instrs[k]) is GrowMemory
}

/// Replaces each `memory.grow` with a call to the grow counter, and tells whether there
/// was one.
pub fn inject_grow_counter(instructions: Vec<Instr>, grow_counter_func: u32) -> (r: (
    Vec<Instr>,
    usize,
))
    ensures
        r.0@ == instructions@.map_values(|i: Instr| grow_item(i, grow_counter_func)),
        r.1 == grow_count(instructions@),
        r.1 > 0 <==> has_grow(instructions@),
{
    let ghost orig = instructions@;
    let n = instructions.len();
    let mut rest = reversed(instructions);
    let mut out: Vec<Instr> = Vec::new();
    let mut count: usize = 0;
    let mut pos: usize = 0;
    while rest.len() > 0
        invariant
            pos + rest@.len() == n,
            n == orig.len(),
            rest@ == orig.subrange(pos as int, n as int).reverse(),
            out@ == orig.subrange(0, pos as int).map_values(
                |i: Instr| grow_item(i, grow_counter_func),
            ),
            count == grow_count(orig.subrange(0, pos as int)),
            count <= pos,
        decreases rest.len(),
    {
        let instr = rest.pop().unwrap();
        assert(instr == orig[pos as int]);
        let ghost prefix = orig.subrange(0, pos as int);
        if let Instr::GrowMemory(_) = instr {
            out.push(Instr::Call(grow_counter_func));
            count += 1;
        } else {
            out.push(instr);
        }
        pos += 1;
        assert(rest@ =~= orig.subrange(pos as int, n as int).reverse());
        assert(out@ =~= orig.subrange(0, pos as int).map_values(
            |i: Instr| grow_item(i, grow_counter_func),
        ));
        assert(orig.subrange(0, pos as int).drop_last() == prefix);
    }
    assert(orig.subrange(0, pos as int) == orig);
    proof {
        lemma_grow_count_positive(orig);
    }
    (out, count)
}

/// Number of `memory.grow` instructions in `instrs`.
pub open spec fn grow_count(instrs: Seq<Instr>) -> nat
    decreases instrs.len(),
{
    if instrs.len() == 0 {
        0
    } else {
        grow_count(instrs.drop_last()) + if instrs.last() is GrowMemory {
            1nat
        } else {
            0nat
        }
    }
}

proof fn lemma_grow_count_positive(instrs: Seq<Instr>)
    ensures
        grow_count(instrs) > 0 <==> has_grow(instrs),
    decreases instrs.len(),
{
    if instrs.len() > 0 {
        let p = instrs.drop_last();
        lemma_grow_count_positive(p);
        if has_grow(p) {
            let k = choose|k: int| 0 <= k < p.len() && (#[trigger] p[k]) is GrowMemory;
            assert(instrs[k] == p[k]);
        }
        if has_grow(instrs) && !(instrs.last() is GrowMemory) {
            let k = choose|k: int| 0 <= k < instrs.len() && (#[trigger] instrs[k]) is GrowMemory;
            assert(k < instrs.len() - 1);
            assert(p[k] == instrs[k]);
        }
        if instrs.last() is GrowMemory {
            assert(instrs[instrs.len() - 1] == instrs.last());
        }
    }
}

/// A failed prefix of branch targets makes the whole branch fail.
proof fn lemma_branch_targets_none_extends(c: CounterModel, indices: Seq<usize>, i: int)
    requires
        0 <= i <= indices.len(),
        spec_branch_targets(c, indices.subrange(0, i)) is None,
    ensures
        spec_branch_targets(c, indices) is None,
    decreases indices.len() - i,
{
    if i < indices.len() {
        assert(indices.subrange(0, i + 1).drop_last() == indices.subrange(0, i));
        lemma_branch_targets_none_extends(c, indices, i + 1);
    } else {
        assert(indices.subrange(0, i) == indices);
    }
}

} // verus!
