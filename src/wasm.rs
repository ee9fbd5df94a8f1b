//! The view of a WebAssembly module that the instrumentation passes read and rewrite.
//!
//! Only what the passes look at is held here: the codec that turns bytes into a module and back
//! lives outside this library, and hands the passes a [`Module`] built from these types.
use vstd::prelude::*;

verus! {

/// Opcode of `i32.add`.
pub const I32_ADD: u8 = 0x6a;

/// Opcode of `i32.sub`.
pub const I32_SUB: u8 = 0x6b;

/// Opcode of `i32.gt_u`.
pub const I32_GT_U: u8 = 0x4b;

/// Opcode of `i64.ge_u`.
pub const I64_GE_U: u8 = 0x5a;

/// Opcode of `i64.sub`.
pub const I64_SUB: u8 = 0x7d;

/// Opcode of `i64.mul`.
pub const I64_MUL: u8 = 0x7e;

/// Opcode of `i64.extend_i32_u`.
pub const I64_EXTEND_I32_U: u8 = 0xad;

/// A value type of WebAssembly 1.0.
#[derive(Clone, Copy, Debug, PartialEq, Eq, Structural)]
pub enum ValueType {
    I32,
    I64,
    F32,
    F64,
}

/// The type of a structured control instruction: no result, or one value.
#[derive(Clone, Copy, Debug, PartialEq, Eq, Structural)]
pub enum BlockType {
    NoResult,
    Value(ValueType),
}

/// One instruction of a function body.
///
/// Numeric instructions (comparisons, arithmetic, conversions and the sign-extension
/// operators) carry their one-byte opcode; memory accesses carry their opcode, alignment
/// and offset.
#[derive(Clone, Debug, PartialEq, Eq)]
pub enum Instr {
    Unreachable,
    Nop,
    Block(BlockType),
    Loop(BlockType),
    If(BlockType),
    Else,
    End,
    Br(u32),
    BrIf(u32),
    /// The label table and the default label.
    BrTable(Vec<u32>, u32),
    Return,
    Call(u32),
    /// The type index and the table reserved byte.
    CallIndirect(u32, u8),
    Drop,
    Select,
    GetLocal(u32),
    SetLocal(u32),
    TeeLocal(u32),
    GetGlobal(u32),
    SetGlobal(u32),
    /// A load: opcode, alignment, offset.
    Load(u8, u32, u32),
    /// A store: opcode, alignment, offset.
    Store(u8, u32, u32),
    CurrentMemory(u8),
    GrowMemory(u8),
    I32Const(i32),
    I64Const(i64),
    /// The bits of an `f32` constant.
    F32Const(u32),
    /// The bits of an `f64` constant.
    F64Const(u64),
    /// A numeric instruction, by its opcode.
    Numeric(u8),
}

/// Whether a numeric opcode takes two operands; every other numeric opcode takes one.
/// Both kinds leave one result.
pub open spec fn numeric_is_binary(op: u8) -> bool {
    (0x46 <= op <= 0x4f) || (0x51 <= op <= 0x66) || (0x6a <= op <= 0x78) || (0x7c <= op <= 0x8a)
        || (0x92 <= op <= 0x98) || (0xa0 <= op <= 0xa6)
}

/// Number of operands that a numeric instruction pops.
pub fn numeric_arity(op: u8) -> (r: u32)
    ensures
        r == (if numeric_is_binary(op) { 2u32 } else { 1u32 }),
{
    if (0x46 <= op && op <= 0x4f) || (0x51 <= op && op <= 0x66) || (0x6a <= op && op <= 0x78)
        || (0x7c <= op && op <= 0x8a) || (0x92 <= op && op <= 0x98) || (0xa0 <= op && op
        <= 0xa6) {
        2
    } else {
        1
    }
}

/// The elements of `v` in reverse order, moved rather than copied.
pub fn reversed<T>(v: Vec<T>) -> (r: Vec<T>)
    ensures
        r@ == v@.reverse(),
{
    let mut v = v;
    let ghost orig = v@;
    let mut r: Vec<T> = Vec::new();
    while v.len() > 0
        invariant
            v@ == orig.subrange(0, v@.len() as int),
            r@ == orig.subrange(v@.len() as int, orig.len() as int).reverse(),
            v@.len() <= orig.len(),
        decreases v.len(),
    {
        let x = v.pop().unwrap();
        r.push(x);
        assert(r@ =~= orig.subrange(v@.len() as int, orig.len() as int).reverse());
    }
    assert(orig.subrange(0, orig.len() as int) == orig);
    r
}

/// A function signature.
#[derive(Clone, Debug, PartialEq, Eq)]
pub struct FunctionType {
    pub params: Vec<ValueType>,
    pub results: Vec<ValueType>,
}

/// What an import brings in. A function import carries its type index.
#[derive(Clone, Copy, Debug, PartialEq, Eq, Structural)]
pub enum External {
    Function(u32),
    Table,
    Memory,
    Global,
}

#[derive(Clone, Debug, PartialEq, Eq)]
pub struct ImportEntry {
    pub module: String,
    pub field: String,
    pub external: External,
}

/// What an export refers to, by kind and index.
#[derive(Clone, Copy, Debug, PartialEq, Eq, Structural)]
pub enum Internal {
    Function(u32),
    Table(u32),
    Memory(u32),
    Global(u32),
}

#[derive(Clone, Debug, PartialEq, Eq)]
pub struct ExportEntry {
    pub field: String,
    pub internal: Internal,
}

/// A global defined by the module, with its initializer expression.
#[derive(Clone, Debug, PartialEq, Eq)]
pub struct GlobalEntry {
    pub value_type: ValueType,
    pub mutable: bool,
    pub init: Vec<Instr>,
}

/// A run of `count` locals of one type.
#[derive(Clone, Copy, Debug, PartialEq, Eq, Structural)]
pub struct Local {
    pub count: u32,
    pub value_type: ValueType,
}

/// The body of a defined function: its declared locals and its instructions, the last one
/// being the `end` of the function.
#[derive(Clone, Debug, PartialEq, Eq)]
pub struct FuncBody {
    pub locals: Vec<Local>,
    pub code: Vec<Instr>,
}

/// The function indices of one table-initializing element segment.
#[derive(Clone, Debug, PartialEq, Eq)]
pub struct ElementSegment {
    pub members: Vec<u32>,
}

/// A debug name given to a function by the name section.
#[derive(Clone, Debug, PartialEq, Eq)]
pub struct FunctionName {
    pub index: u32,
    pub name: String,
}

/// A module: its sections that hold types, imports, functions, globals, exports, element
/// segments, the start function, code and function names. A missing section is empty.
///
/// The function index space is the imported functions, in import order, followed by the
/// defined functions; likewise for globals.
#[derive(Clone, Debug, PartialEq, Eq)]
pub struct Module {
    pub types: Vec<FunctionType>,
    pub imports: Vec<ImportEntry>,
    /// The type index of each defined function.
    pub functions: Vec<u32>,
    pub globals: Vec<GlobalEntry>,
    pub exports: Vec<ExportEntry>,
    pub elements: Vec<ElementSegment>,
    pub start: Option<u32>,
    pub code: Vec<FuncBody>,
    pub function_names: Vec<FunctionName>,
}

/// Number of function imports among `imports`.
pub open spec fn func_import_count(imports: Seq<ImportEntry>) -> nat
    decreases imports.len(),
{
    if imports.len() == 0 {
        0
    } else {
        func_import_count(imports.drop_last()) + (if imports.last().external is Function {
            1nat
        } else {
            0nat
        })
    }
}

/// Number of global imports among `imports`.
pub open spec fn global_import_count(imports: Seq<ImportEntry>) -> nat
    decreases imports.len(),
{
    if imports.len() == 0 {
        0
    } else {
        global_import_count(imports.drop_last()) + (if imports.last().external is Global {
            1nat
        } else {
            0nat
        })
    }
}

/// The type index of each imported function, in import order.
pub open spec fn imported_func_types(imports: Seq<ImportEntry>) -> Seq<u32>
    decreases imports.len(),
{
    if imports.len() == 0 {
        seq![]
    } else {
        imported_func_types(imports.drop_last()) + match imports.last().external {
            External::Function(t) => seq![t],
            _ => seq![],
        }
    }
}

/// The sum of the local counts of `locals`.
pub open spec fn locals_sum(locals: Seq<Local>) -> nat
    decreases locals.len(),
{
    if locals.len() == 0 {
        0
    } else {
        locals_sum(locals.drop_last()) + locals.last().count as nat
    }
}

/// Adds up the local counts of a body; `None` where the sum exceeds `u32`.
pub fn locals_count(locals: &Vec<Local>) -> (r: Option<u32>)
    ensures
        r is Some <==> locals_sum(locals@) <= u32::MAX,
        r is Some ==> r.unwrap() == locals_sum(locals@),
{
    let mut sum: u32 = 0;
    let mut i: usize = 0;
    while i < locals.len()
        invariant
            i <= locals.len(),
            sum == locals_sum(locals@.subrange(0, i as int)),
            forall|j: int| i <= j <= locals.len() ==> locals_sum(locals@.subrange(0, j)) >= sum,
        decreases locals.len() - i,
    {
        assert(locals@.subrange(0, i + 1).drop_last() == locals@.subrange(0, i as int));
        if sum > u32::MAX - locals[i].count {
            proof {
                lemma_locals_sum_monotone(locals@, i as int + 1);
                assert(locals@.subrange(0, locals.len() as int) == locals@);
            }
            return None;
        }
        sum = sum + locals[i].count;
        i += 1;
        proof {
            lemma_locals_sum_monotone(locals@, i as int);
        }
    }
    assert(locals@.subrange(0, locals.len() as int) == locals@);
    Some(sum)
}

proof fn lemma_locals_sum_monotone(locals: Seq<Local>, i: int)
    requires
        0 <= i <= locals.len(),
    ensures
        forall|j: int|
            i <= j <= locals.len() ==> locals_sum(locals.subrange(0, j)) >= locals_sum(
                locals.subrange(0, i),
            ),
    decreases locals.len() - i,
{
    if i < locals.len() {
        lemma_locals_sum_monotone(locals, i + 1);
        assert(locals.subrange(0, i + 1).drop_last() == locals.subrange(0, i));
    }
}

impl Module {
    /// Number of imported functions.
    pub open spec fn spec_func_imports(&self) -> nat {
        func_import_count(self.imports@)
    }

    /// Size of the function index space.
    pub open spec fn spec_functions_space(&self) -> nat {
        func_import_count(self.imports@) + self.functions@.len()
    }

    /// Size of the global index space.
    pub open spec fn spec_globals_space(&self) -> nat {
        global_import_count(self.imports@) + self.globals@.len()
    }

    /// The type index of every function of the function space.
    pub open spec fn spec_func_types(&self) -> Seq<u32> {
        imported_func_types(self.imports@) + self.functions@
    }

    /// Every index space and section of the module can be counted in a `u32`, with room for
    /// the few entries that the passes add.
    pub open spec fn fits_index_space(&self) -> bool {
        &&& self.fits_function_space()
        &&& self.globals@.len() + self.imports@.len() + 16 <= u32::MAX
    }

    /// The function index space, and the sections that the passes index by function, can
    /// be counted in a `u32`, with room for a copy of each function.
    pub open spec fn fits_function_space(&self) -> bool {
        &&& 2 * (self.imports@.len() + self.functions@.len()) + self.exports@.len() + 16
            <= u32::MAX
        &&& self.types@.len() + 16 <= u32::MAX
        &&& self.code@.len() + 16 <= u32::MAX
    }

    /// Whether [`Module::fits_index_space`] holds.
    pub fn index_space_fits(&self) -> (r: bool)
        ensures
            r == self.fits_index_space(),
    {
        let limit: usize = (u32::MAX - 16) as usize;
        self.imports.len() <= limit / 2 && self.functions.len() <= limit / 2 - self.imports.len()
            && self.exports.len() <= limit - 2 * (self.imports.len() + self.functions.len())
            && self.globals.len() <= limit && self.imports.len() <= limit - self.globals.len()
            && self.types.len() <= limit && self.code.len() <= limit
    }

    /// Number of imported functions.
    pub fn func_imports(&self) -> (r: u32)
        requires
            self.fits_function_space(),
        ensures
            r == self.spec_func_imports(),
    {
        let mut n: u32 = 0;
        let mut i: usize = 0;
        while i < self.imports.len()
            invariant
                i <= self.imports.len(),
                self.fits_function_space(),
                n == func_import_count(self.imports@.subrange(0, i as int)),
                n <= i,
            decreases self.imports.len() - i,
        {
            assert(self.imports@.subrange(0, i + 1).drop_last() == self.imports@.subrange(
                0,
                i as int,
            ));
            if let External::Function(_) = self.imports[i].external {
                n = n + 1;
            }
            i += 1;
        }
        assert(self.imports@.subrange(0, i as int) == self.imports@);
        n
    }

    /// Size of the function index space.
    pub fn functions_space(&self) -> (r: u32)
        requires
            self.fits_function_space(),
        ensures
            r == self.spec_functions_space(),
    {
        proof {
            lemma_func_import_count_bound(self.imports@);
        }
        self.func_imports() + self.functions.len() as u32
    }

    /// Size of the global index space.
    pub fn globals_space(&self) -> (r: u32)
        requires
            self.fits_index_space(),
        ensures
            r == self.spec_globals_space(),
    {
        let mut n: u32 = 0;
        let mut i: usize = 0;
        while i < self.imports.len()
            invariant
                i <= self.imports.len(),
                self.fits_index_space(),
                n == global_import_count(self.imports@.subrange(0, i as int)),
                n <= i,
            decreases self.imports.len() - i,
        {
            assert(self.imports@.subrange(0, i + 1).drop_last() == self.imports@.subrange(
                0,
                i as int,
            ));
            if let External::Global = self.imports[i].external {
                n = n + 1;
            }
            i += 1;
        }
        assert(self.imports@.subrange(0, i as int) == self.imports@);
        n + self.globals.len() as u32
    }
}

impl Module {
    /// The type index of every function of the function space, and the number of imported
    /// functions.
    pub fn func_type_indices(&self) -> (r: (Vec<u32>, usize))
        ensures
            r.0@ == self.spec_func_types(),
            r.1 == self.spec_func_imports(),
    {
        let mut types: Vec<u32> = Vec::new();
        let mut i: usize = 0;
        while i < self.imports.len()
            invariant
                i <= self.imports.len(),
                types@ == imported_func_types(self.imports@.subrange(0, i as int)),
            decreases self.imports.len() - i,
        {
            assert(self.imports@.subrange(0, i + 1).drop_last() == self.imports@.subrange(
                0,
                i as int,
            ));
            if let External::Function(t) = self.imports[i].external {
                types.push(t);
            }
            i += 1;
            assert(types@ =~= imported_func_types(self.imports@.subrange(0, i as int)));
        }
        assert(self.imports@.subrange(0, i as int) == self.imports@);
        proof {
            lemma_func_import_count_bound(self.imports@);
        }
        let n = types.len();
        let mut j: usize = 0;
        while j < self.functions.len()
            invariant
                j <= self.functions.len(),
                types@ == imported_func_types(self.imports@) + self.functions@.subrange(
                    0,
                    j as int,
                ),
            decreases self.functions.len() - j,
        {
            types.push(self.functions[j]);
            j += 1;
            assert(types@ =~= imported_func_types(self.imports@) + self.functions@.subrange(
                0,
                j as int,
            ));
        }
        assert(self.functions@.subrange(0, j as int) == self.functions@);
        (types, n)
    }
}

/// Every function index that the module's exports, element segments, start function and
/// names refer to lies in its function index space.
pub open spec fn refs_in_range(m: Module) -> bool {
    let n = m.spec_functions_space();
    &&& forall|k: int|
        0 <= k < m.exports@.len() && (#[trigger] m.exports@[k]).internal is Function
            ==> m.exports@[k].internal->Function_0 < n
    &&& forall|k: int, j: int|
        0 <= k < m.elements@.len() && 0 <= j < m.elements@[k].members@.len()
            ==> #[trigger] m.elements@[k].members@[j] < n
    &&& (m.start matches Some(s) ==> s < n)
    &&& forall|k: int|
        0 <= k < m.function_names@.len() ==> (#[trigger] m.function_names@[k]).index < n
}

/// Two signatures are the same.
pub open spec fn same_type(a: FunctionType, b: FunctionType) -> bool {
    a.params@ == b.params@ && a.results@ == b.results@
}

/// Whether two value type lists are equal.
pub fn same_values(a: &Vec<ValueType>, b: &Vec<ValueType>) -> (r: bool)
    ensures
        r == (a@ == b@),
{
    if a.len() != b.len() {
        return false;
    }
    let mut i: usize = 0;
    while i < a.len()
        invariant
            i <= a.len(),
            a.len() == b.len(),
            forall|k: int| 0 <= k < i ==> a@[k] == b@[k],
        decreases a.len() - i,
    {
        if a[i] != b[i] {
            return false;
        }
        i += 1;
    }
    assert(a@ =~= b@);
    true
}

impl Module {
    /// The index of signature `ty` in the type section: the first one equal to it, or a new
    /// one appended at the end.
    pub fn resolve_type(&mut self, ty: FunctionType) -> (r: u32)
        requires
            old(self).types@.len() + 1 <= u32::MAX,
        ensures
            (exists|k: int|
                0 <= k < old(self).types@.len() && same_type(#[trigger] old(self).types@[k], ty))
                ==> final(self).types@ == old(self).types@ && r < old(self).types@.len()
                && same_type(old(self).types@[r as int], ty),
            !(exists|k: int|
                0 <= k < old(self).types@.len() && same_type(#[trigger] old(self).types@[k], ty))
                ==> final(self).types@ == old(self).types@.push(ty) && r == old(
                self,
            ).types@.len(),
            forall|j: int| 0 <= j < r ==> !same_type(#[trigger] final(self).types@[j], ty),
            final(self).imports == old(self).imports,
            final(self).functions == old(self).functions,
            final(self).globals == old(self).globals,
            final(self).exports == old(self).exports,
            final(self).elements == old(self).elements,
            final(self).start == old(self).start,
            final(self).code == old(self).code,
            final(self).function_names == old(self).function_names,
    {
        let mut i: usize = 0;
        while i < self.types.len()
            invariant
                i <= self.types@.len(),
                self.types@.len() + 1 <= u32::MAX,
                forall|j: int| 0 <= j < i ==> !same_type(#[trigger] self.types@[j], ty),
            decreases self.types@.len() - i,
        {
            if same_values(&self.types[i].params, &ty.params) && same_values(
                &self.types[i].results,
                &ty.results,
            ) {
                return i as u32;
            }
            i += 1;
        }
        let n = self.types.len() as u32;
        self.types.push(ty);
        n
    }
}

/// The function imports are no more than the imports.
pub proof fn lemma_func_import_count_bound(imports: Seq<ImportEntry>)
    ensures
        func_import_count(imports) <= imports.len(),
        imported_func_types(imports).len() == func_import_count(imports),
    decreases imports.len(),
{
    if imports.len() > 0 {
        lemma_func_import_count_bound(imports.drop_last());
    }
}

} // verus!
