use wasm_instrument::stack_limiter::max_height::compute;
use wasm_instrument::wasm::{
    BlockType, ElementSegment, ExportEntry, FuncBody, FunctionType, GlobalEntry, Instr, Internal,
    Local, Module, ValueType, I32_ADD, I32_GT_U, I32_SUB,
};
use wasm_instrument::{compute_stack_cost, inject_stack_limiter};
use wasm_instrument::wasm::Instr::{
    Block, Br, BrTable, Call, CallIndirect, Drop, Else, End, GetGlobal, GetLocal, GrowMemory,
    I32Const, I64Const, If, Numeric, Return, SetGlobal, Unreachable,
};

fn module_of(types: Vec<FunctionType>, functions: Vec<u32>, code: Vec<FuncBody>) -> Module {
    Module {
        types,
        imports: vec![],
        functions,
        globals: vec![],
        exports: vec![],
        elements: vec![],
        start: None,
        code,
        function_names: vec![],
    }
}

fn sig(params: Vec<ValueType>, results: Vec<ValueType>) -> FunctionType {
    FunctionType { params, results }
}

fn body(code: Vec<Instr>) -> FuncBody {
    FuncBody { locals: vec![], code }
}

fn bracket(callee: u32, cost: i32, global: u32, limit: i32) -> Vec<Instr> {
    vec![
        GetGlobal(global),
        I32Const(cost),
        Numeric(I32_ADD),
        SetGlobal(global),
        GetGlobal(global),
        I32Const(limit),
        Numeric(I32_GT_U),
        If(BlockType::NoResult),
        Unreachable,
        End,
        Call(callee),
        GetGlobal(global),
        I32Const(cost),
        Numeric(I32_SUB),
        SetGlobal(global),
    ]
}

#[test]
fn simple_test() {
    let module = module_of(
        vec![sig(vec![], vec![])],
        vec![0],
        vec![body(vec![I32Const(1), I32Const(2), I32Const(3), Drop, Drop, Drop, End])],
    );
    let height = compute(0, &module).unwrap();
    assert_eq!(height, 3);
}

#[test]
fn implicit_and_explicit_return() {
    let module = module_of(
        vec![sig(vec![], vec![ValueType::I32])],
        vec![0],
        vec![body(vec![I32Const(0), Return, End])],
    );
    let height = compute(0, &module).unwrap();
    assert_eq!(height, 1);
}

#[test]
fn dont_count_in_unreachable() {
    let module = module_of(
        vec![sig(vec![], vec![ValueType::I32])],
        vec![0],
        vec![body(vec![Unreachable, GrowMemory(0), End])],
    );
    let height = compute(0, &module).unwrap();
    assert_eq!(height, 0);
}

#[test]
fn yet_another_test() {
    let module = module_of(
        vec![sig(vec![], vec![])],
        vec![0],
        vec![body(vec![
            I32Const(0),
            I32Const(1),
            Drop,
            Drop,
            Unreachable,
            I32Const(0),
            I32Const(1),
            I32Const(2),
            End,
        ])],
    );
    let height = compute(0, &module).unwrap();
    assert_eq!(height, 2);
}

#[test]
fn call_indirect() {
    let mut module = module_of(
        vec![sig(vec![], vec![])],
        vec![0, 0],
        vec![
            body(vec![
                I32Const(0),
                CallIndirect(0, 0),
                I32Const(0),
                CallIndirect(0, 0),
                I32Const(0),
                CallIndirect(0, 0),
                End,
            ]),
            body(vec![I64Const(42), Drop, End]),
        ],
    );
    module.elements.push(ElementSegment { members: vec![1] });
    let height = compute(0, &module).unwrap();
    assert_eq!(height, 1);
}

#[test]
fn breaks() {
    let module = module_of(
        vec![sig(vec![], vec![])],
        vec![0],
        vec![body(vec![
            Block(BlockType::Value(ValueType::I32)),
            Block(BlockType::Value(ValueType::I32)),
            I32Const(99),
            Br(1),
            End,
            End,
            Drop,
            End,
        ])],
    );
    let height = compute(0, &module).unwrap();
    assert_eq!(height, 1);
}

#[test]
fn if_else_works() {
    let module = module_of(
        vec![sig(vec![], vec![])],
        vec![0],
        vec![body(vec![
            I32Const(7),
            I32Const(1),
            If(BlockType::Value(ValueType::I32)),
            I32Const(42),
            Else,
            I32Const(99),
            End,
            I32Const(97),
            Drop,
            Drop,
            Drop,
            End,
        ])],
    );
    let height = compute(0, &module).unwrap();
    assert_eq!(height, 3);
}

/// `(func (export "i32.add") (param i32 i32) (result i32) local.get 0 local.get 1 i32.add)`
fn add_module() -> Module {
    let mut module = module_of(
        vec![sig(vec![ValueType::I32, ValueType::I32], vec![ValueType::I32])],
        vec![0],
        vec![body(vec![GetLocal(0), GetLocal(1), Numeric(I32_ADD), End])],
    );
    module
        .exports
        .push(ExportEntry { field: "i32.add".to_string(), internal: Internal::Function(0) });
    module
}

#[test]
fn test_with_params_and_result() {
    let module = add_module();
    inject_stack_limiter(module, 1024).expect("Failed to inject stack counter");
}

#[test]
fn stack_limit_preamble() {
    // Function 1 reaches a height of 3 and has no locals: its cost is 3.
    let module = module_of(
        vec![sig(vec![], vec![])],
        vec![0, 0],
        vec![
            body(vec![Call(1), End]),
            body(vec![I32Const(1), I32Const(2), I32Const(3), Drop, Drop, Drop, End]),
        ],
    );
    assert_eq!(compute_stack_cost(1, &module), Ok(3));
    let injected = inject_stack_limiter(module, 1024).unwrap();
    let mut expected = bracket(1, 3, 0, 1024);
    expected.push(End);
    assert_eq!(injected.code[0].code, expected);
    assert_eq!(
        injected.globals,
        vec![GlobalEntry { value_type: ValueType::I32, mutable: true, init: vec![I32Const(0), End] }]
    );
}

#[test]
fn thunk_generation() {
    let mut module = add_module();
    module.code[0].locals.push(Local { count: 3, value_type: ValueType::I32 });
    assert_eq!(compute_stack_cost(0, &module), Ok(5));
    let injected = inject_stack_limiter(module, 1024).unwrap();
    assert_eq!(injected.exports[0].internal, Internal::Function(1));
    assert_eq!(injected.functions, vec![0, 0]);
    let mut expected = vec![GetLocal(0), GetLocal(1)];
    expected.extend(bracket(0, 9, 0, 1024));
    expected.push(End);
    assert_eq!(injected.code[1].code, expected);
    assert!(injected.code[1].locals.is_empty());
}

#[test]
fn zero_cost_functions_get_no_thunk() {
    let mut module = module_of(vec![sig(vec![], vec![])], vec![0], vec![body(vec![End])]);
    module.exports.push(ExportEntry { field: "f".to_string(), internal: Internal::Function(0) });
    module.start = Some(0);
    let injected = inject_stack_limiter(module, 1024).unwrap();
    assert_eq!(injected.functions.len(), 1);
    assert_eq!(injected.exports[0].internal, Internal::Function(0));
    assert_eq!(injected.start, Some(0));
}

#[test]
fn pop_below_frame_is_malformed() {
    let module = module_of(vec![sig(vec![], vec![])], vec![0], vec![body(vec![Drop, End])]);
    assert_eq!(compute(0, &module), Err("trying to pop more values than pushed"));
    assert_eq!(inject_stack_limiter(module, 1024), Err("trying to pop more values than pushed"));
}

#[test]
fn br_table_arities_must_agree() {
    let module = module_of(
        vec![sig(vec![], vec![])],
        vec![0],
        vec![body(vec![
            Block(BlockType::Value(ValueType::I32)),
            I32Const(0),
            I32Const(0),
            BrTable(vec![1], 0),
            End,
            Drop,
            End,
        ])],
    );
    assert_eq!(compute(0, &module), Err("Arity of all jump-targets must be equal"));
}

#[test]
fn missing_body_is_malformed() {
    let module = module_of(vec![sig(vec![], vec![])], vec![0], vec![]);
    assert_eq!(compute_stack_cost(0, &module), Err("Function body is out of bounds"));
}

#[test]
fn pop_more_than_the_frame_pushed() {
    // The block starts at height 1 and holds one value: `i32.add` pops two.
    let module = module_of(
        vec![sig(vec![], vec![])],
        vec![0],
        vec![body(vec![
            I32Const(1),
            Block(BlockType::NoResult),
            I32Const(2),
            Numeric(I32_ADD),
            Drop,
            End,
            Drop,
            End,
        ])],
    );
    assert_eq!(compute(0, &module), Err("trying to pop more values than pushed"));
}

#[test]
fn pop_in_unreachable_code_is_allowed() {
    let module = module_of(
        vec![sig(vec![], vec![])],
        vec![0],
        vec![body(vec![
            Block(BlockType::NoResult),
            Unreachable,
            Numeric(I32_ADD),
            Drop,
            End,
            End,
        ])],
    );
    assert_eq!(compute(0, &module), Ok(0));
}

#[test]
fn export_outside_function_space_is_reported() {
    let mut module = add_module();
    module.exports.push(ExportEntry { field: "g".to_string(), internal: Internal::Function(5) });
    assert_eq!(inject_stack_limiter(module, 1024), Err("function index isn't found"));
}

#[test]
fn local_count_overflow_is_reported() {
    let mut module = add_module();
    module.code[0].locals.push(Local { count: u32::MAX, value_type: ValueType::I32 });
    module.code[0].locals.push(Local { count: 1, value_type: ValueType::I32 });
    assert_eq!(compute_stack_cost(0, &module), Err("Overflow in local count"));
    assert_eq!(inject_stack_limiter(module, 1024), Err("Overflow in local count"));
}
