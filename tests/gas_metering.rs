use wasm_instrument::gas_metering::{
    host_function, inject, mutable_global, ConstantCostRules, ImportedFunctionInjector,
    MutableGlobalInjector,
};
use wasm_instrument::wasm::{
    BlockType, ElementSegment, ExportEntry, External, FuncBody, FunctionName, FunctionType,
    GlobalEntry, ImportEntry, Instr, Internal, Local, Module, ValueType, I64_EXTEND_I32_U, I64_GE_U,
    I64_MUL, I64_SUB,
};
use wasm_instrument::wasm::Instr::{
    Br, BrIf, Call, Drop, Else, End, GetGlobal, GetLocal, GrowMemory, I32Const, I64Const, If,
    Loop, Numeric, SetGlobal, Unreachable,
};

fn empty_module() -> Module {
    Module {
        types: vec![],
        imports: vec![],
        functions: vec![],
        globals: vec![],
        exports: vec![],
        elements: vec![],
        start: None,
        code: vec![],
        function_names: vec![],
    }
}

fn sig(params: Vec<ValueType>, results: Vec<ValueType>) -> FunctionType {
    FunctionType { params, results }
}

fn body(code: Vec<Instr>) -> FuncBody {
    FuncBody { locals: vec![], code }
}

fn get_function_body(module: &Module, index: usize) -> Option<&[Instr]> {
    module.code.get(index).map(|b| &b.code[..])
}

/// `(func (result i32) global.get 0 memory.grow) (global i32 (i32.const 42)) (memory 0 1)`
fn grow_module() -> Module {
    let mut m = empty_module();
    m.types.push(sig(vec![], vec![ValueType::I32]));
    m.functions.push(0);
    m.globals.push(GlobalEntry {
        value_type: ValueType::I32,
        mutable: false,
        init: vec![I32Const(42), End],
    });
    m.code.push(body(vec![GetGlobal(0), GrowMemory(0), End]));
    m
}

fn gas_function_body(g: u32) -> Vec<Instr> {
    vec![
        GetGlobal(g),
        GetLocal(0),
        Numeric(I64_GE_U),
        If(BlockType::NoResult),
        GetGlobal(g),
        GetLocal(0),
        Numeric(I64_SUB),
        SetGlobal(g),
        Else,
        I64Const(-1i64),
        SetGlobal(g),
        Unreachable,
        End,
        End,
    ]
}

#[test]
fn simple_grow_host_fn() {
    let module = grow_module();
    let backend = host_function::Injector::new("env", "gas");
    let injected_module = inject(module, backend, &ConstantCostRules::new(1, 10_000, 1)).unwrap();

    assert_eq!(
        get_function_body(&injected_module, 0).unwrap(),
        &vec![I64Const(2), Call(0), GetGlobal(0), Call(2), End][..]
    );
    assert_eq!(
        get_function_body(&injected_module, 1).unwrap(),
        &vec![
            GetLocal(0),
            GetLocal(0),
            Numeric(I64_EXTEND_I32_U),
            I64Const(10000),
            Numeric(I64_MUL),
            Call(0),
            GrowMemory(0),
            End,
        ][..]
    );
}

#[test]
fn simple_grow_mut_global() {
    let module = grow_module();
    let backend = mutable_global::Injector::new("gas_left");
    let injected_module = inject(module, backend, &ConstantCostRules::new(1, 10_000, 1)).unwrap();

    assert_eq!(
        get_function_body(&injected_module, 0).unwrap(),
        &vec![I64Const(13), Call(1), GetGlobal(0), Call(2), End][..]
    );
    assert_eq!(get_function_body(&injected_module, 1).unwrap(), &gas_function_body(1)[..]);
    assert_eq!(
        get_function_body(&injected_module, 2).unwrap(),
        &vec![
            GetLocal(0),
            GetLocal(0),
            Numeric(I64_EXTEND_I32_U),
            I64Const(10000),
            Numeric(I64_MUL),
            Call(1),
            GrowMemory(0),
            End,
        ][..]
    );
}

#[test]
fn grow_no_gas_no_track_host_fn() {
    let module = grow_module();
    let backend = host_function::Injector::new("env", "gas");
    let injected_module = inject(module, backend, &ConstantCostRules::default()).unwrap();

    assert_eq!(
        get_function_body(&injected_module, 0).unwrap(),
        &vec![I64Const(2), Call(0), GetGlobal(0), GrowMemory(0), End][..]
    );
    assert_eq!(injected_module.functions_space(), 2);
}

#[test]
fn grow_no_gas_no_track_mut_global() {
    let module = grow_module();
    let backend = mutable_global::Injector::new("gas_left");
    let injected_module = inject(module, backend, &ConstantCostRules::default()).unwrap();

    assert_eq!(
        get_function_body(&injected_module, 0).unwrap(),
        &vec![I64Const(13), Call(1), GetGlobal(0), GrowMemory(0), End][..]
    );
    assert_eq!(injected_module.functions_space(), 2);
}

/// One global, and two functions of type `(param i32)`: an empty one and one that calls it.
fn call_index_module() -> Module {
    let mut m = empty_module();
    m.globals.push(GlobalEntry {
        value_type: ValueType::I32,
        mutable: false,
        init: vec![I32Const(0), End],
    });
    m.types.push(sig(vec![ValueType::I32], vec![]));
    m.functions.push(0);
    m.functions.push(0);
    m.code.push(body(vec![End]));
    m.code.push(body(vec![
        Call(0),
        If(BlockType::NoResult),
        Call(0),
        Call(0),
        Call(0),
        Else,
        Call(0),
        Call(0),
        End,
        Call(0),
        End,
    ]));
    m
}

#[test]
fn call_index_host_fn() {
    let module = call_index_module();
    let backend = host_function::Injector::new("env", "gas");
    let injected_module = inject(module, backend, &ConstantCostRules::default()).unwrap();

    assert_eq!(
        get_function_body(&injected_module, 1).unwrap(),
        &vec![
            I64Const(3),
            Call(0),
            Call(1),
            If(BlockType::NoResult),
            I64Const(3),
            Call(0),
            Call(1),
            Call(1),
            Call(1),
            Else,
            I64Const(2),
            Call(0),
            Call(1),
            Call(1),
            End,
            Call(1),
            End
        ][..]
    );
}

#[test]
fn call_index_mut_global() {
    let module = call_index_module();
    let backend = mutable_global::Injector::new("gas_left");
    let injected_module = inject(module, backend, &ConstantCostRules::default()).unwrap();

    assert_eq!(
        get_function_body(&injected_module, 1).unwrap(),
        &vec![
            I64Const(14),
            Call(2),
            Call(0),
            If(BlockType::NoResult),
            I64Const(14),
            Call(2),
            Call(0),
            Call(0),
            Call(0),
            Else,
            I64Const(13),
            Call(2),
            Call(0),
            Call(0),
            End,
            Call(0),
            End
        ][..]
    );
}

/// A function of type `() -> i32` with the given body, and one global.
fn single_function(code: Vec<Instr>) -> Module {
    let mut m = empty_module();
    m.types.push(sig(vec![], vec![ValueType::I32]));
    m.functions.push(0);
    m.globals.push(GlobalEntry {
        value_type: ValueType::I32,
        mutable: false,
        init: vec![I32Const(42), End],
    });
    m.code.push(body(code));
    m
}

#[test]
fn simple_linear_block() {
    let module = single_function(vec![GetGlobal(0), End]);
    let backend = host_function::Injector::new("env", "gas");
    let injected = inject(module, backend, &ConstantCostRules::default()).unwrap();
    assert_eq!(injected.code[0].code, vec![I64Const(1), Call(0), GetGlobal(0), End]);
}

#[test]
fn if_else_charges() {
    let module = single_function(vec![
        GetGlobal(0),
        If(BlockType::NoResult),
        GetGlobal(0),
        GetGlobal(0),
        GetGlobal(0),
        Else,
        GetGlobal(0),
        GetGlobal(0),
        End,
        GetGlobal(0),
        End,
    ]);
    let backend = host_function::Injector::new("env", "gas");
    let injected = inject(module, backend, &ConstantCostRules::default()).unwrap();
    assert_eq!(
        injected.code[0].code,
        vec![
            I64Const(3),
            Call(0),
            GetGlobal(0),
            If(BlockType::NoResult),
            I64Const(3),
            Call(0),
            GetGlobal(0),
            GetGlobal(0),
            GetGlobal(0),
            Else,
            I64Const(2),
            Call(0),
            GetGlobal(0),
            GetGlobal(0),
            End,
            GetGlobal(0),
            End,
        ]
    );
}

#[test]
fn loop_with_inner_br() {
    let module = single_function(vec![
        GetGlobal(0),
        Drop,
        Loop(BlockType::NoResult),
        GetGlobal(0),
        If(BlockType::NoResult),
        GetGlobal(0),
        BrIf(0),
        Else,
        GetGlobal(0),
        GetGlobal(0),
        Drop,
        BrIf(1),
        End,
        GetGlobal(0),
        Drop,
        End,
        End,
    ]);
    let backend = host_function::Injector::new("env", "gas");
    let injected = inject(module, backend, &ConstantCostRules::default()).unwrap();
    assert_eq!(
        injected.code[0].code,
        vec![
            I64Const(3),
            Call(0),
            GetGlobal(0),
            Drop,
            Loop(BlockType::NoResult),
            I64Const(4),
            Call(0),
            GetGlobal(0),
            If(BlockType::NoResult),
            I64Const(2),
            Call(0),
            GetGlobal(0),
            BrIf(0),
            Else,
            I64Const(4),
            Call(0),
            GetGlobal(0),
            GetGlobal(0),
            Drop,
            BrIf(1),
            End,
            GetGlobal(0),
            Drop,
            End,
            End,
        ]
    );
}

#[test]
fn const_drop_boundary() {
    let module = single_function(vec![I64Const(0), Drop, End]);
    let backend = host_function::Injector::new("env", "gas");
    let injected = inject(module, backend, &ConstantCostRules::new(5, 0, 1)).unwrap();
    assert_eq!(injected.code[0].code, vec![I64Const(10), Call(0), I64Const(0), Drop, End]);
}

#[test]
fn imported_gas_shifts_every_function_reference() {
    let mut module = call_index_module();
    module.exports.push(ExportEntry { field: "main".to_string(), internal: Internal::Function(1) });
    module.exports.push(ExportEntry { field: "g".to_string(), internal: Internal::Global(0) });
    module.elements.push(ElementSegment { members: vec![0, 1] });
    module.start = Some(1);
    module.function_names.push(FunctionName { index: 1, name: "main".to_string() });
    let backend = ImportedFunctionInjector::new("env", "gas");
    let injected = inject(module, backend, &ConstantCostRules::default()).unwrap();
    assert_eq!(injected.functions_space(), 3);
    assert_eq!(
        injected.imports,
        vec![ImportEntry {
            module: "env".to_string(),
            field: "gas".to_string(),
            external: External::Function(1),
        }]
    );
    assert_eq!(injected.types[1], sig(vec![ValueType::I64], vec![]));
    assert_eq!(injected.exports[0].internal, Internal::Function(2));
    assert_eq!(injected.exports[1].internal, Internal::Global(0));
    assert_eq!(injected.elements[0].members, vec![1, 2]);
    assert_eq!(injected.start, Some(2));
    assert_eq!(injected.function_names[0].index, 2);
}

#[test]
fn mutable_global_exports_gas_global() {
    let module = call_index_module();
    let backend = MutableGlobalInjector::new("gas_left");
    let injected = inject(module, backend, &ConstantCostRules::default()).unwrap();
    assert_eq!(injected.globals.len(), 2);
    assert_eq!(
        injected.globals[1],
        GlobalEntry { value_type: ValueType::I64, mutable: true, init: vec![I64Const(0), End] }
    );
    assert_eq!(
        injected.exports,
        vec![ExportEntry { field: "gas_left".to_string(), internal: Internal::Global(1) }]
    );
    assert_eq!(injected.functions, vec![0, 0, 1]);
    assert_eq!(injected.code[2].code, gas_function_body(1));
    assert!(injected.imports.is_empty());
}

#[test]
fn locals_surcharge_is_charged() {
    let mut module = single_function(vec![GetGlobal(0), End]);
    module.code[0].locals.push(Local { count: 3, value_type: ValueType::I64 });
    let backend = host_function::Injector::new("env", "gas");
    let injected = inject(module, backend, &ConstantCostRules::new(1, 0, 2)).unwrap();
    assert_eq!(injected.code[0].code, vec![I64Const(7), Call(0), GetGlobal(0), End]);
}

#[test]
fn cost_overflow_returns_module_untouched() {
    let mut module = single_function(vec![GetGlobal(0), End]);
    module.code[0].locals.push(Local { count: 2, value_type: ValueType::I32 });
    let original = module.clone();
    let backend = host_function::Injector::new("env", "gas");
    let result = inject(module, backend, &ConstantCostRules::new(1, 0, u32::MAX));
    assert_eq!(result, Err(original));
}

#[test]
fn branch_out_of_function_is_malformed() {
    let module = single_function(vec![Br(3), End]);
    let original = module.clone();
    let backend = host_function::Injector::new("env", "gas");
    let result = inject(module, backend, &ConstantCostRules::default());
    assert_eq!(result, Err(original));
}

#[test]
fn largest_function_index_cannot_be_shifted() {
    let mut module = call_index_module();
    module.exports.push(ExportEntry {
        field: "far".to_string(),
        internal: Internal::Function(u32::MAX),
    });
    let original = module.clone();
    let backend = host_function::Injector::new("env", "gas");
    let result = inject(module, backend, &ConstantCostRules::default());
    assert_eq!(result, Err(original));
}
