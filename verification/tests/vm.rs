use wario::vm::{ControlFlow, ExternFunction, HostFunction, Machine, ModuleFunction, Trap};
use wario::wasm::{BlockType, FuncIdx, Instruction, LabelIdx, LocalIdx, MemArg};

const FUEL: u64 = 1 << 20;

/// A host function that does nothing and returns nothing.
struct NoHost;

impl HostFunction for NoHost {
    fn call(&mut self, _args: &[i32]) -> Option<i32> {
        None
    }
}

/// A host function that records that it was called.
struct Flag {
    called: bool,
}

impl HostFunction for Flag {
    fn call(&mut self, _args: &[i32]) -> Option<i32> {
        self.called = true;
        None
    }
}

/// A host function that subtracts its second argument from its first.
struct SubHost;

impl HostFunction for SubHost {
    fn call(&mut self, args: &[i32]) -> Option<i32> {
        Some(args[0] - args[1])
    }
}

#[test]
fn vm_constant() {
    let code = vec![Instruction::I32Const(42)];

    let module_functions = vec![];
    let mut extern_functions: Vec<ExternFunction<NoHost>> = vec![];
    let mut locals = vec![];

    let mut machine = Machine::new();
    assert_eq!(machine.stack, vec![]);

    machine
        .invoke(&code, &module_functions, &mut extern_functions, &mut locals, FUEL)
        .unwrap();

    assert_eq!(machine.stack, vec![42]);
}

#[test]
fn vm_load() {
    let code = vec![Instruction::I32Load(MemArg { align: 0, offset: 0 })];

    let module_functions = vec![];
    let mut extern_functions: Vec<ExternFunction<NoHost>> = vec![];
    let mut locals = vec![];

    let mut machine = Machine::new();
    assert_eq!(machine.stack, vec![]);

    machine.memory[0] = 42;
    machine
        .invoke(&code, &module_functions, &mut extern_functions, &mut locals, FUEL)
        .unwrap();

    assert_eq!(machine.stack, vec![42]);
}

#[test]
fn vm_store() {
    let code = vec![Instruction::I32Store(MemArg { align: 0, offset: 0 })];

    let module_functions = vec![];
    let mut extern_functions: Vec<ExternFunction<NoHost>> = vec![];
    let mut locals = vec![];

    let mut machine = Machine::new();

    machine.stack = vec![42];
    machine
        .invoke(&code, &module_functions, &mut extern_functions, &mut locals, FUEL)
        .unwrap();

    assert_eq!(machine.stack, vec![]);
    assert_eq!(machine.memory[0], 42);
}

#[test]
fn vm_add() {
    let a = 1;
    let b = 2;

    let code = vec![
        Instruction::I32Const(a),
        Instruction::I32Const(b),
        Instruction::I32Add,
    ];

    let module_functions = vec![];
    let mut extern_functions: Vec<ExternFunction<NoHost>> = vec![];
    let mut locals = vec![];

    let mut machine = Machine::new();

    machine
        .invoke(&code, &module_functions, &mut extern_functions, &mut locals, FUEL)
        .unwrap();

    assert_eq!(machine.stack, vec![a + b]);
}

#[test]
fn vm_sub() {
    let a = 1;
    let b = 2;

    let code = vec![
        Instruction::I32Const(a),
        Instruction::I32Const(b),
        Instruction::I32Sub,
    ];

    let module_functions = vec![];
    let mut extern_functions: Vec<ExternFunction<NoHost>> = vec![];
    let mut locals = vec![];

    let mut machine = Machine::new();

    machine
        .invoke(&code, &module_functions, &mut extern_functions, &mut locals, FUEL)
        .unwrap();

    assert_eq!(machine.stack, vec![a - b]);
}

#[test]
fn vm_mul() {
    let a = 2;
    let b = 3;

    let code = vec![
        Instruction::I32Const(a),
        Instruction::I32Const(b),
        Instruction::I32Mul,
    ];

    let module_functions = vec![];
    let mut extern_functions: Vec<ExternFunction<NoHost>> = vec![];
    let mut locals = vec![];

    let mut machine = Machine::new();

    machine
        .invoke(&code, &module_functions, &mut extern_functions, &mut locals, FUEL)
        .unwrap();

    assert_eq!(machine.stack, vec![a * b]);
}

#[test]
fn vm_eq() {
    let a = 2;
    let b = 3;
    let c = 3;

    let code = vec![
        Instruction::I32Const(a),
        Instruction::I32Const(b),
        Instruction::I32Eq,
        Instruction::I32Const(b),
        Instruction::I32Const(c),
        Instruction::I32Eq,
    ];

    let module_functions = vec![];
    let mut extern_functions: Vec<ExternFunction<NoHost>> = vec![];
    let mut locals = vec![];

    let mut machine = Machine::new();

    machine
        .invoke(&code, &module_functions, &mut extern_functions, &mut locals, FUEL)
        .unwrap();

    assert_eq!(machine.stack, vec![(a == b) as i32, (b == c) as i32]);
}

#[test]
fn vm_localget() {
    let code = vec![Instruction::LocalGet(LocalIdx(0))];

    let module_functions = vec![];
    let mut extern_functions: Vec<ExternFunction<NoHost>> = vec![];
    let mut locals = vec![42];

    let mut machine = Machine::new();

    machine
        .invoke(&code, &module_functions, &mut extern_functions, &mut locals, FUEL)
        .unwrap();

    assert_eq!(machine.stack, vec![42]);
}

#[test]
fn vm_call_module_function() {
    let code = vec![Instruction::Call(FuncIdx(0))];

    let function = ModuleFunction {
        param_count: 0,
        code: vec![Instruction::I32Const(42)],
    };

    let module_functions = vec![function];
    let mut extern_functions: Vec<ExternFunction<NoHost>> = vec![];
    let mut locals = vec![];

    let mut machine = Machine::new();

    machine
        .invoke(&code, &module_functions, &mut extern_functions, &mut locals, FUEL)
        .unwrap();

    assert_eq!(machine.stack, vec![42]);
}

#[test]
fn vm_call_module_function_with_args() {
    let a = 5;
    let b = 3;

    let code = vec![
        Instruction::I32Const(a),
        Instruction::I32Const(b),
        Instruction::Call(FuncIdx(0)),
    ];

    let function = ModuleFunction {
        param_count: 2,
        code: vec![
            Instruction::LocalGet(LocalIdx(0)),
            Instruction::LocalGet(LocalIdx(1)),
            Instruction::I32Sub,
        ],
    };

    let module_functions = vec![function];
    let mut extern_functions: Vec<ExternFunction<NoHost>> = vec![];
    let mut locals = vec![];

    let mut machine = Machine::new();

    machine
        .invoke(&code, &module_functions, &mut extern_functions, &mut locals, FUEL)
        .unwrap();

    assert_eq!(machine.stack, vec![a - b]);
}

#[test]
fn vm_call_extern_function() {
    let code = vec![Instruction::Call(FuncIdx(0))];

    let function = ExternFunction { param_count: 0, fun: Flag { called: false } };

    let module_functions = vec![];
    let mut extern_functions = vec![function];
    let mut locals = vec![];

    let mut machine = Machine::new();

    machine
        .invoke(&code, &module_functions, &mut extern_functions, &mut locals, FUEL)
        .unwrap();

    let function_was_called = extern_functions[0].fun.called;
    assert_eq!(function_was_called, true);
}

#[test]
fn vm_call_extern_function_with_args() {
    let a = 5;
    let b = 3;

    let code = vec![
        Instruction::I32Const(a),
        Instruction::I32Const(b),
        Instruction::Call(FuncIdx(0)),
    ];
    let function = ExternFunction { param_count: 2, fun: SubHost };

    let module_functions = vec![];
    let mut extern_functions = vec![function];
    let mut locals = vec![];

    let mut machine = Machine::new();

    machine
        .invoke(&code, &module_functions, &mut extern_functions, &mut locals, FUEL)
        .unwrap();

    assert_eq!(machine.stack, vec![a - b]);
}

#[test]
fn vm_return_statement() {
    let code = vec![
        Instruction::I32Const(42),
        Instruction::Block(
            BlockType::Empty,
            vec![
                Instruction::Return,
                Instruction::I32Const(43),
                Instruction::I32Const(44),
            ],
        ),
        Instruction::I32Const(45),
    ];

    let module_functions = vec![];
    let mut extern_functions: Vec<ExternFunction<NoHost>> = vec![];
    let mut locals = vec![];

    let mut machine = Machine::new();

    machine
        .invoke(&code, &module_functions, &mut extern_functions, &mut locals, FUEL)
        .unwrap();

    assert_eq!(machine.stack, vec![42]);
}

#[test]
fn vm_simple_break() {
    let code = vec![
        Instruction::I32Const(42),
        Instruction::Branch(LabelIdx(0)),
        Instruction::I32Const(43),
        Instruction::I32Const(44),
    ];

    let module_functions = vec![];
    let mut extern_functions: Vec<ExternFunction<NoHost>> = vec![];
    let mut locals = vec![];

    let mut machine = Machine::new();

    machine
        .invoke(&code, &module_functions, &mut extern_functions, &mut locals, FUEL)
        .unwrap();

    assert_eq!(machine.stack, vec![42]);
}

#[test]
fn vm_nested_break_single() {
    let code = vec![
        Instruction::I32Const(42),
        Instruction::Block(
            BlockType::Empty,
            vec![
                Instruction::Branch(LabelIdx(0)),
                Instruction::I32Const(43),
                Instruction::I32Const(44),
            ],
        ),
        Instruction::I32Const(45),
    ];

    let module_functions = vec![];
    let mut extern_functions: Vec<ExternFunction<NoHost>> = vec![];
    let mut locals = vec![];

    let mut machine = Machine::new();

    machine
        .invoke(&code, &module_functions, &mut extern_functions, &mut locals, FUEL)
        .unwrap();

    assert_eq!(machine.stack, vec![42, 45]);
}

#[test]
fn vm_nested_break_double() {
    let code = vec![
        Instruction::I32Const(42),
        Instruction::Block(
            BlockType::Empty,
            vec![
                Instruction::Branch(LabelIdx(1)),
                Instruction::I32Const(43),
                Instruction::I32Const(44),
            ],
        ),
        Instruction::I32Const(45),
    ];

    let module_functions = vec![];
    let mut extern_functions: Vec<ExternFunction<NoHost>> = vec![];
    let mut locals = vec![];

    let mut machine = Machine::new();

    machine
        .invoke(&code, &module_functions, &mut extern_functions, &mut locals, FUEL)
        .unwrap();

    assert_eq!(machine.stack, vec![42]);
}

#[test]
fn vm_simple_break_if() {
    let code = vec![
        Instruction::I32Const(0),
        Instruction::BranchIf(LabelIdx(0)),
        Instruction::I32Const(42),
        Instruction::I32Const(1),
        Instruction::BranchIf(LabelIdx(0)),
        Instruction::I32Const(45),
    ];

    let module_functions = vec![];
    let mut extern_functions: Vec<ExternFunction<NoHost>> = vec![];
    let mut locals = vec![];

    let mut machine = Machine::new();

    machine
        .invoke(&code, &module_functions, &mut extern_functions, &mut locals, FUEL)
        .unwrap();

    assert_eq!(machine.stack, vec![42]);
}

#[test]
fn vm_loop_statement() {
    // int i = 0;
    // while (true) {
    //   if (i == 4) break;
    //   "push 42"
    //   i++;
    // }
    let code = vec![
        Instruction::I32Const(0),
        Instruction::I32Store(MemArg { align: 0, offset: 0 }),
        Instruction::Loop(
            BlockType::Empty,
            vec![
                Instruction::I32Load(MemArg { align: 0, offset: 0 }),
                Instruction::I32Const(4),
                Instruction::I32Eq,
                Instruction::BranchIf(LabelIdx(1)),
                Instruction::I32Const(42),
                Instruction::I32Load(MemArg { align: 0, offset: 0 }),
                Instruction::I32Const(1),
                Instruction::I32Add,
                Instruction::I32Store(MemArg { align: 0, offset: 0 }),
            ],
        ),
    ];

    let module_functions = vec![];
    let mut extern_functions: Vec<ExternFunction<NoHost>> = vec![];
    let mut locals = vec![];

    let mut machine = Machine::new();

    machine
        .invoke(&code, &module_functions, &mut extern_functions, &mut locals, FUEL)
        .unwrap();

    assert_eq!(machine.stack, vec![42, 42, 42, 42]);
    assert_eq!(machine.memory[0], 4);
}

#[test]
fn sub_five_three() {
    let code = vec![
        Instruction::I32Const(5),
        Instruction::I32Const(3),
        Instruction::I32Sub,
    ];

    let module_functions = vec![];
    let mut extern_functions: Vec<ExternFunction<NoHost>> = vec![];
    let mut locals = vec![];

    let mut machine = Machine::new();

    machine
        .invoke(&code, &module_functions, &mut extern_functions, &mut locals, FUEL)
        .unwrap();

    assert_eq!(machine.stack, vec![2]);
}

#[test]
fn empty_body_changes_nothing() {
    let code = vec![];

    let module_functions = vec![];
    let mut extern_functions: Vec<ExternFunction<NoHost>> = vec![];
    let mut locals = vec![];

    let mut machine = Machine::new();
    machine.stack = vec![7];

    let result = machine
        .invoke(&code, &module_functions, &mut extern_functions, &mut locals, FUEL)
        .unwrap();

    assert_eq!(result, None);
    assert_eq!(machine.stack, vec![7]);
    assert_eq!(machine.memory, vec![0; 10]);
}

#[test]
fn lone_return_leaves_stack() {
    let code = vec![Instruction::Return];

    let module_functions = vec![];
    let mut extern_functions: Vec<ExternFunction<NoHost>> = vec![];
    let mut locals = vec![];

    let mut machine = Machine::new();
    machine.stack = vec![9, 8];

    let result = machine
        .invoke(&code, &module_functions, &mut extern_functions, &mut locals, FUEL)
        .unwrap();

    assert_eq!(result, Some(ControlFlow::Return));
    assert_eq!(machine.stack, vec![9, 8]);
}

#[test]
fn branch_if_consumes_condition_both_ways() {
    // A zero condition is consumed and nothing branches.
    let code = vec![Instruction::I32Const(0), Instruction::BranchIf(LabelIdx(3))];
    let module_functions = vec![];
    let mut extern_functions: Vec<ExternFunction<NoHost>> = vec![];
    let mut locals = vec![];
    let mut machine = Machine::new();
    let result = machine
        .invoke(&code, &module_functions, &mut extern_functions, &mut locals, FUEL)
        .unwrap();
    assert_eq!(result, None);
    assert_eq!(machine.stack, vec![]);

    // A non-zero condition is consumed and the branch is taken.
    let code = vec![Instruction::I32Const(7), Instruction::BranchIf(LabelIdx(3))];
    let mut machine = Machine::new();
    let result = machine
        .invoke(&code, &module_functions, &mut extern_functions, &mut locals, FUEL)
        .unwrap();
    assert_eq!(result, Some(ControlFlow::Branch(3)));
    assert_eq!(machine.stack, vec![]);
}

#[test]
fn wrapping_arithmetic() {
    let code = vec![
        Instruction::I32Const(i32::MAX),
        Instruction::I32Const(1),
        Instruction::I32Add,
    ];
    let module_functions = vec![];
    let mut extern_functions: Vec<ExternFunction<NoHost>> = vec![];
    let mut locals = vec![];
    let mut machine = Machine::new();
    machine
        .invoke(&code, &module_functions, &mut extern_functions, &mut locals, FUEL)
        .unwrap();
    assert_eq!(machine.stack, vec![i32::MIN]);
}

#[test]
fn trap_stack_underflow() {
    let code = vec![Instruction::I32Add];
    let module_functions = vec![];
    let mut extern_functions: Vec<ExternFunction<NoHost>> = vec![];
    let mut locals = vec![];
    let mut machine = Machine::new();
    let result = machine.invoke(&code, &module_functions, &mut extern_functions, &mut locals, FUEL);
    assert_eq!(result, Err(Trap::StackUnderflow));
}

#[test]
fn trap_memory_out_of_bounds() {
    let code = vec![Instruction::I32Load(MemArg { align: 0, offset: 10 })];
    let module_functions = vec![];
    let mut extern_functions: Vec<ExternFunction<NoHost>> = vec![];
    let mut locals = vec![];
    let mut machine = Machine::new();
    let result = machine.invoke(&code, &module_functions, &mut extern_functions, &mut locals, FUEL);
    assert_eq!(result, Err(Trap::MemoryOutOfBounds));
}

#[test]
fn trap_local_out_of_bounds() {
    let code = vec![Instruction::LocalGet(LocalIdx(0))];
    let module_functions = vec![];
    let mut extern_functions: Vec<ExternFunction<NoHost>> = vec![];
    let mut locals = vec![];
    let mut machine = Machine::new();
    let result = machine.invoke(&code, &module_functions, &mut extern_functions, &mut locals, FUEL);
    assert_eq!(result, Err(Trap::LocalOutOfBounds));
}

#[test]
fn trap_function_out_of_bounds() {
    let code = vec![Instruction::Call(FuncIdx(0))];
    let module_functions = vec![];
    let mut extern_functions: Vec<ExternFunction<NoHost>> = vec![];
    let mut locals = vec![];
    let mut machine = Machine::new();
    let result = machine.invoke(&code, &module_functions, &mut extern_functions, &mut locals, FUEL);
    assert_eq!(result, Err(Trap::FunctionOutOfBounds));
}

#[test]
fn trap_unsupported_instruction() {
    let code = vec![Instruction::Unreachable];
    let module_functions = vec![];
    let mut extern_functions: Vec<ExternFunction<NoHost>> = vec![];
    let mut locals = vec![];
    let mut machine = Machine::new();
    let result = machine.invoke(&code, &module_functions, &mut extern_functions, &mut locals, FUEL);
    assert_eq!(result, Err(Trap::UnsupportedInstruction));
}

#[test]
fn trap_out_of_fuel_on_endless_loop() {
    // A loop whose body falls off the end iterates forever; the fuel
    // budget is the only thing that stops it.
    let code = vec![Instruction::Loop(BlockType::Empty, vec![])];
    let module_functions = vec![];
    let mut extern_functions: Vec<ExternFunction<NoHost>> = vec![];
    let mut locals = vec![];
    let mut machine = Machine::new();
    let result = machine.invoke(&code, &module_functions, &mut extern_functions, &mut locals, 1000);
    assert_eq!(result, Err(Trap::OutOfFuel));
}

#[test]
fn host_result_order() {
    // The host receives arguments in pushed order, not stack order.
    struct FirstMinusTwiceSecond;
    impl HostFunction for FirstMinusTwiceSecond {
        fn call(&mut self, args: &[i32]) -> Option<i32> {
            Some(args[0] - 2 * args[1])
        }
    }
    let code = vec![
        Instruction::I32Const(10),
        Instruction::I32Const(3),
        Instruction::Call(FuncIdx(0)),
    ];
    let module_functions = vec![];
    let mut extern_functions = vec![ExternFunction { param_count: 2, fun: FirstMinusTwiceSecond }];
    let mut locals = vec![];
    let mut machine = Machine::new();
    machine
        .invoke(&code, &module_functions, &mut extern_functions, &mut locals, FUEL)
        .unwrap();
    assert_eq!(machine.stack, vec![4]);
}

#[test]
fn block_without_branches_sums_deltas() {
    // Straight-line code through a nested block: every instruction's
    // stack delta adds up, and the block itself adds nothing.
    let code = vec![
        Instruction::I32Const(1),
        Instruction::Block(
            BlockType::Empty,
            vec![
                Instruction::I32Const(2),
                Instruction::I32Const(3),
                Instruction::I32Add,
            ],
        ),
    ];
    let module_functions = vec![];
    let mut extern_functions: Vec<ExternFunction<NoHost>> = vec![];
    let mut locals = vec![];
    let mut machine = Machine::new();
    machine
        .invoke(&code, &module_functions, &mut extern_functions, &mut locals, FUEL)
        .unwrap();
    assert_eq!(machine.stack, vec![1, 5]);
}
