use mx::builtins;
use mx::bytecode::Instruction;
use mx::bytecode::StackFrame;
use mx::bytecode::State;
use mx::context::Context;
use mx::native;
use mx::native::CallError;
use mx::ops::BinaryOp;
use mx::ops::UnaryOp;
use mx::semantics::RuntimeError;
use mx::vars::Vars;
use mx::Number;
use mx::Primitive;
use mx::Program;
use mx::Table;
use mx::Value;

fn f(x: f64) -> Value {
    Value::Primitive(Primitive::Number(Number::new(x.to_bits())))
}

fn fk(x: f64) -> Primitive {
    Primitive::Number(Number::new(x.to_bits()))
}

fn t(text: &str) -> Value {
    Value::Primitive(Primitive::String(text.to_string()))
}

fn tk(text: &str) -> Primitive {
    Primitive::String(text.to_string())
}

fn b(x: bool) -> Value {
    Value::Primitive(Primitive::Bool(x))
}

fn tab(pairs: Vec<(Primitive, Value)>) -> Table {
    let mut table = Table::new();
    for (k, v) in pairs {
        table.set(k, v);
    }
    table
}

fn with_stack(stack: Vec<Value>) -> State {
    State {
        pc: 0,
        globals: Vars::new(),
        stack_frames: vec![StackFrame {
            locals: Vars::new(),
            return_address: None,
            stack,
        }],
    }
}

fn no_frames() -> State {
    State {
        pc: 0,
        globals: Vars::new(),
        stack_frames: vec![],
    }
}

fn code(instructions: Vec<Instruction>) -> Program {
    let mut program = Program::new();
    for instruction in instructions {
        program.push(instruction);
    }
    program
}

fn stack_of(state: &State) -> Vec<Value> {
    state.stack_frames[state.stack_frames.len() - 1].stack.clone()
}

fn fails_unchanged(instruction: Instruction, stack: Vec<Value>, error: RuntimeError) {
    let mut state = with_stack(stack.clone());
    state.pc = 7;
    assert_eq!(instruction.eval(&mut state), Err(error));
    assert_eq!(state.pc, 7);
    assert_eq!(state.stack_frames.len(), 1);
    assert_eq!(stack_of(&state), stack);
    assert_eq!(state.stack_frames[0].locals.len(), 0);
}

#[test]
fn empty_stack_is_reported() {
    fails_unchanged(Instruction::Copy, vec![], RuntimeError::EmptyStack);
    fails_unchanged(Instruction::Swap, vec![f(1.0)], RuntimeError::EmptyStack);
    fails_unchanged(Instruction::Pop, vec![], RuntimeError::EmptyStack);
    fails_unchanged(Instruction::StoreName, vec![t("x")], RuntimeError::EmptyStack);
    fails_unchanged(Instruction::StorePrimitive(fk(1.0)), vec![], RuntimeError::EmptyStack);
    fails_unchanged(Instruction::PushName, vec![], RuntimeError::EmptyStack);
    fails_unchanged(Instruction::TableGet, vec![], RuntimeError::EmptyStack);
    fails_unchanged(Instruction::TableGet, vec![t("k")], RuntimeError::EmptyStack);
    fails_unchanged(Instruction::TableListBuild(2), vec![f(1.0)], RuntimeError::EmptyStack);
    fails_unchanged(
        Instruction::TableDictBuild(2),
        vec![t("a"), f(1.0), f(2.0)],
        RuntimeError::EmptyStack,
    );
    fails_unchanged(Instruction::TableMerge, vec![], RuntimeError::EmptyStack);
    fails_unchanged(
        Instruction::TableMerge,
        vec![Value::table()],
        RuntimeError::EmptyStack,
    );
    fails_unchanged(Instruction::PopJumpIfTrue(2), vec![], RuntimeError::EmptyStack);
    fails_unchanged(Instruction::PopJumpIfFalse(2), vec![], RuntimeError::EmptyStack);
    fails_unchanged(
        Instruction::StoreFunctionArgs(false, 1),
        vec![t("a"), f(0.0)],
        RuntimeError::EmptyStack,
    );
    fails_unchanged(Instruction::StoreFunctionArgs(true, 0), vec![], RuntimeError::EmptyStack);
    fails_unchanged(Instruction::Return, vec![], RuntimeError::EmptyStack);
    fails_unchanged(Instruction::UnaryOp(UnaryOp::Not), vec![], RuntimeError::EmptyStack);
    fails_unchanged(Instruction::BinaryOp(BinaryOp::Eq), vec![f(1.0)], RuntimeError::EmptyStack);
    fails_unchanged(Instruction::Call, vec![], RuntimeError::EmptyStack);
    fails_unchanged(
        Instruction::Call,
        vec![Value::FunctionPointer(0)],
        RuntimeError::EmptyStack,
    );
}

#[test]
fn missing_frame_is_reported() {
    for instruction in [
        Instruction::Copy,
        Instruction::Swap,
        Instruction::Pop,
        Instruction::StoreName,
        Instruction::PushName,
        Instruction::PushPrimitive(Primitive::Nil),
        Instruction::TableGet,
        Instruction::TableListBuild(0),
        Instruction::TableDictBuild(0),
        Instruction::TableMerge,
        Instruction::PopJumpIfTrue(1),
        Instruction::StoreFunctionArgs(false, 0),
        Instruction::PushFunction(0),
        Instruction::Call,
        Instruction::Return,
    ] {
        let mut state = no_frames();
        assert_eq!(instruction.eval(&mut state), Err(RuntimeError::NoStackFrames));
        assert_eq!(state.pc, 0);
    }
    let mut state = no_frames();
    assert_eq!(state.pop_stack(), Err(RuntimeError::NoStackFrames));
    assert_eq!(state.push_stack(Value::nil()), Err(RuntimeError::NoStackFrames));
    assert_eq!(state.peek_stack(), Err(RuntimeError::NoStackFrames));
    assert_eq!(state.set_var("x", Value::nil()), Err(RuntimeError::NoStackFrames));
    assert!(state.current_frame().is_err());
}

#[test]
fn nop_and_jump_need_no_frame() {
    let mut state = no_frames();
    assert_eq!(Instruction::Nop.eval(&mut state), Ok(None));
    assert_eq!(state.pc, 1);
    assert_eq!(Instruction::Jump(4).eval(&mut state), Ok(None));
    assert_eq!(state.pc, 5);
}

#[test]
fn return_with_address_needs_a_caller() {
    let mut state = State {
        pc: 3,
        globals: Vars::new(),
        stack_frames: vec![StackFrame {
            locals: Vars::new(),
            return_address: Some(9),
            stack: vec![f(1.0)],
        }],
    };
    assert_eq!(Instruction::Return.eval(&mut state), Err(RuntimeError::NoStackFrames));
    assert_eq!(state.pc, 3);
    assert_eq!(state.stack_frames.len(), 1);
    assert_eq!(state.stack_frames[0].stack, vec![f(1.0)]);
}

#[test]
fn not_a_table_is_reported() {
    fails_unchanged(
        Instruction::TableMerge,
        vec![Value::table(), f(1.0)],
        RuntimeError::NotATable,
    );
    fails_unchanged(
        Instruction::TableMerge,
        vec![f(1.0), Value::table()],
        RuntimeError::NotATable,
    );
    fails_unchanged(Instruction::TableMerge, vec![f(1.0)], RuntimeError::NotATable);
}

#[test]
fn invalid_variable_is_reported() {
    fails_unchanged(Instruction::StoreName, vec![f(1.0), f(2.0)], RuntimeError::InvalidVariable);
    fails_unchanged(
        Instruction::StorePrimitive(fk(1.0)),
        vec![Value::nil()],
        RuntimeError::InvalidVariable,
    );
    fails_unchanged(Instruction::PushName, vec![f(1.0)], RuntimeError::InvalidVariable);
    fails_unchanged(Instruction::PushName, vec![t("unbound")], RuntimeError::InvalidVariable);
    fails_unchanged(Instruction::TableGet, vec![f(1.0), t("k")], RuntimeError::InvalidVariable);
    fails_unchanged(
        Instruction::StoreFunctionArgs(false, 0),
        vec![f(1.0)],
        RuntimeError::InvalidVariable,
    );
    fails_unchanged(
        Instruction::StoreFunctionArgs(false, 1),
        vec![Value::table(), f(1.0), f(0.0)],
        RuntimeError::InvalidVariable,
    );
    fails_unchanged(
        Instruction::StoreFunctionArgs(false, 1),
        vec![Value::table(), t("a"), t("0")],
        RuntimeError::InvalidVariable,
    );
    let state = with_stack(vec![]);
    assert_eq!(state.get_var("x"), Err(RuntimeError::InvalidVariable));
}

#[test]
fn invalid_table_key_is_reported() {
    fails_unchanged(
        Instruction::TableGet,
        vec![Value::table(), Value::table()],
        RuntimeError::InvalidTableKey,
    );
    fails_unchanged(
        Instruction::TableGet,
        vec![Value::FunctionPointer(1)],
        RuntimeError::InvalidTableKey,
    );
    fails_unchanged(
        Instruction::TableDictBuild(2),
        vec![t("a"), f(1.0), Value::table(), f(2.0)],
        RuntimeError::InvalidTableKey,
    );
    fails_unchanged(
        Instruction::TableDictBuild(2),
        vec![Value::table(), f(1.0), t("b"), f(2.0)],
        RuntimeError::InvalidTableKey,
    );
    fails_unchanged(
        Instruction::TableDictBuild(3),
        vec![t("a"), f(1.0), Value::table(), f(2.0)],
        RuntimeError::InvalidTableKey,
    );
    fails_unchanged(
        Instruction::TableDictBuild(2),
        vec![Value::table(), f(1.0), f(2.0)],
        RuntimeError::EmptyStack,
    );
}

#[test]
fn invalid_program_counter_is_reported() {
    let mut state = with_stack(vec![f(1.0)]);
    state.pc = usize::MAX;
    assert_eq!(
        Instruction::Nop.eval(&mut state),
        Err(RuntimeError::InvalidProgramCounter)
    );
    assert_eq!(
        Instruction::Pop.eval(&mut state),
        Err(RuntimeError::InvalidProgramCounter)
    );
    assert_eq!(state.pc, usize::MAX);
    assert_eq!(stack_of(&state), vec![f(1.0)]);
    state.pc = 2;
    assert_eq!(
        Instruction::Jump(usize::MAX).eval(&mut state),
        Err(RuntimeError::InvalidProgramCounter)
    );
    assert_eq!(
        Instruction::PopJumpIfTrue(usize::MAX).eval(&mut state),
        Err(RuntimeError::InvalidProgramCounter)
    );
    assert_eq!(state.pc, 2);
    assert_eq!(stack_of(&state), vec![f(1.0)]);

    let program = code(vec![Instruction::Jump(5)]);
    assert_eq!(program.run(10), Err(RuntimeError::InvalidProgramCounter));
    let program = code(vec![Instruction::Jump(1)]);
    assert_eq!(program.run(10), Ok(Some(Value::nil())));
    assert_eq!(
        code(vec![]).call(Value::FunctionPointer(1), Vars::new(), 10),
        Err(RuntimeError::InvalidProgramCounter)
    );
}

#[test]
fn invalid_callable_is_reported() {
    fails_unchanged(
        Instruction::Call,
        vec![Value::table(), f(1.0)],
        RuntimeError::InvalidCallable,
    );
    fails_unchanged(Instruction::Call, vec![Value::nil()], RuntimeError::InvalidCallable);
    let program = code(vec![]);
    assert_eq!(
        program.call(f(1.0), Vars::new(), 10),
        Err(RuntimeError::InvalidCallable)
    );
    assert_eq!(
        program.call_with(Value::table(), Vars::new(), Vars::new(), 0),
        Err(RuntimeError::InvalidCallable)
    );
}

#[test]
fn function_argument_not_provided_is_reported() {
    let args = || Value::Table(tab(vec![(tk("a"), f(1.0)), (fk(0.0), f(2.0))]));
    fails_unchanged(
        Instruction::StoreFunctionArgs(false, 1),
        vec![args(), t("b"), f(1.0)],
        RuntimeError::FunctionArgumentNotProvided,
    );
    fails_unchanged(
        Instruction::StoreFunctionArgs(false, 1),
        vec![args(), t("b"), Value::nil()],
        RuntimeError::FunctionArgumentNotProvided,
    );
    fails_unchanged(
        Instruction::StoreFunctionArgs(true, 0),
        vec![args()],
        RuntimeError::FunctionArgumentNotProvided,
    );
    fails_unchanged(
        Instruction::StoreFunctionArgs(true, 1),
        vec![
            Value::Table(tab(vec![(tk("self"), Value::nil()), (tk("a"), f(1.0))])),
            t("a"),
            Value::nil(),
        ],
        RuntimeError::FunctionArgumentNotProvided,
    );
}

#[test]
fn one_argument_satisfies_one_parameter() {
    fails_unchanged(
        Instruction::StoreFunctionArgs(false, 2),
        vec![
            Value::Table(tab(vec![(fk(0.0), f(2.0))])),
            t("a"),
            f(0.0),
            t("b"),
            f(0.0),
        ],
        RuntimeError::FunctionArgumentNotProvided,
    );
    let mut state = with_stack(vec![
        Value::Table(tab(vec![(fk(0.0), f(2.0)), (tk("a"), f(1.0))])),
        t("a"),
        f(0.0),
        t("b"),
        f(0.0),
    ]);
    assert_eq!(Instruction::StoreFunctionArgs(false, 2).eval(&mut state), Ok(None));
    assert_eq!(state.stack_frames[0].locals.get("a"), Some(&f(1.0)));
    assert_eq!(state.stack_frames[0].locals.get("b"), Some(&f(2.0)));
    assert_eq!(stack_of(&state), vec![]);
}

#[test]
fn locals_shadow_globals() {
    let mut globals = Vars::new();
    globals.insert("x".to_string(), f(0.0));
    let mut locals = Vars::new();
    locals.insert("x".to_string(), f(1.0));
    let mut state = State::new(0, locals, globals);
    state.push_stack(t("x")).unwrap();
    assert_eq!(Instruction::PushName.eval(&mut state), Ok(None));
    assert_eq!(stack_of(&state), vec![f(1.0)]);
    assert_eq!(state.get_var("x"), Ok(f(1.0)));
}

#[test]
fn locals_of_outer_frames_are_not_seen() {
    let mut outer = Vars::new();
    outer.insert("x".to_string(), f(1.0));
    outer.insert("y".to_string(), f(2.0));
    let mut globals = Vars::new();
    globals.insert("y".to_string(), f(3.0));
    let mut state = State::new(0, outer, globals);
    state.push_frame(Vars::new(), 5);
    assert_eq!(state.get_var("x"), Err(RuntimeError::InvalidVariable));
    assert_eq!(state.get_var("y"), Ok(f(3.0)));
    state.push_stack(t("x")).unwrap();
    assert_eq!(
        Instruction::PushName.eval(&mut state),
        Err(RuntimeError::InvalidVariable)
    );
}

#[test]
fn store_name_binds_in_the_current_frame_only() {
    let mut state = State::new(0, Vars::new(), Vars::new());
    state.push_frame(Vars::new(), 5);
    state.push_stack(t("x")).unwrap();
    state.push_stack(f(1.0)).unwrap();
    assert_eq!(Instruction::StoreName.eval(&mut state), Ok(None));
    assert_eq!(state.stack_frames[1].locals.get("x"), Some(&f(1.0)));
    assert_eq!(state.stack_frames[0].locals.len(), 0);
    assert_eq!(state.globals.len(), 0);
}

#[test]
fn jumps_move_the_program_counter() {
    let mut state = with_stack(vec![]);
    assert_eq!(Instruction::Jump(0).eval(&mut state), Ok(None));
    assert_eq!(state.pc, 1);
    assert_eq!(Instruction::Jump(1).eval(&mut state), Ok(None));
    assert_eq!(state.pc, 2);
    assert_eq!(Instruction::Jump(5).eval(&mut state), Ok(None));
    assert_eq!(state.pc, 7);
}

#[test]
fn conditional_jumps_take_the_condition_off() {
    let mut state = with_stack(vec![b(true), b(false), b(true), b(false)]);
    assert_eq!(Instruction::PopJumpIfTrue(3).eval(&mut state), Ok(None));
    assert_eq!(state.pc, 1);
    assert_eq!(Instruction::PopJumpIfTrue(3).eval(&mut state), Ok(None));
    assert_eq!(state.pc, 4);
    assert_eq!(Instruction::PopJumpIfFalse(3).eval(&mut state), Ok(None));
    assert_eq!(state.pc, 7);
    assert_eq!(Instruction::PopJumpIfFalse(3).eval(&mut state), Ok(None));
    assert_eq!(state.pc, 8);
    assert_eq!(stack_of(&state), vec![]);
}

#[test]
fn conditional_jumps_go_by_truthiness() {
    let mut state = with_stack(vec![f(f64::NAN), f(-0.0), t(""), Value::table()]);
    assert_eq!(Instruction::PopJumpIfTrue(10).eval(&mut state), Ok(None));
    assert_eq!(state.pc, 1);
    assert_eq!(Instruction::PopJumpIfTrue(10).eval(&mut state), Ok(None));
    assert_eq!(state.pc, 2);
    assert_eq!(Instruction::PopJumpIfTrue(10).eval(&mut state), Ok(None));
    assert_eq!(state.pc, 3);
    assert_eq!(Instruction::PopJumpIfTrue(10).eval(&mut state), Ok(None));
    assert_eq!(state.pc, 13);
}

#[test]
fn truthiness_of_the_other_kinds() {
    assert_eq!(builtins::bool(&t("")), false);
    assert_eq!(builtins::bool(&t("a")), true);
    assert_eq!(builtins::bool(&t("ä")), true);
    assert_eq!(builtins::bool(&Value::FunctionPointer(0)), true);
    assert_eq!(builtins::bool(&f(f64::MIN_POSITIVE)), true);
}

#[test]
fn dict_build_lets_the_last_pair_win() {
    let mut state = with_stack(vec![
        f(9.0),
        t("a"),
        f(1.0),
        t("b"),
        f(2.0),
        t("a"),
        f(3.0),
    ]);
    assert_eq!(Instruction::TableDictBuild(3).eval(&mut state), Ok(None));
    let stack = stack_of(&state);
    assert_eq!(stack.len(), 2);
    assert_eq!(stack[0], f(9.0));
    let table = stack[1].clone().get_table().unwrap();
    assert_eq!(table.get(&tk("a")), Some(&f(3.0)));
    assert_eq!(table.get(&tk("b")), Some(&f(2.0)));
    assert_eq!(table.iter().len(), 2);
}

#[test]
fn list_build_keeps_the_order_of_pushing() {
    let mut state = with_stack(vec![f(9.0), t("a"), t("b"), t("c")]);
    assert_eq!(Instruction::TableListBuild(3).eval(&mut state), Ok(None));
    let stack = stack_of(&state);
    assert_eq!(stack.len(), 2);
    let table = stack[1].clone().get_table().unwrap();
    assert_eq!(table.get(&fk(0.0)), Some(&t("a")));
    assert_eq!(table.get(&fk(1.0)), Some(&t("b")));
    assert_eq!(table.get(&fk(2.0)), Some(&t("c")));
    assert_eq!(table.clone().iter_list(), vec![t("a"), t("b"), t("c")]);
    assert_eq!(table.iter().len(), 3);

    let mut state = with_stack(vec![f(9.0)]);
    assert_eq!(Instruction::TableListBuild(0).eval(&mut state), Ok(None));
    assert_eq!(stack_of(&state), vec![f(9.0), Value::table()]);
}

#[test]
fn table_get_gives_nil_for_a_missing_key() {
    let mut state = with_stack(vec![Value::Table(tab(vec![(tk("x"), f(1.0))])), t("y")]);
    assert_eq!(Instruction::TableGet.eval(&mut state), Ok(None));
    assert_eq!(stack_of(&state), vec![Value::nil()]);
}

#[test]
fn operators_that_need_no_arithmetic() {
    let mut state = with_stack(vec![f(0.0)]);
    assert_eq!(Instruction::UnaryOp(UnaryOp::Not).eval(&mut state), Ok(None));
    assert_eq!(stack_of(&state), vec![b(true)]);

    let cases = vec![
        (BinaryOp::Eq, f(1.0), f(1.0), b(true)),
        (BinaryOp::Eq, f(1.0), t("1"), b(false)),
        (BinaryOp::Ne, f(1.0), f(2.0), b(true)),
        (BinaryOp::Ne, f(f64::NAN), f(f64::NAN), b(false)),
        (BinaryOp::And, f(0.0), f(2.0), f(0.0)),
        (BinaryOp::And, f(1.0), f(2.0), f(2.0)),
        (BinaryOp::Or, f(0.0), f(2.0), f(2.0)),
        (BinaryOp::Or, f(1.0), f(2.0), f(1.0)),
        (BinaryOp::NilCoalesce, Value::nil(), f(2.0), f(2.0)),
        (BinaryOp::NilCoalesce, b(false), f(2.0), b(false)),
    ];
    for (op, lhs, rhs, expected) in cases {
        let mut state = with_stack(vec![lhs, rhs]);
        assert_eq!(Instruction::BinaryOp(op).eval(&mut state), Ok(None));
        assert_eq!(state.pc, 1);
        assert_eq!(stack_of(&state), vec![expected]);
    }
}

#[test]
fn catalogue_of_what_is_carried_out() {
    assert!(Instruction::Nop.is_implemented());
    assert!(Instruction::Call.is_implemented());
    assert!(Instruction::PushFunction(0).is_implemented());
    assert!(Instruction::UnaryOp(UnaryOp::Not).is_implemented());
    assert!(!Instruction::UnaryOp(UnaryOp::Minus).is_implemented());
    assert!(!Instruction::UnaryOp(UnaryOp::Plus).is_implemented());
    assert!(Instruction::BinaryOp(BinaryOp::Eq).is_implemented());
    assert!(Instruction::BinaryOp(BinaryOp::NilCoalesce).is_implemented());
    for op in [
        BinaryOp::Add,
        BinaryOp::Sub,
        BinaryOp::Mul,
        BinaryOp::Div,
        BinaryOp::Mod,
        BinaryOp::Pow,
        BinaryOp::Lt,
        BinaryOp::Lte,
        BinaryOp::Gt,
        BinaryOp::Gte,
    ] {
        assert!(!Instruction::BinaryOp(op).is_implemented());
    }
    assert!(code(vec![Instruction::Nop, Instruction::Return]).is_runnable());
    assert!(!code(vec![Instruction::Nop, Instruction::BinaryOp(BinaryOp::Add)]).is_runnable());
}

#[test]
fn call_and_return() {
    // 0: push "hello"; 1: push function 5; 2: call; 3: return; 4: nop
    // 5: the function: takes its argument off and returns 42
    let program = code(vec![
        Instruction::PushPrimitive(tk("hello")),
        Instruction::PushFunction(5),
        Instruction::Call,
        Instruction::Return,
        Instruction::Nop,
        Instruction::Pop,
        Instruction::PushPrimitive(fk(42.0)),
        Instruction::Return,
    ]);
    assert_eq!(program.len(), 8);
    assert_eq!(program.run(100), Ok(Some(f(42.0))));
    assert_eq!(program.run(6), Ok(None));
    assert_eq!(program.run(7), Ok(Some(f(42.0))));

    let mut state = State::new(0, Vars::new(), Vars::new());
    assert_eq!(program.step(&mut state), Ok(None));
    assert_eq!(program.step(&mut state), Ok(None));
    assert_eq!(program.step(&mut state), Ok(None));
    assert_eq!(state.pc, 5);
    assert_eq!(state.stack_frames.len(), 2);
    assert_eq!(state.stack_frames[0].stack, vec![]);
    assert_eq!(state.stack_frames[1].stack, vec![t("hello")]);
    assert_eq!(state.stack_frames[1].return_address, Some(3));
    assert_eq!(state.stack_frames[1].locals.len(), 0);
    assert_eq!(program.step(&mut state), Ok(None));
    assert_eq!(program.step(&mut state), Ok(None));
    assert_eq!(program.step(&mut state), Ok(None));
    assert_eq!(state.pc, 3);
    assert_eq!(state.stack_frames.len(), 1);
    assert_eq!(state.stack_frames[0].stack, vec![f(42.0)]);
    assert_eq!(program.step(&mut state), Ok(Some(f(42.0))));
    assert_eq!(state.stack_frames.len(), 0);
}

#[test]
fn function_binds_its_arguments() {
    // the function at 0 returns its parameter `b`, bound by position
    let program = code(vec![
        Instruction::PushPrimitive(tk("a")),
        Instruction::PushPrimitive(fk(0.0)),
        Instruction::PushPrimitive(tk("b")),
        Instruction::PushPrimitive(fk(1.0)),
        Instruction::StoreFunctionArgs(false, 2),
        Instruction::PushPrimitive(tk("b")),
        Instruction::PushName,
        Instruction::Return,
        // 8: the caller
        Instruction::PushPrimitive(fk(10.0)),
        Instruction::PushPrimitive(fk(20.0)),
        Instruction::TableListBuild(2),
        Instruction::PushFunction(0),
        Instruction::Call,
        Instruction::Return,
    ]);
    assert_eq!(
        program.call(Value::FunctionPointer(8), Vars::new(), 100),
        Ok(Some(f(20.0)))
    );
}

#[test]
fn call_runs_from_the_address_with_the_arguments_as_locals() {
    let program = code(vec![
        Instruction::Nop,
        Instruction::PushPrimitive(tk("x")),
        Instruction::PushName,
        Instruction::Return,
    ]);
    let mut args = Vars::new();
    args.insert("x".to_string(), f(7.0));
    assert_eq!(
        program.call(Value::FunctionPointer(1), args.clone(), 10),
        Ok(Some(f(7.0)))
    );
    let mut globals = Vars::new();
    globals.insert("x".to_string(), f(8.0));
    assert_eq!(
        program.call_with(Value::FunctionPointer(1), Vars::new(), globals.clone(), 10),
        Ok(Some(f(8.0)))
    );
    assert_eq!(
        program.call_with(Value::FunctionPointer(1), args, globals.clone(), 10),
        Ok(Some(f(7.0)))
    );
    assert_eq!(program.run_with(globals, 10), Ok(Some(f(8.0))));
    assert_eq!(program.run(10), Err(RuntimeError::InvalidVariable));
}

#[test]
fn a_program_that_does_not_end_runs_out_of_fuel() {
    let program = code(vec![
        Instruction::PushPrimitive(Primitive::Bool(true)),
        Instruction::PopJumpIfTrue(0),
    ]);
    assert_eq!(program.run(1), Ok(None));
    assert_eq!(program.run(2), Ok(None));
    assert_eq!(program.run(3), Err(RuntimeError::EmptyStack));
    let program = code(vec![
        Instruction::Nop,
        Instruction::PushPrimitive(Primitive::Bool(true)),
        Instruction::Return,
    ]);
    assert_eq!(program.run(0), Ok(None));
    assert_eq!(program.run(2), Ok(None));
    assert_eq!(program.run(3), Ok(Some(b(true))));
    assert_eq!(program.run(u64::MAX), Ok(Some(b(true))));
}

#[test]
fn return_from_the_only_frame_ends_the_execution() {
    let mut state = with_stack(vec![f(1.0), f(2.0)]);
    state.pc = 4;
    assert_eq!(Instruction::Return.eval(&mut state), Ok(Some(f(2.0))));
    assert_eq!(state.stack_frames.len(), 0);
    assert_eq!(state.pc, 4);
}

#[test]
fn falling_off_the_end_gives_nil() {
    let program = code(vec![Instruction::PushPrimitive(fk(1.0))]);
    assert_eq!(program.run(10), Ok(Some(Value::nil())));
    let mut globals = Vars::new();
    globals.insert("x".to_string(), f(1.0));
    assert_eq!(code(vec![]).run_with(globals, 1), Ok(Some(Value::nil())));
}

#[test]
fn state_helpers() {
    let mut state = State::new(2, Vars::new(), Vars::new());
    state.incr_pc();
    assert_eq!(state.pc, 3);
    assert_eq!(state.peek_stack(), Err(RuntimeError::EmptyStack));
    assert_eq!(state.pop_stack(), Err(RuntimeError::EmptyStack));
    state.push_stack(f(1.0)).unwrap();
    state.push_stack(f(2.0)).unwrap();
    assert_eq!(state.peek_stack(), Ok(&f(2.0)));
    assert_eq!(state.pop_stack(), Ok(f(2.0)));
    assert_eq!(state.peek_stack(), Ok(&f(1.0)));
    state.set_var("x", f(5.0)).unwrap();
    assert_eq!(state.get_var("x"), Ok(f(5.0)));
    state.current_frame().unwrap().stack.push(f(9.0));
    assert_eq!(state.pop_stack(), Ok(f(9.0)));
    state.push_frame(Vars::new(), 11);
    assert_eq!(state.stack_frames.len(), 2);
    assert_eq!(state.current_frame().unwrap().return_address, Some(11));
    assert_eq!(state.peek_stack(), Err(RuntimeError::EmptyStack));
}

#[test]
fn context_compiles_to_the_empty_program() {
    let mut context = Context::new();
    let program = context.compile("return 1").unwrap();
    assert_eq!(program.len(), 0);
    assert_eq!(program.run(1), Ok(Some(Value::nil())));
    assert_eq!(context.compile_mut("").unwrap().len(), 0);
}

#[test]
fn text_of_values() {
    let show = |n: Number| format!("#{}", n.to_bits());
    assert_eq!(builtins::str(Value::nil(), show), "nil");
    assert_eq!(builtins::str(b(true), show), "true");
    assert_eq!(builtins::str(b(false), show), "false");
    assert_eq!(builtins::str(t("abba"), show), "abba");
    assert_eq!(builtins::str(Value::table(), show), "{table}");
    assert_eq!(builtins::str(Value::FunctionPointer(3), show), "<function>");
    assert_eq!(builtins::str(Value::Primitive(Primitive::Number(Number::new(5))), show), "#5");
}

#[test]
fn arguments_of_native_functions() {
    let args = Table::from_vec(vec![f(420.0), t("x"), Value::nil()]);
    assert_eq!(
        native::argument::<Number>(&args, 0, 3),
        Ok(Number::new((420.0f64).to_bits()))
    );
    assert_eq!(native::argument::<String>(&args, 1, 3), Ok("x".to_string()));
    assert_eq!(native::argument::<()>(&args, 2, 3), Ok(()));
    assert_eq!(
        native::argument::<bool>(&args, 1, 3),
        Err(CallError::InvalidArgumentType(1, 3))
    );
    assert_eq!(
        native::argument::<bool>(&args, 3, 4),
        Err(CallError::NotEnoughArguments(3, 4))
    );
    assert_eq!(
        native::argument::<Table>(&args, 0, 1),
        Err(CallError::InvalidArgumentType(0, 1))
    );
}

#[test]
fn conversions_into_values() {
    assert_eq!(Value::new(()), Value::nil());
    assert_eq!(Value::new(true), b(true));
    assert_eq!(Value::new("x"), t("x"));
    assert_eq!(Value::new("x".to_string()), t("x"));
    assert_eq!(Value::new(3u8), f(3.0));
    assert_eq!(Value::new(-3i64), f(-3.0));
    assert_eq!(Value::new(7usize), f(7.0));
    assert_eq!(Value::new(Table::new()), Value::table());
    assert_eq!(Value::new(tk("k")), t("k"));
    assert_eq!(Value::from(Number::new((1.5f64).to_bits())), f(1.5));
    assert_eq!(Primitive::from(2i32), fk(2.0));
    assert_eq!(Primitive::from(()), Primitive::Nil);
    assert_eq!(Primitive::from(false), Primitive::Bool(false));

    assert_eq!(f(1.0).get_value::<Number>(), Some(Number::new((1.0f64).to_bits())));
    assert_eq!(f(1.0).get_value::<bool>(), None);
    assert_eq!(b(true).get_value::<bool>(), Some(true));
    assert_eq!(t("x").get_value::<String>(), Some("x".to_string()));
    assert_eq!(Value::nil().get_value::<()>(), Some(()));
    assert_eq!(Value::table().get_value::<Table>(), Some(Table::new()));
    assert_eq!(Value::table().get_value::<Primitive>(), None);
    assert_eq!(t("x").get_value::<Primitive>(), Some(tk("x")));
    assert_eq!(Value::FunctionPointer(1).get_value::<String>(), None);
}

#[test]
fn operators_of_order_compare_numbers() {
    let cases = vec![
        (BinaryOp::Lt, 1.0, 2.0, true),
        (BinaryOp::Lt, 2.0, 2.0, false),
        (BinaryOp::Lt, f64::NAN, f64::NEG_INFINITY, true),
        (BinaryOp::Lt, -0.0, 0.0, false),
        (BinaryOp::Lte, 2.0, 2.0, true),
        (BinaryOp::Lte, -0.0, 0.0, true),
        (BinaryOp::Lte, 3.0, 2.0, false),
        (BinaryOp::Lte, f64::NAN, f64::NAN, true),
        (BinaryOp::Gt, 3.0, 2.0, true),
        (BinaryOp::Gt, 2.0, 2.0, false),
        (BinaryOp::Gt, 1.0, f64::NAN, true),
        (BinaryOp::Gte, 2.0, 2.0, true),
        (BinaryOp::Gte, 1.0, 2.0, false),
        (BinaryOp::Gte, f64::NAN, 1.0, false),
    ];
    for (op, lhs, rhs, expected) in cases {
        let mut state = with_stack(vec![f(lhs), f(rhs)]);
        assert!(Instruction::BinaryOp(op).is_operable(&state));
        assert_eq!(Instruction::BinaryOp(op).eval(&mut state), Ok(None));
        assert_eq!(state.pc, 1);
        assert_eq!(stack_of(&state), vec![b(expected)]);
    }
}

#[test]
fn operators_of_sign_work_on_numbers() {
    for x in [1.0, -1.0, 0.0, -0.0, f64::INFINITY, 2.5e-300] {
        let mut state = with_stack(vec![f(x)]);
        assert!(Instruction::UnaryOp(UnaryOp::Minus).is_operable(&state));
        assert_eq!(Instruction::UnaryOp(UnaryOp::Minus).eval(&mut state), Ok(None));
        let top = stack_of(&state)[0].clone().get_value::<Number>().unwrap();
        assert_eq!(top.to_bits(), (-x).to_bits());
        assert_eq!(Instruction::UnaryOp(UnaryOp::Plus).eval(&mut state), Ok(None));
        let top = stack_of(&state)[0].clone().get_value::<Number>().unwrap();
        assert_eq!(top.to_bits(), (-x).to_bits());
        assert_eq!(state.pc, 2);
    }
    let mut state = with_stack(vec![f(f64::NAN)]);
    assert_eq!(Instruction::UnaryOp(UnaryOp::Minus).eval(&mut state), Ok(None));
    assert_eq!(stack_of(&state), vec![f(f64::NAN)]);
}

#[test]
fn a_program_with_operators_on_numbers_runs() {
    // return !(-1 < 2 ?? nil)
    let program = code(vec![
        Instruction::PushPrimitive(fk(1.0)),
        Instruction::UnaryOp(UnaryOp::Minus),
        Instruction::PushPrimitive(fk(2.0)),
        Instruction::BinaryOp(BinaryOp::Lt),
        Instruction::PushPrimitive(Primitive::Nil),
        Instruction::BinaryOp(BinaryOp::NilCoalesce),
        Instruction::UnaryOp(UnaryOp::Not),
        Instruction::Return,
    ]);
    assert!(!program.is_runnable());
    assert_eq!(program.run(100), Ok(Some(b(false))));
}

#[test]
fn what_is_operable_depends_on_the_operands() {
    let numbers = with_stack(vec![f(1.0), f(2.0)]);
    let mixed = with_stack(vec![f(1.0), t("2")]);
    let short = with_stack(vec![t("2")]);
    let none = with_stack(vec![]);
    assert!(Instruction::BinaryOp(BinaryOp::Lt).is_operable(&numbers));
    assert!(!Instruction::BinaryOp(BinaryOp::Lt).is_operable(&mixed));
    assert!(Instruction::BinaryOp(BinaryOp::Gte).is_operable(&short));
    assert!(Instruction::BinaryOp(BinaryOp::Gte).is_operable(&no_frames()));
    assert!(!Instruction::BinaryOp(BinaryOp::Add).is_operable(&numbers));
    assert!(!Instruction::BinaryOp(BinaryOp::Pow).is_operable(&none));
    assert!(Instruction::BinaryOp(BinaryOp::Eq).is_operable(&mixed));
    assert!(Instruction::UnaryOp(UnaryOp::Minus).is_operable(&numbers));
    assert!(!Instruction::UnaryOp(UnaryOp::Minus).is_operable(&mixed));
    assert!(!Instruction::UnaryOp(UnaryOp::Plus).is_operable(&short));
    assert!(Instruction::UnaryOp(UnaryOp::Plus).is_operable(&none));
    assert!(Instruction::UnaryOp(UnaryOp::Not).is_operable(&mixed));
    assert!(Instruction::TableMerge.is_operable(&mixed));

    let mut state = with_stack(vec![f(1.0)]);
    assert_eq!(
        Instruction::BinaryOp(BinaryOp::Lt).eval(&mut state),
        Err(RuntimeError::EmptyStack)
    );
    let mut state = with_stack(vec![]);
    assert_eq!(
        Instruction::UnaryOp(UnaryOp::Minus).eval(&mut state),
        Err(RuntimeError::EmptyStack)
    );
}

#[test]
fn values_convert_into_whole_numbers() {
    assert_eq!(f(3.7).get_value::<i32>(), Some(3));
    assert_eq!(f(-3.7).get_value::<i32>(), Some(-3));
    assert_eq!(f(-3.7).get_value::<u8>(), Some(0));
    assert_eq!(f(300.0).get_value::<u8>(), Some(255));
    assert_eq!(f(f64::NAN).get_value::<i64>(), Some(0));
    assert_eq!(t("3").get_value::<i32>(), None);
    assert_eq!(Value::table().get_value::<usize>(), None);
    assert_eq!(Value::nil().get_value::<u64>(), None);
    let args = Table::from_vec(vec![f(69.0)]);
    assert_eq!(native::argument::<u32>(&args, 0, 1), Ok(69));
    assert_eq!(
        native::argument::<u32>(&Table::from_vec(vec![t("x")]), 0, 1),
        Err(CallError::InvalidArgumentType(0, 1))
    );
}

fn float_arithmetic(op: BinaryOp, lhs: Number, rhs: Number) -> Number {
    let a = f64::from_bits(lhs.to_bits());
    let b = f64::from_bits(rhs.to_bits());
    let result = match op {
        BinaryOp::Add => a + b,
        BinaryOp::Sub => a - b,
        BinaryOp::Mul => a * b,
        BinaryOp::Div => a / b,
        BinaryOp::Mod => a % b,
        BinaryOp::Pow => a.powf(b),
        _ => f64::NAN,
    };
    Number::new(result.to_bits())
}

#[test]
fn operators_of_arithmetic_use_the_arithmetic_given() {
    let cases = vec![
        (BinaryOp::Add, 1.5, 2.0, 3.5),
        (BinaryOp::Sub, 1.5, 2.0, -0.5),
        (BinaryOp::Mul, 1.5, 2.0, 3.0),
        (BinaryOp::Div, 1.5, 2.0, 0.75),
        (BinaryOp::Mod, 7.5, 2.0, 1.5),
        (BinaryOp::Pow, 1.5, 2.0, 2.25),
    ];
    for (op, lhs, rhs, expected) in cases {
        let mut state = with_stack(vec![t("below"), f(lhs), f(rhs)]);
        assert!(!Instruction::BinaryOp(op).is_operable(&state));
        assert!(Instruction::BinaryOp(op).is_operable_with_arithmetic(&state));
        assert_eq!(
            Instruction::BinaryOp(op).eval_with(&mut state, &float_arithmetic),
            Ok(None)
        );
        assert_eq!(state.pc, 1);
        assert_eq!(stack_of(&state), vec![t("below"), f(expected)]);
    }
    let mut state = with_stack(vec![f(1.0)]);
    assert_eq!(
        Instruction::BinaryOp(BinaryOp::Add).eval_with(&mut state, &float_arithmetic),
        Err(RuntimeError::EmptyStack)
    );
    assert_eq!(stack_of(&state), vec![f(1.0)]);
    let mut state = no_frames();
    assert_eq!(
        Instruction::BinaryOp(BinaryOp::Add).eval_with(&mut state, &float_arithmetic),
        Err(RuntimeError::NoStackFrames)
    );
    let mut state = with_stack(vec![f(1.0), f(2.0)]);
    state.pc = usize::MAX;
    assert_eq!(
        Instruction::BinaryOp(BinaryOp::Add).eval_with(&mut state, &float_arithmetic),
        Err(RuntimeError::InvalidProgramCounter)
    );
    assert_eq!(stack_of(&state), vec![f(1.0), f(2.0)]);
    let mixed = with_stack(vec![f(1.0), t("2")]);
    assert!(!Instruction::BinaryOp(BinaryOp::Add).is_operable_with_arithmetic(&mixed));
    assert!(Instruction::BinaryOp(BinaryOp::Eq).is_operable_with_arithmetic(&mixed));
    assert!(!Instruction::BinaryOp(BinaryOp::Lt).is_operable_with_arithmetic(&mixed));
    assert!(Instruction::Nop.is_operable_with_arithmetic(&mixed));
}

#[test]
fn a_program_with_arithmetic_runs() {
    // return (2 + 3) * 4 > 19
    let program = code(vec![
        Instruction::PushPrimitive(fk(2.0)),
        Instruction::PushPrimitive(fk(3.0)),
        Instruction::BinaryOp(BinaryOp::Add),
        Instruction::PushPrimitive(fk(4.0)),
        Instruction::BinaryOp(BinaryOp::Mul),
        Instruction::PushPrimitive(fk(19.0)),
        Instruction::BinaryOp(BinaryOp::Gt),
        Instruction::Return,
    ]);
    let mut state = State::new(0, Vars::new(), Vars::new());
    assert_eq!(
        program.run_with_arithmetic(&mut state, 100, &float_arithmetic),
        Ok(Some(b(true)))
    );
    let mut state = State::new(0, Vars::new(), Vars::new());
    assert_eq!(
        program.run_with_arithmetic(&mut state, 3, &float_arithmetic),
        Ok(None)
    );
    assert_eq!(state.pc, 3);
    assert_eq!(stack_of(&state), vec![f(5.0)]);
    assert_eq!(program.step_with(&mut state, &float_arithmetic), Ok(None));
    assert_eq!(stack_of(&state), vec![f(5.0), f(4.0)]);
}

#[test]
fn a_checked_run_stops_before_what_is_not_carried_out() {
    // "a" < 1 is not carried out
    let program = code(vec![
        Instruction::PushPrimitive(fk(2.0)),
        Instruction::PushPrimitive(fk(3.0)),
        Instruction::BinaryOp(BinaryOp::Add),
        Instruction::PushPrimitive(tk("a")),
        Instruction::BinaryOp(BinaryOp::Lt),
        Instruction::Return,
    ]);
    let mut state = State::new(0, Vars::new(), Vars::new());
    assert_eq!(program.run_with_arithmetic(&mut state, 100, &float_arithmetic), Ok(None));
    assert_eq!(state.pc, 4);
    assert_eq!(stack_of(&state), vec![f(5.0), t("a")]);
    assert!(!program.get(4).unwrap().is_operable_with_arithmetic(&state));
    assert_eq!(program.run_with_arithmetic(&mut state, 100, &float_arithmetic), Ok(None));
    assert_eq!(state.pc, 4);

    let program = code(vec![
        Instruction::PushPrimitive(fk(2.0)),
        Instruction::PushPrimitive(fk(3.0)),
        Instruction::BinaryOp(BinaryOp::Pow),
        Instruction::Return,
    ]);
    let mut state = State::new(0, Vars::new(), Vars::new());
    assert_eq!(program.run_with_arithmetic(&mut state, 2, &float_arithmetic), Ok(None));
    assert_eq!(state.pc, 2);
    assert_eq!(
        program.run_with_arithmetic(&mut state, 2, &float_arithmetic),
        Ok(Some(f(8.0)))
    );
    let mut state = State::new(9, Vars::new(), Vars::new());
    assert_eq!(
        program.run_with_arithmetic(&mut state, 2, &float_arithmetic),
        Err(RuntimeError::InvalidProgramCounter)
    );
    assert!(program.get(9).is_none());
}

#[test]
fn a_run_without_arithmetic_stops_before_arithmetic() {
    let program = code(vec![
        Instruction::PushPrimitive(fk(1.0)),
        Instruction::PushPrimitive(fk(1.0)),
        Instruction::BinaryOp(BinaryOp::Add),
        Instruction::Return,
    ]);
    assert_eq!(program.run(100), Ok(None));
    assert_eq!(program.run_with(Vars::new(), 100), Ok(None));
    assert_eq!(
        program.call(Value::FunctionPointer(1), Vars::new(), 100),
        Ok(None)
    );
    assert_eq!(
        program.call(Value::FunctionPointer(3), Vars::new(), 100),
        Err(RuntimeError::EmptyStack)
    );
    let mut state = State::new(0, Vars::new(), Vars::new());
    assert_eq!(program.run_with_state(&mut state, 100), Ok(None));
    assert_eq!(state.pc, 2);
    assert_eq!(stack_of(&state), vec![f(1.0), f(1.0)]);
    assert_eq!(
        program.run_with_arithmetic(&mut state, 100, &float_arithmetic),
        Ok(Some(f(2.0)))
    );
}

#[test]
fn tables_are_compared_both_ways_by_the_operators() {
    let small = || Value::Table(tab(vec![(tk("a"), f(1.0))]));
    let large = || Value::Table(tab(vec![(tk("a"), f(1.0)), (tk("b"), f(2.0))]));
    let padded = || Value::Table(tab(vec![(tk("a"), f(1.0)), (tk("b"), Value::nil())]));
    let cases = vec![
        (BinaryOp::Eq, small(), large(), false),
        (BinaryOp::Eq, large(), small(), false),
        (BinaryOp::Eq, small(), padded(), true),
        (BinaryOp::Eq, padded(), small(), true),
        (BinaryOp::Eq, Value::table(), large(), false),
        (BinaryOp::Ne, small(), large(), true),
        (BinaryOp::Ne, large(), small(), true),
        (BinaryOp::Ne, padded(), small(), false),
    ];
    for (op, lhs, rhs, expected) in cases {
        let mut state = with_stack(vec![lhs, rhs]);
        assert_eq!(Instruction::BinaryOp(op).eval(&mut state), Ok(None));
        assert_eq!(stack_of(&state), vec![b(expected)]);
    }
}
