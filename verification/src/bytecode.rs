use crate::frame::eval_binary;
use crate::frame::eval_copy;
use crate::frame::eval_pop;
use crate::frame::eval_pop_jump;
use crate::frame::eval_push_function;
use crate::frame::eval_push_name;
use crate::frame::eval_push_primitive;
use crate::frame::eval_store_function_args;
use crate::frame::eval_store_name;
use crate::frame::eval_store_primitive;
use crate::frame::eval_swap;
use crate::frame::eval_table_dict_build;
use crate::frame::eval_table_get;
use crate::frame::eval_table_list_build;
use crate::frame::eval_table_merge;
use crate::frame::eval_unary;
use crate::frame::frame_stepped;
use crate::frame::lemma_views_push;
use crate::frame::moved_on;
use crate::primitive::Primitive;
use crate::semantics::called_frame;
use crate::semantics::calculates;
use crate::semantics::entry_state;
use crate::semantics::stopping_call;
use crate::semantics::stopping_run;
use crate::semantics::stopping_run_with;
use crate::number::lemma_number_is_bits;
use crate::number::lemma_number_of;
use crate::number::number_of;
use crate::number::Number;
use crate::semantics::operable_here_with;
use crate::semantics::operable_with_arithmetic;
use crate::semantics::program_step_with;
use crate::semantics::step_with;
use crate::semantics::Arithmetic;
use crate::semantics::frame_state;
use crate::semantics::is_number;
use crate::semantics::operable;
use crate::semantics::operable_here;
use crate::semantics::call_step;
use crate::semantics::implemented;
use crate::semantics::program_step;
use crate::semantics::runnable;
use crate::semantics::visible;
use crate::semantics::with_frames;
use crate::semantics::with_locals;
use crate::semantics::with_stack;
use crate::semantics::return_step;
use crate::semantics::step;
use crate::semantics::Step;
use crate::semantics::FrameView;
use crate::semantics::InstructionView;
pub use crate::semantics::RuntimeError;
use crate::semantics::StateView;
use crate::ops::BinaryOp;
use crate::ops::UnaryOp;
use crate::table::views;
use crate::value::Value;
use crate::value::ValueView;
use crate::vars::Vars;
use vstd::prelude::*;
use vstd::string::StringExecFns;

verus! {

/// A call frame: the locals of a call, its operand stack, and the address
/// at which the caller goes on.
#[derive(Debug)]
pub struct StackFrame {
    pub locals: Vars,
    pub return_address: Option<usize>,
    pub stack: Vec<Value>,
}

impl View for StackFrame {
    type V = FrameView;

    open spec fn view(&self) -> FrameView {
        FrameView {
            locals: self.locals@,
            return_address: self.return_address,
            stack: views(self.stack@),
        }
    }
}

/// The state of an execution.
#[derive(Debug)]
pub struct State {
    pub pc: usize,
    pub globals: Vars,
    pub stack_frames: Vec<StackFrame>,
}

/// The views of frames.
pub open spec fn frame_views(frames: Seq<StackFrame>) -> Seq<FrameView> {
    frames.map_values(|f: StackFrame| f@)
}

impl View for State {
    type V = StateView;

    open spec fn view(&self) -> StateView {
        StateView {
            pc: self.pc,
            globals: self.globals@,
            frames: frame_views(self.stack_frames@),
        }
    }
}

/// The instructions of the machine. In what follows TOS is the value on
/// top of the operand stack of the current frame, and TOS1 the value below
/// it.
#[derive(Debug)]
pub enum Instruction {
    /// Does nothing.
    Nop,
    /// Pushes TOS once more.
    Copy,
    /// Makes TOS and TOS1 change places.
    Swap,
    /// Takes TOS off.
    Pop,
    /// TOS = op TOS
    UnaryOp(UnaryOp),
    /// TOS = TOS1 op TOS
    BinaryOp(BinaryOp),
    /// Binds the name at TOS1 to the value at TOS, and takes both off.
    StoreName,
    /// Binds the name at TOS to the given primitive, and takes the name off.
    StorePrimitive(Primitive),
    /// Replaces the name at TOS by the value bound to it.
    PushName,
    /// Pushes the given primitive.
    PushPrimitive(Primitive),
    /// Replaces the table at TOS1 and the key at TOS by the value that the
    /// table binds to the key.
    TableGet,
    /// Replaces the given number of values on top by the list of them.
    TableListBuild(usize),
    /// Replaces the given number of pairs of key and value on top by the
    /// table of them.
    TableDictBuild(usize),
    /// Replaces the tables at TOS1 and TOS by the first merged with the
    /// second.
    TableMerge,
    /// Takes TOS off, and jumps forwards by the given amount if it is true.
    PopJumpIfTrue(usize),
    /// Takes TOS off, and jumps forwards by the given amount if it is false.
    PopJumpIfFalse(usize),
    /// Jumps forwards by the given amount. `Jump(0)` does what `Nop` does.
    Jump(usize),
    /// Pushes the pointer to the function at the given address.
    PushFunction(usize),
    /// Takes the given number of pairs of keys off the stack, and binds each
    /// pair's parameter from the table of arguments below them: from the
    /// named key, the first of the pair, or else from the positional key.
    /// Binds `self` as well where the flag is set.
    StoreFunctionArgs(bool, usize),
    /// TOS = TOS(TOS1)
    Call,
    /// return TOS
    Return,
}

impl View for Instruction {
    type V = InstructionView;

    open spec fn view(&self) -> InstructionView {
        match self {
            Instruction::Nop => InstructionView::Nop,
            Instruction::Copy => InstructionView::Copy,
            Instruction::Swap => InstructionView::Swap,
            Instruction::Pop => InstructionView::Pop,
            Instruction::UnaryOp(op) => InstructionView::UnaryOp(*op),
            Instruction::BinaryOp(op) => InstructionView::BinaryOp(*op),
            Instruction::StoreName => InstructionView::StoreName,
            Instruction::StorePrimitive(c) => InstructionView::StorePrimitive(c@),
            Instruction::PushName => InstructionView::PushName,
            Instruction::PushPrimitive(c) => InstructionView::PushPrimitive(c@),
            Instruction::TableGet => InstructionView::TableGet,
            Instruction::TableListBuild(n) => InstructionView::TableListBuild(*n),
            Instruction::TableDictBuild(n) => InstructionView::TableDictBuild(*n),
            Instruction::TableMerge => InstructionView::TableMerge,
            Instruction::PopJumpIfTrue(n) => InstructionView::PopJumpIfTrue(*n),
            Instruction::PopJumpIfFalse(n) => InstructionView::PopJumpIfFalse(*n),
            Instruction::Jump(n) => InstructionView::Jump(*n),
            Instruction::PushFunction(a) => InstructionView::PushFunction(*a),
            Instruction::StoreFunctionArgs(s, n) => InstructionView::StoreFunctionArgs(*s, *n),
            Instruction::Call => InstructionView::Call,
            Instruction::Return => InstructionView::Return,
        }
    }
}

/// Replacing the last frame replaces its view.
pub proof fn lemma_frame_views_push(frames: Seq<StackFrame>, frame: StackFrame)
    ensures
        frame_views(frames.push(frame)) == frame_views(frames).push(frame@),
{
    assert(frame_views(frames.push(frame)) =~= frame_views(frames).push(frame@));
}

/// Whether a step of the evaluator did what `step` says.
pub open spec fn stepped(
    expected: Step,
    before: StateView,
    after: StateView,
    r: Result<Option<Value>, RuntimeError>,
) -> bool {
    match expected {
        Step::Continue(s) => r is Ok && r->Ok_0 is None && after == s,
        Step::Finish(v, s) => r is Ok && r->Ok_0 is Some && r->Ok_0->Some_0@ == v && after == s,
        Step::Fail(e) => r is Err && r->Err_0 == e && after == before,
    }
}

impl Instruction {
    /// Whether the evaluator carries this instruction out.
    pub fn is_implemented(&self) -> (r: bool)
        ensures
            r == implemented(self@),
    {
        match self {
            Instruction::UnaryOp(op) => match op {
                UnaryOp::Not => true,
                _ => false,
            },
            Instruction::BinaryOp(op) => match op {
                BinaryOp::Eq => true,
                BinaryOp::Ne => true,
                BinaryOp::And => true,
                BinaryOp::Or => true,
                BinaryOp::NilCoalesce => true,
                _ => false,
            },
            _ => true,
        }
    }

    /// Whether the evaluator carries this instruction out in the given state.
    pub fn is_operable(&self, state: &State) -> (r: bool)
        ensures
            r == operable(self@, state@),
    {
        match self {
            Instruction::UnaryOp(op) => match op {
                UnaryOp::Not => true,
                _ => {
                    let n = state.stack_frames.len();
                    n < 1 || state.stack_frames[n - 1].stack.len() < 1 || {
                        let stack = &state.stack_frames[n - 1].stack;
                        stack[stack.len() - 1].is_number()
                    }
                },
            },
            Instruction::BinaryOp(op) => match op {
                BinaryOp::Eq => true,
                BinaryOp::Ne => true,
                BinaryOp::And => true,
                BinaryOp::Or => true,
                BinaryOp::NilCoalesce => true,
                BinaryOp::Lt | BinaryOp::Lte | BinaryOp::Gt | BinaryOp::Gte => {
                    let n = state.stack_frames.len();
                    n < 1 || state.stack_frames[n - 1].stack.len() < 2 || {
                        let stack = &state.stack_frames[n - 1].stack;
                        stack[stack.len() - 1].is_number() && stack[stack.len() - 2].is_number()
                    }
                },
                _ => false,
            },
            _ => true,
        }
    }

    /// Carries out an instruction that works on the current frame.
    fn eval_in_frame(&self, frame: &mut StackFrame, globals: &Vars, pc: usize) -> (r: Result<
        usize,
        RuntimeError,
    >)
        requires
            operable(self@, frame_state(old(frame)@)),
            !(self@ is Nop),
            !(self@ is Jump),
            !(self@ is Call),
            !(self@ is Return),
        ensures
            frame_stepped(self@, old(frame)@, globals@, pc, final(frame)@, r),
    {
        match self {
            Instruction::Copy => eval_copy(frame, pc),
            Instruction::Swap => eval_swap(frame, pc),
            Instruction::Pop => eval_pop(frame, pc),
            Instruction::StoreName => eval_store_name(frame, pc),
            Instruction::StorePrimitive(c) => eval_store_primitive(frame, pc, c),
            Instruction::PushName => eval_push_name(frame, globals, pc),
            Instruction::PushPrimitive(c) => eval_push_primitive(frame, pc, c),
            Instruction::TableGet => eval_table_get(frame, pc),
            Instruction::TableListBuild(n) => eval_table_list_build(frame, pc, *n),
            Instruction::TableDictBuild(n) => eval_table_dict_build(frame, pc, *n),
            Instruction::TableMerge => eval_table_merge(frame, pc),
            Instruction::PopJumpIfTrue(n) => eval_pop_jump(frame, pc, true, *n),
            Instruction::PopJumpIfFalse(n) => eval_pop_jump(frame, pc, false, *n),
            Instruction::StoreFunctionArgs(with_self, n) => eval_store_function_args(
                frame,
                pc,
                *with_self,
                *n,
            ),
            Instruction::UnaryOp(op) => eval_unary(frame, pc, *op),
            Instruction::BinaryOp(op) => eval_binary(frame, pc, *op),
            Instruction::PushFunction(address) => eval_push_function(frame, pc, *address),
            _ => {
                proof {
                    assert(false);
                }
                Err(RuntimeError::InvalidCallable)
            },
        }
    }

    /// Carries out one instruction on a state.
    ///
    /// The result is `Ok(None)` where the execution goes on, `Ok(Some(v))`
    /// where it ends with the value `v`, and the failure otherwise. A step
    /// that fails leaves the state as it was.
    pub fn eval(&self, state: &mut State) -> (r: Result<Option<Value>, RuntimeError>)
        requires
            operable(self@, old(state)@),
        ensures
            stepped(step(self@, old(state)@), old(state)@, final(state)@, r),
    {
        match self {
            Instruction::Nop => {
                state.pc = moved_on(state.pc, 1)?;
                Ok(None)
            },
            Instruction::Jump(n) => {
                let by = if *n == 0 {
                    1
                } else {
                    *n
                };
                state.pc = moved_on(state.pc, by)?;
                Ok(None)
            },
            Instruction::Return => eval_return(state),
            Instruction::Call => eval_call(state),
            _ => {
                if state.stack_frames.len() < 1 {
                    return Err(RuntimeError::NoStackFrames);
                }
                let ghost before = state.stack_frames@;
                let mut frame = state.stack_frames.pop().unwrap();
                proof {
                    assert(frame@ == old(state)@.frames.last());
                }
                let r = self.eval_in_frame(&mut frame, &state.globals, state.pc);
                proof {
                    lemma_frame_views_push(state.stack_frames@, frame);
                    assert(frame_views(state.stack_frames@) =~= frame_views(before).drop_last());
                    assert(frame_views(before).drop_last().push(frame_views(before).last())
                        =~= frame_views(before));
                }
                state.stack_frames.push(frame);
                match r {
                    Ok(next) => {
                        state.pc = next;
                        Ok(None)
                    },
                    Err(e) => Err(e),
                }
            },
        }
    }
}

/// Whether a function gives one result for each operator and operands.
pub open spec fn functional<F: Fn(BinaryOp, Number, Number) -> Number>(f: F) -> bool {
    forall|op: BinaryOp, lhs: Number, rhs: Number, x: Number, y: Number|
        #![trigger call_ensures(f, (op, lhs, rhs), x), call_ensures(f, (op, lhs, rhs), y)]
        call_ensures(f, (op, lhs, rhs), x) && call_ensures(f, (op, lhs, rhs), y) ==> x == y
}

/// The arithmetic that a function of the host does: for an operator and
/// the bit patterns of two numbers, the bit pattern of a number that the
/// function gives for them.
pub open spec fn arithmetic_of<F: Fn(BinaryOp, Number, Number) -> Number>(f: F) -> Arithmetic {
    |op: BinaryOp, lhs: u64, rhs: u64|
        choose|result: u64|
            call_ensures(f, (op, number_of(lhs), number_of(rhs)), #[trigger] number_of(result))
}

impl Instruction {
    /// Whether the evaluator, given the arithmetic of numbers, carries this
    /// instruction out in the given state.
    pub fn is_operable_with_arithmetic(&self, state: &State) -> (r: bool)
        ensures
            r == operable_with_arithmetic(self@, state@),
    {
        match self {
            Instruction::BinaryOp(op) => match op {
                BinaryOp::Add
                | BinaryOp::Sub
                | BinaryOp::Mul
                | BinaryOp::Div
                | BinaryOp::Mod
                | BinaryOp::Pow => {
                    let n = state.stack_frames.len();
                    n < 1 || state.stack_frames[n - 1].stack.len() < 2 || {
                        let stack = &state.stack_frames[n - 1].stack;
                        stack[stack.len() - 1].is_number() && stack[stack.len() - 2].is_number()
                    }
                },
                _ => self.is_operable(state),
            },
            _ => self.is_operable(state),
        }
    }

    /// Carries out one instruction on a state, with the arithmetic of
    /// numbers given as a function from an operator and two numbers to a
    /// number.
    ///
    /// An operator of arithmetic takes its two operands off the operand
    /// stack of the current frame and puts what `arithmetic` makes of them
    /// in their place. Every other instruction is carried out as `eval`
    /// does.
    pub fn eval_with<F: Fn(BinaryOp, Number, Number) -> Number>(
        &self,
        state: &mut State,
        arithmetic: &F,
    ) -> (r: Result<Option<Value>, RuntimeError>)
        requires
            operable_with_arithmetic(self@, old(state)@),
            functional(*arithmetic),
            forall|op: BinaryOp, lhs: Number, rhs: Number|
                calculates(op) ==> call_requires(*arithmetic, (op, lhs, rhs)),
        ensures
            stepped(
                step_with(arithmetic_of(*arithmetic), self@, old(state)@),
                old(state)@,
                final(state)@,
                r,
            ),
    {
        match self {
            Instruction::BinaryOp(op) => match op {
                BinaryOp::Add
                | BinaryOp::Sub
                | BinaryOp::Mul
                | BinaryOp::Div
                | BinaryOp::Mod
                | BinaryOp::Pow => {
                    let n = state.stack_frames.len();
                    if n < 1 {
                        return Err(RuntimeError::NoStackFrames);
                    }
                    let len = state.stack_frames[n - 1].stack.len();
                    if len < 2 {
                        return Err(RuntimeError::EmptyStack);
                    }
                    let stack = &state.stack_frames[n - 1].stack;
                    let (lhs, rhs) = match (&stack[len - 2], &stack[len - 1]) {
                        (
                            Value::Primitive(Primitive::Number(x)),
                            Value::Primitive(Primitive::Number(y)),
                        ) => (*x, *y),
                        _ => (Number::new(0), Number::new(0)),
                    };
                    let result = arithmetic(*op, lhs, rhs);
                    proof {
                        let a = arithmetic_of(*arithmetic);
                        lemma_number_is_bits(lhs, lhs);
                        lemma_number_is_bits(rhs, rhs);
                        lemma_number_is_bits(result, result);
                        assert(call_ensures(
                            *arithmetic,
                            (*op, number_of(lhs@), number_of(rhs@)),
                            number_of(result@),
                        ));
                        let chosen = a(*op, lhs@, rhs@);
                        assert(call_ensures(
                            *arithmetic,
                            (*op, number_of(lhs@), number_of(rhs@)),
                            number_of(chosen),
                        ));
                        assert(number_of(chosen) == number_of(result@));
                        lemma_number_of(chosen);
                        lemma_number_of(result@);
                        assert(chosen == result@);
                    }
                    let next = moved_on(state.pc, 1)?;
                    let ghost before = state.stack_frames@;
                    let mut frame = state.stack_frames.pop().unwrap();
                    let ghost held = frame.stack@;
                    frame.stack.pop();
                    frame.stack.pop();
                    let value = Value::Primitive(Primitive::Number(result));
                    proof {
                        assert(views(frame.stack@) =~= views(held).take(len - 2));
                        lemma_views_push(frame.stack@, value);
                    }
                    frame.stack.push(value);
                    proof {
                        lemma_frame_views_push(state.stack_frames@, frame);
                        assert(frame_views(state.stack_frames@) =~= frame_views(before).drop_last());
                    }
                    state.stack_frames.push(frame);
                    state.pc = next;
                    Ok(None)
                },
                _ => self.eval(state),
            },
            _ => self.eval(state),
        }
    }
}

/// Carries out `Return`.
fn eval_return(state: &mut State) -> (r: Result<Option<Value>, RuntimeError>)
    ensures
        stepped(return_step(old(state)@), old(state)@, final(state)@, r),
{
    let n = state.stack_frames.len();
    if n < 1 {
        return Err(RuntimeError::NoStackFrames);
    }
    if state.stack_frames[n - 1].stack.len() < 1 {
        return Err(RuntimeError::EmptyStack);
    }
    let ghost before = state.stack_frames@;
    match state.stack_frames[n - 1].return_address {
        None => {
            let mut frame = state.stack_frames.pop().unwrap();
            let value = frame.stack.pop().unwrap();
            proof {
                assert(frame_views(state.stack_frames@) =~= frame_views(before).drop_last());
            }
            Ok(Some(value))
        },
        Some(address) => {
            if n < 2 {
                return Err(RuntimeError::NoStackFrames);
            }
            let mut frame = state.stack_frames.pop().unwrap();
            let value = frame.stack.pop().unwrap();
            let mut caller = state.stack_frames.pop().unwrap();
            proof {
                lemma_views_push(caller.stack@, value);
            }
            caller.stack.push(value);
            proof {
                lemma_frame_views_push(state.stack_frames@, caller);
                assert(frame_views(state.stack_frames@) =~= frame_views(
                    before,
                ).drop_last().drop_last());
            }
            state.stack_frames.push(caller);
            state.pc = address;
            Ok(None)
        },
    }
}

impl State {
    /// The state in which an execution starts at `pc`: one frame, with the
    /// given locals, an empty operand stack and no return address.
    pub fn new(pc: usize, locals: Vars, globals: Vars) -> (state: State)
        ensures
            state@ == entry_state(pc, locals@, globals@),
    {
        let frame = StackFrame { locals, return_address: None, stack: Vec::new() };
        let mut stack_frames: Vec<StackFrame> = Vec::new();
        stack_frames.push(frame);
        proof {
            assert(views(frame.stack@) =~= Seq::<ValueView>::empty());
            assert(frame_views(stack_frames@) =~= seq![frame@]);
        }
        State { pc, globals, stack_frames }
    }

    /// Moves the program counter on by one.
    pub fn incr_pc(&mut self)
        requires
            old(self).pc < usize::MAX,
        ensures
            final(self).pc == old(self).pc + 1,
            final(self)@.globals == old(self)@.globals,
            final(self)@.frames == old(self)@.frames,
    {
        self.pc = self.pc + 1;
    }

    /// The current frame, to be read and changed in place.
    pub fn current_frame(&mut self) -> (r: Result<&mut StackFrame, RuntimeError>)
        ensures
            match r {
                Ok(frame) => old(self)@.frames.len() > 0 && frame@ == old(self)@.frames.last()
                    && final(self)@ == with_frames(
                    old(self)@,
                    old(self)@.frames.drop_last().push(final(frame)@),
                ),
                Err(e) => e == RuntimeError::NoStackFrames && old(self)@.frames.len() == 0
                    && final(self)@ == old(self)@,
            },
    {
        let n = self.stack_frames.len();
        if n < 1 {
            return Err(RuntimeError::NoStackFrames);
        }
        proof {
            let frames = self.stack_frames@;
            assert forall|f: StackFrame| #![trigger frames.update(n - 1, f)]
                frame_views(frames.update(n - 1, f)) == frame_views(frames).drop_last().push(f@) by {
                assert(frame_views(frames.update(n - 1, f)) =~= frame_views(
                    frames,
                ).drop_last().push(f@));
            }
        }
        Ok(&mut self.stack_frames[n - 1])
    }

    /// Enters a call: a new frame with the given locals, an empty operand
    /// stack and the address to return to becomes the current one.
    pub fn push_frame(&mut self, locals: Vars, return_address: usize)
        ensures
            final(self)@ == with_frames(
                old(self)@,
                old(self)@.frames.push(called_frame(locals@, return_address)),
            ),
    {
        let frame = StackFrame { locals, return_address: Some(return_address), stack: Vec::new() };
        proof {
            assert(views(frame.stack@) =~= Seq::<ValueView>::empty());
            lemma_frame_views_push(self.stack_frames@, frame);
        }
        self.stack_frames.push(frame);
    }

    /// Pushes a value on the operand stack of the current frame.
    pub fn push_stack(&mut self, value: Value) -> (r: Result<(), RuntimeError>)
        ensures
            match r {
                Ok(_) => old(self)@.frames.len() > 0 && final(self)@ == with_frames(
                    old(self)@,
                    old(self)@.frames.drop_last().push(
                        with_stack(
                            old(self)@.frames.last(),
                            old(self)@.frames.last().stack.push(value@),
                        ),
                    ),
                ),
                Err(e) => e == RuntimeError::NoStackFrames && old(self)@.frames.len() == 0
                    && final(self)@ == old(self)@,
            },
    {
        if self.stack_frames.len() < 1 {
            return Err(RuntimeError::NoStackFrames);
        }
        let ghost before = self.stack_frames@;
        let mut frame = self.stack_frames.pop().unwrap();
        proof {
            lemma_views_push(frame.stack@, value);
        }
        frame.stack.push(value);
        proof {
            lemma_frame_views_push(self.stack_frames@, frame);
            assert(frame_views(self.stack_frames@) =~= frame_views(before).drop_last());
        }
        self.stack_frames.push(frame);
        Ok(())
    }

    /// Takes the value on top of the operand stack of the current frame.
    pub fn pop_stack(&mut self) -> (r: Result<Value, RuntimeError>)
        ensures
            match r {
                Ok(value) => old(self)@.frames.len() > 0 && old(self)@.frames.last().stack.len() > 0
                    && value@ == old(self)@.frames.last().stack.last() && final(self)@
                    == with_frames(
                    old(self)@,
                    old(self)@.frames.drop_last().push(
                        with_stack(
                            old(self)@.frames.last(),
                            old(self)@.frames.last().stack.drop_last(),
                        ),
                    ),
                ),
                Err(e) => final(self)@ == old(self)@ && e == (if old(self)@.frames.len() == 0 {
                    RuntimeError::NoStackFrames
                } else {
                    RuntimeError::EmptyStack
                }) && (old(self)@.frames.len() == 0 || old(self)@.frames.last().stack.len() == 0),
            },
    {
        let n = self.stack_frames.len();
        if n < 1 {
            return Err(RuntimeError::NoStackFrames);
        }
        if self.stack_frames[n - 1].stack.len() < 1 {
            return Err(RuntimeError::EmptyStack);
        }
        let ghost before = self.stack_frames@;
        let mut frame = self.stack_frames.pop().unwrap();
        let ghost stack = frame.stack@;
        let value = frame.stack.pop().unwrap();
        proof {
            assert(views(frame.stack@) =~= views(stack).drop_last());
            lemma_frame_views_push(self.stack_frames@, frame);
            assert(frame_views(self.stack_frames@) =~= frame_views(before).drop_last());
        }
        self.stack_frames.push(frame);
        Ok(value)
    }

    /// The value on top of the operand stack of the current frame.
    pub fn peek_stack(&self) -> (r: Result<&Value, RuntimeError>)
        ensures
            match r {
                Ok(value) => self@.frames.len() > 0 && self@.frames.last().stack.len() > 0
                    && value@ == self@.frames.last().stack.last(),
                Err(e) => e == (if self@.frames.len() == 0 {
                    RuntimeError::NoStackFrames
                } else {
                    RuntimeError::EmptyStack
                }) && (self@.frames.len() == 0 || self@.frames.last().stack.len() == 0),
            },
    {
        let n = self.stack_frames.len();
        if n < 1 {
            return Err(RuntimeError::NoStackFrames);
        }
        let stack = &self.stack_frames[n - 1].stack;
        if stack.len() < 1 {
            return Err(RuntimeError::EmptyStack);
        }
        Ok(&stack[stack.len() - 1])
    }

    /// The value of a name: that of the local of the current frame, if
    /// there is one, else that of the global. The locals of the frames
    /// below the current one are not looked at.
    pub fn get_var(&self, name: &str) -> (r: Result<Value, RuntimeError>)
        ensures
            match visible(self@, name@) {
                Some(v) => r is Ok && r->Ok_0@ == v,
                None => r is Err && r->Err_0 == RuntimeError::InvalidVariable,
            },
    {
        let n = self.stack_frames.len();
        if n > 0 {
            match self.stack_frames[n - 1].locals.get(name) {
                Some(v) => {
                    return Ok(v.clone());
                },
                None => {},
            }
        }
        match self.globals.get(name) {
            Some(v) => Ok(v.clone()),
            None => Err(RuntimeError::InvalidVariable),
        }
    }

    /// Binds a name in the locals of the current frame.
    pub fn set_var(&mut self, name: &str, value: Value) -> (r: Result<(), RuntimeError>)
        ensures
            match r {
                Ok(_) => old(self)@.frames.len() > 0 && final(self)@ == with_frames(
                    old(self)@,
                    old(self)@.frames.drop_last().push(
                        with_locals(
                            old(self)@.frames.last(),
                            old(self)@.frames.last().locals.insert(name@, value@),
                        ),
                    ),
                ),
                Err(e) => e == RuntimeError::NoStackFrames && old(self)@.frames.len() == 0
                    && final(self)@ == old(self)@,
            },
    {
        if self.stack_frames.len() < 1 {
            return Err(RuntimeError::NoStackFrames);
        }
        let ghost before = self.stack_frames@;
        let mut frame = self.stack_frames.pop().unwrap();
        frame.locals.insert(String::from_str(name), value);
        proof {
            lemma_frame_views_push(self.stack_frames@, frame);
            assert(frame_views(self.stack_frames@) =~= frame_views(before).drop_last());
        }
        self.stack_frames.push(frame);
        Ok(())
    }
}

/// A sequence of instructions, addressed from 0.
#[derive(Debug)]
pub struct Program {
    instructions: Vec<Instruction>,
}

/// The views of instructions.
pub open spec fn instruction_views(instructions: Seq<Instruction>) -> Seq<InstructionView> {
    instructions.map_values(|i: Instruction| i@)
}

impl View for Program {
    type V = Seq<InstructionView>;

    closed spec fn view(&self) -> Seq<InstructionView> {
        instruction_views(self.instructions@)
    }
}

/// What a run comes to, the value taken for what it is.
pub open spec fn outcome(r: Result<Option<Value>, RuntimeError>) -> Result<
    Option<ValueView>,
    RuntimeError,
> {
    match r {
        Ok(Some(v)) => Ok(Some(v@)),
        Ok(None) => Ok(None),
        Err(e) => Err(e),
    }
}

impl Program {
    /// The program without instructions.
    pub fn new() -> (program: Program)
        ensures
            program@ == Seq::<InstructionView>::empty(),
    {
        let program = Program { instructions: Vec::new() };
        assert(program@ =~= Seq::<InstructionView>::empty());
        program
    }

    /// Adds an instruction behind the last one.
    pub fn push(&mut self, instruction: Instruction)
        ensures
            final(self)@ == old(self)@.push(instruction@),
    {
        self.instructions.push(instruction);
        assert(self@ =~= old(self)@.push(instruction@));
    }

    /// The number of instructions.
    pub fn len(&self) -> (n: usize)
        ensures
            n == self@.len(),
    {
        self.instructions.len()
    }

    /// The instruction at an address, if the address has one.
    pub fn get(&self, address: usize) -> (r: Option<&Instruction>)
        ensures
            match r {
                Some(instruction) => address < self@.len() && instruction@ == self@[address as int],
                None => address >= self@.len(),
            },
    {
        if address < self.instructions.len() {
            Some(&self.instructions[address])
        } else {
            None
        }
    }

    /// Whether the evaluator carries out every instruction of the program.
    pub fn is_runnable(&self) -> (r: bool)
        ensures
            r == runnable(self@),
    {
        let mut i: usize = 0;
        while i < self.instructions.len()
            invariant
                i <= self.instructions.len(),
                forall|j: int| 0 <= j < i ==> implemented(#[trigger] self@[j]),
            decreases self.instructions.len() - i,
        {
            if !self.instructions[i].is_implemented() {
                assert(!implemented(self@[i as int]));
                return false;
            }
            i += 1;
        }
        true
    }

    /// Carries out one step of the program on a state.
    pub fn step(&self, state: &mut State) -> (r: Result<Option<Value>, RuntimeError>)
        requires
            operable_here(self@, old(state)@),
        ensures
            stepped(program_step(self@, old(state)@), old(state)@, final(state)@, r),
    {
        if state.pc < self.instructions.len() {
            assert(self.instructions[state.pc as int]@ == self@[state.pc as int]);
            self.instructions[state.pc].eval(state)
        } else if state.pc == self.instructions.len() {
            Ok(Some(Value::nil()))
        } else {
            Err(RuntimeError::InvalidProgramCounter)
        }
    }

    /// Runs the program from a state, for at most `fuel` steps, and stops
    /// before the first instruction that the evaluator does not carry out
    /// in the state in which the run meets it.
    ///
    /// The result is `Ok(Some(v))` where the execution ends with the value
    /// `v`, the failure of the step that fails, and `Ok(None)` where the
    /// run stops before the execution ends: the state is then the one in
    /// which it stopped.
    pub fn run_with_state(&self, state: &mut State, fuel: u64) -> (r: Result<
        Option<Value>,
        RuntimeError,
    >)
        ensures
            (outcome(r), final(state)@) == stopping_run(self@, old(state)@, fuel as nat),
    {
        let mut left: u64 = fuel;
        while left > 0
            invariant
                stopping_run(self@, state@, left as nat) == stopping_run(
                    self@,
                    old(state)@,
                    fuel as nat,
                ),
            decreases left,
        {
            let operable = match self.get(state.pc) {
                Some(instruction) => instruction.is_operable(state),
                None => true,
            };
            if !operable {
                return Ok(None);
            }
            match self.step(state) {
                Ok(Some(value)) => {
                    return Ok(Some(value));
                },
                Ok(None) => {},
                Err(e) => {
                    return Err(e);
                },
            }
            left = left - 1;
        }
        Ok(None)
    }

    /// Carries out one step of the program on a state, with the arithmetic
    /// of numbers given.
    pub fn step_with<F: Fn(BinaryOp, Number, Number) -> Number>(
        &self,
        state: &mut State,
        arithmetic: &F,
    ) -> (r: Result<Option<Value>, RuntimeError>)
        requires
            operable_here_with(self@, old(state)@),
            functional(*arithmetic),
            forall|op: BinaryOp, lhs: Number, rhs: Number|
                calculates(op) ==> call_requires(*arithmetic, (op, lhs, rhs)),
        ensures
            stepped(
                program_step_with(arithmetic_of(*arithmetic), self@, old(state)@),
                old(state)@,
                final(state)@,
                r,
            ),
    {
        if state.pc < self.instructions.len() {
            assert(self.instructions[state.pc as int]@ == self@[state.pc as int]);
            self.instructions[state.pc].eval_with(state, arithmetic)
        } else if state.pc == self.instructions.len() {
            Ok(Some(Value::nil()))
        } else {
            Err(RuntimeError::InvalidProgramCounter)
        }
    }

    /// Runs the program from a state, for at most `fuel` steps, with the
    /// arithmetic of numbers given, and stops before the first instruction
    /// that the evaluator does not carry out in the state in which the run
    /// meets it.
    ///
    /// The result is `Ok(None)` where the run stops before it ends: the
    /// state is then the one in which it stopped.
    pub fn run_with_arithmetic<F: Fn(BinaryOp, Number, Number) -> Number>(
        &self,
        state: &mut State,
        fuel: u64,
        arithmetic: &F,
    ) -> (r: Result<Option<Value>, RuntimeError>)
        requires
            functional(*arithmetic),
            forall|op: BinaryOp, lhs: Number, rhs: Number|
                calculates(op) ==> call_requires(*arithmetic, (op, lhs, rhs)),
        ensures
            (outcome(r), final(state)@) == stopping_run_with(
                arithmetic_of(*arithmetic),
                self@,
                old(state)@,
                fuel as nat,
            ),
    {
        let mut left: u64 = fuel;
        while left > 0
            invariant
                functional(*arithmetic),
                forall|op: BinaryOp, lhs: Number, rhs: Number|
                    calculates(op) ==> call_requires(*arithmetic, (op, lhs, rhs)),
                stopping_run_with(arithmetic_of(*arithmetic), self@, state@, left as nat) == stopping_run_with(
                    arithmetic_of(*arithmetic),
                    self@,
                    old(state)@,
                    fuel as nat,
                ),
            decreases left,
        {
            let operable = match self.get(state.pc) {
                Some(instruction) => instruction.is_operable_with_arithmetic(state),
                None => true,
            };
            if !operable {
                return Ok(None);
            }
            match self.step_with(state, arithmetic) {
                Ok(Some(value)) => {
                    return Ok(Some(value));
                },
                Ok(None) => {},
                Err(e) => {
                    return Err(e);
                },
            }
            left = left - 1;
        }
        Ok(None)
    }

    /// Runs the program from its first instruction, without globals.
    pub fn run(&self, fuel: u64) -> (r: Result<Option<Value>, RuntimeError>)
        ensures
            outcome(r) == stopping_run(
                self@,
                entry_state(0, Map::empty(), Map::empty()),
                fuel as nat,
            ).0,
    {
        self.run_with(Vars::new(), fuel)
    }

    /// Runs the program from its first instruction, with the given globals.
    pub fn run_with(&self, globals: Vars, fuel: u64) -> (r: Result<Option<Value>, RuntimeError>)
        ensures
            outcome(r) == stopping_run(self@, entry_state(0, Map::empty(), globals@), fuel as nat).0,
    {
        let mut state = State::new(0, Vars::new(), globals);
        self.run_with_state(&mut state, fuel)
    }

    /// Calls a function of the program, without globals.
    pub fn call(&self, value: Value, args: Vars, fuel: u64) -> (r: Result<
        Option<Value>,
        RuntimeError,
    >)
        ensures
            outcome(r) == stopping_call(self@, value@, args@, Map::empty(), fuel as nat),
    {
        self.call_with(value, args, Vars::new(), fuel)
    }

    /// Calls a function of the program: runs the program from the address
    /// that the value holds, with the arguments as locals. A value that is
    /// no function pointer cannot be called.
    pub fn call_with(&self, value: Value, args: Vars, globals: Vars, fuel: u64) -> (r: Result<
        Option<Value>,
        RuntimeError,
    >)
        ensures
            outcome(r) == stopping_call(self@, value@, args@, globals@, fuel as nat),
    {
        match value {
            Value::FunctionPointer(address) => {
                let mut state = State::new(address, args, globals);
                self.run_with_state(&mut state, fuel)
            },
            _ => Err(RuntimeError::InvalidCallable),
        }
    }
}

/// Carries out `Call`.
fn eval_call(state: &mut State) -> (r: Result<Option<Value>, RuntimeError>)
    ensures
        stepped(call_step(old(state)@), old(state)@, final(state)@, r),
{
    let n = state.stack_frames.len();
    if n < 1 {
        return Err(RuntimeError::NoStackFrames);
    }
    let len = state.stack_frames[n - 1].stack.len();
    if len < 1 {
        return Err(RuntimeError::EmptyStack);
    }
    let address = match &state.stack_frames[n - 1].stack[len - 1] {
        Value::FunctionPointer(address) => *address,
        _ => {
            return Err(RuntimeError::InvalidCallable);
        },
    };
    if len < 2 {
        return Err(RuntimeError::EmptyStack);
    }
    let back = moved_on(state.pc, 1)?;
    let ghost before = state.stack_frames@;
    let mut caller = state.stack_frames.pop().unwrap();
    let ghost operands = caller.stack@;
    caller.stack.pop();
    let argument = caller.stack.pop().unwrap();
    let mut stack: Vec<Value> = Vec::new();
    stack.push(argument);
    let callee = StackFrame { locals: Vars::new(), return_address: Some(back), stack };
    proof {
        assert(views(caller.stack@) =~= views(operands).take(len - 2));
        assert(views(callee.stack@) =~= seq![views(operands)[len - 2]]);
        assert(frame_views(state.stack_frames@) =~= frame_views(before).drop_last());
        lemma_frame_views_push(state.stack_frames@, caller);
        lemma_frame_views_push(state.stack_frames@.push(caller), callee);
    }
    state.stack_frames.push(caller);
    state.stack_frames.push(callee);
    state.pc = address;
    Ok(None)
}

} // verus!
