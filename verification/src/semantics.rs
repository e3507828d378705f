use crate::number::is_zero_bits;
use crate::number::negated;
use crate::number::rank;
use crate::ops::BinaryOp;
use crate::ops::UnaryOp;
use crate::primitive::PrimitiveView;
use crate::table::list_view;
use crate::value::is_live;
use crate::value::live;
use crate::value::value_eq;
use crate::value::ValueView;
use vstd::prelude::*;

verus! {

/// The ways in which an execution fails.
#[derive(Debug, Clone, Copy, PartialEq, Eq, Structural)]
pub enum RuntimeError {
    /// A value was needed from an operand stack that had none left.
    EmptyStack,
    /// A call frame was needed and none was active.
    NoStackFrames,
    /// A table was needed and another value was found.
    NotATable,
    /// A name was not bound, or a value used as a name was no string.
    InvalidVariable,
    /// A value used as the key of a table was no primitive.
    InvalidTableKey,
    /// The program counter left the instruction sequence.
    InvalidProgramCounter,
    /// A frame held an address to return to that is none. The evaluator
    /// itself does not fail in this way: it goes where a frame says, and
    /// an address outside the program fails the next step.
    InvalidReturnAddress,
    /// A value that is no function was called.
    InvalidCallable,
    /// A parameter found neither its named nor its positional argument.
    FunctionArgumentNotProvided,
}

/// What an instruction is: instructions that carry a primitive carry what
/// that primitive is.
pub enum InstructionView {
    Nop,
    Copy,
    Swap,
    Pop,
    UnaryOp(UnaryOp),
    BinaryOp(BinaryOp),
    StoreName,
    StorePrimitive(PrimitiveView),
    PushName,
    PushPrimitive(PrimitiveView),
    TableGet,
    TableListBuild(usize),
    TableDictBuild(usize),
    TableMerge,
    PopJumpIfTrue(usize),
    PopJumpIfFalse(usize),
    Jump(usize),
    PushFunction(usize),
    StoreFunctionArgs(bool, usize),
    Call,
    Return,
}

/// A call frame: the locals of the call, the address to go on from when it
/// returns (none for the frame that an execution starts with), and its
/// operand stack, whose top is the last element.
pub struct FrameView {
    pub locals: Map<Seq<char>, ValueView>,
    pub return_address: Option<usize>,
    pub stack: Seq<ValueView>,
}

/// The state of an execution: the program counter, the globals, and the
/// call frames, the current one last.
pub struct StateView {
    pub pc: usize,
    pub globals: Map<Seq<char>, ValueView>,
    pub frames: Seq<FrameView>,
}

/// What an instruction does to the current frame, and by how much the
/// program counter moves on.
pub struct Effect {
    pub frame: FrameView,
    pub advance: nat,
}

/// What one step of an execution comes to.
pub enum Step {
    /// The execution goes on in the given state.
    Continue(StateView),
    /// The execution is over with the given value, and leaves the given state.
    Finish(ValueView, StateView),
    /// The execution fails, and the state is as it was.
    Fail(RuntimeError),
}

/// Whether a value counts as true: nil does not, a truth value is itself,
/// a number does unless it is zero (so NaN does), a string unless it is
/// empty, a table if it has a live binding, a function pointer always.
pub open spec fn truthy(v: ValueView) -> bool {
    match v {
        ValueView::Primitive(PrimitiveView::Nil) => false,
        ValueView::Primitive(PrimitiveView::Bool(b)) => b,
        ValueView::Primitive(PrimitiveView::Number(bits)) => !is_zero_bits(bits),
        ValueView::Primitive(PrimitiveView::String(s)) => s.len() > 0,
        ValueView::Table(m) => inhabited(m),
        ValueView::FunctionPointer(_) => true,
    }
}

/// Whether some key is bound to a value other than nil.
pub open spec fn inhabited(m: Map<PrimitiveView, ValueView>) -> bool {
    exists|k: PrimitiveView| #[trigger] m.contains_key(k) && !m[k].is_nil()
}

/// Whether a key is bound to a value other than nil.
pub open spec fn present(m: Map<PrimitiveView, ValueView>, k: PrimitiveView) -> bool {
    is_live(m, k)
}

/// The name that a value gives, if the value is a string.
pub open spec fn name_of(v: ValueView) -> Option<Seq<char>> {
    match v {
        ValueView::Primitive(PrimitiveView::String(s)) => Some(s),
        _ => None,
    }
}

/// The value of a name: that of the local of the current frame, if there
/// is one, else that of the global.
pub open spec fn lookup(
    locals: Map<Seq<char>, ValueView>,
    globals: Map<Seq<char>, ValueView>,
    name: Seq<char>,
) -> Option<ValueView> {
    if locals.contains_key(name) {
        Some(locals[name])
    } else if globals.contains_key(name) {
        Some(globals[name])
    } else {
        None
    }
}

/// The first table with every live binding of the second added: where both
/// bind a key, the second wins.
pub open spec fn merge(a: Map<PrimitiveView, ValueView>, b: Map<PrimitiveView, ValueView>) -> Map<
    PrimitiveView,
    ValueView,
> {
    a.union_prefer_right(live(b))
}

/// The key and value pairs that lie on a stack, the keys at the even places.
pub open spec fn pairs_of(values: Seq<ValueView>) -> Seq<(ValueView, ValueView)> {
    Seq::new((values.len() / 2) as nat, |j: int| (values[2 * j], values[2 * j + 1]))
}

/// Whether each pair has a primitive for its key.
pub open spec fn keys_valid(pairs: Seq<(ValueView, ValueView)>) -> bool {
    forall|j: int| 0 <= j < pairs.len() ==> (#[trigger] pairs[j]).0 is Primitive
}

/// The bindings that the pairs make when they are bound from the first to
/// the last, on top of `base`: of two pairs with equal keys the later wins.
pub open spec fn dict_onto(
    base: Map<PrimitiveView, ValueView>,
    pairs: Seq<(ValueView, ValueView)>,
) -> Map<PrimitiveView, ValueView>
    decreases pairs.len(),
{
    if pairs.len() == 0 {
        base
    } else {
        dict_onto(base.insert(pairs[0].0->Primitive_0.key(), pairs[0].1), pairs.skip(1))
    }
}

/// The arguments and the locals while parameters are bound.
pub struct Binding {
    pub args: Map<PrimitiveView, ValueView>,
    pub locals: Map<Seq<char>, ValueView>,
}

/// The arguments and the locals, taken together.
pub open spec fn binding(
    args: Map<PrimitiveView, ValueView>,
    locals: Map<Seq<char>, ValueView>,
) -> Binding {
    Binding { args, locals }
}

/// Binds the key at which an argument is present: the local gets the
/// argument, and the argument's slot is cleared to nil.
pub open spec fn take_argument(b: Binding, name: Seq<char>, k: PrimitiveView) -> Binding {
    Binding { args: b.args.insert(k, ValueView::nil()), locals: b.locals.insert(name, b.args[k]) }
}

/// Binds one parameter, given by its named and its positional key.
///
/// The named key must be a string. The argument under it is taken if it is
/// present. Otherwise the positional key decides: nil stands for no
/// position, a number for the argument under that number, which must be
/// present; anything else is no positional key.
pub open spec fn bind_parameter(b: Binding, named: ValueView, positional: ValueView) -> Result<
    Binding,
    RuntimeError,
> {
    match name_of(named) {
        None => Err(RuntimeError::InvalidVariable),
        Some(name) => if present(b.args, PrimitiveView::String(name)) {
            Ok(take_argument(b, name, PrimitiveView::String(name)))
        } else {
            match positional {
                ValueView::Primitive(PrimitiveView::Nil) => Err(
                    RuntimeError::FunctionArgumentNotProvided,
                ),
                ValueView::Primitive(PrimitiveView::Number(bits)) => if present(
                    b.args,
                    PrimitiveView::Number(bits).key(),
                ) {
                    Ok(take_argument(b, name, PrimitiveView::Number(bits).key()))
                } else {
                    Err(RuntimeError::FunctionArgumentNotProvided)
                },
                _ => Err(RuntimeError::InvalidVariable),
            }
        },
    }
}

/// Binds the parameters, the last one first.
pub open spec fn bind_parameters(b: Binding, pairs: Seq<(ValueView, ValueView)>) -> Result<
    Binding,
    RuntimeError,
>
    decreases pairs.len(),
{
    if pairs.len() == 0 {
        Ok(b)
    } else {
        match bind_parameter(b, pairs.last().0, pairs.last().1) {
            Err(e) => Err(e),
            Ok(next) => bind_parameters(next, pairs.drop_last()),
        }
    }
}

/// Binds `self`, which has a named key only.
pub open spec fn bind_self(b: Binding) -> Result<Binding, RuntimeError> {
    if present(b.args, PrimitiveView::String("self"@)) {
        Ok(take_argument(b, "self"@, PrimitiveView::String("self"@)))
    } else {
        Err(RuntimeError::FunctionArgumentNotProvided)
    }
}

/// Binds the declared parameters and then, if asked for, `self`.
pub open spec fn bind_arguments(
    b: Binding,
    pairs: Seq<(ValueView, ValueView)>,
    with_self: bool,
) -> Result<Binding, RuntimeError> {
    match bind_parameters(b, pairs) {
        Err(e) => Err(e),
        Ok(bound) => if with_self {
            bind_self(bound)
        } else {
            Ok(bound)
        },
    }
}

/// Whether the evaluator carries out an operator with two operands: it
/// does where the operands, whatever they are, give the result without
/// arithmetic and without an order between them.
pub open spec fn binary_implemented(op: BinaryOp) -> bool {
    op == BinaryOp::Eq || op == BinaryOp::Ne || op == BinaryOp::And || op == BinaryOp::Or || op
        == BinaryOp::NilCoalesce
}

/// Whether an operator with two operands puts numbers in order.
pub open spec fn compares(op: BinaryOp) -> bool {
    op == BinaryOp::Lt || op == BinaryOp::Lte || op == BinaryOp::Gt || op == BinaryOp::Gte
}

/// Whether the evaluator carries the instruction out whatever the state.
/// The operators of sign, of order and of arithmetic are not among these:
/// they are carried out on numbers, those of arithmetic only where the
/// host gives the arithmetic.
pub open spec fn implemented(i: InstructionView) -> bool {
    match i {
        InstructionView::UnaryOp(op) => op == UnaryOp::Not,
        InstructionView::BinaryOp(op) => binary_implemented(op),
        _ => true,
    }
}

/// Whether an operator with two operands is one of arithmetic.
pub open spec fn calculates(op: BinaryOp) -> bool {
    op == BinaryOp::Add || op == BinaryOp::Sub || op == BinaryOp::Mul || op == BinaryOp::Div || op
        == BinaryOp::Mod || op == BinaryOp::Pow
}

/// Whether a value is a number.
pub open spec fn is_number(v: ValueView) -> bool {
    v matches ValueView::Primitive(PrimitiveView::Number(_))
}

/// Whether the evaluator carries the instruction out in the given state:
/// an operator of sign or of order where the operands that the current
/// frame holds for it are numbers, any other instruction where it is
/// carried out whatever the state.
pub open spec fn operable(i: InstructionView, s: StateView) -> bool {
    match i {
        InstructionView::UnaryOp(op) => op == UnaryOp::Not || s.frames.len() < 1
            || s.frames.last().stack.len() < 1 || is_number(s.frames.last().stack.last()),
        InstructionView::BinaryOp(op) => binary_implemented(op) || (compares(op) && (s.frames.len()
            < 1 || s.frames.last().stack.len() < 2 || (is_number(s.frames.last().stack.last())
            && is_number(s.frames.last().stack[s.frames.last().stack.len() - 2])))),
        _ => true,
    }
}

/// The state that has the given frame for its only one.
pub open spec fn frame_state(f: FrameView) -> StateView {
    StateView { pc: 0, globals: Map::empty(), frames: seq![f] }
}

/// Whether the evaluator carries the instruction out in the given state
/// where it is given the arithmetic of numbers: an operator of arithmetic
/// where the operands that the current frame holds for it are numbers, any
/// other instruction where it is carried out without.
pub open spec fn operable_with_arithmetic(i: InstructionView, s: StateView) -> bool {
    match i {
        InstructionView::BinaryOp(op) => if calculates(op) {
            s.frames.len() < 1 || s.frames.last().stack.len() < 2 || (is_number(
                s.frames.last().stack.last(),
            ) && is_number(s.frames.last().stack[s.frames.last().stack.len() - 2]))
        } else {
            operable(i, s)
        },
        _ => operable(i, s),
    }
}

/// What an operator of arithmetic does to a state, where the arithmetic
/// gives the number with the bit pattern `result` for its two operands:
/// the operands, the upper two values of the current frame's operand
/// stack, make way for that number, and the program counter moves on by
/// one.
pub open spec fn arithmetic_step(s: StateView, result: u64) -> Step {
    if s.frames.len() < 1 {
        Step::Fail(RuntimeError::NoStackFrames)
    } else {
        let f = s.frames.last();
        let st = f.stack;
        if st.len() < 2 {
            Step::Fail(RuntimeError::EmptyStack)
        } else {
            advanced(
                s,
                s.frames.drop_last().push(
                    with_stack(
                        f,
                        st.take(st.len() - 2).push(
                            ValueView::Primitive(PrimitiveView::Number(result)),
                        ),
                    ),
                ),
                1,
            )
        }
    }
}

/// The bit pattern of the number that a value is, if it is one.
pub open spec fn number_bits(v: ValueView) -> u64 {
    match v {
        ValueView::Primitive(PrimitiveView::Number(bits)) => bits,
        _ => 0,
    }
}

/// What an operator with one operand gives: `Not` whether the operand
/// does not count as true; of a number, `Plus` the number itself and
/// `Minus` the number negated.
pub open spec fn unary(op: UnaryOp, v: ValueView) -> ValueView {
    match (op, v) {
        (UnaryOp::Not, _) => ValueView::Primitive(PrimitiveView::Bool(!truthy(v))),
        (UnaryOp::Plus, ValueView::Primitive(PrimitiveView::Number(bits))) => v,
        (UnaryOp::Minus, ValueView::Primitive(PrimitiveView::Number(bits))) => ValueView::Primitive(
            PrimitiveView::Number(negated(bits)),
        ),
        _ => arbitrary(),
    }
}

/// Whether two numbers are in the order that an operator asks for, in the
/// total order of numbers.
pub open spec fn in_order(op: BinaryOp, lhs: u64, rhs: u64) -> bool {
    match op {
        BinaryOp::Lt => rank(lhs) < rank(rhs),
        BinaryOp::Lte => rank(lhs) <= rank(rhs),
        BinaryOp::Gt => rank(lhs) > rank(rhs),
        _ => rank(lhs) >= rank(rhs),
    }
}

/// What an operator with two operands gives, of those that the evaluator
/// carries out: whether the operands are equal or not, or in order, as
/// truth values, or one of the operands.
pub open spec fn binary(op: BinaryOp, lhs: ValueView, rhs: ValueView) -> ValueView {
    match op {
        BinaryOp::Lt | BinaryOp::Lte | BinaryOp::Gt | BinaryOp::Gte => match (lhs, rhs) {
            (
                ValueView::Primitive(PrimitiveView::Number(x)),
                ValueView::Primitive(PrimitiveView::Number(y)),
            ) => ValueView::Primitive(PrimitiveView::Bool(in_order(op, x, y))),
            _ => arbitrary(),
        },
        BinaryOp::Eq => ValueView::Primitive(PrimitiveView::Bool(value_eq(lhs, rhs))),
        BinaryOp::Ne => ValueView::Primitive(PrimitiveView::Bool(!value_eq(lhs, rhs))),
        BinaryOp::And => if truthy(lhs) {
            rhs
        } else {
            lhs
        },
        BinaryOp::Or => if truthy(lhs) {
            lhs
        } else {
            rhs
        },
        BinaryOp::NilCoalesce => if lhs.is_nil() {
            rhs
        } else {
            lhs
        },
        _ => arbitrary(),
    }
}

/// The frame with another operand stack.
pub open spec fn with_stack(f: FrameView, stack: Seq<ValueView>) -> FrameView {
    FrameView { locals: f.locals, return_address: f.return_address, stack }
}

/// The frame with other locals.
pub open spec fn with_locals(f: FrameView, locals: Map<Seq<char>, ValueView>) -> FrameView {
    FrameView { locals, return_address: f.return_address, stack: f.stack }
}

/// The state with other frames.
pub open spec fn with_frames(s: StateView, frames: Seq<FrameView>) -> StateView {
    StateView { pc: s.pc, globals: s.globals, frames }
}

/// The frame that a call starts with.
pub open spec fn called_frame(
    locals: Map<Seq<char>, ValueView>,
    return_address: usize,
) -> FrameView {
    FrameView { locals, return_address: Some(return_address), stack: Seq::empty() }
}

/// The value of a name in a state: `lookup` in the locals of the current
/// frame, if there is a frame, and the globals.
pub open spec fn visible(s: StateView, name: Seq<char>) -> Option<ValueView> {
    if s.frames.len() > 0 {
        lookup(s.frames.last().locals, s.globals, name)
    } else {
        lookup(Map::empty(), s.globals, name)
    }
}

/// What `TableGet` does: the key is on top, the table below it. Both make
/// way for the value that the table binds to the key, or for nil where it
/// binds none.
pub open spec fn table_get(f: FrameView) -> Result<Effect, RuntimeError> {
    let st = f.stack;
    if st.len() < 1 {
        Err(RuntimeError::EmptyStack)
    } else if !(st.last() is Primitive) {
        Err(RuntimeError::InvalidTableKey)
    } else if st.len() < 2 {
        Err(RuntimeError::EmptyStack)
    } else if !(st[st.len() - 2] is Table) {
        Err(RuntimeError::InvalidVariable)
    } else {
        let m = st[st.len() - 2]->Table_0;
        let k = st.last()->Primitive_0.key();
        let v = if m.contains_key(k) {
            m[k]
        } else {
            ValueView::nil()
        };
        Ok(Effect { frame: with_stack(f, st.take(st.len() - 2).push(v)), advance: 1 })
    }
}

/// What `TableListBuild(n)` does: the `n` values on top make way for the
/// list of them, in the order in which they were pushed.
pub open spec fn table_list_build(f: FrameView, n: usize) -> Result<Effect, RuntimeError> {
    let st = f.stack;
    if st.len() < n {
        Err(RuntimeError::EmptyStack)
    } else {
        let rest = st.take(st.len() - n);
        let table = ValueView::Table(list_view(st.skip(st.len() - n)));
        Ok(Effect { frame: with_stack(f, rest.push(table)), advance: 1 })
    }
}

/// What `TableDictBuild(n)` does: the `n` pairs of key and value on top
/// make way for the table of them, bound in the order in which they were
/// pushed. The pairs are read from the top: a key that is no primitive
/// fails as such where the stack holds its pair, and the stack fails as
/// empty where it holds fewer pairs.
pub open spec fn table_dict_build(f: FrameView, n: usize) -> Result<Effect, RuntimeError> {
    let st = f.stack;
    let held: int = if st.len() / 2 < n {
        (st.len() / 2) as int
    } else {
        n as int
    };
    if !keys_valid(pairs_of(st.skip(st.len() - 2 * held))) {
        Err(RuntimeError::InvalidTableKey)
    } else if st.len() < 2 * n {
        Err(RuntimeError::EmptyStack)
    } else {
        let rest = st.take(st.len() - 2 * n);
        let table = ValueView::Table(dict_onto(Map::empty(), pairs_of(st.skip(st.len() - 2 * n))));
        Ok(Effect { frame: with_stack(f, rest.push(table)), advance: 1 })
    }
}

/// What `TableMerge` does: the two tables on top make way for the lower
/// one merged with the upper one.
pub open spec fn table_merge(f: FrameView) -> Result<Effect, RuntimeError> {
    let st = f.stack;
    if st.len() < 1 {
        Err(RuntimeError::EmptyStack)
    } else if !(st.last() is Table) {
        Err(RuntimeError::NotATable)
    } else if st.len() < 2 {
        Err(RuntimeError::EmptyStack)
    } else if !(st[st.len() - 2] is Table) {
        Err(RuntimeError::NotATable)
    } else {
        let merged = ValueView::Table(merge(st[st.len() - 2]->Table_0, st.last()->Table_0));
        Ok(Effect { frame: with_stack(f, st.take(st.len() - 2).push(merged)), advance: 1 })
    }
}

/// What `StoreFunctionArgs(with_self, n)` does: on top lie `n` pairs of a
/// named and a positional key, below them the table of arguments. All of
/// them are taken off, and the parameters are bound in the locals.
pub open spec fn store_function_args(f: FrameView, with_self: bool, n: usize) -> Result<
    Effect,
    RuntimeError,
> {
    let st = f.stack;
    if st.len() < 2 * n + 1 {
        Err(RuntimeError::EmptyStack)
    } else if !(st[st.len() - 2 * n - 1] is Table) {
        Err(RuntimeError::InvalidVariable)
    } else {
        let start = Binding { args: st[st.len() - 2 * n - 1]->Table_0, locals: f.locals };
        match bind_arguments(start, pairs_of(st.skip(st.len() - 2 * n)), with_self) {
            Err(e) => Err(e),
            Ok(bound) => Ok(
                Effect {
                    frame: FrameView {
                        locals: bound.locals,
                        return_address: f.return_address,
                        stack: st.take(st.len() - 2 * n - 1),
                    },
                    advance: 1,
                },
            ),
        }
    }
}

/// What an instruction other than `Nop`, `Jump`, `Call` and `Return` does
/// to the current frame.
pub open spec fn frame_step(
    i: InstructionView,
    f: FrameView,
    globals: Map<Seq<char>, ValueView>,
) -> Result<Effect, RuntimeError> {
    let st = f.stack;
    match i {
        InstructionView::Copy => if st.len() < 1 {
            Err(RuntimeError::EmptyStack)
        } else {
            Ok(Effect { frame: with_stack(f, st.push(st.last())), advance: 1 })
        },
        InstructionView::Swap => if st.len() < 2 {
            Err(RuntimeError::EmptyStack)
        } else {
            Ok(
                Effect {
                    frame: with_stack(
                        f,
                        st.take(st.len() - 2).push(st[st.len() - 1]).push(st[st.len() - 2]),
                    ),
                    advance: 1,
                },
            )
        },
        InstructionView::Pop => if st.len() < 1 {
            Err(RuntimeError::EmptyStack)
        } else {
            Ok(Effect { frame: with_stack(f, st.drop_last()), advance: 1 })
        },
        InstructionView::StoreName => if st.len() < 2 {
            Err(RuntimeError::EmptyStack)
        } else {
            match name_of(st[st.len() - 2]) {
                None => Err(RuntimeError::InvalidVariable),
                Some(name) => Ok(
                    Effect {
                        frame: FrameView {
                            locals: f.locals.insert(name, st.last()),
                            return_address: f.return_address,
                            stack: st.take(st.len() - 2),
                        },
                        advance: 1,
                    },
                ),
            }
        },
        InstructionView::StorePrimitive(c) => if st.len() < 1 {
            Err(RuntimeError::EmptyStack)
        } else {
            match name_of(st.last()) {
                None => Err(RuntimeError::InvalidVariable),
                Some(name) => Ok(
                    Effect {
                        frame: FrameView {
                            locals: f.locals.insert(name, ValueView::Primitive(c)),
                            return_address: f.return_address,
                            stack: st.drop_last(),
                        },
                        advance: 1,
                    },
                ),
            }
        },
        InstructionView::PushName => if st.len() < 1 {
            Err(RuntimeError::EmptyStack)
        } else {
            match name_of(st.last()) {
                None => Err(RuntimeError::InvalidVariable),
                Some(name) => match lookup(f.locals, globals, name) {
                    None => Err(RuntimeError::InvalidVariable),
                    Some(v) => Ok(
                        Effect { frame: with_stack(f, st.drop_last().push(v)), advance: 1 },
                    ),
                },
            }
        },
        InstructionView::PushPrimitive(c) => Ok(
            Effect { frame: with_stack(f, st.push(ValueView::Primitive(c))), advance: 1 },
        ),
        InstructionView::TableGet => table_get(f),
        InstructionView::TableListBuild(n) => table_list_build(f, n),
        InstructionView::TableDictBuild(n) => table_dict_build(f, n),
        InstructionView::TableMerge => table_merge(f),
        InstructionView::PopJumpIfTrue(n) => if st.len() < 1 {
            Err(RuntimeError::EmptyStack)
        } else {
            Ok(
                Effect {
                    frame: with_stack(f, st.drop_last()),
                    advance: if truthy(st.last()) {
                        n as nat
                    } else {
                        1
                    },
                },
            )
        },
        InstructionView::PopJumpIfFalse(n) => if st.len() < 1 {
            Err(RuntimeError::EmptyStack)
        } else {
            Ok(
                Effect {
                    frame: with_stack(f, st.drop_last()),
                    advance: if truthy(st.last()) {
                        1
                    } else {
                        n as nat
                    },
                },
            )
        },
        InstructionView::StoreFunctionArgs(with_self, n) => store_function_args(f, with_self, n),
        InstructionView::UnaryOp(op) => if st.len() < 1 {
            Err(RuntimeError::EmptyStack)
        } else {
            Ok(Effect { frame: with_stack(f, st.drop_last().push(unary(op, st.last()))), advance: 1 })
        },
        InstructionView::BinaryOp(op) => if st.len() < 2 {
            Err(RuntimeError::EmptyStack)
        } else {
            Ok(
                Effect {
                    frame: with_stack(
                        f,
                        st.take(st.len() - 2).push(binary(op, st[st.len() - 2], st.last())),
                    ),
                    advance: 1,
                },
            )
        },
        InstructionView::PushFunction(address) => Ok(
            Effect { frame: with_stack(f, st.push(ValueView::FunctionPointer(address))), advance: 1 },
        ),
        _ => arbitrary(),
    }
}

/// The state with the program counter moved on, if it can be.
pub open spec fn advanced(s: StateView, frames: Seq<FrameView>, by: nat) -> Step {
    if s.pc + by > usize::MAX {
        Step::Fail(RuntimeError::InvalidProgramCounter)
    } else {
        Step::Continue(StateView { pc: (s.pc + by) as usize, globals: s.globals, frames })
    }
}

/// What `Return` does: the value on top of the current frame is taken and
/// the frame is dropped. A frame without return address ends the execution
/// with that value. Otherwise the value goes on top of the caller's stack,
/// and the execution goes on at the return address.
pub open spec fn return_step(s: StateView) -> Step {
    if s.frames.len() < 1 {
        Step::Fail(RuntimeError::NoStackFrames)
    } else if s.frames.last().stack.len() < 1 {
        Step::Fail(RuntimeError::EmptyStack)
    } else {
        let value = s.frames.last().stack.last();
        let below = s.frames.drop_last();
        match s.frames.last().return_address {
            None => Step::Finish(value, StateView { pc: s.pc, globals: s.globals, frames: below }),
            Some(address) => if below.len() < 1 {
                Step::Fail(RuntimeError::NoStackFrames)
            } else {
                Step::Continue(
                    StateView {
                        pc: address,
                        globals: s.globals,
                        frames: below.drop_last().push(
                            with_stack(below.last(), below.last().stack.push(value)),
                        ),
                    },
                )
            },
        }
    }
}

/// What `Call` does: the function is on top, its argument below it. Both
/// are taken off, and a new frame becomes the current one: without locals,
/// with the argument alone on its operand stack, and with the address of
/// the next instruction to return to. The execution goes on at the address
/// that the function pointer holds.
pub open spec fn call_step(s: StateView) -> Step {
    if s.frames.len() < 1 {
        Step::Fail(RuntimeError::NoStackFrames)
    } else {
        let f = s.frames.last();
        let st = f.stack;
        if st.len() < 1 {
            Step::Fail(RuntimeError::EmptyStack)
        } else if !(st.last() is FunctionPointer) {
            Step::Fail(RuntimeError::InvalidCallable)
        } else if st.len() < 2 {
            Step::Fail(RuntimeError::EmptyStack)
        } else if s.pc + 1 > usize::MAX {
            Step::Fail(RuntimeError::InvalidProgramCounter)
        } else {
            Step::Continue(
                StateView {
                    pc: st.last()->FunctionPointer_0,
                    globals: s.globals,
                    frames: s.frames.drop_last().push(with_stack(f, st.take(st.len() - 2))).push(
                        FrameView {
                            locals: Map::empty(),
                            return_address: Some((s.pc + 1) as usize),
                            stack: seq![st[st.len() - 2]],
                        },
                    ),
                },
            )
        }
    }
}

/// What an instruction that the evaluator carries out in a state does to
/// that state.
///
/// `Nop` moves the program counter on by one, and so does `Jump(0)`;
/// `Jump(n)` moves it on by `n`. Both need no frame. `Return` is
/// `return_step`, `Call` is `call_step`. Every other instruction needs a current frame, works on
/// it as `frame_step` says, and moves the program counter on by what the
/// effect says. A program counter that would leave the range of addresses
/// fails the step.
pub open spec fn step(i: InstructionView, s: StateView) -> Step {
    match i {
        InstructionView::Nop => advanced(s, s.frames, 1),
        InstructionView::Jump(n) => advanced(
            s,
            s.frames,
            if n == 0 {
                1
            } else {
                n as nat
            },
        ),
        InstructionView::Return => return_step(s),
        InstructionView::Call => call_step(s),
        _ => if s.frames.len() < 1 {
            Step::Fail(RuntimeError::NoStackFrames)
        } else {
            match frame_step(i, s.frames.last(), s.globals) {
                Err(e) => Step::Fail(e),
                Ok(effect) => advanced(s, s.frames.drop_last().push(effect.frame), effect.advance),
            }
        },
    }
}

/// What one step of a program comes to: the instruction at the program
/// counter is carried out; a program counter just behind the last
/// instruction ends the execution with nil; any other program counter fails.
pub open spec fn program_step(program: Seq<InstructionView>, s: StateView) -> Step {
    if s.pc < program.len() {
        step(program[s.pc as int], s)
    } else if s.pc == program.len() {
        Step::Finish(ValueView::nil(), s)
    } else {
        Step::Fail(RuntimeError::InvalidProgramCounter)
    }
}

/// What comes of running a program from a state for at most `fuel` steps:
/// the value that the execution ends with, nothing if it has not ended
/// after so many steps, or the failure of the step that fails.
pub open spec fn run_from(program: Seq<InstructionView>, s: StateView, fuel: nat) -> Result<
    Option<ValueView>,
    RuntimeError,
>
    decreases fuel,
{
    if fuel == 0 {
        Ok(None)
    } else {
        match program_step(program, s) {
            Step::Continue(next) => run_from(program, next, (fuel - 1) as nat),
            Step::Finish(value, _) => Ok(Some(value)),
            Step::Fail(e) => Err(e),
        }
    }
}

/// Whether the evaluator carries out every instruction of the program,
/// whatever the state.
pub open spec fn runnable(program: Seq<InstructionView>) -> bool {
    forall|i: int| 0 <= i < program.len() ==> implemented(#[trigger] program[i])
}

/// Whether the evaluator carries out the instruction at the program
/// counter, if there is one.
pub open spec fn operable_here(program: Seq<InstructionView>, s: StateView) -> bool {
    s.pc < program.len() ==> operable(program[s.pc as int], s)
}

/// Whether the evaluator carries out each instruction that a run from the
/// given state meets within `fuel` steps, in the state in which the run
/// meets it.
pub open spec fn operable_run(program: Seq<InstructionView>, s: StateView, fuel: nat) -> bool
    decreases fuel,
{
    fuel == 0 || (operable_here(program, s) && match program_step(program, s) {
        Step::Continue(next) => operable_run(program, next, (fuel - 1) as nat),
        _ => true,
    })
}

/// A program whose every instruction the evaluator carries out whatever
/// the state can be run from any state, for any number of steps.
pub proof fn lemma_runnable(program: Seq<InstructionView>, s: StateView, fuel: nat)
    requires
        runnable(program),
    ensures
        operable_run(program, s, fuel),
        operable_here(program, s),
    decreases fuel,
{
    if s.pc < program.len() {
        assert(implemented(program[s.pc as int]));
    }
    if fuel > 0 {
        match program_step(program, s) {
            Step::Continue(next) => {
                lemma_runnable(program, next, (fuel - 1) as nat);
            },
            _ => {},
        }
    }
}

/// The state in which an execution starts: one frame, with the given
/// locals, an empty operand stack and no return address.
pub open spec fn entry_state(
    pc: usize,
    locals: Map<Seq<char>, ValueView>,
    globals: Map<Seq<char>, ValueView>,
) -> StateView {
    StateView {
        pc,
        globals,
        frames: seq![FrameView { locals, return_address: None, stack: Seq::empty() }],
    }
}

/// A name that is bound in the locals of the current frame has the value
/// that the locals give it, whatever the globals bind it to.
pub proof fn lemma_locals_shadow_globals(s: StateView, name: Seq<char>)
    requires
        s.frames.len() > 0,
        s.frames.last().locals.contains_key(name),
    ensures
        visible(s, name) == Some(s.frames.last().locals[name]),
        lookup(s.frames.last().locals, s.globals, name) == Some(s.frames.last().locals[name]),
{
}

/// The locals of the frames below the current one do not count: a name
/// that only they bind has the value that the globals give it, or none.
pub proof fn lemma_outer_locals_hidden(s: StateView, name: Seq<char>)
    requires
        s.frames.len() > 0,
        !s.frames.last().locals.contains_key(name),
    ensures
        visible(s, name) == (if s.globals.contains_key(name) {
            Some(s.globals[name])
        } else {
            None
        }),
{
}

/// `Return` in a frame without return address ends the execution with the
/// value on top of that frame's operand stack: a run that stands before
/// such a `Return` ends with that value.
pub proof fn lemma_return_halts(s: StateView)
    requires
        s.frames.len() > 0,
        s.frames.last().return_address is None,
        s.frames.last().stack.len() > 0,
    ensures
        step(InstructionView::Return, s) == Step::Finish(
            s.frames.last().stack.last(),
            with_frames(s, s.frames.drop_last()),
        ),
        forall|program: Seq<InstructionView>, fuel: nat|
            s.pc < program.len() && program[s.pc as int] == InstructionView::Return && fuel > 0
                ==> (#[trigger] stopping_run(program, s, fuel)).0 == Ok::<
                Option<ValueView>,
                RuntimeError,
            >(Some(s.frames.last().stack.last())),
{
}

/// `Return` in a frame with a return address hands the value on top of its
/// operand stack to the frame below, and goes on at that address.
pub proof fn lemma_return_resumes(s: StateView)
    requires
        s.frames.len() > 1,
        s.frames.last().return_address is Some,
        s.frames.last().stack.len() > 0,
    ensures
        step(InstructionView::Return, s) matches Step::Continue(next) && {
            &&& next.pc == s.frames.last().return_address->Some_0
            &&& next.globals == s.globals
            &&& next.frames.len() == s.frames.len() - 1
            &&& next.frames.last().locals == s.frames[s.frames.len() - 2].locals
            &&& next.frames.last().stack == s.frames[s.frames.len() - 2].stack.push(
                s.frames.last().stack.last(),
            )
        },
{
}

/// The program without instructions ends with nil at once, whatever the
/// globals and the locals.
pub proof fn lemma_empty_program(
    locals: Map<Seq<char>, ValueView>,
    globals: Map<Seq<char>, ValueView>,
    fuel: nat,
)
    requires
        fuel > 0,
    ensures
        stopping_run(Seq::empty(), entry_state(0, locals, globals), fuel).0 == Ok::<
            Option<ValueView>,
            RuntimeError,
        >(Some(ValueView::nil())),
        run_from(Seq::empty(), entry_state(0, locals, globals), fuel) == Ok::<
            Option<ValueView>,
            RuntimeError,
        >(Some(ValueView::nil())),
{
}

/// An execution that has ended or failed within some number of steps has
/// done so within any greater number, with the same result.
pub proof fn lemma_more_fuel(program: Seq<InstructionView>, s: StateView, fuel: nat, more: nat)
    requires
        fuel <= more,
        run_from(program, s, fuel) != Ok::<Option<ValueView>, RuntimeError>(None),
    ensures
        run_from(program, s, more) == run_from(program, s, fuel),
    decreases fuel,
{
    if fuel > 0 {
        match program_step(program, s) {
            Step::Continue(next) => {
                lemma_more_fuel(program, next, (fuel - 1) as nat, (more - 1) as nat);
            },
            _ => {},
        }
    }
}

/// A number counts as true unless it is positive or negative zero: NaN
/// does, and so does every other number that is not zero, the infinities
/// included.
pub proof fn lemma_number_truthiness(bits: u64)
    ensures
        truthy(ValueView::Primitive(PrimitiveView::Number(bits))) <==> bits != 0 && bits
            != crate::number::SIGN_BIT,
        crate::number::is_nan_bits(bits) ==> truthy(
            ValueView::Primitive(PrimitiveView::Number(bits)),
        ),
{
}

/// Every instruction that the evaluator carries out moves the program
/// counter on by exactly one where it goes on, but for the jumps and
/// `Return`.
pub proof fn lemma_advances_by_one(i: InstructionView, s: StateView)
    requires
        implemented(i),
        !(i is Jump || i is PopJumpIfTrue || i is PopJumpIfFalse || i is Call || i is Return),
    ensures
        step(i, s) matches Step::Continue(next) ==> next.pc == s.pc + 1 && next.globals
            == s.globals && next.frames.len() == s.frames.len(),
{
}

/// No instruction changes the globals, nor a frame below the current one
/// but `Return`, which changes the operand stack of the frame it returns to.
pub proof fn lemma_frames_below_untouched(i: InstructionView, s: StateView, at: int)
    requires
        implemented(i),
        !(i is Return),
        0 <= at < s.frames.len() - 1,
    ensures
        step(i, s) matches Step::Continue(next) ==> next.globals == s.globals && next.frames.len()
            >= s.frames.len() && next.frames[at] == s.frames[at],
{
}

/// The arithmetic of numbers, as a function from an operator and the bit
/// patterns of two numbers to the bit pattern of a number.
pub type Arithmetic = spec_fn(BinaryOp, u64, u64) -> u64;

/// What an instruction does to a state where the evaluator is given the
/// arithmetic of numbers: an operator of arithmetic does `arithmetic_step`
/// with what the arithmetic gives for its operands, every other
/// instruction does `step`.
pub open spec fn step_with(a: Arithmetic, i: InstructionView, s: StateView) -> Step {
    match i {
        InstructionView::BinaryOp(op) => if calculates(op) {
            if s.frames.len() > 0 && s.frames.last().stack.len() >= 2 {
                arithmetic_step(
                    s,
                    a(
                        op,
                        number_bits(s.frames.last().stack[s.frames.last().stack.len() - 2]),
                        number_bits(s.frames.last().stack.last()),
                    ),
                )
            } else {
                arithmetic_step(s, 0)
            }
        } else {
            step(i, s)
        },
        _ => step(i, s),
    }
}

/// What one step of a program comes to, with the arithmetic given.
pub open spec fn program_step_with(
    a: Arithmetic,
    program: Seq<InstructionView>,
    s: StateView,
) -> Step {
    if s.pc < program.len() {
        step_with(a, program[s.pc as int], s)
    } else if s.pc == program.len() {
        Step::Finish(ValueView::nil(), s)
    } else {
        Step::Fail(RuntimeError::InvalidProgramCounter)
    }
}

/// What comes of running a program from a state for at most `fuel` steps,
/// with the arithmetic given.
pub open spec fn run_from_with(
    a: Arithmetic,
    program: Seq<InstructionView>,
    s: StateView,
    fuel: nat,
) -> Result<Option<ValueView>, RuntimeError>
    decreases fuel,
{
    if fuel == 0 {
        Ok(None)
    } else {
        match program_step_with(a, program, s) {
            Step::Continue(next) => run_from_with(a, program, next, (fuel - 1) as nat),
            Step::Finish(value, _) => Ok(Some(value)),
            Step::Fail(e) => Err(e),
        }
    }
}

/// Whether the evaluator, given the arithmetic, carries out the
/// instruction at the program counter, if there is one.
pub open spec fn operable_here_with(program: Seq<InstructionView>, s: StateView) -> bool {
    s.pc < program.len() ==> operable_with_arithmetic(program[s.pc as int], s)
}

/// Whether the evaluator, given the arithmetic, carries out each
/// instruction that a run from the given state meets within `fuel` steps.
pub open spec fn operable_run_with(
    a: Arithmetic,
    program: Seq<InstructionView>,
    s: StateView,
    fuel: nat,
) -> bool
    decreases fuel,
{
    fuel == 0 || (operable_here_with(program, s) && match program_step_with(a, program, s) {
        Step::Continue(next) => operable_run_with(a, program, next, (fuel - 1) as nat),
        _ => true,
    })
}

/// What comes of running a program from a state for at most `fuel`
/// steps, with the arithmetic given, and stopping before the first
/// instruction that the evaluator does not carry out in the state in which
/// the run meets it: the result, which is nothing where the run stops
/// before it ends, and the state that the run leaves.
pub open spec fn stopping_run_with(
    a: Arithmetic,
    program: Seq<InstructionView>,
    s: StateView,
    fuel: nat,
) -> (Result<Option<ValueView>, RuntimeError>, StateView)
    decreases fuel,
{
    if fuel == 0 || !operable_here_with(program, s) {
        (Ok(None), s)
    } else {
        match program_step_with(a, program, s) {
            Step::Continue(next) => stopping_run_with(a, program, next, (fuel - 1) as nat),
            Step::Finish(value, after) => (Ok(Some(value)), after),
            Step::Fail(e) => (Err(e), s),
        }
    }
}

/// A run that meets only instructions that the evaluator carries out comes
/// to the same whether it looks out for others or not.
pub proof fn lemma_stopping_run_with(
    a: Arithmetic,
    program: Seq<InstructionView>,
    s: StateView,
    fuel: nat,
)
    requires
        operable_run_with(a, program, s, fuel),
    ensures
        stopping_run_with(a, program, s, fuel).0 == run_from_with(a, program, s, fuel),
    decreases fuel,
{
    if fuel > 0 {
        match program_step_with(a, program, s) {
            Step::Continue(next) => {
                lemma_stopping_run_with(a, program, next, (fuel - 1) as nat);
            },
            _ => {},
        }
    }
}

/// What comes of running a program from a state for at most `fuel`
/// steps, and stopping before the first instruction that the evaluator
/// does not carry out in the state in which the run meets it: the result,
/// which is nothing where the run stops before it ends, and the state that
/// the run leaves.
pub open spec fn stopping_run(program: Seq<InstructionView>, s: StateView, fuel: nat) -> (
    Result<Option<ValueView>, RuntimeError>,
    StateView,
)
    decreases fuel,
{
    if fuel == 0 || !operable_here(program, s) {
        (Ok(None), s)
    } else {
        match program_step(program, s) {
            Step::Continue(next) => stopping_run(program, next, (fuel - 1) as nat),
            Step::Finish(value, after) => (Ok(Some(value)), after),
            Step::Fail(e) => (Err(e), s),
        }
    }
}

/// What comes of calling a value as a function of a program, for at most
/// `fuel` steps, stopping as `stopping_run` does.
pub open spec fn stopping_call(
    program: Seq<InstructionView>,
    value: ValueView,
    args: Map<Seq<char>, ValueView>,
    globals: Map<Seq<char>, ValueView>,
    fuel: nat,
) -> Result<Option<ValueView>, RuntimeError> {
    match value {
        ValueView::FunctionPointer(address) => stopping_run(
            program,
            entry_state(address, args, globals),
            fuel,
        ).0,
        _ => Err(RuntimeError::InvalidCallable),
    }
}

/// A run that meets only instructions that the evaluator carries out comes
/// to what `run_from` says, and so does a call.
pub proof fn lemma_stopping_run(program: Seq<InstructionView>, s: StateView, fuel: nat)
    requires
        operable_run(program, s, fuel),
    ensures
        stopping_run(program, s, fuel).0 == run_from(program, s, fuel),
    decreases fuel,
{
    if fuel > 0 {
        match program_step(program, s) {
            Step::Continue(next) => {
                lemma_stopping_run(program, next, (fuel - 1) as nat);
            },
            _ => {},
        }
    }
}

/// A run that stops before it ends has run out of fuel, or stands before
/// an instruction that the evaluator does not carry out.
pub proof fn lemma_stopped(program: Seq<InstructionView>, s: StateView, fuel: nat)
    requires
        stopping_run(program, s, fuel).0 == Ok::<Option<ValueView>, RuntimeError>(None),
    ensures
        !operable_here(program, stopping_run(program, s, fuel).1) || run_from(program, s, fuel)
            == Ok::<Option<ValueView>, RuntimeError>(None),
    decreases fuel,
{
    if fuel > 0 && operable_here(program, s) {
        match program_step(program, s) {
            Step::Continue(next) => {
                lemma_stopped(program, next, (fuel - 1) as nat);
            },
            _ => {},
        }
    }
}

/// A run that meets no operator of arithmetic comes to the same with any
/// arithmetic as without.
pub proof fn lemma_run_without_arithmetic(
    a: Arithmetic,
    program: Seq<InstructionView>,
    s: StateView,
    fuel: nat,
)
    requires
        operable_run(program, s, fuel),
    ensures
        operable_run_with(a, program, s, fuel),
        run_from_with(a, program, s, fuel) == run_from(program, s, fuel),
    decreases fuel,
{
    if fuel > 0 {
        assert(program_step_with(a, program, s) == program_step(program, s));
        match program_step(program, s) {
            Step::Continue(next) => {
                lemma_run_without_arithmetic(a, program, next, (fuel - 1) as nat);
            },
            _ => {},
        }
    }
}

/// The key of a pair of key and value, where the key is a primitive.
pub open spec fn pair_key(pair: (ValueView, ValueView)) -> PrimitiveView {
    pair.0->Primitive_0.key()
}

/// Of the pairs that a dictionary is built of, the last one with a key
/// decides what the key is bound to; keys that no pair has stay as the
/// base has them.
pub proof fn lemma_dict_last_wins(
    base: Map<PrimitiveView, ValueView>,
    pairs: Seq<(ValueView, ValueView)>,
)
    ensures
        forall|j: int|
            0 <= j < pairs.len() && (forall|later: int|
                j < later < pairs.len() ==> pair_key(#[trigger] pairs[later]) != pair_key(pairs[j]))
                ==> dict_onto(base, pairs).contains_key(pair_key(#[trigger] pairs[j])) && dict_onto(
                base,
                pairs,
            )[pair_key(pairs[j])] == pairs[j].1,
        forall|k: PrimitiveView|
            (forall|j: int| 0 <= j < pairs.len() ==> pair_key(#[trigger] pairs[j]) != k) ==> (
            #[trigger] dict_onto(base, pairs).contains_key(k) == base.contains_key(k)) && (
            base.contains_key(k) ==> dict_onto(base, pairs)[k] == base[k]),
    decreases pairs.len(),
{
    if pairs.len() > 0 {
        let first = pairs[0];
        let rest = pairs.skip(1);
        let under = base.insert(pair_key(first), first.1);
        lemma_dict_last_wins(under, rest);
        assert forall|j: int|
            0 <= j < pairs.len() && (forall|later: int|
                j < later < pairs.len() ==> pair_key(#[trigger] pairs[later]) != pair_key(
                    pairs[j],
                )) implies dict_onto(base, pairs).contains_key(pair_key(#[trigger] pairs[j]))
            && dict_onto(base, pairs)[pair_key(pairs[j])] == pairs[j].1 by {
            if j == 0 {
                assert forall|i: int| 0 <= i < rest.len() implies pair_key(#[trigger] rest[i])
                    != pair_key(first) by {
                    assert(rest[i] == pairs[i + 1]);
                }
                assert(dict_onto(under, rest).contains_key(pair_key(first)) == under.contains_key(
                    pair_key(first),
                ));
            } else {
                assert(rest[j - 1] == pairs[j]);
                assert forall|later: int| j - 1 < later < rest.len() implies pair_key(
                    #[trigger] rest[later],
                ) != pair_key(rest[j - 1]) by {
                    assert(rest[later] == pairs[later + 1]);
                }
            }
        }
        assert forall|k: PrimitiveView|
            (forall|j: int| 0 <= j < pairs.len() ==> pair_key(#[trigger] pairs[j]) != k) implies (
        #[trigger] dict_onto(base, pairs).contains_key(k) == base.contains_key(k)) && (
        base.contains_key(k) ==> dict_onto(base, pairs)[k] == base[k]) by {
            assert forall|j: int| 0 <= j < rest.len() implies pair_key(#[trigger] rest[j]) != k by {
                assert(rest[j] == pairs[j + 1]);
            }
            assert(pair_key(pairs[0]) != k);
            assert(dict_onto(under, rest).contains_key(k) == under.contains_key(k));
        }
    }
}

/// Merging is biased to the right: a key that the second table binds to a
/// value other than nil has that value, every other key is as the first
/// table has it.
pub proof fn lemma_merge_prefers_right(
    a: Map<PrimitiveView, ValueView>,
    b: Map<PrimitiveView, ValueView>,
    k: PrimitiveView,
)
    ensures
        present(b, k) ==> merge(a, b).contains_key(k) && merge(a, b)[k] == b[k],
        !present(b, k) ==> merge(a, b).contains_key(k) == a.contains_key(k),
        !present(b, k) && a.contains_key(k) ==> merge(a, b)[k] == a[k],
{
}

/// An argument satisfies one parameter: once it is taken, it is not
/// present for the parameters bound after it, and the arguments under the
/// other keys are as they were.
pub proof fn lemma_argument_taken_once(b: Binding, name: Seq<char>, k: PrimitiveView)
    requires
        present(b.args, k),
    ensures
        !present(take_argument(b, name, k).args, k),
        take_argument(b, name, k).locals[name] == b.args[k],
        take_argument(b, name, k).locals.contains_key(name),
        forall|other: PrimitiveView|
            other != k ==> present(take_argument(b, name, k).args, other) == present(b.args, other),
{
}

} // verus!
