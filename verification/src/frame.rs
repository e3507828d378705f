use crate::builtins;
use crate::bytecode::StackFrame;
use crate::ops::BinaryOp;
use crate::ops::UnaryOp;
use crate::primitive::Primitive;
use crate::semantics::bind_parameter;
use crate::semantics::bind_parameters;
use crate::semantics::binary_implemented;
use crate::semantics::binding;
use crate::semantics::compares;
use crate::semantics::dict_onto;
use crate::semantics::frame_step;
use crate::semantics::is_number;
use crate::semantics::keys_valid;
use crate::semantics::name_of;
use crate::semantics::pairs_of;
use crate::semantics::present;
use crate::semantics::take_argument;
use crate::semantics::FrameView;
use crate::semantics::InstructionView;
use crate::semantics::RuntimeError;
use crate::table::views;
use crate::table::Table;
use crate::value::value_view;
use crate::value::Value;
use crate::value::ValueView;
use crate::vars::Vars;
use vstd::prelude::*;
use vstd::string::StringExecFns;

verus! {

/// Pushing a value pushes what it is.
pub proof fn lemma_views_push(values: Seq<Value>, value: Value)
    ensures
        views(values.push(value)) == views(values).push(value_view(value)),
{
    assert(views(values.push(value)) =~= views(values).push(value_view(value)));
}

/// The first values are what the first views are of.
pub proof fn lemma_views_take(values: Seq<Value>, n: int)
    requires
        0 <= n <= values.len(),
    ensures
        views(values.take(n)) == views(values).take(n),
        views(values.skip(n)) == views(values).skip(n),
{
    assert(views(values.take(n)) =~= views(values).take(n));
    assert(views(values.skip(n)) =~= views(values).skip(n));
}

/// The program counter moved on, unless it would leave the range of addresses.
pub(crate) fn moved_on(pc: usize, by: usize) -> (r: Result<usize, RuntimeError>)
    ensures
        match r {
            Ok(next) => next == pc + by,
            Err(e) => e == RuntimeError::InvalidProgramCounter && pc + by > usize::MAX,
        },
{
    match pc.checked_add(by) {
        Some(next) => Ok(next),
        None => Err(RuntimeError::InvalidProgramCounter),
    }
}

/// Whether a frame-level step did what `frame_step` says, the program
/// counter moving from `pc`.
pub open spec fn frame_stepped(
    i: InstructionView,
    before: FrameView,
    globals: Map<Seq<char>, ValueView>,
    pc: usize,
    after: FrameView,
    r: Result<usize, RuntimeError>,
) -> bool {
    match frame_step(i, before, globals) {
        Err(e) => r == Err::<usize, RuntimeError>(e) && after == before,
        Ok(effect) => if pc + effect.advance > usize::MAX {
            r == Err::<usize, RuntimeError>(RuntimeError::InvalidProgramCounter) && after == before
        } else {
            r == Ok::<usize, RuntimeError>((pc + effect.advance) as usize) && after == effect.frame
        },
    }
}

/// Carries out `Copy` on a frame.
pub(crate) fn eval_copy(frame: &mut StackFrame, pc: usize) -> (r: Result<usize, RuntimeError>)
    ensures
        frame_stepped(InstructionView::Copy, old(frame)@, Map::empty(), pc, final(frame)@, r),
{
    if frame.stack.len() < 1 {
        return Err(RuntimeError::EmptyStack);
    }
    let next = moved_on(pc, 1)?;
    let value = frame.stack[frame.stack.len() - 1].clone();
    proof {
        lemma_views_push(frame.stack@, value);
    }
    frame.stack.push(value);
    Ok(next)
}

/// Carries out `Swap` on a frame.
pub(crate) fn eval_swap(frame: &mut StackFrame, pc: usize) -> (r: Result<usize, RuntimeError>)
    ensures
        frame_stepped(InstructionView::Swap, old(frame)@, Map::empty(), pc, final(frame)@, r),
{
    if frame.stack.len() < 2 {
        return Err(RuntimeError::EmptyStack);
    }
    let next = moved_on(pc, 1)?;
    let ghost before = frame.stack@;
    let top = frame.stack.pop().unwrap();
    let below = frame.stack.pop().unwrap();
    frame.stack.push(top);
    frame.stack.push(below);
    proof {
        let n = before.len() as int;
        assert(frame.stack@ =~= before.take(n - 2).push(before[n - 1]).push(before[n - 2]));
        assert(views(frame.stack@) =~= views(before).take(n - 2).push(views(before)[n - 1]).push(
            views(before)[n - 2],
        ));
    }
    Ok(next)
}

/// Carries out `Pop` on a frame.
pub(crate) fn eval_pop(frame: &mut StackFrame, pc: usize) -> (r: Result<usize, RuntimeError>)
    ensures
        frame_stepped(InstructionView::Pop, old(frame)@, Map::empty(), pc, final(frame)@, r),
{
    if frame.stack.len() < 1 {
        return Err(RuntimeError::EmptyStack);
    }
    let next = moved_on(pc, 1)?;
    let ghost before = frame.stack@;
    frame.stack.pop();
    proof {
        assert(views(frame.stack@) =~= views(before).drop_last());
    }
    Ok(next)
}

/// Carries out `PushPrimitive` on a frame.
pub(crate) fn eval_push_primitive(frame: &mut StackFrame, pc: usize, c: &Primitive) -> (r: Result<
    usize,
    RuntimeError,
>)
    ensures
        frame_stepped(
            InstructionView::PushPrimitive(c@),
            old(frame)@,
            Map::empty(),
            pc,
            final(frame)@,
            r,
        ),
{
    let next = moved_on(pc, 1)?;
    let value = Value::Primitive(c.clone());
    proof {
        lemma_views_push(frame.stack@, value);
    }
    frame.stack.push(value);
    Ok(next)
}

/// Carries out `PopJumpIfTrue`, where `on` is set, or `PopJumpIfFalse` on a frame.
pub(crate) fn eval_pop_jump(frame: &mut StackFrame, pc: usize, on: bool, n: usize) -> (r: Result<
    usize,
    RuntimeError,
>)
    ensures
        frame_stepped(
            if on {
                InstructionView::PopJumpIfTrue(n)
            } else {
                InstructionView::PopJumpIfFalse(n)
            },
            old(frame)@,
            Map::empty(),
            pc,
            final(frame)@,
            r,
        ),
{
    if frame.stack.len() < 1 {
        return Err(RuntimeError::EmptyStack);
    }
    let holds = builtins::bool(&frame.stack[frame.stack.len() - 1]);
    let by = if holds == on {
        n
    } else {
        1
    };
    let next = moved_on(pc, by)?;
    let ghost before = frame.stack@;
    frame.stack.pop();
    proof {
        assert(views(frame.stack@) =~= views(before).drop_last());
    }
    Ok(next)
}

/// The name that a value gives, if the value is a string.
pub(crate) fn name_at(value: &Value) -> (r: Result<String, RuntimeError>)
    ensures
        match r {
            Ok(name) => name_of(value@) == Some(name@),
            Err(e) => e == RuntimeError::InvalidVariable && name_of(value@) is None,
        },
{
    match value {
        Value::Primitive(Primitive::String(s)) => Ok(s.clone()),
        _ => Err(RuntimeError::InvalidVariable),
    }
}

/// Carries out `StoreName` on a frame.
pub(crate) fn eval_store_name(frame: &mut StackFrame, pc: usize) -> (r: Result<usize, RuntimeError>)
    ensures
        frame_stepped(InstructionView::StoreName, old(frame)@, Map::empty(), pc, final(frame)@, r),
{
    let n = frame.stack.len();
    if n < 2 {
        return Err(RuntimeError::EmptyStack);
    }
    let name = name_at(&frame.stack[n - 2])?;
    let next = moved_on(pc, 1)?;
    let ghost before = frame.stack@;
    let value = frame.stack.pop().unwrap();
    frame.stack.pop();
    frame.locals.insert(name, value);
    proof {
        assert(views(frame.stack@) =~= views(before).take(n - 2));
    }
    Ok(next)
}

/// Carries out `StorePrimitive` on a frame.
pub(crate) fn eval_store_primitive(frame: &mut StackFrame, pc: usize, c: &Primitive) -> (r: Result<
    usize,
    RuntimeError,
>)
    ensures
        frame_stepped(
            InstructionView::StorePrimitive(c@),
            old(frame)@,
            Map::empty(),
            pc,
            final(frame)@,
            r,
        ),
{
    let n = frame.stack.len();
    if n < 1 {
        return Err(RuntimeError::EmptyStack);
    }
    let name = name_at(&frame.stack[n - 1])?;
    let next = moved_on(pc, 1)?;
    let ghost before = frame.stack@;
    frame.stack.pop();
    frame.locals.insert(name, Value::Primitive(c.clone()));
    proof {
        assert(views(frame.stack@) =~= views(before).drop_last());
    }
    Ok(next)
}

/// Carries out `PushName` on a frame.
pub(crate) fn eval_push_name(frame: &mut StackFrame, globals: &Vars, pc: usize) -> (r: Result<
    usize,
    RuntimeError,
>)
    ensures
        frame_stepped(InstructionView::PushName, old(frame)@, globals@, pc, final(frame)@, r),
{
    let n = frame.stack.len();
    if n < 1 {
        return Err(RuntimeError::EmptyStack);
    }
    let name = name_at(&frame.stack[n - 1])?;
    let value = match frame.locals.get(name.as_str()) {
        Some(v) => v.clone(),
        None => match globals.get(name.as_str()) {
            Some(v) => v.clone(),
            None => {
                return Err(RuntimeError::InvalidVariable);
            },
        },
    };
    let next = moved_on(pc, 1)?;
    let ghost before = frame.stack@;
    frame.stack.pop();
    proof {
        assert(views(frame.stack@) =~= views(before).drop_last());
        lemma_views_push(frame.stack@, value);
    }
    frame.stack.push(value);
    Ok(next)
}

/// Carries out `TableGet` on a frame.
pub(crate) fn eval_table_get(frame: &mut StackFrame, pc: usize) -> (r: Result<usize, RuntimeError>)
    ensures
        frame_stepped(InstructionView::TableGet, old(frame)@, Map::empty(), pc, final(frame)@, r),
{
    let n = frame.stack.len();
    if n < 1 {
        return Err(RuntimeError::EmptyStack);
    }
    let value = match &frame.stack[n - 1] {
        Value::Primitive(key) => {
            if n < 2 {
                return Err(RuntimeError::EmptyStack);
            }
            match &frame.stack[n - 2] {
                Value::Table(table) => match table.get(key) {
                    Some(v) => v.clone(),
                    None => Value::nil(),
                },
                _ => {
                    return Err(RuntimeError::InvalidVariable);
                },
            }
        },
        _ => {
            return Err(RuntimeError::InvalidTableKey);
        },
    };
    let next = moved_on(pc, 1)?;
    let ghost before = frame.stack@;
    frame.stack.pop();
    frame.stack.pop();
    proof {
        assert(views(frame.stack@) =~= views(before).take(n - 2));
        lemma_views_push(frame.stack@, value);
    }
    frame.stack.push(value);
    Ok(next)
}

/// Carries out `TableListBuild` on a frame.
pub(crate) fn eval_table_list_build(frame: &mut StackFrame, pc: usize, n: usize) -> (r: Result<
    usize,
    RuntimeError,
>)
    ensures
        frame_stepped(
            InstructionView::TableListBuild(n),
            old(frame)@,
            Map::empty(),
            pc,
            final(frame)@,
            r,
        ),
{
    let len = frame.stack.len();
    if len < n {
        return Err(RuntimeError::EmptyStack);
    }
    let next = moved_on(pc, 1)?;
    let ghost before = frame.stack@;
    let values = frame.stack.split_off(len - n);
    proof {
        assert(values@ =~= before.skip(len - n));
        assert(frame.stack@ =~= before.take(len - n));
        lemma_views_take(before, len - n);
    }
    let table = Value::Table(Table::from_vec(values));
    proof {
        lemma_views_push(frame.stack@, table);
    }
    frame.stack.push(table);
    Ok(next)
}

/// Carries out `TableMerge` on a frame.
pub(crate) fn eval_table_merge(frame: &mut StackFrame, pc: usize) -> (r: Result<
    usize,
    RuntimeError,
>)
    ensures
        frame_stepped(InstructionView::TableMerge, old(frame)@, Map::empty(), pc, final(frame)@, r),
{
    let n = frame.stack.len();
    if n < 1 {
        return Err(RuntimeError::EmptyStack);
    }
    if !frame.stack[n - 1].is_table() {
        return Err(RuntimeError::NotATable);
    }
    if n < 2 {
        return Err(RuntimeError::EmptyStack);
    }
    if !frame.stack[n - 2].is_table() {
        return Err(RuntimeError::NotATable);
    }
    let next = moved_on(pc, 1)?;
    let ghost before = frame.stack@;
    let upper = frame.stack.pop().unwrap().get_table().unwrap();
    let mut lower = frame.stack.pop().unwrap().get_table().unwrap();
    lower.merge(upper);
    let merged = Value::Table(lower);
    proof {
        assert(views(frame.stack@) =~= views(before).take(n - 2));
        lemma_views_push(frame.stack@, merged);
    }
    frame.stack.push(merged);
    Ok(next)
}

/// The table of the pairs of key and value that the values make, the keys
/// at the even places, bound from the first to the last.
pub(crate) fn dict_of(items: Vec<Value>) -> (t: Table)
    requires
        items.len() % 2 == 0,
        keys_valid(pairs_of(views(items@))),
    ensures
        t@ == dict_onto(Map::empty(), pairs_of(views(items@))),
{
    let ghost all = items@;
    let ghost total = items.len() as int;
    let mut items = items;
    let mut turned: Vec<Value> = Vec::new();
    while items.len() > 0
        invariant
            items.len() + turned.len() == total,
            all.len() == total,
            items@ == all.take(items.len() as int),
            forall|j: int| 0 <= j < turned.len() ==> (#[trigger] turned[j]) == all[total - 1 - j],
        decreases items.len(),
    {
        let ghost before = items@;
        let value = items.pop().unwrap();
        assert(items@ =~= all.take(items.len() as int));
        turned.push(value);
    }
    let mut table = Table::new();
    proof {
        assert(all.skip(0) =~= all);
    }
    while turned.len() > 0
        invariant
            all.len() == total,
            total % 2 == 0,
            turned.len() % 2 == 0,
            turned.len() <= total,
            keys_valid(pairs_of(views(all))),
            forall|j: int| 0 <= j < turned.len() ==> (#[trigger] turned[j]) == all[total - 1 - j],
            dict_onto(table@, pairs_of(views(all.skip(total - turned.len())))) == dict_onto(
                Map::empty(),
                pairs_of(views(all)),
            ),
        decreases turned.len(),
    {
        let ghost at = total - turned.len();
        let ghost rest = pairs_of(views(all.skip(at)));
        let key = turned.pop().unwrap();
        let value = turned.pop().unwrap();
        proof {
            assert(key == all[at] && value == all[at + 1]);
            assert(pairs_of(views(all))[at / 2] == (views(all)[at], views(all)[at + 1]));
            assert(rest[0] == (key@, value@));
            assert(pairs_of(views(all.skip(at + 2))) =~= rest.skip(1));
        }
        let key = key.get_primitive().unwrap();
        table.set(key, value);
    }
    proof {
        assert(all.skip(total) =~= Seq::<Value>::empty());
    }
    table
}

/// Carries out `TableDictBuild` on a frame.
pub(crate) fn eval_table_dict_build(frame: &mut StackFrame, pc: usize, n: usize) -> (r: Result<
    usize,
    RuntimeError,
>)
    ensures
        frame_stepped(
            InstructionView::TableDictBuild(n),
            old(frame)@,
            Map::empty(),
            pc,
            final(frame)@,
            r,
        ),
{
    let len = frame.stack.len();
    let held = if len / 2 < n {
        len / 2
    } else {
        n
    };
    let ghost top = pairs_of(views(frame.stack@).skip(len - 2 * held));
    let mut j: usize = 0;
    while j < held
        invariant
            *frame == *old(frame),
            len == frame.stack.len(),
            held == (if len / 2 < n {
                len / 2
            } else {
                n
            }),
            2 * held <= len,
            j <= held,
            top == pairs_of(views(frame.stack@).skip(len - 2 * held)),
            forall|i: int| 0 <= i < j ==> (#[trigger] top[i]).0 is Primitive,
        decreases held - j,
    {
        if !frame.stack[len - 2 * held + 2 * j].is_primitive() {
            proof {
                assert(top.len() == held);
                assert(!(top[j as int].0 is Primitive));
                assert(!keys_valid(top));
                assert(frame@.stack.len() == len);
            }
            return Err(RuntimeError::InvalidTableKey);
        }
        j += 1;
    }
    if len / 2 < n {
        return Err(RuntimeError::EmptyStack);
    }
    let next = moved_on(pc, 1)?;
    let ghost before = frame.stack@;
    let items = frame.stack.split_off(len - 2 * n);
    proof {
        assert(items@ =~= before.skip(len - 2 * n));
        assert(frame.stack@ =~= before.take(len - 2 * n));
        lemma_views_take(before, len - 2 * n);
    }
    let table = Value::Table(dict_of(items));
    proof {
        lemma_views_push(frame.stack@, table);
    }
    frame.stack.push(table);
    Ok(next)
}

/// Takes the argument under a key for the local of the given name, if
/// the argument is present.
pub(crate) fn take_present(
    args: &mut Table,
    locals: &mut Vars,
    name: &String,
    key: Primitive,
) -> (taken: bool)
    ensures
        taken == present(old(args)@, key@.key()),
        taken ==> binding(final(args)@, final(locals)@) == take_argument(
            binding(old(args)@, old(locals)@),
            name@,
            key@.key(),
        ),
        !taken ==> final(args)@ == old(args)@ && final(locals)@ == old(locals)@,
{
    let value = match args.get(&key) {
        Some(v) => {
            if v.is_nil() {
                return false;
            }
            v.clone()
        },
        None => {
            return false;
        },
    };
    args.set(key, Value::nil());
    locals.insert(name.clone(), value);
    true
}

/// Binds one parameter from the arguments.
pub(crate) fn bind_one(
    args: &mut Table,
    locals: &mut Vars,
    named: &Value,
    positional: &Value,
) -> (r: Result<(), RuntimeError>)
    ensures
        match bind_parameter(
            binding(old(args)@, old(locals)@),
            named@,
            positional@,
        ) {
            Err(e) => r == Err::<(), RuntimeError>(e),
            Ok(bound) => r == Ok::<(), RuntimeError>(()) && binding(
                final(args)@,
                final(locals)@,
            ) == bound,
        },
{
    let name = name_at(named)?;
    if take_present(args, locals, &name, Primitive::String(name.clone())) {
        return Ok(());
    }
    match positional {
        Value::Primitive(Primitive::Nil) => Err(RuntimeError::FunctionArgumentNotProvided),
        Value::Primitive(Primitive::Number(position)) => {
            if take_present(args, locals, &name, Primitive::Number(*position)) {
                Ok(())
            } else {
                Err(RuntimeError::FunctionArgumentNotProvided)
            }
        },
        _ => Err(RuntimeError::InvalidVariable),
    }
}

/// Carries out `StoreFunctionArgs` on a frame: binds the parameters on
/// copies of the arguments and the locals, and takes the locals over where
/// all of them are bound.
pub(crate) fn eval_store_function_args(
    frame: &mut StackFrame,
    pc: usize,
    with_self: bool,
    n: usize,
) -> (r: Result<usize, RuntimeError>)
    ensures
        frame_stepped(
            InstructionView::StoreFunctionArgs(with_self, n),
            old(frame)@,
            Map::empty(),
            pc,
            final(frame)@,
            r,
        ),
{
    let len = frame.stack.len();
    if len == 0 || (len - 1) / 2 < n {
        return Err(RuntimeError::EmptyStack);
    }
    let base = len - 2 * n - 1;
    let mut args = match &frame.stack[base] {
        Value::Table(table) => table.copy(),
        _ => {
            return Err(RuntimeError::InvalidVariable);
        },
    };
    let mut locals = frame.locals.copy();
    let ghost start = binding(args@, locals@);
    let ghost pairs = pairs_of(views(frame.stack@).skip(len - 2 * n));
    let mut i: usize = n;
    proof {
        assert(pairs.take(n as int) =~= pairs);
    }
    while i > 0
        invariant
            *frame == *old(frame),
            len == frame.stack.len(),
            2 * n + 1 <= len,
            base == len - 2 * n - 1,
            i <= n,
            pairs == pairs_of(views(frame.stack@).skip(len - 2 * n)),
            bind_parameters(binding(args@, locals@), pairs.take(i as int))
                == bind_parameters(start, pairs),
            start == binding(views(frame.stack@)[base as int]->Table_0, frame@.locals),
            views(frame.stack@)[base as int] is Table,
        decreases i,
    {
        i -= 1;
        proof {
            assert(pairs.len() == n);
            assert(pairs.take(i + 1).last() == pairs[i as int]);
            assert(pairs.take(i + 1).drop_last() =~= pairs.take(i as int));
            assert(pairs[i as int] == (
                views(frame.stack@)[base + 1 + 2 * i],
                views(frame.stack@)[base + 2 + 2 * i],
            ));
        }
        bind_one(
            &mut args,
            &mut locals,
            &frame.stack[base + 1 + 2 * i],
            &frame.stack[base + 2 + 2 * i],
        )?;
    }
    proof {
        assert(pairs.take(0) =~= Seq::<(ValueView, ValueView)>::empty());
    }
    if with_self {
        let name = String::from_str("self");
        if !take_present(&mut args, &mut locals, &name, Primitive::String(name.clone())) {
            return Err(RuntimeError::FunctionArgumentNotProvided);
        }
    }
    let next = moved_on(pc, 1)?;
    let ghost before = frame.stack@;
    frame.locals = locals;
    frame.stack.truncate(base);
    proof {
        assert(frame.stack@ =~= before.take(base as int));
        lemma_views_take(before, base as int);
    }
    Ok(next)
}

/// Carries out an operator with one operand on a frame.
pub(crate) fn eval_unary(frame: &mut StackFrame, pc: usize, op: UnaryOp) -> (r: Result<
    usize,
    RuntimeError,
>)
    requires
        op == UnaryOp::Not || old(frame).stack.len() < 1 || is_number(old(frame)@.stack.last()),
    ensures
        frame_stepped(
            InstructionView::UnaryOp(op),
            old(frame)@,
            Map::empty(),
            pc,
            final(frame)@,
            r,
        ),
{
    if frame.stack.len() < 1 {
        return Err(RuntimeError::EmptyStack);
    }
    let next = moved_on(pc, 1)?;
    let ghost before = frame.stack@;
    let operand = frame.stack.pop().unwrap();
    let value = match op {
        UnaryOp::Not => Value::Primitive(Primitive::Bool(!builtins::bool(&operand))),
        UnaryOp::Plus => operand,
        UnaryOp::Minus => match operand {
            Value::Primitive(Primitive::Number(n)) => Value::Primitive(
                Primitive::Number(n.negated()),
            ),
            other => other,
        },
    };
    proof {
        assert(views(frame.stack@) =~= views(before).drop_last());
        lemma_views_push(frame.stack@, value);
    }
    frame.stack.push(value);
    Ok(next)
}

/// Carries out an operator with two operands, other than one of
/// arithmetic, on a frame.
pub(crate) fn eval_binary(frame: &mut StackFrame, pc: usize, op: BinaryOp) -> (r: Result<
    usize,
    RuntimeError,
>)
    requires
        binary_implemented(op) || (compares(op) && (old(frame).stack.len() < 2 || (is_number(
            old(frame)@.stack.last(),
        ) && is_number(old(frame)@.stack[old(frame).stack.len() - 2])))),
    ensures
        frame_stepped(
            InstructionView::BinaryOp(op),
            old(frame)@,
            Map::empty(),
            pc,
            final(frame)@,
            r,
        ),
{
    let n = frame.stack.len();
    if n < 2 {
        return Err(RuntimeError::EmptyStack);
    }
    let next = moved_on(pc, 1)?;
    let ghost before = frame.stack@;
    let rhs = frame.stack.pop().unwrap();
    let lhs = frame.stack.pop().unwrap();
    let value = match op {
        BinaryOp::Eq => Value::Primitive(Primitive::Bool(lhs.equals(&rhs))),
        BinaryOp::Ne => Value::Primitive(Primitive::Bool(!lhs.equals(&rhs))),
        BinaryOp::And => if builtins::bool(&lhs) {
            rhs
        } else {
            lhs
        },
        BinaryOp::Or => if builtins::bool(&lhs) {
            lhs
        } else {
            rhs
        },
        BinaryOp::NilCoalesce => if lhs.is_nil() {
            rhs
        } else {
            lhs
        },
        _ => match (lhs, rhs) {
            (Value::Primitive(Primitive::Number(x)), Value::Primitive(Primitive::Number(y))) => {
                let holds = match op {
                    BinaryOp::Lt => x.less(&y),
                    BinaryOp::Lte => !y.less(&x),
                    BinaryOp::Gt => y.less(&x),
                    _ => !x.less(&y),
                };
                Value::Primitive(Primitive::Bool(holds))
            },
            (other, _) => other,
        },
    };
    proof {
        assert(views(frame.stack@) =~= views(before).take(n - 2));
        lemma_views_push(frame.stack@, value);
    }
    frame.stack.push(value);
    Ok(next)
}

/// Carries out `PushFunction` on a frame.
pub(crate) fn eval_push_function(frame: &mut StackFrame, pc: usize, address: usize) -> (r: Result<
    usize,
    RuntimeError,
>)
    ensures
        frame_stepped(
            InstructionView::PushFunction(address),
            old(frame)@,
            Map::empty(),
            pc,
            final(frame)@,
            r,
        ),
{
    let next = moved_on(pc, 1)?;
    let value = Value::FunctionPointer(address);
    proof {
        lemma_views_push(frame.stack@, value);
    }
    frame.stack.push(value);
    Ok(next)
}

} // verus!
