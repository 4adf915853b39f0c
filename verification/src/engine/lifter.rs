//! Lifting of decoded instructions to the intermediate representation.
//!
//! The lifter simulates the evaluation stack over the instruction stream:
//! values become expressions, and computations become operations on fresh
//! temporaries. Blocks are cut at jump targets and after control transfers.
use vstd::prelude::*;

use crate::analysis::types::{PrimitiveType, StructType, Type, TypeView};
use crate::common::config::{DecompilerConfig, DecompilerConfigView};
use crate::common::errors::LiftError;
use crate::common::opcode::{opcode_name, OpCode};
use crate::common::types::{
    BinaryOperator, BlockId, Instruction, InstructionView, Literal, LiteralView, Operand,
    OperandView, StackItemType, UnaryOperator, Variable, VariableType, VariableView,
};
use crate::engine::ir::{
    clone_expression, ops_view, ArrayOperation, BlockView, ExprView, Expression, IRBlock,
    IRFunction, MapOperation, OpView, Operation, StringOperation, TermView, Terminator,
};
use crate::engine::syscalls::{
    assoc, lemma_assoc_absent, lemma_assoc_found, resolved_name, spec_returns_value,
    SyscallDatabase, SyscallDatabaseView,
};
use crate::text::{dec, prefixed_decimal};

verus! {

/// The three slot families of the VM.
#[derive(Debug, Clone, Copy, PartialEq, Eq, Structural)]
pub enum SlotKind {
    Local,
    Argument,
    Static,
}

/// Model of the lifter's state.
pub struct LiftState {
    pub config: DecompilerConfigView,
    pub db: SyscallDatabaseView,
    /// Next variable id.
    pub counter: int,
    /// Simulated evaluation stack, top last.
    pub stack: Seq<ExprView>,
    pub alt_stack: Seq<ExprView>,
    /// Largest stack height seen.
    pub max_depth: int,
    pub locals: Map<u32, VariableView>,
    pub args: Map<u32, VariableView>,
    pub statics: Map<u32, VariableView>,
    /// Offset ranges `[start, end)` and the block each belongs to; later ranges win.
    pub spans: Seq<(u32, u32, BlockId)>,
    /// Offset of the instruction being lifted.
    pub offset: u32,
}

/// The models of a list of expressions, element by element.
pub open spec fn stack_view(s: Seq<Expression>) -> Seq<ExprView> {
    s.map_values(|e: Expression| e@)
}

/// Slot-to-variable entries with variables taken by their model.
pub open spec fn slot_entries(s: Seq<(u32, Variable)>) -> Seq<(u32, VariableView)> {
    s.map_values(|p: (u32, Variable)| (p.0, p.1@))
}

/// The larger of two integers.
pub open spec fn max_int(a: int, b: int) -> int {
    if a >= b { a } else { b }
}

/// The state with a new stack, its height counted toward the maximum.
pub open spec fn bump(s: LiftState, st: Seq<ExprView>) -> LiftState {
    LiftState { stack: st, max_depth: max_int(s.max_depth, st.len() as int), ..s }
}

/// The state with the stack replaced, the maximum unchanged.
pub open spec fn with_stack(s: LiftState, st: Seq<ExprView>) -> LiftState {
    LiftState { stack: st, ..s }
}

/// The state with the offset ranges replaced.
pub open spec fn with_spans(s: LiftState, spans: Seq<(u32, u32, BlockId)>) -> LiftState {
    LiftState { spans, ..s }
}

/// The state after a fresh variable id is taken.
pub open spec fn take_id(s: LiftState) -> LiftState {
    LiftState { counter: s.counter + 1, ..s }
}

/// The temporary with the given id: `temp_<id>`.
pub open spec fn temp_var(id: int) -> VariableView {
    VariableView { name: "temp_"@ + dec(id as nat), id: id as u32, var_type: VariableType::Temporary }
}

/// Name prefix of a slot family.
pub open spec fn slot_prefix(k: SlotKind) -> Seq<char> {
    match k {
        SlotKind::Local => "local_"@,
        SlotKind::Argument => "arg_"@,
        SlotKind::Static => "static_"@,
    }
}

/// Variable class of a slot family.
pub open spec fn slot_var_type(k: SlotKind) -> VariableType {
    match k {
        SlotKind::Local => VariableType::Local,
        SlotKind::Argument => VariableType::Parameter,
        SlotKind::Static => VariableType::Static,
    }
}

/// The variables of a slot family.
pub open spec fn slot_map(s: LiftState, k: SlotKind) -> Map<u32, VariableView> {
    match k {
        SlotKind::Local => s.locals,
        SlotKind::Argument => s.args,
        SlotKind::Static => s.statics,
    }
}

/// The state with the variables of a slot family replaced.
pub open spec fn with_slot_map(s: LiftState, k: SlotKind, m: Map<u32, VariableView>) -> LiftState {
    match k {
        SlotKind::Local => LiftState { locals: m, ..s },
        SlotKind::Argument => LiftState { args: m, ..s },
        SlotKind::Static => LiftState { statics: m, ..s },
    }
}

/// The variable of a slot: the known one, or a new one named after the slot
/// with the next id.
pub open spec fn slot_variable(s: LiftState, k: SlotKind, slot: u32) -> (LiftState, VariableView) {
    let m = slot_map(s, k);
    if m.contains_key(slot) {
        (s, m[slot])
    } else {
        let v = VariableView {
            name: slot_prefix(k) + dec(slot as nat),
            id: s.counter as u32,
            var_type: slot_var_type(k),
        };
        (with_slot_map(take_id(s), k, m.insert(slot, v)), v)
    }
}

/// The error of a missing stack item at the current instruction.
pub open spec fn underflow(s: LiftState) -> LiftError {
    LiftError::StackUnderflow { offset: s.offset }
}

/// IR lifter: converts instructions to intermediate representation.
pub struct IRLifter {
    pub config: DecompilerConfig,
    pub syscall_db: SyscallDatabase,
    /// Next variable id.
    pub var_counter: u32,
    /// Simulated evaluation stack, top last.
    pub stack: Vec<Expression>,
    /// Simulated alternative stack.
    pub alt_stack: Vec<Expression>,
    /// Largest stack height seen.
    pub max_stack_depth: usize,
    /// Local slot variables.
    pub variables: Vec<(u32, Variable)>,
    /// Argument slot variables.
    pub arguments: Vec<(u32, Variable)>,
    /// Static field variables.
    pub static_fields: Vec<(u32, Variable)>,
    /// Offset ranges `[start, end)` and their blocks; later ranges win.
    pub offset_to_block: Vec<(u32, u32, BlockId)>,
    /// Offset of the instruction being lifted.
    pub current_offset: u32,
}

impl IRLifter {
    /// The model of the lifter.
    pub open spec fn state(&self) -> LiftState {
        LiftState {
            config: self.config@,
            db: self.syscall_db@,
            counter: self.var_counter as int,
            stack: stack_view(self.stack@),
            alt_stack: stack_view(self.alt_stack@),
            max_depth: self.max_stack_depth as int,
            locals: assoc(slot_entries(self.variables@)),
            args: assoc(slot_entries(self.arguments@)),
            statics: assoc(slot_entries(self.static_fields@)),
            spans: self.offset_to_block@,
            offset: self.current_offset,
        }
    }

    /// Push a value, counting the new height toward the maximum.
    fn push_stack(&mut self, expr: Expression)
        ensures
            final(self).state() == bump(old(self).state(), old(self).state().stack.push(expr@)),
    {
        self.stack.push(expr);
        self.update_max_stack_depth();
        proof {
            assert(stack_view(self.stack@) =~= old(self).state().stack.push(expr@));
        }
    }

    /// Pop the top value; an empty stack is an underflow at the current offset.
    pub fn pop_stack(&mut self) -> (r: Result<Expression, LiftError>)
        ensures
            old(self).stack@.len() == 0 ==> r == Err::<Expression, LiftError>(underflow(old(self).state()))
                && final(self).state() == old(self).state(),
            old(self).stack@.len() > 0 ==> (r matches Ok(e) && e@ == old(self).state().stack.last())
                && final(self).state() == with_stack(old(self).state(), old(self).state().stack.drop_last()),
    {
        match self.stack.pop() {
            Some(e) => {
                proof {
                    assert(stack_view(self.stack@) =~= old(self).state().stack.drop_last());
                }
                Ok(e)
            },
            None => Err(LiftError::StackUnderflow { offset: self.current_offset }),
        }
    }

    /// A copy of the item `depth` places below the top.
    fn peek_stack(&self, depth: usize) -> (r: Result<Expression, LiftError>)
        ensures
            depth >= self.stack@.len() ==> r == Err::<Expression, LiftError>(underflow(self.state())),
            depth < self.stack@.len() ==> (r matches Ok(e) && e@ == self.state().stack[self.stack@.len() - 1 - depth]),
    {
        let stack_len = self.stack.len();
        if depth >= stack_len {
            return Err(LiftError::StackUnderflow { offset: self.current_offset });
        }
        Ok(clone_expression(&self.stack[stack_len - 1 - depth]))
    }

    /// Count the current height toward the maximum.
    fn update_max_stack_depth(&mut self)
        ensures
            final(self).state() == bump(old(self).state(), old(self).state().stack),
    {
        if self.stack.len() > self.max_stack_depth {
            self.max_stack_depth = self.stack.len();
        }
    }

    /// Fail with an underflow unless the stack holds at least `required` items.
    fn validate_stack_depth(&self, required: usize) -> (r: Result<(), LiftError>)
        ensures
            r == (if self.stack@.len() < required {
                Err::<(), LiftError>(underflow(self.state()))
            } else {
                Ok(())
            }),
    {
        if self.stack.len() < required {
            Err(LiftError::StackUnderflow { offset: self.current_offset })
        } else {
            Ok(())
        }
    }

    /// A fresh temporary `temp_<id>`; the type is not recorded.
    pub fn create_temp_variable(&mut self, var_type: Type) -> (r: Variable)
        requires
            old(self).var_counter < u32::MAX,
        ensures
            r@ == temp_var(old(self).state().counter),
            final(self).state() == take_id(old(self).state()),
    {
        let id = self.var_counter;
        self.var_counter = self.var_counter + 1;
        Variable { name: prefixed_decimal("temp_", id as u64), id, var_type: VariableType::Temporary }
    }
}

/// Look up a slot's variable, or create it with the next id.
fn slot_lookup_or_insert(
    list: &mut Vec<(u32, Variable)>,
    counter: &mut u32,
    slot: u32,
    prefix: &str,
    var_type: VariableType,
) -> (r: Variable)
    requires
        *old(counter) < u32::MAX,
    ensures
        assoc(slot_entries(old(list)@)).contains_key(slot) ==> r@ == assoc(slot_entries(old(list)@))[slot]
            && final(list)@ == old(list)@ && *final(counter) == *old(counter),
        !assoc(slot_entries(old(list)@)).contains_key(slot) ==> r@ == (VariableView {
            name: prefix@ + dec(slot as nat),
            id: *old(counter),
            var_type,
        }) && *final(counter) == *old(counter) + 1 && assoc(slot_entries(final(list)@)) == assoc(
            slot_entries(old(list)@),
        ).insert(slot, r@),
{
    let ghost es = slot_entries(list@);
    let mut i = list.len();
    while i > 0
        invariant
            es == slot_entries(list@),
            i <= list@.len(),
            forall|j: int| i <= j < list@.len() ==> list@[j].0 != slot,
        decreases i,
    {
        i = i - 1;
        if list[i].0 == slot {
            proof {
                lemma_assoc_found(es, i as int);
            }
            return list[i].1.clone_variable();
        }
    }
    proof {
        lemma_assoc_absent(es, slot);
    }
    let id = *counter;
    *counter = id + 1;
    let var = Variable { name: prefixed_decimal(prefix, slot as u64), id, var_type };
    let copy = var.clone_variable();
    list.push((slot, var));
    proof {
        assert(slot_entries(list@) =~= es.push((slot, copy@)));
        assert(es.push((slot, copy@)).drop_last() =~= es);
    }
    copy
}

impl IRLifter {
    /// Get or create the variable of a local slot.
    fn get_or_create_local(&mut self, slot: u32) -> (r: Variable)
        requires
            old(self).var_counter < u32::MAX,
        ensures
            (final(self).state(), r@) == slot_variable(old(self).state(), SlotKind::Local, slot),
    {
        let r = slot_lookup_or_insert(&mut self.variables, &mut self.var_counter, slot, "local_", VariableType::Local);
        proof {
            reveal_strlit("local_");
        }
        r
    }

    /// Get or create the variable of an argument slot.
    fn get_or_create_arg(&mut self, slot: u32) -> (r: Variable)
        requires
            old(self).var_counter < u32::MAX,
        ensures
            (final(self).state(), r@) == slot_variable(old(self).state(), SlotKind::Argument, slot),
    {
        let r = slot_lookup_or_insert(&mut self.arguments, &mut self.var_counter, slot, "arg_", VariableType::Parameter);
        proof {
            reveal_strlit("arg_");
        }
        r
    }

    /// Get or create the variable of a static field slot.
    fn get_or_create_static(&mut self, slot: u32) -> (r: Variable)
        requires
            old(self).var_counter < u32::MAX,
        ensures
            (final(self).state(), r@) == slot_variable(old(self).state(), SlotKind::Static, slot),
    {
        let r = slot_lookup_or_insert(&mut self.static_fields, &mut self.var_counter, slot, "static_", VariableType::Static);
        proof {
            reveal_strlit("static_");
        }
        r
    }
}


/// Built-in functions that opcodes lift to.
#[derive(Debug, Clone, Copy, PartialEq, Eq, Structural)]
pub enum BuiltinFn {
    Min,
    Max,
    Within,
}

/// Name of a built-in function.
pub open spec fn builtin_name(f: BuiltinFn) -> Seq<char> {
    match f {
        BuiltinFn::Min => "min"@,
        BuiltinFn::Max => "max"@,
        BuiltinFn::Within => "within"@,
    }
}

/// Number of arguments of a built-in function.
pub open spec fn builtin_arity(f: BuiltinFn) -> nat {
    match f {
        BuiltinFn::Min => 2,
        BuiltinFn::Max => 2,
        BuiltinFn::Within => 3,
    }
}

/// How the lifter treats an instruction.
#[derive(Debug, Clone, Copy, PartialEq, Eq, Structural)]
pub enum LiftKind {
    /// Ends a block; handled by the terminator.
    Control,
    PushConst,
    PushInt(i64),
    PushBool(bool),
    PushNull,
    PushData,
    PushAddress,
    Nop,
    Depth,
    Drop,
    Nip,
    XDrop,
    Clear,
    Dup,
    Over,
    Pick,
    Tuck,
    Swap,
    Rot,
    Roll,
    Reverse3,
    Reverse4,
    ReverseN,
    Binary(BinaryOperator),
    Shift(bool),
    Unary(UnaryOperator),
    Increment(i64),
    NotZero,
    Builtin(BuiltinFn),
    Load(SlotKind, u32),
    LoadOperand(SlotKind),
    StoreOperand(SlotKind),
    InitSlot,
    InitStaticSlot,
    NewArray0,
    NewArray,
    NewStruct0,
    NewStruct,
    NewMap,
    NewBuffer,
    Append,
    SetItem,
    PickItem,
    Remove,
    Size,
    ClearItems,
    HasKey,
    Keys,
    Values,
    Concat,
    Substr,
    Left,
    Right,
    Pack,
    Unpack,
    IsNull,
    IsType,
    Convert,
    Syscall,
    Assert(bool),
    /// Recorded as a comment.
    Unhandled,
}

/// The outcome of lifting one instruction: the next state and the operations, or an error.
pub type Step = Result<(LiftState, Seq<OpView>), LiftError>;

/// A variable used as an expression.
pub open spec fn var_expr(v: VariableView) -> ExprView {
    ExprView::Variable(v)
}

/// An integer literal expression.
pub open spec fn int_lit(v: i64) -> ExprView {
    ExprView::Literal(LiteralView::Integer(v))
}

/// The null literal expression.
pub open spec fn null_lit() -> ExprView {
    ExprView::Literal(LiteralView::Null)
}

/// `count` zero bytes.
pub open spec fn zeros(count: nat) -> Seq<u8> {
    Seq::new(count, |i: int| 0u8)
}

/// The type a stack item type tag converts or tests to.
pub open spec fn item_type_view(t: StackItemType) -> TypeView {
    match t {
        StackItemType::Boolean => TypeView::Primitive(PrimitiveType::Boolean),
        StackItemType::Integer => TypeView::Primitive(PrimitiveType::Integer),
        StackItemType::ByteString => TypeView::Primitive(PrimitiveType::ByteString),
        StackItemType::Buffer => TypeView::Buffer,
        StackItemType::Array => TypeView::Array(Box::new(TypeView::Unknown)),
        StackItemType::Struct => TypeView::Struct { name: None, fields: Seq::empty(), is_packed: false },
        StackItemType::MapItem => TypeView::Mapping {
            key: Box::new(TypeView::Unknown),
            value: Box::new(TypeView::Unknown),
        },
        StackItemType::InteropInterface => TypeView::InteropInterface("Unknown"@),
        StackItemType::Pointer => TypeView::Pointer(Box::new(TypeView::Unknown)),
        StackItemType::Any => TypeView::Unknown,
    }
}

/// Pop `n` items, then push a fresh temporary holding the result of `op`.
pub open spec fn temp_result(s: LiftState, n: int, op: OpView) -> LiftState {
    bump(take_id(s), s.stack.take(s.stack.len() - n).push(var_expr(temp_var(s.counter))))
}

/// Lift an instruction that pops `n` items into an operation writing a fresh temporary,
/// which is then pushed.
pub open spec fn temp_step(s: LiftState, n: int, op: OpView) -> Step {
    if s.stack.len() < n {
        Err(underflow(s))
    } else {
        Ok((temp_result(s, n, op), seq![op]))
    }
}

/// Lift an instruction that pops `n` items into an operation with no result.
pub open spec fn sink_step(s: LiftState, n: int, op: OpView) -> Step {
    if s.stack.len() < n {
        Err(underflow(s))
    } else {
        Ok((with_stack(s, s.stack.take(s.stack.len() - n)), seq![op]))
    }
}

/// Replace the top `n` items by `pushed`, with no operation.
pub open spec fn shuffle_step(s: LiftState, n: int, pushed: Seq<ExprView>) -> Step {
    if s.stack.len() < n {
        Err(underflow(s))
    } else {
        Ok((bump(s, s.stack.take(s.stack.len() - n) + pushed), seq![]))
    }
}

/// Push one value, with no operation.
pub open spec fn push_step(s: LiftState, e: ExprView) -> Step {
    Ok((bump(s, s.stack.push(e)), seq![]))
}

/// The item `k` places below the top.
pub open spec fn below(s: LiftState, k: int) -> ExprView {
    s.stack[s.stack.len() - 1 - k]
}

/// The comment recorded for an opcode without a lifting.
pub open spec fn unhandled_comment(op: OpCode, offset: u32) -> Seq<char> {
    "Unhandled opcode: "@ + opcode_name(op) + " at offset "@ + dec(offset as nat)
}

/// The comment recorded for `INITSLOT`.
pub open spec fn init_slot_comment(locals: u8, statics: u8) -> Seq<char> {
    "Initialize "@ + dec(locals as nat) + " local slots, "@ + dec(statics as nat) + " static slots"@
}

/// The comment recorded for `INITSSLOT`.
pub open spec fn init_static_comment(statics: u8) -> Seq<char> {
    "Initialize "@ + dec(statics as nat) + " static slots"@
}

/// The placeholder argument `arg_<i>` with id `id`.
pub open spec fn placeholder_arg(i: nat, id: int) -> VariableView {
    VariableView { name: "arg_"@ + dec(i), id: id as u32, var_type: VariableType::Parameter }
}

/// Target of a relative jump operand from an instruction at `offset`.
pub open spec fn rel_target(offset: u32, delta: i32) -> u32 {
    ((offset as i32) + delta) as u32
}

/// The relative operand of an instruction fits the address arithmetic.
pub open spec fn rel_in_range(ins: InstructionView) -> bool {
    ins.offset <= i32::MAX && match ins.operand {
        Some(OperandView::JumpTarget(t)) => i32::MIN <= ins.offset + t <= i32::MAX,
        Some(OperandView::JumpTarget8(t)) => i32::MIN <= ins.offset + t <= i32::MAX,
        Some(OperandView::JumpTarget32(t)) => i32::MIN <= ins.offset + t <= i32::MAX,
        _ => true,
    }
}

/// Lift a load of a slot variable.
pub open spec fn load_step(s: LiftState, k: SlotKind, slot: u32) -> Step {
    let (s1, v) = slot_variable(s, k, slot);
    Ok((bump(s1, s1.stack.push(var_expr(v))), seq![]))
}

/// Lift a store to a slot variable.
pub open spec fn store_step(s: LiftState, k: SlotKind, slot: u32) -> Step {
    if s.stack.len() < 1 {
        Err(underflow(s))
    } else {
        let (s1, v) = slot_variable(with_stack(s, s.stack.drop_last()), k, slot);
        Ok((s1, seq![OpView::Assign { target: v, source: below(s, 0) }]))
    }
}

/// Lift `SYSCALL` with the given hash.
pub open spec fn syscall_hash_step(s: LiftState, hash: u32) -> Step {
    let n: int = if s.db.by_hash.contains_key(hash) { s.db.by_hash[hash].parameters.len() as int } else { 0 };
    if s.stack.len() < n {
        Err(underflow(s))
    } else {
        let base = s.stack.take(s.stack.len() - n);
        let arguments = s.stack.skip(s.stack.len() - n);
        if spec_returns_value(s.db, hash) {
            let t = temp_var(s.counter);
            Ok((
                bump(take_id(s), base.push(var_expr(t))),
                seq![OpView::Syscall { name: resolved_name(s.db, hash), arguments, return_type: Some(TypeView::Unknown), target: Some(t) }],
            ))
        } else {
            Ok((
                with_stack(s, base),
                seq![OpView::Syscall { name: resolved_name(s.db, hash), arguments, return_type: Some(TypeView::Unknown), target: None }],
            ))
        }
    }
}

/// Lift `INITSLOT`: on an empty stack, four placeholder arguments are pushed first.
pub open spec fn init_slots_step(s: LiftState, locals: u8, statics: u8) -> Step {
    let c = OpView::Comment(init_slot_comment(locals, statics));
    if s.stack.len() == 0 {
        let st = seq![
            var_expr(placeholder_arg(0, s.counter)),
            var_expr(placeholder_arg(1, s.counter + 1)),
            var_expr(placeholder_arg(2, s.counter + 2)),
            var_expr(placeholder_arg(3, s.counter + 3)),
        ];
        Ok((bump(LiftState { counter: s.counter + 4, ..s }, st), seq![c]))
    } else {
        Ok((s, seq![c]))
    }
}

/// Lift `Control`.
pub open spec fn control_step(s: LiftState) -> Step {
    Ok((s, seq![]))
}

/// Lift `PushInt`.
pub open spec fn push_int_step(s: LiftState, v: i64) -> Step {
    push_step(s, int_lit(v))
}

/// Lift `PushBool`.
pub open spec fn push_bool_step(s: LiftState, b: bool) -> Step {
    push_step(s, ExprView::Literal(LiteralView::Boolean(b)))
}

/// Lift `PushNull`.
pub open spec fn push_null_step(s: LiftState) -> Step {
    push_step(s, null_lit())
}

/// Lift `Nop`.
pub open spec fn nop_step(s: LiftState) -> Step {
    Ok((s, seq![OpView::Comment("NOP"@)]))
}

/// Lift `Depth`.
pub open spec fn depth_step(s: LiftState) -> Step {
    push_step(s, int_lit(s.stack.len() as i64))
}

/// Lift `Drop`.
pub open spec fn drop_step(s: LiftState) -> Step {
    if s.stack.len() < 1 {
        Err(underflow(s))
    } else {
        Ok((with_stack(s, s.stack.drop_last()), seq![]))
    }
}

/// Lift `Nip`.
pub open spec fn nip_step(s: LiftState) -> Step {
    shuffle_step(s, 2, seq![below(s, 0)])
}

/// Lift `Clear`.
pub open spec fn clear_step(s: LiftState) -> Step {
    Ok((with_stack(s, seq![]), seq![]))
}

/// Lift `Dup`.
pub open spec fn dup_step(s: LiftState) -> Step {
    shuffle_step(s, 1, seq![below(s, 0), below(s, 0)])
}

/// Lift `Over`.
pub open spec fn over_step(s: LiftState) -> Step {
    shuffle_step(s, 2, seq![below(s, 1), below(s, 0), below(s, 1)])
}

/// Lift `Tuck`.
pub open spec fn tuck_step(s: LiftState) -> Step {
    shuffle_step(s, 2, seq![below(s, 0), below(s, 1), below(s, 0)])
}

/// Lift `Swap`.
pub open spec fn swap_step(s: LiftState) -> Step {
    shuffle_step(s, 2, seq![below(s, 0), below(s, 1)])
}

/// Lift `Rot`.
pub open spec fn rot_step(s: LiftState) -> Step {
    shuffle_step(s, 3, seq![below(s, 1), below(s, 0), below(s, 2)])
}

/// Lift `Reverse3`.
pub open spec fn reverse3_step(s: LiftState) -> Step {
    shuffle_step(s, 3, seq![below(s, 0), below(s, 1), below(s, 2)])
}

/// Lift `Reverse4`.
pub open spec fn reverse4_step(s: LiftState) -> Step {
    shuffle_step(s, 4, seq![below(s, 0), below(s, 1), below(s, 2), below(s, 3)])
}

/// Lift `Binary`.
pub open spec fn binary_step(s: LiftState, op: BinaryOperator) -> Step {
    let t = temp_var(s.counter);
    temp_step(
        s,
        2,
        OpView::Arithmetic { operator: op, left: below(s, 1), right: below(s, 0), target: t },
    )
}

/// Lift `Shift`.
pub open spec fn shift_step(s: LiftState, left_shift: bool) -> Step {
    let t = temp_var(s.counter);
    temp_step(
        s,
        2,
        OpView::Arithmetic {
            operator: if left_shift { BinaryOperator::ShiftLeft } else { BinaryOperator::ShiftRight },
            left: below(s, 1),
            right: below(s, 0),
            target: t,
        },
    )
}

/// Lift `Unary`.
pub open spec fn unary_step(s: LiftState, op: UnaryOperator) -> Step {
    let t = temp_var(s.counter);
    temp_step(s, 1, OpView::Unary { operator: op, operand: below(s, 0), target: t })
}

/// Lift `Increment`.
pub open spec fn increment_step(s: LiftState, delta: i64) -> Step {
    let t = temp_var(s.counter);
    temp_step(
        s,
        1,
        OpView::Arithmetic {
            operator: if delta > 0 { BinaryOperator::Add } else { BinaryOperator::Sub },
            left: below(s, 0),
            right: int_lit(delta),
            target: t,
        },
    )
}

/// Lift `NotZero`.
pub open spec fn not_zero_step(s: LiftState) -> Step {
    let t = temp_var(s.counter);
    temp_step(
        s,
        1,
        OpView::Arithmetic { operator: BinaryOperator::NotEqual, left: below(s, 0), right: int_lit(0), target: t },
    )
}

/// Lift `Builtin`.
pub open spec fn builtin_step(s: LiftState, f: BuiltinFn) -> Step {
    let t = temp_var(s.counter);
    temp_step(
        s,
        builtin_arity(f) as int,
        OpView::BuiltinCall {
            name: builtin_name(f),
            arguments: s.stack.skip(s.stack.len() - builtin_arity(f)),
            target: Some(t),
        },
    )
}

/// Lift `NewArray0`.
pub open spec fn new_array0_step(s: LiftState) -> Step {
    push_step(
        s,
        ExprView::ArrayCreate { element_type: TypeView::Unknown, size: Box::new(int_lit(0)) },
    )
}

/// Lift `NewArray`.
pub open spec fn new_array_step(s: LiftState) -> Step {
    shuffle_step(
        s,
        1,
        seq![ExprView::ArrayCreate { element_type: TypeView::Unknown, size: Box::new(below(s, 0)) }],
    )
}

/// Lift `NewStruct0`.
pub open spec fn new_struct0_step(s: LiftState) -> Step {
    push_step(s, ExprView::StructCreate { fields: seq![] })
}

/// Lift `NewStruct`.
pub open spec fn new_struct_step(s: LiftState) -> Step {
    shuffle_step(s, 1, seq![ExprView::StructCreate { fields: seq![] }])
}

/// Lift `NewMap`.
pub open spec fn new_map_step(s: LiftState) -> Step {
    push_step(s, ExprView::MapCreate { entries: seq![] })
}

/// Lift `Append`.
pub open spec fn append_step(s: LiftState) -> Step {
    let t = temp_var(s.counter);
    temp_step(
        s,
        2,
        OpView::ArrayOp {
            operation: ArrayOperation::Append,
            array: below(s, 1),
            index: None,
            value: Some(below(s, 0)),
            target: Some(t),
        },
    )
}

/// Lift `SetItem`.
pub open spec fn set_item_step(s: LiftState) -> Step {
    sink_step(
        s,
        3,
        OpView::ArrayOp {
            operation: ArrayOperation::SetItem,
            array: below(s, 2),
            index: Some(below(s, 1)),
            value: Some(below(s, 0)),
            target: None,
        },
    )
}

/// Lift `PickItem`.
pub open spec fn pick_item_step(s: LiftState) -> Step {
    let t = temp_var(s.counter);
    temp_step(
        s,
        2,
        OpView::ArrayOp {
            operation: ArrayOperation::GetItem,
            array: below(s, 1),
            index: Some(below(s, 0)),
            value: None,
            target: Some(t),
        },
    )
}

/// Lift `Remove`.
pub open spec fn remove_step(s: LiftState) -> Step {
    sink_step(
        s,
        2,
        OpView::ArrayOp {
            operation: ArrayOperation::Remove,
            array: below(s, 1),
            index: Some(below(s, 0)),
            value: None,
            target: None,
        },
    )
}

/// Lift `Size`.
pub open spec fn size_step(s: LiftState) -> Step {
    let t = temp_var(s.counter);
    temp_step(
        s,
        1,
        OpView::ArrayOp { operation: ArrayOperation::Size, array: below(s, 0), index: None, value: None, target: Some(t) },
    )
}

/// Lift `ClearItems`.
pub open spec fn clear_items_step(s: LiftState) -> Step {
    sink_step(
        s,
        1,
        OpView::ArrayOp { operation: ArrayOperation::Clear, array: below(s, 0), index: None, value: None, target: None },
    )
}

/// Lift `HasKey`.
pub open spec fn has_key_step(s: LiftState) -> Step {
    let t = temp_var(s.counter);
    temp_step(
        s,
        2,
        OpView::MapOp { operation: MapOperation::HasKey, map: below(s, 1), key: below(s, 0), value: None, target: Some(t) },
    )
}

/// Lift `Keys`.
pub open spec fn keys_step(s: LiftState) -> Step {
    let t = temp_var(s.counter);
    temp_step(
        s,
        1,
        OpView::MapOp { operation: MapOperation::Keys, map: below(s, 0), key: null_lit(), value: None, target: Some(t) },
    )
}

/// Lift `Values`.
pub open spec fn values_step(s: LiftState) -> Step {
    let t = temp_var(s.counter);
    temp_step(
        s,
        1,
        OpView::MapOp { operation: MapOperation::Values, map: below(s, 0), key: null_lit(), value: None, target: Some(t) },
    )
}

/// Lift `Concat`.
pub open spec fn concat_step(s: LiftState) -> Step {
    let t = temp_var(s.counter);
    temp_step(
        s,
        2,
        OpView::StringOp { operation: StringOperation::Concat, operands: seq![below(s, 1), below(s, 0)], target: t },
    )
}

/// Lift `Substr`.
pub open spec fn substr_step(s: LiftState) -> Step {
    let t = temp_var(s.counter);
    temp_step(
        s,
        3,
        OpView::StringOp {
            operation: StringOperation::Substring,
            operands: seq![below(s, 2), below(s, 1), below(s, 0)],
            target: t,
        },
    )
}

/// Lift `Left`.
pub open spec fn left_step(s: LiftState) -> Step {
    let t = temp_var(s.counter);
    temp_step(
        s,
        2,
        OpView::StringOp { operation: StringOperation::Left, operands: seq![below(s, 1), below(s, 0)], target: t },
    )
}

/// Lift `Right`.
pub open spec fn right_step(s: LiftState) -> Step {
    let t = temp_var(s.counter);
    temp_step(
        s,
        2,
        OpView::StringOp { operation: StringOperation::Right, operands: seq![below(s, 1), below(s, 0)], target: t },
    )
}

/// Lift `Unpack`.
pub open spec fn unpack_step(s: LiftState) -> Step {
    shuffle_step(s, 1, seq![below(s, 0)])
}

/// Lift `IsNull`.
pub open spec fn is_null_step(s: LiftState) -> Step {
    let t = temp_var(s.counter);
    temp_step(
        s,
        1,
        OpView::TypeCheck { value: below(s, 0), target_type: TypeView::Primitive(PrimitiveType::Null), target: t },
    )
}

/// Lift `Assert`.
pub open spec fn assert_step(s: LiftState, with_message: bool) -> Step {
    if with_message {
        sink_step(s, 2, OpView::Assert { condition: below(s, 1), message: Some(below(s, 0)) })
    } else {
        sink_step(s, 1, OpView::Assert { condition: below(s, 0), message: None })
    }
}

/// Lift `PushConst`.
pub open spec fn push_const_step(s: LiftState, ins: InstructionView) -> Step {
    let bad_operand = Err(LiftError::InvalidOperand { offset: ins.offset });
    match ins.operand {
        Some(OperandView::Integer(v)) => push_step(s, int_lit(v)),
        Some(OperandView::BigInteger(b)) => push_step(s, ExprView::Literal(LiteralView::ByteArray(b))),
        _ => bad_operand,
    }
}

/// Lift `PushData`.
pub open spec fn push_data_step(s: LiftState, ins: InstructionView) -> Step {
    match ins.operand {
        Some(OperandView::Bytes(b)) => push_step(s, ExprView::Literal(LiteralView::ByteArray(b))),
        _ => Ok((s, seq![])),
    }
}

/// Lift `PushAddress`.
pub open spec fn push_address_step(s: LiftState, ins: InstructionView) -> Step {
    match ins.operand {
        Some(OperandView::JumpTarget32(d)) => push_step(s, int_lit(rel_target(ins.offset, d) as i64)),
        _ => Ok((s, seq![])),
    }
}

/// Lift `XDrop`.
pub open spec fn xdrop_step(s: LiftState, ins: InstructionView) -> Step {
    match ins.operand {
        Some(OperandView::Count(n)) => if s.stack.len() < n {
            Err(underflow(s))
        } else {
            Ok((with_stack(s, s.stack.take(s.stack.len() - n)), seq![]))
        },
        _ => Ok((s, seq![])),
    }
}

/// Lift `Pick`.
pub open spec fn pick_step(s: LiftState, ins: InstructionView) -> Step {
    match ins.operand {
        Some(OperandView::Count(n)) => if s.stack.len() <= n {
            Err(underflow(s))
        } else {
            push_step(s, below(s, n as int))
        },
        _ => Ok((s, seq![])),
    }
}

/// Lift `Roll`.
pub open spec fn roll_step(s: LiftState, ins: InstructionView) -> Step {
    match ins.operand {
        Some(OperandView::Count(n)) => if n > 0 {
            shuffle_step(
                s,
                n + 1,
                s.stack.skip(s.stack.len() - n).push(below(s, n as int)),
            )
        } else {
            Ok((s, seq![]))
        },
        _ => Ok((s, seq![])),
    }
}

/// Lift `ReverseN`.
pub open spec fn reverse_n_step(s: LiftState, ins: InstructionView) -> Step {
    match ins.operand {
        Some(OperandView::Count(n)) => if n > 0 {
            shuffle_step(s, n as int, s.stack.skip(s.stack.len() - n).reverse())
        } else {
            Ok((s, seq![]))
        },
        _ => Ok((s, seq![])),
    }
}

/// Lift `LoadOperand`.
pub open spec fn load_operand_step(s: LiftState, ins: InstructionView, k: SlotKind) -> Step {
    let bad_operand = Err(LiftError::InvalidOperand { offset: ins.offset });
    match ins.operand {
        Some(OperandView::SlotIndex(i)) => load_step(s, k, i as u32),
        _ => bad_operand,
    }
}

/// Lift `StoreOperand`.
pub open spec fn store_operand_step(s: LiftState, ins: InstructionView, k: SlotKind) -> Step {
    let bad_operand = Err(LiftError::InvalidOperand { offset: ins.offset });
    match ins.operand {
        Some(OperandView::SlotIndex(i)) => store_step(s, k, i as u32),
        _ => bad_operand,
    }
}

/// Lift `InitSlot`.
pub open spec fn init_slot_step(s: LiftState, ins: InstructionView) -> Step {
    match ins.operand {
        Some(OperandView::SlotInit { local_slots, static_slots }) => init_slots_step(s, local_slots, static_slots),
        _ => Ok((s, seq![])),
    }
}

/// Lift `InitStaticSlot`.
pub open spec fn init_static_slot_step(s: LiftState, ins: InstructionView) -> Step {
    match ins.operand {
        Some(OperandView::SlotInit { local_slots, static_slots }) => Ok(
            (s, seq![OpView::Comment(init_static_comment(static_slots))]),
        ),
        _ => Ok((s, seq![])),
    }
}

/// Lift `NewBuffer`.
pub open spec fn new_buffer_step(s: LiftState, ins: InstructionView) -> Step {
    match ins.operand {
        Some(OperandView::BufferSize(n)) => push_step(s, ExprView::Literal(LiteralView::ByteArray(zeros(n as nat)))),
        _ => Ok((s, seq![])),
    }
}

/// Lift `Pack`.
pub open spec fn pack_step(s: LiftState, ins: InstructionView) -> Step {
    match ins.operand {
        Some(OperandView::Count(n)) => shuffle_step(
            s,
            n as int,
            seq![ExprView::ArrayCreate { element_type: TypeView::Unknown, size: Box::new(int_lit(n as i64)) }],
        ),
        _ => Ok((s, seq![])),
    }
}

/// Lift `IsType`.
pub open spec fn is_type_step(s: LiftState, ins: InstructionView) -> Step {
    let t = temp_var(s.counter);
    let bad_operand = Err(LiftError::InvalidOperand { offset: ins.offset });
    match ins.operand {
        Some(OperandView::StackItemType(it)) => temp_step(
            s,
            1,
            OpView::TypeCheck { value: below(s, 0), target_type: item_type_view(it), target: t },
        ),
        _ => bad_operand,
    }
}

/// Lift `Convert`.
pub open spec fn convert_step(s: LiftState, ins: InstructionView) -> Step {
    let t = temp_var(s.counter);
    let bad_operand = Err(LiftError::InvalidOperand { offset: ins.offset });
    match ins.operand {
        Some(OperandView::StackItemType(it)) => temp_step(
            s,
            1,
            OpView::Convert { source: below(s, 0), target_type: item_type_view(it), target: t },
        ),
        _ => bad_operand,
    }
}

/// Lift `Syscall`.
pub open spec fn syscall_step(s: LiftState, ins: InstructionView) -> Step {
    let bad_operand = Err(LiftError::InvalidOperand { offset: ins.offset });
    match ins.operand {
        Some(OperandView::SyscallHash(h)) => syscall_hash_step(s, h),
        _ => bad_operand,
    }
}

/// Lift `Unhandled`.
pub open spec fn unhandled_step(s: LiftState, ins: InstructionView) -> Step {
    Ok((s, seq![OpView::Comment(unhandled_comment(ins.opcode, ins.offset))]))
}

/// Lift an instruction whose kind takes nothing from its operand.
pub open spec fn plain_step(s: LiftState, kind: LiftKind) -> Step {
    match kind {
        LiftKind::Control => control_step(s),
        LiftKind::PushInt(v) => push_int_step(s, v),
        LiftKind::PushBool(b) => push_bool_step(s, b),
        LiftKind::PushNull => push_null_step(s),
        LiftKind::Nop => nop_step(s),
        LiftKind::Depth => depth_step(s),
        LiftKind::Drop => drop_step(s),
        LiftKind::Nip => nip_step(s),
        LiftKind::Clear => clear_step(s),
        LiftKind::Dup => dup_step(s),
        LiftKind::Over => over_step(s),
        LiftKind::Tuck => tuck_step(s),
        LiftKind::Swap => swap_step(s),
        LiftKind::Rot => rot_step(s),
        LiftKind::Reverse3 => reverse3_step(s),
        LiftKind::Reverse4 => reverse4_step(s),
        LiftKind::Binary(op) => binary_step(s, op),
        LiftKind::Shift(left_shift) => shift_step(s, left_shift),
        LiftKind::Unary(op) => unary_step(s, op),
        LiftKind::Increment(delta) => increment_step(s, delta),
        LiftKind::NotZero => not_zero_step(s),
        LiftKind::Builtin(f) => builtin_step(s, f),
        LiftKind::Load(k, slot) => load_step(s, k, slot),
        LiftKind::NewArray0 => new_array0_step(s),
        LiftKind::NewArray => new_array_step(s),
        LiftKind::NewStruct0 => new_struct0_step(s),
        LiftKind::NewStruct => new_struct_step(s),
        LiftKind::NewMap => new_map_step(s),
        LiftKind::Append => append_step(s),
        LiftKind::SetItem => set_item_step(s),
        LiftKind::PickItem => pick_item_step(s),
        LiftKind::Remove => remove_step(s),
        LiftKind::Size => size_step(s),
        LiftKind::ClearItems => clear_items_step(s),
        LiftKind::HasKey => has_key_step(s),
        LiftKind::Keys => keys_step(s),
        LiftKind::Values => values_step(s),
        LiftKind::Concat => concat_step(s),
        LiftKind::Substr => substr_step(s),
        LiftKind::Left => left_step(s),
        LiftKind::Right => right_step(s),
        LiftKind::Unpack => unpack_step(s),
        LiftKind::IsNull => is_null_step(s),
        LiftKind::Assert(with_message) => assert_step(s, with_message),
        _ => Ok((s, seq![])),
    }
}

/// Lift one instruction of the given kind from a state whose offset is the instruction's.
pub open spec fn kind_step(s: LiftState, ins: InstructionView, kind: LiftKind) -> Step {
    match kind {
        LiftKind::PushConst => push_const_step(s, ins),
        LiftKind::PushData => push_data_step(s, ins),
        LiftKind::PushAddress => push_address_step(s, ins),
        LiftKind::XDrop => xdrop_step(s, ins),
        LiftKind::Pick => pick_step(s, ins),
        LiftKind::Roll => roll_step(s, ins),
        LiftKind::ReverseN => reverse_n_step(s, ins),
        LiftKind::LoadOperand(k) => load_operand_step(s, ins, k),
        LiftKind::StoreOperand(k) => store_operand_step(s, ins, k),
        LiftKind::InitSlot => init_slot_step(s, ins),
        LiftKind::InitStaticSlot => init_static_slot_step(s, ins),
        LiftKind::NewBuffer => new_buffer_step(s, ins),
        LiftKind::Pack => pack_step(s, ins),
        LiftKind::IsType => is_type_step(s, ins),
        LiftKind::Convert => convert_step(s, ins),
        LiftKind::Syscall => syscall_step(s, ins),
        LiftKind::Unhandled => unhandled_step(s, ins),
        _ => plain_step(s, kind),
    }
}

/// Lift one instruction: record its offset, count the stack height, then apply its kind.
#[verifier::opaque]
pub open spec fn lift_step(s: LiftState, ins: InstructionView) -> Step {
    let s0 = bump(LiftState { offset: ins.offset, ..s }, s.stack);
    kind_step(s0, ins, lift_kind(ins.opcode))
}

/// The result of an exec step agrees with a specified step, given the lifter's state after it.
pub open spec fn step_agrees(r: Result<Vec<Operation>, LiftError>, post: LiftState, spec: Step) -> bool {
    match spec {
        Ok((s2, ops)) => (r matches Ok(v) && ops_view(v@) == ops) && post == s2,
        Err(e) => r == Err::<Vec<Operation>, LiftError>(e),
    }
}


/// How the lifter treats an opcode.
pub open spec fn lift_kind(op: OpCode) -> LiftKind {
    match op {
        OpCode::PUSHINT8 | OpCode::PUSHINT16 | OpCode::PUSHINT32 | OpCode::PUSHINT64 | OpCode::PUSHINT128 | OpCode::PUSHINT256 => LiftKind::PushConst,
        OpCode::PUSHT => LiftKind::PushBool(true),
        OpCode::PUSHF => LiftKind::PushBool(false),
        OpCode::PUSHA => LiftKind::PushAddress,
        OpCode::PUSHNULL => LiftKind::PushNull,
        OpCode::PUSHDATA1 | OpCode::PUSHDATA2 | OpCode::PUSHDATA4 => LiftKind::PushData,
        OpCode::PUSHM1 => LiftKind::PushInt(-1i64),
        OpCode::PUSH0 => LiftKind::PushInt(0i64),
        OpCode::PUSH1 => LiftKind::PushInt(1i64),
        OpCode::PUSH2 => LiftKind::PushInt(2i64),
        OpCode::PUSH3 => LiftKind::PushInt(3i64),
        OpCode::PUSH4 => LiftKind::PushInt(4i64),
        OpCode::PUSH5 => LiftKind::PushInt(5i64),
        OpCode::PUSH6 => LiftKind::PushInt(6i64),
        OpCode::PUSH7 => LiftKind::PushInt(7i64),
        OpCode::PUSH8 => LiftKind::PushInt(8i64),
        OpCode::PUSH9 => LiftKind::PushInt(9i64),
        OpCode::PUSH10 => LiftKind::PushInt(10i64),
        OpCode::PUSH11 => LiftKind::PushInt(11i64),
        OpCode::PUSH12 => LiftKind::PushInt(12i64),
        OpCode::PUSH13 => LiftKind::PushInt(13i64),
        OpCode::PUSH14 => LiftKind::PushInt(14i64),
        OpCode::PUSH15 => LiftKind::PushInt(15i64),
        OpCode::PUSH16 => LiftKind::PushInt(16i64),
        OpCode::NOP => LiftKind::Nop,
        OpCode::JMP | OpCode::JMP_L | OpCode::JMPIF | OpCode::JMPIF_L | OpCode::JMPIFNOT | OpCode::JMPIFNOT_L | OpCode::JMPEQ | OpCode::JMPEQ_L | OpCode::JMPNE | OpCode::JMPNE_L | OpCode::JMPGT | OpCode::JMPGT_L | OpCode::JMPGE | OpCode::JMPGE_L | OpCode::JMPLT | OpCode::JMPLT_L | OpCode::JMPLE | OpCode::JMPLE_L | OpCode::CALL | OpCode::CALL_L | OpCode::CALLA | OpCode::CALLT | OpCode::ABORT | OpCode::THROW | OpCode::RET | OpCode::ABORTMSG => LiftKind::Control,
        OpCode::ASSERT => LiftKind::Assert(false),
        OpCode::TRY | OpCode::TRY_L | OpCode::ENDTRY | OpCode::ENDTRY_L | OpCode::ENDFINALLY | OpCode::STSFLD0 | OpCode::STSFLD1 | OpCode::STSFLD2 | OpCode::STSFLD3 | OpCode::STSFLD4 | OpCode::STSFLD5 | OpCode::STSFLD6 | OpCode::STLOC0 | OpCode::STLOC1 | OpCode::STLOC2 | OpCode::STLOC3 | OpCode::STLOC4 | OpCode::STLOC5 | OpCode::STLOC6 | OpCode::STARG0 | OpCode::STARG1 | OpCode::STARG2 | OpCode::STARG3 | OpCode::STARG4 | OpCode::STARG5 | OpCode::STARG6 | OpCode::MEMCPY | OpCode::MODMUL | OpCode::MODPOW | OpCode::REVERSEITEMS | OpCode::POPITEM => LiftKind::Unhandled,
        OpCode::SYSCALL => LiftKind::Syscall,
        OpCode::DEPTH => LiftKind::Depth,
        OpCode::DROP => LiftKind::Drop,
        OpCode::NIP => LiftKind::Nip,
        OpCode::XDROP => LiftKind::XDrop,
        OpCode::CLEAR => LiftKind::Clear,
        OpCode::DUP => LiftKind::Dup,
        OpCode::OVER => LiftKind::Over,
        OpCode::PICK => LiftKind::Pick,
        OpCode::TUCK => LiftKind::Tuck,
        OpCode::SWAP => LiftKind::Swap,
        OpCode::ROT => LiftKind::Rot,
        OpCode::ROLL => LiftKind::Roll,
        OpCode::REVERSE3 => LiftKind::Reverse3,
        OpCode::REVERSE4 => LiftKind::Reverse4,
        OpCode::REVERSEN => LiftKind::ReverseN,
        OpCode::INITSSLOT => LiftKind::InitStaticSlot,
        OpCode::INITSLOT => LiftKind::InitSlot,
        OpCode::LDSFLD0 => LiftKind::Load(SlotKind::Static, 0),
        OpCode::LDSFLD1 => LiftKind::Load(SlotKind::Static, 1),
        OpCode::LDSFLD2 => LiftKind::Load(SlotKind::Static, 2),
        OpCode::LDSFLD3 => LiftKind::Load(SlotKind::Static, 3),
        OpCode::LDSFLD4 => LiftKind::Load(SlotKind::Static, 4),
        OpCode::LDSFLD5 => LiftKind::Load(SlotKind::Static, 5),
        OpCode::LDSFLD6 => LiftKind::Load(SlotKind::Static, 6),
        OpCode::LDSFLD => LiftKind::LoadOperand(SlotKind::Static),
        OpCode::STSFLD => LiftKind::StoreOperand(SlotKind::Static),
        OpCode::LDLOC0 => LiftKind::Load(SlotKind::Local, 0),
        OpCode::LDLOC1 => LiftKind::Load(SlotKind::Local, 1),
        OpCode::LDLOC2 => LiftKind::Load(SlotKind::Local, 2),
        OpCode::LDLOC3 => LiftKind::Load(SlotKind::Local, 3),
        OpCode::LDLOC4 => LiftKind::Load(SlotKind::Local, 4),
        OpCode::LDLOC5 => LiftKind::Load(SlotKind::Local, 5),
        OpCode::LDLOC6 => LiftKind::Load(SlotKind::Local, 6),
        OpCode::LDLOC => LiftKind::LoadOperand(SlotKind::Local),
        OpCode::STLOC => LiftKind::StoreOperand(SlotKind::Local),
        OpCode::LDARG0 => LiftKind::Load(SlotKind::Argument, 0),
        OpCode::LDARG1 => LiftKind::Load(SlotKind::Argument, 1),
        OpCode::LDARG2 => LiftKind::Load(SlotKind::Argument, 2),
        OpCode::LDARG3 => LiftKind::Load(SlotKind::Argument, 3),
        OpCode::LDARG4 => LiftKind::Load(SlotKind::Argument, 4),
        OpCode::LDARG5 => LiftKind::Load(SlotKind::Argument, 5),
        OpCode::LDARG6 => LiftKind::Load(SlotKind::Argument, 6),
        OpCode::LDARG => LiftKind::LoadOperand(SlotKind::Argument),
        OpCode::STARG => LiftKind::StoreOperand(SlotKind::Argument),
        OpCode::NEWBUFFER => LiftKind::NewBuffer,
        OpCode::CAT => LiftKind::Concat,
        OpCode::SUBSTR => LiftKind::Substr,
        OpCode::LEFT => LiftKind::Left,
        OpCode::RIGHT => LiftKind::Right,
        OpCode::INVERT => LiftKind::Unary(UnaryOperator::Not),
        OpCode::AND => LiftKind::Binary(BinaryOperator::And),
        OpCode::OR => LiftKind::Binary(BinaryOperator::Or),
        OpCode::XOR => LiftKind::Binary(BinaryOperator::Xor),
        OpCode::EQUAL | OpCode::NUMEQUAL => LiftKind::Binary(BinaryOperator::Equal),
        OpCode::NOTEQUAL | OpCode::NUMNOTEQUAL => LiftKind::Binary(BinaryOperator::NotEqual),
        OpCode::SIGN => LiftKind::Unary(UnaryOperator::Sign),
        OpCode::ABS => LiftKind::Unary(UnaryOperator::Abs),
        OpCode::NEGATE => LiftKind::Unary(UnaryOperator::Negate),
        OpCode::INC => LiftKind::Increment(1i64),
        OpCode::DEC => LiftKind::Increment(-1i64),
        OpCode::ADD => LiftKind::Binary(BinaryOperator::Add),
        OpCode::SUB => LiftKind::Binary(BinaryOperator::Sub),
        OpCode::MUL => LiftKind::Binary(BinaryOperator::Mul),
        OpCode::DIV => LiftKind::Binary(BinaryOperator::Div),
        OpCode::MOD => LiftKind::Binary(BinaryOperator::Mod),
        OpCode::POW => LiftKind::Binary(BinaryOperator::Pow),
        OpCode::SQRT => LiftKind::Unary(UnaryOperator::Sqrt),
        OpCode::SHL => LiftKind::Shift(true),
        OpCode::SHR => LiftKind::Shift(false),
        OpCode::NOT => LiftKind::Unary(UnaryOperator::BoolNot),
        OpCode::BOOLAND => LiftKind::Binary(BinaryOperator::BoolAnd),
        OpCode::BOOLOR => LiftKind::Binary(BinaryOperator::BoolOr),
        OpCode::NZ => LiftKind::NotZero,
        OpCode::LT => LiftKind::Binary(BinaryOperator::Less),
        OpCode::LE => LiftKind::Binary(BinaryOperator::LessEqual),
        OpCode::GT => LiftKind::Binary(BinaryOperator::Greater),
        OpCode::GE => LiftKind::Binary(BinaryOperator::GreaterEqual),
        OpCode::MIN => LiftKind::Builtin(BuiltinFn::Min),
        OpCode::MAX => LiftKind::Builtin(BuiltinFn::Max),
        OpCode::WITHIN => LiftKind::Builtin(BuiltinFn::Within),
        OpCode::PACKMAP | OpCode::PACKSTRUCT | OpCode::PACKARRAY => LiftKind::Pack,
        OpCode::UNPACK => LiftKind::Unpack,
        OpCode::NEWARRAY0 => LiftKind::NewArray0,
        OpCode::NEWARRAY | OpCode::NEWARRAYT => LiftKind::NewArray,
        OpCode::NEWSTRUCT0 => LiftKind::NewStruct0,
        OpCode::NEWSTRUCT => LiftKind::NewStruct,
        OpCode::NEWMAP => LiftKind::NewMap,
        OpCode::SIZE => LiftKind::Size,
        OpCode::HASKEY => LiftKind::HasKey,
        OpCode::KEYS => LiftKind::Keys,
        OpCode::VALUES => LiftKind::Values,
        OpCode::PICKITEM => LiftKind::PickItem,
        OpCode::APPEND => LiftKind::Append,
        OpCode::SETITEM => LiftKind::SetItem,
        OpCode::REMOVE => LiftKind::Remove,
        OpCode::CLEARITEMS => LiftKind::ClearItems,
        OpCode::ISNULL => LiftKind::IsNull,
        OpCode::ISTYPE => LiftKind::IsType,
        OpCode::CONVERT => LiftKind::Convert,
        OpCode::ASSERTMSG => LiftKind::Assert(true),
        OpCode::UNKNOWN(_) => LiftKind::Unhandled,
    }
}

/// Classify an opcode for lifting.
pub fn classify(op: OpCode) -> (r: LiftKind)
    ensures
        r == lift_kind(op),
{
    match op {
        OpCode::PUSHINT8 | OpCode::PUSHINT16 | OpCode::PUSHINT32 | OpCode::PUSHINT64 | OpCode::PUSHINT128 | OpCode::PUSHINT256 => LiftKind::PushConst,
        OpCode::PUSHT => LiftKind::PushBool(true),
        OpCode::PUSHF => LiftKind::PushBool(false),
        OpCode::PUSHA => LiftKind::PushAddress,
        OpCode::PUSHNULL => LiftKind::PushNull,
        OpCode::PUSHDATA1 | OpCode::PUSHDATA2 | OpCode::PUSHDATA4 => LiftKind::PushData,
        OpCode::PUSHM1 => LiftKind::PushInt(-1i64),
        OpCode::PUSH0 => LiftKind::PushInt(0i64),
        OpCode::PUSH1 => LiftKind::PushInt(1i64),
        OpCode::PUSH2 => LiftKind::PushInt(2i64),
        OpCode::PUSH3 => LiftKind::PushInt(3i64),
        OpCode::PUSH4 => LiftKind::PushInt(4i64),
        OpCode::PUSH5 => LiftKind::PushInt(5i64),
        OpCode::PUSH6 => LiftKind::PushInt(6i64),
        OpCode::PUSH7 => LiftKind::PushInt(7i64),
        OpCode::PUSH8 => LiftKind::PushInt(8i64),
        OpCode::PUSH9 => LiftKind::PushInt(9i64),
        OpCode::PUSH10 => LiftKind::PushInt(10i64),
        OpCode::PUSH11 => LiftKind::PushInt(11i64),
        OpCode::PUSH12 => LiftKind::PushInt(12i64),
        OpCode::PUSH13 => LiftKind::PushInt(13i64),
        OpCode::PUSH14 => LiftKind::PushInt(14i64),
        OpCode::PUSH15 => LiftKind::PushInt(15i64),
        OpCode::PUSH16 => LiftKind::PushInt(16i64),
        OpCode::NOP => LiftKind::Nop,
        OpCode::JMP | OpCode::JMP_L | OpCode::JMPIF | OpCode::JMPIF_L | OpCode::JMPIFNOT | OpCode::JMPIFNOT_L | OpCode::JMPEQ | OpCode::JMPEQ_L | OpCode::JMPNE | OpCode::JMPNE_L | OpCode::JMPGT | OpCode::JMPGT_L | OpCode::JMPGE | OpCode::JMPGE_L | OpCode::JMPLT | OpCode::JMPLT_L | OpCode::JMPLE | OpCode::JMPLE_L | OpCode::CALL | OpCode::CALL_L | OpCode::CALLA | OpCode::CALLT | OpCode::ABORT | OpCode::THROW | OpCode::RET | OpCode::ABORTMSG => LiftKind::Control,
        OpCode::ASSERT => LiftKind::Assert(false),
        OpCode::TRY | OpCode::TRY_L | OpCode::ENDTRY | OpCode::ENDTRY_L | OpCode::ENDFINALLY | OpCode::STSFLD0 | OpCode::STSFLD1 | OpCode::STSFLD2 | OpCode::STSFLD3 | OpCode::STSFLD4 | OpCode::STSFLD5 | OpCode::STSFLD6 | OpCode::STLOC0 | OpCode::STLOC1 | OpCode::STLOC2 | OpCode::STLOC3 | OpCode::STLOC4 | OpCode::STLOC5 | OpCode::STLOC6 | OpCode::STARG0 | OpCode::STARG1 | OpCode::STARG2 | OpCode::STARG3 | OpCode::STARG4 | OpCode::STARG5 | OpCode::STARG6 | OpCode::MEMCPY | OpCode::MODMUL | OpCode::MODPOW | OpCode::REVERSEITEMS | OpCode::POPITEM => LiftKind::Unhandled,
        OpCode::SYSCALL => LiftKind::Syscall,
        OpCode::DEPTH => LiftKind::Depth,
        OpCode::DROP => LiftKind::Drop,
        OpCode::NIP => LiftKind::Nip,
        OpCode::XDROP => LiftKind::XDrop,
        OpCode::CLEAR => LiftKind::Clear,
        OpCode::DUP => LiftKind::Dup,
        OpCode::OVER => LiftKind::Over,
        OpCode::PICK => LiftKind::Pick,
        OpCode::TUCK => LiftKind::Tuck,
        OpCode::SWAP => LiftKind::Swap,
        OpCode::ROT => LiftKind::Rot,
        OpCode::ROLL => LiftKind::Roll,
        OpCode::REVERSE3 => LiftKind::Reverse3,
        OpCode::REVERSE4 => LiftKind::Reverse4,
        OpCode::REVERSEN => LiftKind::ReverseN,
        OpCode::INITSSLOT => LiftKind::InitStaticSlot,
        OpCode::INITSLOT => LiftKind::InitSlot,
        OpCode::LDSFLD0 => LiftKind::Load(SlotKind::Static, 0),
        OpCode::LDSFLD1 => LiftKind::Load(SlotKind::Static, 1),
        OpCode::LDSFLD2 => LiftKind::Load(SlotKind::Static, 2),
        OpCode::LDSFLD3 => LiftKind::Load(SlotKind::Static, 3),
        OpCode::LDSFLD4 => LiftKind::Load(SlotKind::Static, 4),
        OpCode::LDSFLD5 => LiftKind::Load(SlotKind::Static, 5),
        OpCode::LDSFLD6 => LiftKind::Load(SlotKind::Static, 6),
        OpCode::LDSFLD => LiftKind::LoadOperand(SlotKind::Static),
        OpCode::STSFLD => LiftKind::StoreOperand(SlotKind::Static),
        OpCode::LDLOC0 => LiftKind::Load(SlotKind::Local, 0),
        OpCode::LDLOC1 => LiftKind::Load(SlotKind::Local, 1),
        OpCode::LDLOC2 => LiftKind::Load(SlotKind::Local, 2),
        OpCode::LDLOC3 => LiftKind::Load(SlotKind::Local, 3),
        OpCode::LDLOC4 => LiftKind::Load(SlotKind::Local, 4),
        OpCode::LDLOC5 => LiftKind::Load(SlotKind::Local, 5),
        OpCode::LDLOC6 => LiftKind::Load(SlotKind::Local, 6),
        OpCode::LDLOC => LiftKind::LoadOperand(SlotKind::Local),
        OpCode::STLOC => LiftKind::StoreOperand(SlotKind::Local),
        OpCode::LDARG0 => LiftKind::Load(SlotKind::Argument, 0),
        OpCode::LDARG1 => LiftKind::Load(SlotKind::Argument, 1),
        OpCode::LDARG2 => LiftKind::Load(SlotKind::Argument, 2),
        OpCode::LDARG3 => LiftKind::Load(SlotKind::Argument, 3),
        OpCode::LDARG4 => LiftKind::Load(SlotKind::Argument, 4),
        OpCode::LDARG5 => LiftKind::Load(SlotKind::Argument, 5),
        OpCode::LDARG6 => LiftKind::Load(SlotKind::Argument, 6),
        OpCode::LDARG => LiftKind::LoadOperand(SlotKind::Argument),
        OpCode::STARG => LiftKind::StoreOperand(SlotKind::Argument),
        OpCode::NEWBUFFER => LiftKind::NewBuffer,
        OpCode::CAT => LiftKind::Concat,
        OpCode::SUBSTR => LiftKind::Substr,
        OpCode::LEFT => LiftKind::Left,
        OpCode::RIGHT => LiftKind::Right,
        OpCode::INVERT => LiftKind::Unary(UnaryOperator::Not),
        OpCode::AND => LiftKind::Binary(BinaryOperator::And),
        OpCode::OR => LiftKind::Binary(BinaryOperator::Or),
        OpCode::XOR => LiftKind::Binary(BinaryOperator::Xor),
        OpCode::EQUAL | OpCode::NUMEQUAL => LiftKind::Binary(BinaryOperator::Equal),
        OpCode::NOTEQUAL | OpCode::NUMNOTEQUAL => LiftKind::Binary(BinaryOperator::NotEqual),
        OpCode::SIGN => LiftKind::Unary(UnaryOperator::Sign),
        OpCode::ABS => LiftKind::Unary(UnaryOperator::Abs),
        OpCode::NEGATE => LiftKind::Unary(UnaryOperator::Negate),
        OpCode::INC => LiftKind::Increment(1i64),
        OpCode::DEC => LiftKind::Increment(-1i64),
        OpCode::ADD => LiftKind::Binary(BinaryOperator::Add),
        OpCode::SUB => LiftKind::Binary(BinaryOperator::Sub),
        OpCode::MUL => LiftKind::Binary(BinaryOperator::Mul),
        OpCode::DIV => LiftKind::Binary(BinaryOperator::Div),
        OpCode::MOD => LiftKind::Binary(BinaryOperator::Mod),
        OpCode::POW => LiftKind::Binary(BinaryOperator::Pow),
        OpCode::SQRT => LiftKind::Unary(UnaryOperator::Sqrt),
        OpCode::SHL => LiftKind::Shift(true),
        OpCode::SHR => LiftKind::Shift(false),
        OpCode::NOT => LiftKind::Unary(UnaryOperator::BoolNot),
        OpCode::BOOLAND => LiftKind::Binary(BinaryOperator::BoolAnd),
        OpCode::BOOLOR => LiftKind::Binary(BinaryOperator::BoolOr),
        OpCode::NZ => LiftKind::NotZero,
        OpCode::LT => LiftKind::Binary(BinaryOperator::Less),
        OpCode::LE => LiftKind::Binary(BinaryOperator::LessEqual),
        OpCode::GT => LiftKind::Binary(BinaryOperator::Greater),
        OpCode::GE => LiftKind::Binary(BinaryOperator::GreaterEqual),
        OpCode::MIN => LiftKind::Builtin(BuiltinFn::Min),
        OpCode::MAX => LiftKind::Builtin(BuiltinFn::Max),
        OpCode::WITHIN => LiftKind::Builtin(BuiltinFn::Within),
        OpCode::PACKMAP | OpCode::PACKSTRUCT | OpCode::PACKARRAY => LiftKind::Pack,
        OpCode::UNPACK => LiftKind::Unpack,
        OpCode::NEWARRAY0 => LiftKind::NewArray0,
        OpCode::NEWARRAY | OpCode::NEWARRAYT => LiftKind::NewArray,
        OpCode::NEWSTRUCT0 => LiftKind::NewStruct0,
        OpCode::NEWSTRUCT => LiftKind::NewStruct,
        OpCode::NEWMAP => LiftKind::NewMap,
        OpCode::SIZE => LiftKind::Size,
        OpCode::HASKEY => LiftKind::HasKey,
        OpCode::KEYS => LiftKind::Keys,
        OpCode::VALUES => LiftKind::Values,
        OpCode::PICKITEM => LiftKind::PickItem,
        OpCode::APPEND => LiftKind::Append,
        OpCode::SETITEM => LiftKind::SetItem,
        OpCode::REMOVE => LiftKind::Remove,
        OpCode::CLEARITEMS => LiftKind::ClearItems,
        OpCode::ISNULL => LiftKind::IsNull,
        OpCode::ISTYPE => LiftKind::IsType,
        OpCode::CONVERT => LiftKind::Convert,
        OpCode::ASSERTMSG => LiftKind::Assert(true),
        OpCode::UNKNOWN(_) => LiftKind::Unhandled,
    }
}


/// No operations.
fn no_ops() -> (r: Vec<Operation>)
    ensures
        ops_view(r@) == Seq::<OpView>::empty(),
{
    let r: Vec<Operation> = Vec::new();
    assert(ops_view(r@) =~= Seq::<OpView>::empty());
    r
}

/// A single operation.
fn one_op(op: Operation) -> (r: Vec<Operation>)
    ensures
        ops_view(r@) == seq![op@],
{
    let mut r: Vec<Operation> = Vec::new();
    r.push(op);
    assert(ops_view(r@) =~= seq![op@]);
    r
}

/// Dropping the top items of a stack keeps a prefix.
proof fn lemma_drop_top(st: Seq<ExprView>)
    ensures
        st.len() >= 1 ==> st.drop_last() == st.take(st.len() - 1),
        st.len() >= 2 ==> st.drop_last().drop_last() == st.take(st.len() - 2),
        st.len() >= 3 ==> st.drop_last().drop_last().drop_last() == st.take(st.len() - 3),
        st.len() >= 4 ==> st.drop_last().drop_last().drop_last().drop_last() == st.take(st.len() - 4),
{
    if st.len() >= 1 {
        assert(st.drop_last() =~= st.take(st.len() - 1));
    }
    if st.len() >= 2 {
        assert(st.drop_last().drop_last() =~= st.take(st.len() - 2));
    }
    if st.len() >= 3 {
        assert(st.drop_last().drop_last().drop_last() =~= st.take(st.len() - 3));
    }
    if st.len() >= 4 {
        assert(st.drop_last().drop_last().drop_last().drop_last() =~= st.take(st.len() - 4));
    }
}

/// The type a stack item type tag converts or tests to.
fn stack_item_type_to_type(stack_type: StackItemType) -> (r: Type)
    ensures
        r@ == item_type_view(stack_type),
{
    proof {
        reveal_with_fuel(crate::analysis::types::type_view, 2);
    }
    match stack_type {
        StackItemType::Boolean => Type::Primitive(PrimitiveType::Boolean),
        StackItemType::Integer => Type::Primitive(PrimitiveType::Integer),
        StackItemType::ByteString => Type::Primitive(PrimitiveType::ByteString),
        StackItemType::Buffer => Type::Buffer,
        StackItemType::Array => Type::Array(Box::new(Type::Unknown)),
        StackItemType::Struct => {
            let fields: Vec<crate::analysis::types::FieldType> = Vec::new();
            let r = Type::Struct(StructType { name: None, fields, is_packed: false });
            proof {
                assert(fields@ =~= Seq::<crate::analysis::types::FieldType>::empty());
                assert(crate::analysis::types::fields_view(fields@) =~= Seq::empty());
            }
            r
        },
        StackItemType::MapItem => Type::Mapping { key: Box::new(Type::Unknown), value: Box::new(Type::Unknown) },
        StackItemType::InteropInterface => {
            let name = String::from_str("Unknown");
            proof {
                assert(name@ == "Unknown"@);
            }
            Type::InteropInterface(name)
        },
        StackItemType::Pointer => Type::Pointer(Box::new(Type::Unknown)),
        StackItemType::Any => Type::Unknown,
    }
}

/// A vector of `count` zero bytes.
fn zero_bytes(count: u16) -> (r: Vec<u8>)
    ensures
        r@ == zeros(count as nat),
{
    let mut v: Vec<u8> = Vec::new();
    let mut i: u16 = 0;
    while i < count
        invariant
            i <= count,
            v@ == zeros(i as nat),
        decreases count - i,
    {
        v.push(0u8);
        i = i + 1;
        assert(v@ =~= zeros(i as nat));
    }
    v
}

impl IRLifter {
    /// Lift `PUSHINT*`: an integer or wide-integer literal.
    fn lift_push_constant(&mut self, instruction: &Instruction) -> (r: Result<Vec<Operation>, LiftError>)
        ensures
            step_agrees(r, final(self).state(), push_const_step(old(self).state(), instruction@)),
    {
        match &instruction.operand {
            Some(Operand::Integer(value)) => {
                self.push_stack(Expression::Literal(Literal::Integer(*value)));
            },
            Some(Operand::BigInteger(bytes)) => {
                self.push_stack(Expression::Literal(Literal::ByteArray(crate::common::types::clone_bytes(bytes))));
            },
            _ => {
                return Err(LiftError::InvalidOperand { offset: instruction.offset });
            },
        }
        Ok(no_ops())
    }

    /// Lift `PUSHDATA*`: a byte array literal.
    fn lift_push_data(&mut self, instruction: &Instruction) -> (r: Result<Vec<Operation>, LiftError>)
        ensures
            step_agrees(r, final(self).state(), push_data_step(old(self).state(), instruction@)),
    {
        if let Some(Operand::Bytes(bytes)) = &instruction.operand {
            self.push_stack(Expression::Literal(Literal::ByteArray(crate::common::types::clone_bytes(bytes))));
        }
        Ok(no_ops())
    }

    /// Lift `PUSHA`: the absolute target as an integer literal.
    fn lift_push_address(&mut self, instruction: &Instruction) -> (r: Result<Vec<Operation>, LiftError>)
        requires
            rel_in_range(instruction@),
        ensures
            step_agrees(r, final(self).state(), push_address_step(old(self).state(), instruction@)),
    {
        if let Some(Operand::JumpTarget32(offset)) = &instruction.operand {
            let target_offset = (instruction.offset as i32 + *offset) as u32;
            self.push_stack(Expression::Literal(Literal::Integer(target_offset as i64)));
        }
        Ok(no_ops())
    }

    /// Lift `DEPTH`: the stack height as an integer literal.
    fn lift_stack_depth(&mut self)
        ensures
            depth_step(old(self).state()) == Step::Ok((final(self).state(), Seq::<OpView>::empty())),
    {
        let depth = self.stack.len() as i64;
        self.push_stack(Expression::Literal(Literal::Integer(depth)));
    }

    /// Lift `NIP`: remove the second item.
    fn lift_nip(&mut self) -> (r: Result<Vec<Operation>, LiftError>)
        ensures
            step_agrees(r, final(self).state(), nip_step(old(self).state())),
    {
        proof { lemma_drop_top(old(self).state().stack); }
        let top = match self.pop_stack() { Ok(e) => e, Err(e) => return Err(e) };
        match self.pop_stack() { Ok(_) => {}, Err(e) => return Err(e) }
        self.push_stack(top);
        proof {
            let st = old(self).state().stack;
            assert(self.state().stack =~= st.take(st.len() - 2) + seq![st[st.len() - 1]]);
        }
        Ok(no_ops())
    }

    /// Lift `XDROP n`: remove `n` items.
    fn lift_xdrop(&mut self, instruction: &Instruction) -> (r: Result<Vec<Operation>, LiftError>)
        ensures
            step_agrees(r, final(self).state(), xdrop_step(old(self).state(), instruction@)),
    {
        if let Some(Operand::Count(n)) = &instruction.operand {
            let ghost st = old(self).state().stack;
            assert(st.take(st.len() - 0) =~= st);
            let mut i: u8 = 0;
            while i < *n
                invariant
                    i <= *n,
                    st == old(self).state().stack,
                    instruction@.operand == Some(OperandView::Count(*n)),
                    i <= st.len(),
                    self.state() == with_stack(old(self).state(), st.take(st.len() - i)),
                decreases *n - i,
            {
                match self.pop_stack() {
                    Ok(_) => {},
                    Err(e) => {
                        assert(self.state().stack.len() == 0);
                        assert(st.len() < *n);
                        return Err(e);
                    },
                }
                proof { assert(st.take(st.len() - i).drop_last() =~= st.take(st.len() - (i + 1))); }
                i = i + 1;
            }
        }
        Ok(no_ops())
    }

    /// Lift `DUP`: copy the top item.
    fn lift_dup(&mut self) -> (r: Result<Vec<Operation>, LiftError>)
        ensures
            step_agrees(r, final(self).state(), dup_step(old(self).state())),
    {
        let top = match self.peek_stack(0) { Ok(e) => e, Err(e) => return Err(e) };
        self.push_stack(top);
        proof {
            let st = old(self).state().stack;
            assert(st.push(st[st.len() - 1]) =~= st.take(st.len() - 1) + seq![st[st.len() - 1], st[st.len() - 1]]);
        }
        Ok(no_ops())
    }

    /// Lift `OVER`: copy the second item to the top.
    fn lift_over(&mut self) -> (r: Result<Vec<Operation>, LiftError>)
        ensures
            step_agrees(r, final(self).state(), over_step(old(self).state())),
    {
        let second = match self.peek_stack(1) { Ok(e) => e, Err(e) => return Err(e) };
        self.push_stack(second);
        proof {
            let st = old(self).state().stack;
            assert(st.push(st[st.len() - 2]) =~= st.take(st.len() - 2) + seq![st[st.len() - 2], st[st.len() - 1], st[st.len() - 2]]);
        }
        Ok(no_ops())
    }

    /// Lift `PICK n`: copy the item `n` places below the top.
    fn lift_pick(&mut self, instruction: &Instruction) -> (r: Result<Vec<Operation>, LiftError>)
        ensures
            step_agrees(r, final(self).state(), pick_step(old(self).state(), instruction@)),
    {
        if let Some(Operand::Count(n)) = &instruction.operand {
            let value = match self.peek_stack(*n as usize) { Ok(e) => e, Err(e) => return Err(e) };
            self.push_stack(value);
        }
        Ok(no_ops())
    }

    /// Lift `TUCK`: copy the top item below the second.
    fn lift_tuck(&mut self) -> (r: Result<Vec<Operation>, LiftError>)
        ensures
            step_agrees(r, final(self).state(), tuck_step(old(self).state())),
    {
        proof { lemma_drop_top(old(self).state().stack); }
        let a = match self.pop_stack() { Ok(e) => e, Err(e) => return Err(e) };
        let b = match self.pop_stack() { Ok(e) => e, Err(e) => return Err(e) };
        let a2 = clone_expression(&a);
        self.push_stack(a2);
        self.push_stack(b);
        self.push_stack(a);
        proof {
            let st = old(self).state().stack;
            assert(self.state().stack =~= st.take(st.len() - 2) + seq![st[st.len() - 1], st[st.len() - 2], st[st.len() - 1]]);
        }
        Ok(no_ops())
    }

    /// Lift `SWAP`: exchange the top two items.
    fn lift_swap(&mut self) -> (r: Result<Vec<Operation>, LiftError>)
        ensures
            step_agrees(r, final(self).state(), swap_step(old(self).state())),
    {
        proof { lemma_drop_top(old(self).state().stack); }
        let a = match self.pop_stack() { Ok(e) => e, Err(e) => return Err(e) };
        let b = match self.pop_stack() { Ok(e) => e, Err(e) => return Err(e) };
        self.push_stack(a);
        self.push_stack(b);
        proof {
            let st = old(self).state().stack;
            assert(self.state().stack =~= st.take(st.len() - 2) + seq![st[st.len() - 1], st[st.len() - 2]]);
        }
        Ok(no_ops())
    }

    /// Lift `ROT`: move the third item to the top.
    fn lift_rot(&mut self) -> (r: Result<Vec<Operation>, LiftError>)
        ensures
            step_agrees(r, final(self).state(), rot_step(old(self).state())),
    {
        proof { lemma_drop_top(old(self).state().stack); }
        let a = match self.pop_stack() { Ok(e) => e, Err(e) => return Err(e) };
        let b = match self.pop_stack() { Ok(e) => e, Err(e) => return Err(e) };
        let c = match self.pop_stack() { Ok(e) => e, Err(e) => return Err(e) };
        self.push_stack(b);
        self.push_stack(a);
        self.push_stack(c);
        proof {
            let st = old(self).state().stack;
            assert(self.state().stack =~= st.take(st.len() - 3) + seq![st[st.len() - 2], st[st.len() - 1], st[st.len() - 3]]);
        }
        Ok(no_ops())
    }

    /// Lift `REVERSE3`: reverse the top three items.
    fn lift_reverse3(&mut self) -> (r: Result<Vec<Operation>, LiftError>)
        ensures
            step_agrees(r, final(self).state(), reverse3_step(old(self).state())),
    {
        proof { lemma_drop_top(old(self).state().stack); }
        let a = match self.pop_stack() { Ok(e) => e, Err(e) => return Err(e) };
        let b = match self.pop_stack() { Ok(e) => e, Err(e) => return Err(e) };
        let c = match self.pop_stack() { Ok(e) => e, Err(e) => return Err(e) };
        self.push_stack(a);
        self.push_stack(b);
        self.push_stack(c);
        proof {
            let st = old(self).state().stack;
            assert(self.state().stack =~= st.take(st.len() - 3) + seq![st[st.len() - 1], st[st.len() - 2], st[st.len() - 3]]);
        }
        Ok(no_ops())
    }

    /// Lift `REVERSE4`: reverse the top four items.
    fn lift_reverse4(&mut self) -> (r: Result<Vec<Operation>, LiftError>)
        ensures
            step_agrees(r, final(self).state(), reverse4_step(old(self).state())),
    {
        proof { lemma_drop_top(old(self).state().stack); }
        let a = match self.pop_stack() { Ok(e) => e, Err(e) => return Err(e) };
        let b = match self.pop_stack() { Ok(e) => e, Err(e) => return Err(e) };
        let c = match self.pop_stack() { Ok(e) => e, Err(e) => return Err(e) };
        let d = match self.pop_stack() { Ok(e) => e, Err(e) => return Err(e) };
        self.push_stack(a);
        self.push_stack(b);
        self.push_stack(c);
        self.push_stack(d);
        proof {
            let st = old(self).state().stack;
            assert(self.state().stack =~= st.take(st.len() - 4) + seq![st[st.len() - 1], st[st.len() - 2], st[st.len() - 3], st[st.len() - 4]]);
        }
        Ok(no_ops())
    }
}



impl IRLifter {
    /// Lift `ROLL n`: move the item `n` places below the top to the top.
    fn lift_roll(&mut self, instruction: &Instruction) -> (r: Result<Vec<Operation>, LiftError>)
        ensures
            step_agrees(r, final(self).state(), roll_step(old(self).state(), instruction@)),
    {
        if let Some(Operand::Count(n)) = &instruction.operand {
            if *n > 0 {
                let ghost st = old(self).state().stack;
                let mut items: Vec<Expression> = Vec::new();
                let mut i: u16 = 0;
                assert(st.take(st.len() - 0) =~= st);
                while i <= *n as u16
                    invariant
                        i <= *n + 1,
                        0 < *n,
                        st == old(self).state().stack,
                        instruction@.operand == Some(OperandView::Count(*n)),
                        i <= st.len(),
                        self.state() == with_stack(old(self).state(), st.take(st.len() - i)),
                        items@.len() == i,
                        forall|j: int| 0 <= j < i ==> (#[trigger] items@[j])@ == st[st.len() - 1 - j],
                    decreases *n + 1 - i,
                {
                    match self.pop_stack() {
                        Ok(e) => {
                            items.push(e);
                        },
                        Err(e) => {
                            assert(self.state().stack.len() == 0);
                            return Err(e);
                        },
                    }
                    proof { assert(st.take(st.len() - i).drop_last() =~= st.take(st.len() - (i + 1))); }
                    i = i + 1;
                }
                let rolled = items.pop().unwrap();
                let ghost base = st.take(st.len() - (*n + 1));
                let mut k = items.len();
                while k > 0
                    invariant
                        k <= items@.len(),
                        items@.len() == *n,
                        st == old(self).state().stack,
                        instruction@.operand == Some(OperandView::Count(*n)),
                        st.len() >= *n + 1,
                        base == st.take(st.len() - (*n + 1)),
                        forall|j: int| 0 <= j < items@.len() ==> (#[trigger] items@[j])@ == st[st.len() - 1 - j],
                        self.state() == bump(
                            old(self).state(),
                            base + st.skip(st.len() - *n).take(*n - k),
                        ) || (k == *n && self.state() == with_stack(old(self).state(), base)),
                    decreases k,
                {
                    k = k - 1;
                    let e = clone_expression(&items[k]);
                    proof {
                        let prev = st.skip(st.len() - *n).take(*n - k - 1);
                        assert(st.skip(st.len() - *n).take(*n - k) =~= prev.push(e@));
                        assert(base + prev.push(e@) =~= (base + prev).push(e@));
                        if k + 1 == *n {
                            assert(prev =~= Seq::<ExprView>::empty());
                            assert(base + prev =~= base);
                        }
                    }
                    self.push_stack(e);
                }
                self.push_stack(rolled);
                proof {
                    assert(st.skip(st.len() - *n).take(*n - 0) =~= st.skip(st.len() - *n));
                    assert(base + st.skip(st.len() - *n).push(st[st.len() - 1 - *n]) =~= (base + st.skip(st.len() - *n)).push(st[st.len() - 1 - *n]));
                }
            }
        }
        Ok(no_ops())
    }

    /// Lift `REVERSEN n`: reverse the top `n` items.
    fn lift_reversen(&mut self, instruction: &Instruction) -> (r: Result<Vec<Operation>, LiftError>)
        ensures
            step_agrees(r, final(self).state(), reverse_n_step(old(self).state(), instruction@)),
    {
        if let Some(Operand::Count(n)) = &instruction.operand {
            let ghost st = old(self).state().stack;
            let mut items: Vec<Expression> = Vec::new();
            let mut i: u8 = 0;
            assert(st.take(st.len() - 0) =~= st);
            while i < *n
                invariant
                    i <= *n,
                    st == old(self).state().stack,
                    instruction@.operand == Some(OperandView::Count(*n)),
                    i <= st.len(),
                    self.state() == with_stack(old(self).state(), st.take(st.len() - i)),
                    stack_view(items@) == st.skip(st.len() - i).reverse(),
                decreases *n - i,
            {
                match self.pop_stack() {
                    Ok(e) => {
                        proof {
                            assert(st.skip(st.len() - (i + 1)).reverse() =~= st.skip(st.len() - i).reverse().push(e@));
                            assert(stack_view(items@.push(e)) =~= stack_view(items@).push(e@));
                        }
                        items.push(e);
                    },
                    Err(e) => {
                        assert(self.state().stack.len() == 0);
                        return Err(e);
                    },
                }
                proof { assert(st.take(st.len() - i).drop_last() =~= st.take(st.len() - (i + 1))); }
                i = i + 1;
            }
            if *n > 0 {
                let ghost base = st.take(st.len() - *n);
                let ghost rev = st.skip(st.len() - *n).reverse();
                let mut k: usize = 0;
                while k < items.len()
                    invariant
                        k <= items@.len(),
                        items@.len() == *n,
                        *n > 0,
                        st.len() >= *n,
                        st == old(self).state().stack,
                        instruction@.operand == Some(OperandView::Count(*n)),
                        base == st.take(st.len() - *n),
                        stack_view(items@) == rev,
                        k == 0 ==> self.state() == with_stack(old(self).state(), base),
                        k > 0 ==> self.state() == bump(old(self).state(), base + rev.take(k as int)),
                    decreases items@.len() - k,
                {
                    let e = clone_expression(&items[k]);
                    proof {
                        assert(rev.take(k + 1) =~= rev.take(k as int).push(e@));
                        assert(base + rev.take(k + 1) =~= (base + rev.take(k as int)).push(e@));
                        if k == 0 {
                            assert(base + rev.take(0) =~= base);
                        }
                    }
                    self.push_stack(e);
                    k = k + 1;
                }
                proof {
                    assert(rev.take(*n as int) =~= rev);
                }
            }
        }
        Ok(no_ops())
    }

    /// Lift a binary operator: `target = left op right`.
    fn lift_binary_arithmetic(&mut self, operator: BinaryOperator) -> (r: Result<Vec<Operation>, LiftError>)
        requires
            old(self).var_counter < u32::MAX,
        ensures
            step_agrees(r, final(self).state(), binary_step(old(self).state(), operator)),
    {
        proof { lemma_drop_top(old(self).state().stack); }
        match self.validate_stack_depth(2) { Ok(()) => {}, Err(e) => return Err(e) }
        let right = match self.pop_stack() { Ok(e) => e, Err(e) => return Err(e) };
        let left = match self.pop_stack() { Ok(e) => e, Err(e) => return Err(e) };
        let target = self.create_temp_variable(Type::Unknown);
        let operation = Operation::Arithmetic { operator, left, right, target: target.clone_variable() };
        self.push_stack(Expression::Variable(target));
        Ok(one_op(operation))
    }

    /// Lift a shift: `target = value << shift` or `value >> shift`.
    fn lift_shift(&mut self, left_shift: bool) -> (r: Result<Vec<Operation>, LiftError>)
        requires
            old(self).var_counter < u32::MAX,
        ensures
            step_agrees(r, final(self).state(), shift_step(old(self).state(), left_shift)),
    {
        proof { lemma_drop_top(old(self).state().stack); }
        let shift = match self.pop_stack() { Ok(e) => e, Err(e) => return Err(e) };
        let value = match self.pop_stack() { Ok(e) => e, Err(e) => return Err(e) };
        let target = self.create_temp_variable(Type::Unknown);
        let operator = if left_shift { BinaryOperator::ShiftLeft } else { BinaryOperator::ShiftRight };
        let operation = Operation::Arithmetic { operator, left: value, right: shift, target: target.clone_variable() };
        self.push_stack(Expression::Variable(target));
        Ok(one_op(operation))
    }

    /// Lift a unary operator: `target = op operand`.
    fn lift_unary_op(&mut self, operator: UnaryOperator) -> (r: Result<Vec<Operation>, LiftError>)
        requires
            old(self).var_counter < u32::MAX,
        ensures
            step_agrees(r, final(self).state(), unary_step(old(self).state(), operator)),
    {
        proof { lemma_drop_top(old(self).state().stack); }
        let operand = match self.pop_stack() { Ok(e) => e, Err(e) => return Err(e) };
        let target = self.create_temp_variable(Type::Unknown);
        let operation = Operation::Unary { operator, operand, target: target.clone_variable() };
        self.push_stack(Expression::Variable(target));
        Ok(one_op(operation))
    }

    /// Lift `INC`/`DEC`: `target = operand + 1`, or `operand - delta` for a negative delta.
    fn lift_increment(&mut self, delta: i64) -> (r: Result<Vec<Operation>, LiftError>)
        requires
            old(self).var_counter < u32::MAX,
        ensures
            step_agrees(r, final(self).state(), increment_step(old(self).state(), delta)),
    {
        proof { lemma_drop_top(old(self).state().stack); }
        let operand = match self.pop_stack() { Ok(e) => e, Err(e) => return Err(e) };
        let increment = Expression::Literal(Literal::Integer(delta));
        let target = self.create_temp_variable(Type::Unknown);
        let operation = Operation::Arithmetic {
            operator: if delta > 0 { BinaryOperator::Add } else { BinaryOperator::Sub },
            left: operand,
            right: increment,
            target: target.clone_variable(),
        };
        self.push_stack(Expression::Variable(target));
        Ok(one_op(operation))
    }

    /// Lift `NZ`: `target = operand != 0`.
    fn lift_not_zero(&mut self) -> (r: Result<Vec<Operation>, LiftError>)
        requires
            old(self).var_counter < u32::MAX,
        ensures
            step_agrees(r, final(self).state(), not_zero_step(old(self).state())),
    {
        proof { lemma_drop_top(old(self).state().stack); }
        let operand = match self.pop_stack() { Ok(e) => e, Err(e) => return Err(e) };
        let zero = Expression::Literal(Literal::Integer(0));
        let target = self.create_temp_variable(Type::Unknown);
        let operation = Operation::Arithmetic {
            operator: BinaryOperator::NotEqual,
            left: operand,
            right: zero,
            target: target.clone_variable(),
        };
        self.push_stack(Expression::Variable(target));
        Ok(one_op(operation))
    }

    /// Pop `count` items and return them in push order.
    fn pop_arguments(&mut self, count: usize) -> (r: Vec<Expression>)
        requires
            old(self).stack@.len() >= count,
        ensures
            stack_view(r@) == old(self).state().stack.skip(old(self).state().stack.len() - count),
            final(self).state() == with_stack(
                old(self).state(),
                old(self).state().stack.take(old(self).state().stack.len() - count),
            ),
    {
        let ghost st = old(self).state().stack;
        let mut arguments: Vec<Expression> = Vec::new();
        let mut i: usize = 0;
        assert(st.take(st.len() - 0) =~= st);
        while i < count
            invariant
                i <= count,
                count <= st.len(),
                st == old(self).state().stack,
                self.state() == with_stack(old(self).state(), st.take(st.len() - i)),
                stack_view(arguments@) == st.skip(st.len() - i).reverse(),
            decreases count - i,
        {
            let e = match self.pop_stack() {
                Ok(e) => e,
                Err(_) => {
                    assert(false);
                    return arguments;
                },
            };
            proof {
                assert(st.skip(st.len() - (i + 1)).reverse() =~= st.skip(st.len() - i).reverse().push(e@));
                assert(stack_view(arguments@.push(e)) =~= stack_view(arguments@).push(e@));
                assert(st.take(st.len() - i).drop_last() =~= st.take(st.len() - (i + 1)));
            }
            arguments.push(e);
            i = i + 1;
        }
        let ghost args_rev = st.skip(st.len() - count).reverse();
        let mut ordered: Vec<Expression> = Vec::new();
        while arguments.len() > 0
            invariant
                stack_view(arguments@) == args_rev.take(arguments@.len() as int),
                arguments@.len() <= args_rev.len(),
                stack_view(ordered@) == args_rev.skip(arguments@.len() as int).reverse(),
                args_rev.len() == count,
            decreases arguments@.len(),
        {
            let ghost k = arguments@.len();
            let ghost old_args = arguments@;
            let e = arguments.pop().unwrap();
            proof {
                assert(stack_view(arguments@) =~= args_rev.take(k - 1));
                assert(stack_view(old_args)[k - 1] == e@);
                assert(args_rev.take(k as int)[k - 1] == args_rev[k - 1]);
                assert(args_rev.skip(k - 1).reverse() =~= args_rev.skip(k as int).reverse().push(e@));
                assert(stack_view(ordered@.push(e)) =~= stack_view(ordered@).push(e@));
            }
            ordered.push(e);
        }
        proof {
            assert(args_rev.skip(0) =~= args_rev);
            assert(st.skip(st.len() - count).reverse().reverse() =~= st.skip(st.len() - count));
        }
        ordered
    }

    /// Lift `MIN`/`MAX`/`WITHIN` to a built-in call on the top items.
    fn lift_builtin_call(&mut self, f: BuiltinFn) -> (r: Result<Vec<Operation>, LiftError>)
        requires
            old(self).var_counter < u32::MAX,
        ensures
            step_agrees(r, final(self).state(), builtin_step(old(self).state(), f)),
    {
        let (name, arg_count) = match f {
            BuiltinFn::Min => ("min", 2usize),
            BuiltinFn::Max => ("max", 2usize),
            BuiltinFn::Within => ("within", 3usize),
        };
        match self.validate_stack_depth(arg_count) { Ok(()) => {}, Err(e) => return Err(e) }
        let arguments = self.pop_arguments(arg_count);
        let target = self.create_temp_variable(Type::Unknown);
        let operation = Operation::BuiltinCall {
            name: String::from_str(name),
            arguments,
            target: Some(target.clone_variable()),
        };
        self.push_stack(Expression::Variable(target));
        proof {
            assert(crate::engine::ir::exprs_view(arguments@) == stack_view(arguments@)) by {
                lemma_exprs_view_is_map(arguments@);
            }
        }
        Ok(one_op(operation))
    }
}

/// The recursive model of an expression list is its element-wise model.
proof fn lemma_exprs_view_is_map(s: Seq<Expression>)
    ensures
        crate::engine::ir::exprs_view(s) == stack_view(s),
    decreases s.len(),
{
    reveal_with_fuel(crate::engine::ir::exprs_view, 2);
    if s.len() > 0 {
        lemma_exprs_view_is_map(s.drop_first());
        assert(stack_view(s) =~= seq![s[0]@] + stack_view(s.drop_first()));
    } else {
        assert(stack_view(s) =~= Seq::<ExprView>::empty());
    }
}



impl IRLifter {
    /// Display name of a syscall hash.
    fn resolve_syscall_name(&self, hash: u32) -> (r: String)
        ensures
            r@ == resolved_name(self.syscall_db@, hash),
    {
        self.syscall_db.resolve_name(hash)
    }

    /// Number of arguments a syscall takes, 0 when unknown.
    fn get_syscall_arg_count(&self, hash: u32) -> (r: usize)
        ensures
            r == (if self.syscall_db@.by_hash.contains_key(hash) {
                self.syscall_db@.by_hash[hash].parameters.len()
            } else {
                0
            }),
    {
        self.syscall_db.get_arg_count(hash)
    }

    /// Whether a syscall pushes a result.
    fn syscall_returns_value(&self, hash: u32) -> (r: bool)
        ensures
            r == spec_returns_value(self.syscall_db@, hash),
    {
        self.syscall_db.returns_value(hash)
    }

    /// Lift a load of a local slot.
    fn lift_load_local(&mut self, slot: u32) -> (r: Result<Vec<Operation>, LiftError>)
        requires
            old(self).var_counter < u32::MAX,
        ensures
            step_agrees(r, final(self).state(), load_step(old(self).state(), SlotKind::Local, slot)),
    {
        let var = self.get_or_create_local(slot);
        self.push_stack(Expression::Variable(var));
        Ok(no_ops())
    }

    /// Lift a load of an argument slot.
    fn lift_load_arg(&mut self, slot: u32) -> (r: Result<Vec<Operation>, LiftError>)
        requires
            old(self).var_counter < u32::MAX,
        ensures
            step_agrees(r, final(self).state(), load_step(old(self).state(), SlotKind::Argument, slot)),
    {
        let var = self.get_or_create_arg(slot);
        self.push_stack(Expression::Variable(var));
        Ok(no_ops())
    }

    /// Lift a load of a static field slot.
    fn lift_load_static(&mut self, slot: u32) -> (r: Result<Vec<Operation>, LiftError>)
        requires
            old(self).var_counter < u32::MAX,
        ensures
            step_agrees(r, final(self).state(), load_step(old(self).state(), SlotKind::Static, slot)),
    {
        let var = self.get_or_create_static(slot);
        self.push_stack(Expression::Variable(var));
        Ok(no_ops())
    }

    /// Lift a store into a local slot.
    fn lift_store_local(&mut self, slot: u32) -> (r: Result<Vec<Operation>, LiftError>)
        requires
            old(self).var_counter < u32::MAX,
        ensures
            step_agrees(r, final(self).state(), store_step(old(self).state(), SlotKind::Local, slot)),
    {
        let value = match self.pop_stack() { Ok(e) => e, Err(e) => return Err(e) };
        let target = self.get_or_create_local(slot);
        Ok(one_op(Operation::Assign { target, source: value }))
    }

    /// Lift a store into an argument slot.
    fn lift_store_arg(&mut self, slot: u32) -> (r: Result<Vec<Operation>, LiftError>)
        requires
            old(self).var_counter < u32::MAX,
        ensures
            step_agrees(r, final(self).state(), store_step(old(self).state(), SlotKind::Argument, slot)),
    {
        let value = match self.pop_stack() { Ok(e) => e, Err(e) => return Err(e) };
        let target = self.get_or_create_arg(slot);
        Ok(one_op(Operation::Assign { target, source: value }))
    }

    /// Lift a store into a static field slot.
    fn lift_store_static(&mut self, slot: u32) -> (r: Result<Vec<Operation>, LiftError>)
        requires
            old(self).var_counter < u32::MAX,
        ensures
            step_agrees(r, final(self).state(), store_step(old(self).state(), SlotKind::Static, slot)),
    {
        let value = match self.pop_stack() { Ok(e) => e, Err(e) => return Err(e) };
        let target = self.get_or_create_static(slot);
        Ok(one_op(Operation::Assign { target, source: value }))
    }

    /// Lift `LDLOC`, `LDARG` or `LDSFLD` with a slot operand.
    fn lift_load_operand(&mut self, instruction: &Instruction, kind: SlotKind) -> (r: Result<Vec<Operation>, LiftError>)
        requires
            old(self).var_counter < u32::MAX,
        ensures
            step_agrees(r, final(self).state(), load_operand_step(old(self).state(), instruction@, kind)),
    {
        if let Some(Operand::SlotIndex(slot)) = &instruction.operand {
            match kind {
                SlotKind::Local => self.lift_load_local(*slot as u32),
                SlotKind::Argument => self.lift_load_arg(*slot as u32),
                SlotKind::Static => self.lift_load_static(*slot as u32),
            }
        } else {
            Err(LiftError::InvalidOperand { offset: instruction.offset })
        }
    }

    /// Lift `STLOC`, `STARG` or `STSFLD` with a slot operand.
    fn lift_store_operand(&mut self, instruction: &Instruction, kind: SlotKind) -> (r: Result<Vec<Operation>, LiftError>)
        requires
            old(self).var_counter < u32::MAX,
        ensures
            step_agrees(r, final(self).state(), store_operand_step(old(self).state(), instruction@, kind)),
    {
        if let Some(Operand::SlotIndex(slot)) = &instruction.operand {
            match kind {
                SlotKind::Local => self.lift_store_local(*slot as u32),
                SlotKind::Argument => self.lift_store_arg(*slot as u32),
                SlotKind::Static => self.lift_store_static(*slot as u32),
            }
        } else {
            Err(LiftError::InvalidOperand { offset: instruction.offset })
        }
    }

    /// Lift `INITSLOT`: a comment; an empty stack first gets four placeholder arguments.
    fn lift_init_slot(&mut self, instruction: &Instruction) -> (r: Result<Vec<Operation>, LiftError>)
        requires
            old(self).var_counter + 4 <= u32::MAX,
        ensures
            step_agrees(r, final(self).state(), init_slot_step(old(self).state(), instruction@)),
    {
        if let Some(Operand::SlotInit { local_slots, static_slots }) = &instruction.operand {
            if self.stack.len() == 0 {
                let ghost s0 = old(self).state();
                let mut i: u32 = 0;
                while i < 4
                    invariant
                        i <= 4,
                        s0 == old(self).state(),
                        s0.stack.len() == 0,
                        old(self).var_counter + 4 <= u32::MAX,
                        self.var_counter == old(self).var_counter + i,
                        i == 0 ==> self.state() == s0,
                        i > 0 ==> self.state() == bump(
                            LiftState { counter: s0.counter + i, ..s0 },
                            seq![
                                var_expr(placeholder_arg(0, s0.counter)),
                                var_expr(placeholder_arg(1, s0.counter + 1)),
                                var_expr(placeholder_arg(2, s0.counter + 2)),
                                var_expr(placeholder_arg(3, s0.counter + 3)),
                            ].take(i as int),
                        ),
                    decreases 4 - i,
                {
                    let arg_var = Variable {
                        name: prefixed_decimal("arg_", i as u64),
                        id: self.var_counter,
                        var_type: VariableType::Parameter,
                    };
                    proof {
                        reveal_strlit("arg_");
                    }
                    self.var_counter = self.var_counter + 1;
                    let ghost pushed = seq![
                        var_expr(placeholder_arg(0, s0.counter)),
                        var_expr(placeholder_arg(1, s0.counter + 1)),
                        var_expr(placeholder_arg(2, s0.counter + 2)),
                        var_expr(placeholder_arg(3, s0.counter + 3)),
                    ];
                    proof {
                        assert(arg_var@ == placeholder_arg(i as nat, s0.counter + i));
                        assert(pushed.take(i + 1) =~= pushed.take(i as int).push(var_expr(arg_var@)));
                        if i == 0 {
                            assert(pushed.take(0) =~= Seq::<ExprView>::empty());
                        }
                    }
                    self.push_stack(Expression::Variable(arg_var));
                    proof {
                        assert(self.state().stack =~= pushed.take(i + 1));
                        assert(self.state().counter == s0.counter + i + 1);
                        assert(self.state().max_depth == max_int(s0.max_depth, i + 1));
                        assert(self.state() == bump(LiftState { counter: s0.counter + i + 1, ..s0 }, pushed.take(i + 1)));
                    }
                    i = i + 1;
                }
                proof {
                    let pushed = seq![
                        var_expr(placeholder_arg(0, old(self).state().counter)),
                        var_expr(placeholder_arg(1, old(self).state().counter + 1)),
                        var_expr(placeholder_arg(2, old(self).state().counter + 2)),
                        var_expr(placeholder_arg(3, old(self).state().counter + 3)),
                    ];
                    assert(pushed.take(4) =~= pushed);
                }
            }
            let mut comment = String::from_str("Initialize ");
            crate::text::push_decimal(&mut comment, *local_slots as u64);
            comment.append(" local slots, ");
            crate::text::push_decimal(&mut comment, *static_slots as u64);
            comment.append(" static slots");
            proof {
                assert(comment@ =~= init_slot_comment(*local_slots, *static_slots));
            }
            Ok(one_op(Operation::Comment(comment)))
        } else {
            Ok(no_ops())
        }
    }

    /// Lift `INITSSLOT`: a comment.
    fn lift_init_static_slot(&mut self, instruction: &Instruction) -> (r: Result<Vec<Operation>, LiftError>)
        ensures
            step_agrees(r, final(self).state(), init_static_slot_step(old(self).state(), instruction@)),
    {
        if let Some(Operand::SlotInit { static_slots, .. }) = &instruction.operand {
            let mut comment = String::from_str("Initialize ");
            crate::text::push_decimal(&mut comment, *static_slots as u64);
            comment.append(" static slots");
            proof {
                assert(comment@ =~= init_static_comment(*static_slots));
            }
            Ok(one_op(Operation::Comment(comment)))
        } else {
            Ok(no_ops())
        }
    }

    /// Lift `NEWARRAY0`: an empty array.
    fn lift_new_array_zero(&mut self) -> (r: Result<Vec<Operation>, LiftError>)
        ensures
            step_agrees(r, final(self).state(), new_array0_step(old(self).state())),
    {
        proof {
            reveal_with_fuel(crate::engine::ir::expr_view, 2);
        }
        self.push_stack(Expression::ArrayCreate {
            element_type: Box::new(Type::Unknown),
            size: Box::new(Expression::Literal(Literal::Integer(0))),
        });
        Ok(no_ops())
    }

    /// Lift `NEWARRAY`/`NEWARRAY_T`: an array of the popped size.
    fn lift_new_array(&mut self) -> (r: Result<Vec<Operation>, LiftError>)
        ensures
            step_agrees(r, final(self).state(), new_array_step(old(self).state())),
    {
        proof { lemma_drop_top(old(self).state().stack); }
        let count = match self.pop_stack() { Ok(e) => e, Err(e) => return Err(e) };
        self.push_stack(Expression::ArrayCreate { element_type: Box::new(Type::Unknown), size: Box::new(count) });
        proof {
            let st = old(self).state().stack;
            assert(self.state().stack =~= st.take(st.len() - 1) + seq![self.state().stack.last()]);
        }
        Ok(no_ops())
    }

    /// Lift `NEWSTRUCT0`: an empty struct.
    fn lift_new_struct_zero(&mut self) -> (r: Result<Vec<Operation>, LiftError>)
        ensures
            step_agrees(r, final(self).state(), new_struct0_step(old(self).state())),
    {
        let fields: Vec<(String, Expression)> = Vec::new();
        proof {
            assert(crate::engine::ir::named_view(fields@) =~= Seq::empty());
        }
        self.push_stack(Expression::StructCreate { fields });
        Ok(no_ops())
    }

    /// Lift `NEWSTRUCT`: a struct; the popped field count is not kept.
    fn lift_new_struct(&mut self) -> (r: Result<Vec<Operation>, LiftError>)
        ensures
            step_agrees(r, final(self).state(), new_struct_step(old(self).state())),
    {
        proof { lemma_drop_top(old(self).state().stack); }
        match self.pop_stack() { Ok(_) => {}, Err(e) => return Err(e) }
        let fields: Vec<(String, Expression)> = Vec::new();
        proof {
            assert(crate::engine::ir::named_view(fields@) =~= Seq::empty());
        }
        self.push_stack(Expression::StructCreate { fields });
        proof {
            let st = old(self).state().stack;
            assert(self.state().stack =~= st.take(st.len() - 1) + seq![self.state().stack.last()]);
        }
        Ok(no_ops())
    }

    /// Lift `NEWMAP`: an empty map.
    fn lift_new_map(&mut self) -> (r: Result<Vec<Operation>, LiftError>)
        ensures
            step_agrees(r, final(self).state(), new_map_step(old(self).state())),
    {
        let entries: Vec<(Expression, Expression)> = Vec::new();
        proof {
            assert(crate::engine::ir::pairs_view(entries@) =~= Seq::empty());
        }
        self.push_stack(Expression::MapCreate { entries });
        Ok(no_ops())
    }

    /// Lift `NEWBUFFER`: a zero-filled byte array of the operand's size.
    fn lift_new_buffer(&mut self, instruction: &Instruction) -> (r: Result<Vec<Operation>, LiftError>)
        ensures
            step_agrees(r, final(self).state(), new_buffer_step(old(self).state(), instruction@)),
    {
        if let Some(Operand::BufferSize(size)) = &instruction.operand {
            self.push_stack(Expression::Literal(Literal::ByteArray(zero_bytes(*size))));
        }
        Ok(no_ops())
    }
}



impl IRLifter {
    /// Lift `APPEND`: append the top item to the array below it.
    fn lift_array_append(&mut self) -> (r: Result<Vec<Operation>, LiftError>)
        requires
            old(self).var_counter < u32::MAX,
        ensures
            step_agrees(r, final(self).state(), append_step(old(self).state())),
    {
        proof { lemma_drop_top(old(self).state().stack); }
        let item = match self.pop_stack() { Ok(e) => e, Err(e) => return Err(e) };
        let array = match self.pop_stack() { Ok(e) => e, Err(e) => return Err(e) };
        let target = self.create_temp_variable(Type::Unknown);
        let operation = Operation::ArrayOp {
            operation: ArrayOperation::Append,
            array,
            index: None,
            value: Some(item),
            target: Some(target.clone_variable()),
        };
        self.push_stack(Expression::Variable(target));
        Ok(one_op(operation))
    }

    /// Lift `SETITEM`: store a value at an index.
    fn lift_array_set_item(&mut self) -> (r: Result<Vec<Operation>, LiftError>)
        ensures
            step_agrees(r, final(self).state(), set_item_step(old(self).state())),
    {
        proof { lemma_drop_top(old(self).state().stack); }
        let value = match self.pop_stack() { Ok(e) => e, Err(e) => return Err(e) };
        let index = match self.pop_stack() { Ok(e) => e, Err(e) => return Err(e) };
        let array = match self.pop_stack() { Ok(e) => e, Err(e) => return Err(e) };
        Ok(one_op(Operation::ArrayOp {
            operation: ArrayOperation::SetItem,
            array,
            index: Some(index),
            value: Some(value),
            target: None,
        }))
    }

    /// Lift `PICKITEM`: read the item at an index.
    fn lift_array_pick_item(&mut self) -> (r: Result<Vec<Operation>, LiftError>)
        requires
            old(self).var_counter < u32::MAX,
        ensures
            step_agrees(r, final(self).state(), pick_item_step(old(self).state())),
    {
        proof { lemma_drop_top(old(self).state().stack); }
        let index = match self.pop_stack() { Ok(e) => e, Err(e) => return Err(e) };
        let array = match self.pop_stack() { Ok(e) => e, Err(e) => return Err(e) };
        let target = self.create_temp_variable(Type::Unknown);
        let operation = Operation::ArrayOp {
            operation: ArrayOperation::GetItem,
            array,
            index: Some(index),
            value: None,
            target: Some(target.clone_variable()),
        };
        self.push_stack(Expression::Variable(target));
        Ok(one_op(operation))
    }

    /// Lift `REMOVE`: remove the item at an index.
    fn lift_array_remove(&mut self) -> (r: Result<Vec<Operation>, LiftError>)
        ensures
            step_agrees(r, final(self).state(), remove_step(old(self).state())),
    {
        proof { lemma_drop_top(old(self).state().stack); }
        let index = match self.pop_stack() { Ok(e) => e, Err(e) => return Err(e) };
        let array = match self.pop_stack() { Ok(e) => e, Err(e) => return Err(e) };
        Ok(one_op(Operation::ArrayOp {
            operation: ArrayOperation::Remove,
            array,
            index: Some(index),
            value: None,
            target: None,
        }))
    }

    /// Lift `SIZE`: the size of a collection.
    fn lift_array_size(&mut self) -> (r: Result<Vec<Operation>, LiftError>)
        requires
            old(self).var_counter < u32::MAX,
        ensures
            step_agrees(r, final(self).state(), size_step(old(self).state())),
    {
        proof { lemma_drop_top(old(self).state().stack); }
        let array = match self.pop_stack() { Ok(e) => e, Err(e) => return Err(e) };
        let target = self.create_temp_variable(Type::Unknown);
        let operation = Operation::ArrayOp {
            operation: ArrayOperation::Size,
            array,
            index: None,
            value: None,
            target: Some(target.clone_variable()),
        };
        self.push_stack(Expression::Variable(target));
        Ok(one_op(operation))
    }

    /// Lift `CLEARITEMS`: empty a collection.
    fn lift_array_clear(&mut self) -> (r: Result<Vec<Operation>, LiftError>)
        ensures
            step_agrees(r, final(self).state(), clear_items_step(old(self).state())),
    {
        proof { lemma_drop_top(old(self).state().stack); }
        let array = match self.pop_stack() { Ok(e) => e, Err(e) => return Err(e) };
        Ok(one_op(Operation::ArrayOp {
            operation: ArrayOperation::Clear,
            array,
            index: None,
            value: None,
            target: None,
        }))
    }

    /// Lift `HASKEY`: whether a map has a key.
    fn lift_map_has_key(&mut self) -> (r: Result<Vec<Operation>, LiftError>)
        requires
            old(self).var_counter < u32::MAX,
        ensures
            step_agrees(r, final(self).state(), has_key_step(old(self).state())),
    {
        proof { lemma_drop_top(old(self).state().stack); }
        let key = match self.pop_stack() { Ok(e) => e, Err(e) => return Err(e) };
        let map = match self.pop_stack() { Ok(e) => e, Err(e) => return Err(e) };
        let target = self.create_temp_variable(Type::Unknown);
        let operation = Operation::MapOp {
            operation: MapOperation::HasKey,
            map,
            key,
            value: None,
            target: Some(target.clone_variable()),
        };
        self.push_stack(Expression::Variable(target));
        Ok(one_op(operation))
    }

    /// Lift `KEYS`: the keys of a map.
    fn lift_map_keys(&mut self) -> (r: Result<Vec<Operation>, LiftError>)
        requires
            old(self).var_counter < u32::MAX,
        ensures
            step_agrees(r, final(self).state(), keys_step(old(self).state())),
    {
        proof { lemma_drop_top(old(self).state().stack); }
        let map = match self.pop_stack() { Ok(e) => e, Err(e) => return Err(e) };
        let target = self.create_temp_variable(Type::Unknown);
        let operation = Operation::MapOp {
            operation: MapOperation::Keys,
            map,
            key: Expression::Literal(Literal::Null),
            value: None,
            target: Some(target.clone_variable()),
        };
        self.push_stack(Expression::Variable(target));
        Ok(one_op(operation))
    }

    /// Lift `VALUES`: the values of a map.
    fn lift_map_values(&mut self) -> (r: Result<Vec<Operation>, LiftError>)
        requires
            old(self).var_counter < u32::MAX,
        ensures
            step_agrees(r, final(self).state(), values_step(old(self).state())),
    {
        proof { lemma_drop_top(old(self).state().stack); }
        let map = match self.pop_stack() { Ok(e) => e, Err(e) => return Err(e) };
        let target = self.create_temp_variable(Type::Unknown);
        let operation = Operation::MapOp {
            operation: MapOperation::Values,
            map,
            key: Expression::Literal(Literal::Null),
            value: None,
            target: Some(target.clone_variable()),
        };
        self.push_stack(Expression::Variable(target));
        Ok(one_op(operation))
    }

    /// Operand list of two expressions.
    fn operands2(a: Expression, b: Expression) -> (r: Vec<Expression>)
        ensures
            crate::engine::ir::exprs_view(r@) == seq![a@, b@],
    {
        let mut v: Vec<Expression> = Vec::new();
        v.push(a);
        v.push(b);
        proof {
            lemma_exprs_view_is_map(v@);
            assert(stack_view(v@) =~= seq![a@, b@]);
        }
        v
    }

    /// Lift `CAT`: concatenate two strings.
    fn lift_string_concat(&mut self) -> (r: Result<Vec<Operation>, LiftError>)
        requires
            old(self).var_counter < u32::MAX,
        ensures
            step_agrees(r, final(self).state(), concat_step(old(self).state())),
    {
        proof { lemma_drop_top(old(self).state().stack); }
        let b = match self.pop_stack() { Ok(e) => e, Err(e) => return Err(e) };
        let a = match self.pop_stack() { Ok(e) => e, Err(e) => return Err(e) };
        let target = self.create_temp_variable(Type::Unknown);
        let operation = Operation::StringOp {
            operation: StringOperation::Concat,
            operands: Self::operands2(a, b),
            target: target.clone_variable(),
        };
        self.push_stack(Expression::Variable(target));
        Ok(one_op(operation))
    }

    /// Lift `SUBSTR`: a substring by start and length.
    fn lift_string_substring(&mut self) -> (r: Result<Vec<Operation>, LiftError>)
        requires
            old(self).var_counter < u32::MAX,
        ensures
            step_agrees(r, final(self).state(), substr_step(old(self).state())),
    {
        proof { lemma_drop_top(old(self).state().stack); }
        let length = match self.pop_stack() { Ok(e) => e, Err(e) => return Err(e) };
        let start = match self.pop_stack() { Ok(e) => e, Err(e) => return Err(e) };
        let string = match self.pop_stack() { Ok(e) => e, Err(e) => return Err(e) };
        let target = self.create_temp_variable(Type::Unknown);
        let mut operands: Vec<Expression> = Vec::new();
        let ghost (sv, tv, lv) = (string@, start@, length@);
        operands.push(string);
        operands.push(start);
        operands.push(length);
        proof {
            lemma_exprs_view_is_map(operands@);
            assert(stack_view(operands@) =~= seq![sv, tv, lv]);
        }
        let operation = Operation::StringOp {
            operation: StringOperation::Substring,
            operands,
            target: target.clone_variable(),
        };
        self.push_stack(Expression::Variable(target));
        Ok(one_op(operation))
    }

    /// Lift `LEFT`: the first characters of a string.
    fn lift_string_left(&mut self) -> (r: Result<Vec<Operation>, LiftError>)
        requires
            old(self).var_counter < u32::MAX,
        ensures
            step_agrees(r, final(self).state(), left_step(old(self).state())),
    {
        proof { lemma_drop_top(old(self).state().stack); }
        let count = match self.pop_stack() { Ok(e) => e, Err(e) => return Err(e) };
        let string = match self.pop_stack() { Ok(e) => e, Err(e) => return Err(e) };
        let target = self.create_temp_variable(Type::Unknown);
        let operation = Operation::StringOp {
            operation: StringOperation::Left,
            operands: Self::operands2(string, count),
            target: target.clone_variable(),
        };
        self.push_stack(Expression::Variable(target));
        Ok(one_op(operation))
    }

    /// Lift `RIGHT`: the last characters of a string.
    fn lift_string_right(&mut self) -> (r: Result<Vec<Operation>, LiftError>)
        requires
            old(self).var_counter < u32::MAX,
        ensures
            step_agrees(r, final(self).state(), right_step(old(self).state())),
    {
        proof { lemma_drop_top(old(self).state().stack); }
        let count = match self.pop_stack() { Ok(e) => e, Err(e) => return Err(e) };
        let string = match self.pop_stack() { Ok(e) => e, Err(e) => return Err(e) };
        let target = self.create_temp_variable(Type::Unknown);
        let operation = Operation::StringOp {
            operation: StringOperation::Right,
            operands: Self::operands2(string, count),
            target: target.clone_variable(),
        };
        self.push_stack(Expression::Variable(target));
        Ok(one_op(operation))
    }

    /// Lift `PACK*`: an array of the operand's count replaces that many items.
    fn lift_pack(&mut self, instruction: &Instruction) -> (r: Result<Vec<Operation>, LiftError>)
        ensures
            step_agrees(r, final(self).state(), pack_step(old(self).state(), instruction@)),
    {
        proof {
            reveal_with_fuel(crate::engine::ir::expr_view, 2);
        }
        if let Some(Operand::Count(count)) = &instruction.operand {
            match self.validate_stack_depth(*count as usize) { Ok(()) => {}, Err(e) => return Err(e) }
            let _items = self.pop_arguments(*count as usize);
            let packed = Expression::ArrayCreate {
                element_type: Box::new(Type::Unknown),
                size: Box::new(Expression::Literal(Literal::Integer(*count as i64))),
            };
            let ghost pv = packed@;
            self.push_stack(packed);
            proof {
                let st = old(self).state().stack;
                assert(pv == ExprView::ArrayCreate { element_type: TypeView::Unknown, size: Box::new(int_lit(*count as i64)) });
                assert(self.state().stack =~= st.take(st.len() - *count) + seq![pv]);
            }
        }
        Ok(no_ops())
    }

    /// Lift `UNPACK`: the collection stays on the stack.
    fn lift_unpack(&mut self) -> (r: Result<Vec<Operation>, LiftError>)
        ensures
            step_agrees(r, final(self).state(), unpack_step(old(self).state())),
    {
        proof { lemma_drop_top(old(self).state().stack); }
        let array = match self.pop_stack() { Ok(e) => e, Err(e) => return Err(e) };
        self.push_stack(array);
        proof {
            let st = old(self).state().stack;
            assert(self.state().stack =~= st.take(st.len() - 1) + seq![st[st.len() - 1]]);
        }
        Ok(no_ops())
    }

    /// Lift a type test of the top item against `check_type`.
    fn lift_type_check(&mut self, check_type: Type) -> (r: Result<Vec<Operation>, LiftError>)
        requires
            old(self).var_counter < u32::MAX,
        ensures
            step_agrees(r, final(self).state(), temp_step(
                old(self).state(),
                1,
                OpView::TypeCheck {
                    value: below(old(self).state(), 0),
                    target_type: check_type@,
                    target: temp_var(old(self).state().counter),
                },
            )),
    {
        proof { lemma_drop_top(old(self).state().stack); }
        let value = match self.pop_stack() { Ok(e) => e, Err(e) => return Err(e) };
        let target = self.create_temp_variable(Type::Unknown);
        let operation = Operation::TypeCheck { value, target_type: check_type, target: target.clone_variable() };
        self.push_stack(Expression::Variable(target));
        Ok(one_op(operation))
    }

    /// Lift `ISTYPE`: a type test against the operand's type.
    fn lift_is_type(&mut self, instruction: &Instruction) -> (r: Result<Vec<Operation>, LiftError>)
        requires
            old(self).var_counter < u32::MAX,
        ensures
            step_agrees(r, final(self).state(), is_type_step(old(self).state(), instruction@)),
    {
        if let Some(Operand::StackItemType(item_type)) = &instruction.operand {
            let check_type = stack_item_type_to_type(*item_type);
            self.lift_type_check(check_type)
        } else {
            Err(LiftError::InvalidOperand { offset: instruction.offset })
        }
    }

    /// Lift `CONVERT`: a conversion to the operand's type.
    fn lift_convert(&mut self, instruction: &Instruction) -> (r: Result<Vec<Operation>, LiftError>)
        requires
            old(self).var_counter < u32::MAX,
        ensures
            step_agrees(r, final(self).state(), convert_step(old(self).state(), instruction@)),
    {
        proof { lemma_drop_top(old(self).state().stack); }
        if let Some(Operand::StackItemType(target_type)) = &instruction.operand {
            let value = match self.pop_stack() { Ok(e) => e, Err(e) => return Err(e) };
            let convert_type = stack_item_type_to_type(*target_type);
            let target = self.create_temp_variable(crate::analysis::types::clone_type(&convert_type));
            let operation = Operation::Convert { source: value, target_type: convert_type, target: target.clone_variable() };
            self.push_stack(Expression::Variable(target));
            Ok(one_op(operation))
        } else {
            Err(LiftError::InvalidOperand { offset: instruction.offset })
        }
    }

    /// Lift `SYSCALL`: pop the declared arguments, call, and push a result if the
    /// syscall returns one.
    fn lift_syscall(&mut self, instruction: &Instruction) -> (r: Result<Vec<Operation>, LiftError>)
        requires
            old(self).var_counter < u32::MAX,
        ensures
            step_agrees(r, final(self).state(), syscall_step(old(self).state(), instruction@)),
    {
        if let Some(Operand::SyscallHash(hash)) = &instruction.operand {
            let syscall_name = self.resolve_syscall_name(*hash);
            let arg_count = self.get_syscall_arg_count(*hash);
            match self.validate_stack_depth(arg_count) { Ok(()) => {}, Err(e) => return Err(e) }
            let arguments = self.pop_arguments(arg_count);
            proof {
                lemma_exprs_view_is_map(arguments@);
            }
            let target = if self.syscall_returns_value(*hash) {
                let return_type = match self.syscall_db.get_signature(*hash) {
                    Some(signature) => crate::analysis::types::clone_type(&signature.return_type),
                    None => Type::Unknown,
                };
                let var = self.create_temp_variable(return_type);
                let copy = var.clone_variable();
                self.push_stack(Expression::Variable(var));
                Some(copy)
            } else {
                None
            };
            Ok(one_op(Operation::Syscall {
                name: syscall_name,
                arguments,
                return_type: Some(Type::Unknown),
                target,
            }))
        } else {
            Err(LiftError::InvalidOperand { offset: instruction.offset })
        }
    }

    /// Lift `ASSERT`/`ASSERTMSG`: an assertion of the condition, with the message if any.
    fn lift_assert(&mut self, has_message: bool) -> (r: Result<Vec<Operation>, LiftError>)
        ensures
            step_agrees(r, final(self).state(), assert_step(old(self).state(), has_message)),
    {
        proof { lemma_drop_top(old(self).state().stack); }
        if has_message {
            let msg = match self.pop_stack() { Ok(e) => e, Err(e) => return Err(e) };
            let cond = match self.pop_stack() { Ok(e) => e, Err(e) => return Err(e) };
            Ok(one_op(Operation::Assert { condition: cond, message: Some(msg) }))
        } else {
            let cond = match self.pop_stack() { Ok(e) => e, Err(e) => return Err(e) };
            Ok(one_op(Operation::Assert { condition: cond, message: None }))
        }
    }

    /// The comment recorded for an opcode without a lifting.
    fn unhandled(instruction: &Instruction) -> (r: Vec<Operation>)
        ensures
            ops_view(r@) == seq![OpView::Comment(unhandled_comment(instruction.opcode, instruction.offset))],
    {
        let mut comment = String::from_str("Unhandled opcode: ");
        let name = instruction.opcode.name();
        comment.append(name.as_str());
        comment.append(" at offset ");
        crate::text::push_decimal(&mut comment, instruction.offset as u64);
        proof {
            assert(comment@ =~= unhandled_comment(instruction.opcode, instruction.offset));
        }
        one_op(Operation::Comment(comment))
    }
}



impl IRLifter {
    /// Lift one instruction to operations, updating the simulated stack.
    ///
    /// Control transfers yield no operations here; their effect on the stack is
    /// taken by the block terminator.
    pub fn lift_instruction(&mut self, instruction: &Instruction) -> (r: Result<Vec<Operation>, LiftError>)
        requires
            old(self).var_counter + 4 <= u32::MAX,
            rel_in_range(instruction@),
        ensures
            step_agrees(r, final(self).state(), lift_step(old(self).state(), instruction@)),
    {
        proof {
            reveal(lift_step);
        }
        self.current_offset = instruction.offset;
        self.update_max_stack_depth();
        let kind = classify(instruction.opcode);
        match kind {
            LiftKind::Control => Ok(no_ops()),
            LiftKind::PushConst => self.lift_push_constant(instruction),
            LiftKind::PushInt(v) => {
                self.push_stack(Expression::Literal(Literal::Integer(v)));
                Ok(no_ops())
            },
            LiftKind::PushBool(b) => {
                self.push_stack(Expression::Literal(Literal::Boolean(b)));
                Ok(no_ops())
            },
            LiftKind::PushNull => {
                self.push_stack(Expression::Literal(Literal::Null));
                Ok(no_ops())
            },
            LiftKind::PushData => self.lift_push_data(instruction),
            LiftKind::PushAddress => self.lift_push_address(instruction),
            LiftKind::Nop => Ok(one_op(Operation::Comment(String::from_str("NOP")))),
            LiftKind::Depth => {
                self.lift_stack_depth();
                Ok(no_ops())
            },
            LiftKind::Drop => {
                match self.pop_stack() {
                    Ok(_) => {},
                    Err(e) => return Err(e),
                }
                proof { lemma_drop_top(old(self).state().stack); }
                Ok(no_ops())
            },
            LiftKind::Nip => self.lift_nip(),
            LiftKind::XDrop => self.lift_xdrop(instruction),
            LiftKind::Clear => {
                self.stack.clear();
                proof {
                    assert(stack_view(self.stack@) =~= Seq::<ExprView>::empty());
                }
                Ok(no_ops())
            },
            LiftKind::Dup => self.lift_dup(),
            LiftKind::Over => self.lift_over(),
            LiftKind::Pick => self.lift_pick(instruction),
            LiftKind::Tuck => self.lift_tuck(),
            LiftKind::Swap => self.lift_swap(),
            LiftKind::Rot => self.lift_rot(),
            LiftKind::Roll => self.lift_roll(instruction),
            LiftKind::Reverse3 => self.lift_reverse3(),
            LiftKind::Reverse4 => self.lift_reverse4(),
            LiftKind::ReverseN => self.lift_reversen(instruction),
            LiftKind::Binary(op) => self.lift_binary_arithmetic(op),
            LiftKind::Shift(left_shift) => self.lift_shift(left_shift),
            LiftKind::Unary(op) => self.lift_unary_op(op),
            LiftKind::Increment(delta) => self.lift_increment(delta),
            LiftKind::NotZero => self.lift_not_zero(),
            LiftKind::Builtin(f) => self.lift_builtin_call(f),
            LiftKind::Load(SlotKind::Local, slot) => self.lift_load_local(slot),
            LiftKind::Load(SlotKind::Argument, slot) => self.lift_load_arg(slot),
            LiftKind::Load(SlotKind::Static, slot) => self.lift_load_static(slot),
            LiftKind::LoadOperand(k) => self.lift_load_operand(instruction, k),
            LiftKind::StoreOperand(k) => self.lift_store_operand(instruction, k),
            LiftKind::InitSlot => self.lift_init_slot(instruction),
            LiftKind::InitStaticSlot => self.lift_init_static_slot(instruction),
            LiftKind::NewArray0 => self.lift_new_array_zero(),
            LiftKind::NewArray => self.lift_new_array(),
            LiftKind::NewStruct0 => self.lift_new_struct_zero(),
            LiftKind::NewStruct => self.lift_new_struct(),
            LiftKind::NewMap => self.lift_new_map(),
            LiftKind::NewBuffer => self.lift_new_buffer(instruction),
            LiftKind::Append => self.lift_array_append(),
            LiftKind::SetItem => self.lift_array_set_item(),
            LiftKind::PickItem => self.lift_array_pick_item(),
            LiftKind::Remove => self.lift_array_remove(),
            LiftKind::Size => self.lift_array_size(),
            LiftKind::ClearItems => self.lift_array_clear(),
            LiftKind::HasKey => self.lift_map_has_key(),
            LiftKind::Keys => self.lift_map_keys(),
            LiftKind::Values => self.lift_map_values(),
            LiftKind::Concat => self.lift_string_concat(),
            LiftKind::Substr => self.lift_string_substring(),
            LiftKind::Left => self.lift_string_left(),
            LiftKind::Right => self.lift_string_right(),
            LiftKind::Pack => self.lift_pack(instruction),
            LiftKind::Unpack => self.lift_unpack(),
            LiftKind::IsNull => self.lift_type_check(Type::Primitive(PrimitiveType::Null)),
            LiftKind::IsType => self.lift_is_type(instruction),
            LiftKind::Convert => self.lift_convert(instruction),
            LiftKind::Syscall => self.lift_syscall(instruction),
            LiftKind::Assert(with_message) => self.lift_assert(with_message),
            LiftKind::Unhandled => Ok(Self::unhandled(instruction)),
        }
    }
}



/// The block of an offset: the last span holding it.
pub open spec fn span_lookup(spans: Seq<(u32, u32, BlockId)>, offset: u32) -> Option<BlockId>
    decreases spans.len(),
{
    if spans.len() == 0 {
        None
    } else if spans.last().0 <= offset < spans.last().1 {
        Some(spans.last().2)
    } else {
        span_lookup(spans.drop_last(), offset)
    }
}

/// The block of an offset, or block 0 when no span holds it.
pub open spec fn block_or_entry(spans: Seq<(u32, u32, BlockId)>, offset: u32) -> BlockId {
    match span_lookup(spans, offset) {
        Some(b) => b,
        None => 0,
    }
}

/// The offset just after an instruction.
pub open spec fn next_offset(ins: InstructionView) -> u32 {
    (ins.offset + ins.size) as u32
}

/// The absolute target of a relative jump operand, if the instruction has one.
pub open spec fn jump_target(ins: InstructionView) -> Option<u32> {
    match ins.operand {
        Some(OperandView::JumpTarget(t)) => Some(rel_target(ins.offset, t)),
        Some(OperandView::JumpTarget8(t)) => Some(rel_target(ins.offset, t as i32)),
        Some(OperandView::JumpTarget32(t)) => Some(rel_target(ins.offset, t)),
        _ => None,
    }
}

/// The comparison a conditional jump tests.
pub open spec fn compare_operator(op: OpCode) -> BinaryOperator {
    match op {
        OpCode::JMPEQ | OpCode::JMPEQ_L => BinaryOperator::Equal,
        OpCode::JMPNE | OpCode::JMPNE_L => BinaryOperator::NotEqual,
        OpCode::JMPGT | OpCode::JMPGT_L => BinaryOperator::Greater,
        OpCode::JMPGE | OpCode::JMPGE_L => BinaryOperator::GreaterEqual,
        OpCode::JMPLT | OpCode::JMPLT_L => BinaryOperator::Less,
        OpCode::JMPLE | OpCode::JMPLE_L => BinaryOperator::LessEqual,
        _ => BinaryOperator::Equal,
    }
}

/// Comparison jumps.
pub open spec fn is_compare_jump(op: OpCode) -> bool {
    matches!(op, OpCode::JMPEQ | OpCode::JMPEQ_L | OpCode::JMPNE | OpCode::JMPNE_L | OpCode::JMPGT
        | OpCode::JMPGT_L | OpCode::JMPGE | OpCode::JMPGE_L | OpCode::JMPLT | OpCode::JMPLT_L
        | OpCode::JMPLE | OpCode::JMPLE_L)
}

/// The outcome of building a terminator: the next state and the terminator, or an error.
pub type TermStep = Result<(LiftState, TermView), LiftError>;

/// Pop the top item if there is one, else use `default`.
pub open spec fn pop_or(s: LiftState, default: ExprView) -> (LiftState, ExprView) {
    if s.stack.len() > 0 {
        (with_stack(s, s.stack.drop_last()), s.stack.last())
    } else {
        (s, default)
    }
}

/// The terminator of a block whose last instruction is `ins`.
#[verifier::opaque]
pub open spec fn terminator_step(s: LiftState, ins: InstructionView) -> TermStep {
    let bad_flow = Err(LiftError::InvalidControlFlow { offset: ins.offset });
    let next_block = block_or_entry(s.spans, next_offset(ins));
    match ins.opcode {
        OpCode::RET => if s.stack.len() > 0 {
            Ok((with_stack(s, s.stack.drop_last()), TermView::Return(Some(s.stack.last()))))
        } else {
            Ok((s, TermView::Return(None)))
        },
        OpCode::ABORT => Ok((s, TermView::Abort(None))),
        OpCode::ABORTMSG => if s.stack.len() > 0 {
            Ok((with_stack(s, s.stack.drop_last()), TermView::Abort(Some(s.stack.last()))))
        } else {
            Ok((s, TermView::Abort(None)))
        },
        OpCode::THROW => {
            let (s1, e) = pop_or(s, null_lit());
            Ok((s1, TermView::Abort(Some(e))))
        },
        OpCode::JMP | OpCode::JMP_L => match jump_target(ins) {
            Some(t) => Ok((s, TermView::Jump(block_or_entry(s.spans, t)))),
            None => bad_flow,
        },
        OpCode::JMPIF | OpCode::JMPIF_L => match jump_target(ins) {
            Some(t) => {
                let (s1, c) = pop_or(s, ExprView::Literal(LiteralView::Boolean(true)));
                Ok((s1, TermView::Branch { condition: c, true_target: block_or_entry(s.spans, t), false_target: next_block }))
            },
            None => bad_flow,
        },
        OpCode::JMPIFNOT | OpCode::JMPIFNOT_L => match jump_target(ins) {
            Some(t) => {
                let (s1, c) = pop_or(s, ExprView::Literal(LiteralView::Boolean(true)));
                Ok((s1, TermView::Branch { condition: c, true_target: next_block, false_target: block_or_entry(s.spans, t) }))
            },
            None => bad_flow,
        },
        OpCode::CALL | OpCode::CALL_L => match jump_target(ins) {
            Some(t) => Ok((s, TermView::Jump(next_block))),
            None => bad_flow,
        },
        OpCode::CALLA | OpCode::CALLT => Ok((s, TermView::Jump(next_block))),
        OpCode::TRY | OpCode::TRY_L => match ins.operand {
            Some(OperandView::TryBlock { catch_offset, finally_offset }) => Ok((
                s,
                TermView::TryBlock {
                    try_block: next_block,
                    catch_block: span_lookup(s.spans, catch_offset),
                    finally_block: match finally_offset {
                        Some(f) => span_lookup(s.spans, f),
                        None => None,
                    },
                },
            )),
            _ => bad_flow,
        },
        _ => if is_compare_jump(ins.opcode) {
            match jump_target(ins) {
                Some(t) => {
                    let (s1, right) = pop_or(s, int_lit(0));
                    let (s2, left) = pop_or(s1, int_lit(0));
                    Ok((
                        s2,
                        TermView::Branch {
                            condition: ExprView::BinaryOp {
                                left: Box::new(left),
                                op: compare_operator(ins.opcode),
                                right: Box::new(right),
                            },
                            true_target: block_or_entry(s.spans, t),
                            false_target: next_block,
                        },
                    ))
                },
                None => bad_flow,
            }
        } else {
            Ok((s, TermView::Jump(next_block)))
        },
    }
}

/// The result of an exec terminator agrees with a specified one, given the lifter's state after it.
pub open spec fn term_agrees(r: Result<Terminator, LiftError>, post: LiftState, spec: TermStep) -> bool {
    match spec {
        Ok((s2, t)) => (r matches Ok(x) && x@ == t) && post == s2,
        Err(e) => r == Err::<Terminator, LiftError>(e),
    }
}

/// The end of an instruction does not overflow.
pub open spec fn end_in_range(ins: InstructionView) -> bool {
    ins.offset + ins.size <= u32::MAX
}

impl IRLifter {
    /// The block holding an offset: the last range that covers it.
    fn lookup_block(&self, offset: u32) -> (r: Option<BlockId>)
        ensures
            r == span_lookup(self.offset_to_block@, offset),
    {
        let mut i = self.offset_to_block.len();
        assert(self.offset_to_block@.take(i as int) =~= self.offset_to_block@);
        while i > 0
            invariant
                i <= self.offset_to_block@.len(),
                span_lookup(self.offset_to_block@, offset) == span_lookup(self.offset_to_block@.take(i as int), offset),
            decreases i,
        {
            let (start, end, block) = self.offset_to_block[i - 1];
            proof {
                assert(self.offset_to_block@.take(i as int).drop_last() =~= self.offset_to_block@.take(i - 1));
            }
            if start <= offset && offset < end {
                return Some(block);
            }
            i = i - 1;
        }
        None
    }

    /// The block holding an offset, or block 0.
    fn block_or_entry(&self, offset: u32) -> (r: BlockId)
        ensures
            r == block_or_entry(self.offset_to_block@, offset),
    {
        match self.lookup_block(offset) {
            Some(b) => b,
            None => 0,
        }
    }

    /// Pop the top item, or give `default` on an empty stack.
    fn pop_or(&mut self, default: Expression) -> (r: Expression)
        ensures
            (final(self).state(), r@) == pop_or(old(self).state(), default@),
    {
        if self.stack.len() > 0 {
            match self.pop_stack() {
                Ok(e) => e,
                Err(_) => default,
            }
        } else {
            default
        }
    }

    /// The terminator of a block from its last instruction.
    fn build_terminator(&mut self, instruction: &Instruction) -> (r: Result<Terminator, LiftError>)
        requires
            rel_in_range(instruction@),
            end_in_range(instruction@),
        ensures
            term_agrees(r, final(self).state(), terminator_step(old(self).state(), instruction@)),
    {
        proof {
            reveal(terminator_step);
        }
        let next = instruction.offset + instruction.size as u32;
        match instruction.opcode {
            OpCode::RET => {
                let return_value = if self.stack.len() > 0 {
                    Some(self.pop_or(Expression::Literal(Literal::Null)))
                } else {
                    None
                };
                Ok(Terminator::Return(return_value))
            },
            OpCode::ABORT => Ok(Terminator::Abort(None)),
            OpCode::ABORTMSG => {
                let message = if self.stack.len() > 0 {
                    Some(self.pop_or(Expression::Literal(Literal::Null)))
                } else {
                    None
                };
                Ok(Terminator::Abort(message))
            },
            OpCode::THROW => {
                let exception = self.pop_or(Expression::Literal(Literal::Null));
                Ok(Terminator::Abort(Some(exception)))
            },
            OpCode::JMP | OpCode::JMP_L => match extract_jump_target(instruction) {
                Some(target_offset) => Ok(Terminator::Jump(self.block_or_entry(target_offset))),
                None => Err(LiftError::InvalidControlFlow { offset: instruction.offset }),
            },
            OpCode::JMPIF | OpCode::JMPIF_L => match extract_jump_target(instruction) {
                Some(target_offset) => {
                    let true_target = self.block_or_entry(target_offset);
                    let false_target = self.block_or_entry(next);
                    let condition = self.pop_or(Expression::Literal(Literal::Boolean(true)));
                    Ok(Terminator::Branch { condition, true_target, false_target })
                },
                None => Err(LiftError::InvalidControlFlow { offset: instruction.offset }),
            },
            OpCode::JMPIFNOT | OpCode::JMPIFNOT_L => match extract_jump_target(instruction) {
                Some(target_offset) => {
                    let true_target = self.block_or_entry(next);
                    let false_target = self.block_or_entry(target_offset);
                    let condition = self.pop_or(Expression::Literal(Literal::Boolean(true)));
                    Ok(Terminator::Branch { condition, true_target, false_target })
                },
                None => Err(LiftError::InvalidControlFlow { offset: instruction.offset }),
            },
            OpCode::JMPEQ | OpCode::JMPEQ_L | OpCode::JMPNE | OpCode::JMPNE_L | OpCode::JMPGT
            | OpCode::JMPGT_L | OpCode::JMPGE | OpCode::JMPGE_L | OpCode::JMPLT | OpCode::JMPLT_L
            | OpCode::JMPLE | OpCode::JMPLE_L => match extract_jump_target(instruction) {
                Some(target_offset) => {
                    let true_target = self.block_or_entry(target_offset);
                    let false_target = self.block_or_entry(next);
                    let right = self.pop_or(Expression::Literal(Literal::Integer(0)));
                    let left = self.pop_or(Expression::Literal(Literal::Integer(0)));
                    let op = match instruction.opcode {
                        OpCode::JMPEQ | OpCode::JMPEQ_L => BinaryOperator::Equal,
                        OpCode::JMPNE | OpCode::JMPNE_L => BinaryOperator::NotEqual,
                        OpCode::JMPGT | OpCode::JMPGT_L => BinaryOperator::Greater,
                        OpCode::JMPGE | OpCode::JMPGE_L => BinaryOperator::GreaterEqual,
                        OpCode::JMPLT | OpCode::JMPLT_L => BinaryOperator::Less,
                        OpCode::JMPLE | OpCode::JMPLE_L => BinaryOperator::LessEqual,
                        _ => BinaryOperator::Equal,
                    };
                    let condition = Expression::BinaryOp { left: Box::new(left), op, right: Box::new(right) };
                    Ok(Terminator::Branch { condition, true_target, false_target })
                },
                None => Err(LiftError::InvalidControlFlow { offset: instruction.offset }),
            },
            OpCode::CALL | OpCode::CALL_L => match extract_jump_target(instruction) {
                Some(_target_offset) => Ok(Terminator::Jump(self.block_or_entry(next))),
                None => Err(LiftError::InvalidControlFlow { offset: instruction.offset }),
            },
            OpCode::CALLA | OpCode::CALLT => Ok(Terminator::Jump(self.block_or_entry(next))),
            OpCode::TRY | OpCode::TRY_L => {
                if let Some(Operand::TryBlock { catch_offset, finally_offset }) = &instruction.operand {
                    let try_block = self.block_or_entry(next);
                    let catch_block = self.lookup_block(*catch_offset);
                    let finally_block = match finally_offset {
                        Some(f) => self.lookup_block(*f),
                        None => None,
                    };
                    Ok(Terminator::TryBlock { try_block, catch_block, finally_block })
                } else {
                    Err(LiftError::InvalidControlFlow { offset: instruction.offset })
                }
            },
            _ => Ok(Terminator::Jump(self.block_or_entry(next))),
        }
    }
}

/// The absolute target of an instruction's relative jump operand.
fn extract_jump_target(instruction: &Instruction) -> (r: Option<u32>)
    requires
        rel_in_range(instruction@),
    ensures
        r == jump_target(instruction@),
{
    match &instruction.operand {
        Some(Operand::JumpTarget(target)) => Some((instruction.offset as i32 + *target) as u32),
        Some(Operand::JumpTarget8(target)) => Some((instruction.offset as i32 + *target as i32) as u32),
        Some(Operand::JumpTarget32(target)) => Some((instruction.offset as i32 + *target) as u32),
        _ => None,
    }
}



/// The models of a list of instructions.
pub open spec fn instrs_view(s: Seq<Instruction>) -> Seq<InstructionView> {
    s.map_values(|i: Instruction| i@)
}

/// Every instruction's addresses fit the offset arithmetic.
pub open spec fn addressable(iv: Seq<InstructionView>) -> bool {
    forall|i: int| 0 <= i < iv.len() ==> rel_in_range(#[trigger] iv[i]) && end_in_range(iv[i])
}

/// Each element is smaller than the next.
pub open spec fn strictly_increasing(s: Seq<u32>) -> bool {
    forall|i: int, j: int| 0 <= i < j < s.len() ==> s[i] < s[j]
}

/// The ordered list, without repeats, of the values satisfying `p`.
pub open spec fn sorted_set(p: spec_fn(u32) -> bool) -> Seq<u32> {
    choose|r: Seq<u32>| strictly_increasing(r) && forall|x: u32| r.contains(x) <==> p(x)
}

/// The offset where the code after a jump begins: past the opcode and its
/// one-byte or four-byte displacement.
pub open spec fn jump_end(ins: InstructionView) -> u32 {
    match ins.operand {
        Some(OperandView::JumpTarget8(_)) => (ins.offset + 2) as u32,
        Some(OperandView::JumpTarget32(_)) => (ins.offset + 5) as u32,
        _ => next_offset(ins),
    }
}

/// Opcodes after which a new block begins at the next instruction.
pub open spec fn ends_block(op: OpCode) -> bool {
    matches!(op, OpCode::CALLA | OpCode::CALLT | OpCode::ENDTRY | OpCode::ENDTRY_L | OpCode::ENDFINALLY
        | OpCode::RET | OpCode::ABORT | OpCode::ABORTMSG | OpCode::THROW)
}

/// Whether an instruction makes `b` a block boundary: jump targets and the code
/// after a jump, call targets and returns, exception handler entries, and the
/// code after instructions that leave the block.
pub open spec fn contributes(ins: InstructionView, b: u32) -> bool {
    if ins.opcode.spec_is_jump() {
        jump_target(ins) == Some(b) || b == jump_end(ins)
    } else if ins.opcode == OpCode::CALL || ins.opcode == OpCode::CALL_L {
        jump_target(ins) == Some(b) || b == next_offset(ins)
    } else if ins.opcode == OpCode::TRY || ins.opcode == OpCode::TRY_L {
        match ins.operand {
            Some(OperandView::TryBlock { catch_offset, finally_offset }) => b == catch_offset || finally_offset
                == Some(b) || b == next_offset(ins),
            _ => false,
        }
    } else if ends_block(ins.opcode) {
        b == next_offset(ins)
    } else {
        false
    }
}

/// Block boundaries: the entry and every contributed offset, up to the end of
/// the last instruction.
pub open spec fn is_boundary(iv: Seq<InstructionView>, b: u32) -> bool {
    (b == 0 || exists|i: int| 0 <= i < iv.len() && contributes(#[trigger] iv[i], b))
        && (iv.len() == 0 || b <= next_offset(iv.last()))
}

/// The block boundaries of an instruction list, in increasing order.
pub open spec fn boundaries(iv: Seq<InstructionView>) -> Seq<u32> {
    sorted_set(|b: u32| is_boundary(iv, b))
}

/// The end of the offset range of block `j`.
pub open spec fn range_end(bounds: Seq<u32>, j: int) -> u32 {
    if j + 1 < bounds.len() { bounds[j + 1] } else { u32::MAX }
}

/// The instructions with offsets in `[lo, hi)`, in list order.
pub open spec fn select(iv: Seq<InstructionView>, lo: u32, hi: u32) -> Seq<InstructionView>
    decreases iv.len(),
{
    if iv.len() == 0 {
        seq![]
    } else {
        let rest = select(iv.drop_last(), lo, hi);
        if lo <= iv.last().offset < hi { rest.push(iv.last()) } else { rest }
    }
}

/// The instructions of block `j`.
pub open spec fn segment(iv: Seq<InstructionView>, bounds: Seq<u32>, j: int) -> Seq<InstructionView> {
    select(iv, bounds[j], range_end(bounds, j))
}

/// The offset ranges of the instructions of block `j`.
pub open spec fn segment_spans(iv: Seq<InstructionView>, bounds: Seq<u32>, j: int) -> Seq<(u32, u32, BlockId)> {
    segment(iv, bounds, j).map_values(|ins: InstructionView| (ins.offset, next_offset(ins), j as u32))
}

/// The offset ranges of the blocks before `k`.
pub open spec fn spans_upto(iv: Seq<InstructionView>, bounds: Seq<u32>, k: int) -> Seq<(u32, u32, BlockId)>
    decreases k,
{
    if k <= 0 { seq![] } else { spans_upto(iv, bounds, k - 1) + segment_spans(iv, bounds, k - 1) }
}

/// Lift a list of instructions in order.
pub open spec fn lift_seq(s: LiftState, bis: Seq<InstructionView>) -> Step
    decreases bis.len(),
{
    if bis.len() == 0 {
        Ok((s, seq![]))
    } else {
        match lift_seq(s, bis.drop_last()) {
            Err(e) => Err(e),
            Ok((s1, ops)) => match lift_step(s1, bis.last()) {
                Err(e) => Err(e),
                Ok((s2, more)) => Ok((s2, ops + more)),
            },
        }
    }
}

/// A block before its edges: the lifted operations and the terminator of its
/// last instruction.
pub open spec fn raw_block(s: LiftState, id: u32, bis: Seq<InstructionView>) -> Result<(LiftState, BlockView), LiftError> {
    match lift_seq(s, bis) {
        Err(e) => Err(e),
        Ok((s1, ops)) => match terminator_step(s1, bis.last()) {
            Err(e) => Err(e),
            Ok((s2, t)) => Ok((
                s2,
                BlockView { id, operations: ops, terminator: t, predecessors: seq![], successors: seq![] },
            )),
        },
    }
}

/// The blocks a terminator names, in order.
pub open spec fn term_successors(t: TermView) -> Seq<BlockId> {
    match t {
        TermView::Jump(b) => seq![b],
        TermView::Branch { true_target, false_target, .. } => seq![true_target, false_target],
        TermView::Switch { targets, default_target, .. } => targets.map_values(|p: (LiteralView, BlockId)| p.1)
            + match default_target {
            Some(d) => seq![d],
            None => seq![],
        },
        TermView::TryBlock { try_block, catch_block, finally_block } => seq![try_block] + match catch_block {
            Some(c) => seq![c],
            None => seq![],
        } + match finally_block {
            Some(f) => seq![f],
            None => seq![],
        },
        TermView::Return(_) => seq![],
        TermView::Abort(_) => seq![],
    }
}

/// Opcodes whose block does not continue into the next one.
pub open spec fn no_fallthrough(op: OpCode) -> bool {
    matches!(op, OpCode::RET | OpCode::ABORT | OpCode::ABORTMSG | OpCode::THROW | OpCode::JMP | OpCode::JMP_L)
}

/// Edges of a block: the targets of its terminator, sorted without repeats. A
/// block that falls through with an unresolved `Jump(0)` jumps to the block
/// after its last instruction, if there is one.
pub open spec fn relate(b: BlockView, last: InstructionView, spans: Seq<(u32, u32, BlockId)>) -> BlockView {
    let falls = b.terminator == TermView::Jump(0) && !no_fallthrough(last.opcode) && span_lookup(
        spans,
        next_offset(last),
    ) is Some;
    let b1 = if falls {
        let next = span_lookup(spans, next_offset(last))->Some_0;
        BlockView { terminator: TermView::Jump(next), successors: seq![next], ..b }
    } else {
        BlockView { successors: term_successors(b.terminator), ..b }
    };
    BlockView { successors: sorted_set(|x: u32| b1.successors.contains(x)), ..b1 }
}

/// The blocks of the first `k` boundaries, each built from the state the previous one left.
pub open spec fn blocks_upto(s: LiftState, iv: Seq<InstructionView>, bounds: Seq<u32>, k: int) -> Result<
    (LiftState, Seq<BlockView>),
    LiftError,
>
    decreases k,
{
    if k <= 0 {
        Ok((s, seq![]))
    } else {
        match blocks_upto(s, iv, bounds, k - 1) {
            Err(e) => Err(e),
            Ok((s1, bs)) => {
                let seg = segment(iv, bounds, k - 1);
                if seg.len() == 0 {
                    Ok((s1, bs))
                } else {
                    match raw_block(s1, (k - 1) as u32, seg) {
                        Err(e) => Err(e),
                        Ok((s2, b)) => Ok((s2, bs.push(relate(b, seg.last(), s1.spans)))),
                    }
                }
            },
        }
    }
}

/// Each block with its predecessors: the blocks naming it as a successor, sorted.
pub open spec fn with_predecessors(bs: Seq<BlockView>) -> Seq<BlockView> {
    bs.map_values(
        |b: BlockView|
            BlockView { predecessors: sorted_set(|x: u32| names_successor(bs, x, b.id)), ..b },
    )
}

/// Blocks past this many are refused.
pub open spec fn block_limit() -> u32 {
    1000
}

/// The first instruction, from `i` on, whose offset has no block or a block past the limit.
pub open spec fn check_mapped(iv: Seq<InstructionView>, spans: Seq<(u32, u32, BlockId)>, i: int) -> Result<(), LiftError>
    decreases iv.len() - i,
{
    if i >= iv.len() || i < 0 {
        Ok(())
    } else if match span_lookup(spans, iv[i].offset) {
        Some(b) => b >= block_limit(),
        None => true,
    } {
        Err(LiftError::InvalidControlFlow { offset: iv[i].offset })
    } else {
        check_mapped(iv, spans, i + 1)
    }
}

/// Some instruction starts at `offset`.
pub open spec fn has_instruction_at(iv: Seq<InstructionView>, offset: u32) -> bool {
    exists|k: int| 0 <= k < iv.len() && (#[trigger] iv[k]).offset == offset
}

/// The first instruction, from `i` on, whose jump target has no block and no instruction.
pub open spec fn check_targets(iv: Seq<InstructionView>, spans: Seq<(u32, u32, BlockId)>, i: int) -> Result<(), LiftError>
    decreases iv.len() - i,
{
    if i >= iv.len() || i < 0 {
        Ok(())
    } else if match jump_target(iv[i]) {
        Some(t) => span_lookup(spans, t) is None && !has_instruction_at(iv, t),
        None => false,
    } {
        Err(LiftError::InvalidControlFlow { offset: iv[i].offset })
    } else {
        check_targets(iv, spans, i + 1)
    }
}

/// Validation of the offset mapping: every instruction has a block within the
/// limit, then every jump target resolves.
pub open spec fn validate_mapping(iv: Seq<InstructionView>, spans: Seq<(u32, u32, BlockId)>) -> Result<(), LiftError> {
    match check_mapped(iv, spans, 0) {
        Err(e) => Err(e),
        Ok(()) => check_targets(iv, spans, 0),
    }
}

/// The lifter's state at the start of a function.
pub open spec fn reset(s: LiftState) -> LiftState {
    LiftState {
        counter: 0,
        stack: seq![],
        alt_stack: seq![],
        max_depth: 0,
        locals: Map::empty(),
        args: Map::empty(),
        statics: Map::empty(),
        spans: seq![],
        offset: 0,
        ..s
    }
}

/// The blocks of a lifted instruction list, or the error that stops lifting.
pub open spec fn lift_blocks(s: LiftState, iv: Seq<InstructionView>) -> Result<Seq<BlockView>, LiftError> {
    let bounds = boundaries(iv);
    let s0 = LiftState { spans: spans_upto(iv, bounds, bounds.len() as int), ..reset(s) };
    match blocks_upto(s0, iv, bounds, bounds.len() as int) {
        Err(e) => Err(e),
        Ok((s1, bs)) => match validate_mapping(iv, s0.spans) {
            Err(e) => Err(e),
            Ok(()) => Ok(with_predecessors(bs)),
        },
    }
}

/// Lifting a binary operator on a stack `[.., a, b]` (`b` on top) emits exactly one
/// operation `target = a op b`: the item below the top is the left operand and the top item
/// the right one. Both are popped and the fresh temporary that receives the result is pushed.
pub proof fn lemma_binary_operand_order(
    s: LiftState,
    ins: InstructionView,
    rest: Seq<ExprView>,
    a: ExprView,
    b: ExprView,
    op: BinaryOperator,
)
    requires
        lift_kind(ins.opcode) == LiftKind::Binary(op),
        s.stack == rest.push(a).push(b),
    ensures
        lift_step(s, ins) matches Ok((s2, ops)) && ops == seq![
            OpView::Arithmetic { operator: op, left: a, right: b, target: temp_var(s.counter) },
        ] && s2.stack == rest.push(var_expr(temp_var(s.counter))) && s2.counter == s.counter + 1,
{
    reveal(lift_step);
    assert(rest.push(a).push(b).take(rest.len() as int) =~= rest);
}

/// A shift on `[.., value, amount]` (`amount` on top) shifts the value below the top by the
/// amount on top: `target = value << amount` for `SHL`, `target = value >> amount` for `SHR`.
pub proof fn lemma_shift_operand_order(
    s: LiftState,
    ins: InstructionView,
    rest: Seq<ExprView>,
    value: ExprView,
    amount: ExprView,
)
    requires
        ins.opcode == OpCode::SHL || ins.opcode == OpCode::SHR,
        s.stack == rest.push(value).push(amount),
    ensures
        lift_step(s, ins) matches Ok((s2, ops)) && ops == seq![
            OpView::Arithmetic {
                operator: if ins.opcode == OpCode::SHL { BinaryOperator::ShiftLeft } else { BinaryOperator::ShiftRight },
                left: value,
                right: amount,
                target: temp_var(s.counter),
            },
        ] && s2.stack == rest.push(var_expr(temp_var(s.counter))),
{
    reveal(lift_step);
    assert(rest.push(value).push(amount).take(rest.len() as int) =~= rest);
}

/// A unary operator, `INC` or `DEC` on a stack `[.., a]` takes the top item `a` as its
/// operand: `target = op a`, `target = a + 1` for `INC` and `target = a - -1` for `DEC`, the
/// fresh temporary replacing `a` on the stack.
pub proof fn lemma_unary_operand(s: LiftState, ins: InstructionView, rest: Seq<ExprView>, a: ExprView)
    requires
        s.stack == rest.push(a),
    ensures
        lift_kind(ins.opcode) matches LiftKind::Unary(u) ==> (lift_step(s, ins) matches Ok((s2, ops)) && ops == seq![
            OpView::Unary { operator: u, operand: a, target: temp_var(s.counter) },
        ] && s2.stack == rest.push(var_expr(temp_var(s.counter)))),
        ins.opcode == OpCode::INC ==> (lift_step(s, ins) matches Ok((s2, ops)) && ops == seq![
            OpView::Arithmetic { operator: BinaryOperator::Add, left: a, right: int_lit(1i64), target: temp_var(s.counter) },
        ] && s2.stack == rest.push(var_expr(temp_var(s.counter)))),
        ins.opcode == OpCode::DEC ==> (lift_step(s, ins) matches Ok((s2, ops)) && ops == seq![
            OpView::Arithmetic { operator: BinaryOperator::Sub, left: a, right: int_lit(-1i64), target: temp_var(s.counter) },
        ] && s2.stack == rest.push(var_expr(temp_var(s.counter)))),
{
    reveal(lift_step);
    assert(rest.push(a).take(rest.len() as int) =~= rest);
}

/// `MIN` and `MAX` on `[.., a, b]` and `WITHIN` on `[.., a, b, c]` call the built-in with
/// the popped items as arguments in the order they were pushed, bottom first.
pub proof fn lemma_builtin_argument_order(
    s: LiftState,
    ins: InstructionView,
    rest: Seq<ExprView>,
    a: ExprView,
    b: ExprView,
    c: ExprView,
)
    ensures
        s.stack == rest.push(a).push(b) && ins.opcode == OpCode::MIN ==> (lift_step(s, ins) matches Ok((s2, ops))
            && ops == seq![OpView::BuiltinCall { name: "min"@, arguments: seq![a, b], target: Some(temp_var(s.counter)) }]
            && s2.stack == rest.push(var_expr(temp_var(s.counter)))),
        s.stack == rest.push(a).push(b) && ins.opcode == OpCode::MAX ==> (lift_step(s, ins) matches Ok((s2, ops))
            && ops == seq![OpView::BuiltinCall { name: "max"@, arguments: seq![a, b], target: Some(temp_var(s.counter)) }]
            && s2.stack == rest.push(var_expr(temp_var(s.counter)))),
        s.stack == rest.push(a).push(b).push(c) && ins.opcode == OpCode::WITHIN ==> (lift_step(s, ins) matches Ok((s2, ops))
            && ops == seq![OpView::BuiltinCall { name: "within"@, arguments: seq![a, b, c], target: Some(temp_var(s.counter)) }]
            && s2.stack == rest.push(var_expr(temp_var(s.counter)))),
{
    reveal(lift_step);
    if s.stack == rest.push(a).push(b) {
        assert(s.stack.take(rest.len() as int) =~= rest);
        assert(s.stack.skip(rest.len() as int) =~= seq![a, b]);
    }
    if s.stack == rest.push(a).push(b).push(c) {
        assert(s.stack.take(rest.len() as int) =~= rest);
        assert(s.stack.skip(rest.len() as int) =~= seq![a, b, c]);
    }
}

/// The stack instructions rearrange the top two items `[.., a, b]` (`b` on top) as the
/// virtual machine does, and emit no operation: `NIP` keeps `b` and removes `a`, `DROP`
/// removes `b`, `SWAP` exchanges them, `DUP` copies `b`, `OVER` copies `a` to the top and
/// `TUCK` copies `b` below `a`.
pub proof fn lemma_lifted_shuffles_two(s: LiftState, ins: InstructionView, rest: Seq<ExprView>, a: ExprView, b: ExprView)
    requires
        s.stack == rest.push(a).push(b),
    ensures
        ins.opcode == OpCode::NIP ==> (lift_step(s, ins) matches Ok((s2, ops)) && ops.len() == 0
            && s2.stack == rest.push(b)),
        ins.opcode == OpCode::DROP ==> (lift_step(s, ins) matches Ok((s2, ops)) && ops.len() == 0
            && s2.stack == rest.push(a)),
        ins.opcode == OpCode::SWAP ==> (lift_step(s, ins) matches Ok((s2, ops)) && ops.len() == 0
            && s2.stack == rest.push(b).push(a)),
        ins.opcode == OpCode::DUP ==> (lift_step(s, ins) matches Ok((s2, ops)) && ops.len() == 0
            && s2.stack == rest.push(a).push(b).push(b)),
        ins.opcode == OpCode::OVER ==> (lift_step(s, ins) matches Ok((s2, ops)) && ops.len() == 0
            && s2.stack == rest.push(a).push(b).push(a)),
        ins.opcode == OpCode::TUCK ==> (lift_step(s, ins) matches Ok((s2, ops)) && ops.len() == 0
            && s2.stack == rest.push(b).push(a).push(b)),
{
    reveal(lift_step);
    let st = rest.push(a).push(b);
    assert(st.take(rest.len() as int) =~= rest);
    assert(st.take(rest.len() + 1int) =~= rest.push(a));
    assert(st.drop_last() =~= rest.push(a));
    assert(rest + seq![b] =~= rest.push(b));
    assert(rest + seq![b, a] =~= rest.push(b).push(a));
    assert(rest + seq![a, b, a] =~= rest.push(a).push(b).push(a));
    assert(rest + seq![b, a, b] =~= rest.push(b).push(a).push(b));
    assert(rest.push(a) + seq![b, b] =~= rest.push(a).push(b).push(b));
}

/// On `[.., a, b, c]` (`c` on top), `ROT` brings the third item to the top, giving
/// `[.., b, c, a]`, and `REVERSE3` reverses the three, giving `[.., c, b, a]`; neither emits
/// an operation.
pub proof fn lemma_lifted_shuffles_three(
    s: LiftState,
    ins: InstructionView,
    rest: Seq<ExprView>,
    a: ExprView,
    b: ExprView,
    c: ExprView,
)
    requires
        s.stack == rest.push(a).push(b).push(c),
    ensures
        ins.opcode == OpCode::ROT ==> (lift_step(s, ins) matches Ok((s2, ops)) && ops.len() == 0
            && s2.stack == rest.push(b).push(c).push(a)),
        ins.opcode == OpCode::REVERSE3 ==> (lift_step(s, ins) matches Ok((s2, ops)) && ops.len() == 0
            && s2.stack == rest.push(c).push(b).push(a)),
{
    reveal(lift_step);
    let st = rest.push(a).push(b).push(c);
    assert(st.take(rest.len() as int) =~= rest);
    assert(rest + seq![b, c, a] =~= rest.push(b).push(c).push(a));
    assert(rest + seq![c, b, a] =~= rest.push(c).push(b).push(a));
}

/// Two increasing lists with the same elements are equal.
pub proof fn lemma_sorted_unique(a: Seq<u32>, b: Seq<u32>)
    requires
        strictly_increasing(a),
        strictly_increasing(b),
        forall|x: u32| a.contains(x) <==> b.contains(x),
    ensures
        a == b,
    decreases a.len(),
{
    if a.len() == 0 {
        if b.len() > 0 {
            assert(b.contains(b[0]));
        }
        assert(a =~= b);
    } else {
        assert(a.contains(a[0]));
        assert(b.len() > 0);
        assert(b.contains(b[0]));
        let ia = choose|i: int| 0 <= i < a.len() && a[i] == b[0];
        let ib = choose|i: int| 0 <= i < b.len() && b[i] == a[0];
        assert(a[0] == b[0]) by {
            if a[0] < b[0] {
                assert(b[ib] == a[0]);
                if ib > 0 {
                    assert(b[0] < b[ib]);
                }
            } else if a[0] > b[0] {
                assert(a[ia] == b[0]);
                if ia > 0 {
                    assert(a[0] < a[ia]);
                }
            }
        }
        let a1 = a.drop_first();
        let b1 = b.drop_first();
        assert forall|x: u32| a1.contains(x) <==> b1.contains(x) by {
            if a1.contains(x) {
                let i = choose|i: int| 0 <= i < a1.len() && a1[i] == x;
                assert(a[i + 1] == x);
                assert(a.contains(x));
                let j = choose|j: int| 0 <= j < b.len() && b[j] == x;
                assert(a[0] < a[i + 1]);
                assert(j != 0);
                assert(b1[j - 1] == x);
            }
            if b1.contains(x) {
                let i = choose|i: int| 0 <= i < b1.len() && b1[i] == x;
                assert(b[i + 1] == x);
                assert(b.contains(x));
                let j = choose|j: int| 0 <= j < a.len() && a[j] == x;
                assert(b[0] < b[i + 1]);
                assert(j != 0);
                assert(a1[j - 1] == x);
            }
        }
        lemma_sorted_unique(a1, b1);
        assert(a =~= seq![a[0]] + a1);
        assert(b =~= seq![b[0]] + b1);
    }
}

/// A list witnessing the description of `sorted_set` is `sorted_set`.
pub proof fn lemma_sorted_set(r: Seq<u32>, p: spec_fn(u32) -> bool)
    requires
        strictly_increasing(r),
        forall|x: u32| r.contains(x) <==> p(x),
    ensures
        sorted_set(p) == r,
{
    let c = sorted_set(p);
    assert(strictly_increasing(c) && forall|x: u32| c.contains(x) <==> p(x));
    lemma_sorted_unique(c, r);
}



/// One lifting step yields at most one operation, takes at most four ids, and
/// keeps the configuration, the syscall database and the offset ranges.
#[verifier::rlimit(60)]
pub proof fn lemma_step_facts(s: LiftState, ins: InstructionView)
    ensures
        lift_step(s, ins) matches Ok((s2, ops)) ==> ops.len() <= 1 && s.counter <= s2.counter <= s.counter + 4
            && s2.spans == s.spans && s2.db == s.db && s2.config == s.config,
{
    reveal(lift_step);
    let s0 = bump(LiftState { offset: ins.offset, ..s }, s.stack);
    let k = lift_kind(ins.opcode);
    match k {
        LiftKind::Load(kind, slot) => {
            let (s1, v) = slot_variable(s0, kind, slot);
            assert(s1.counter <= s0.counter + 1);
        },
        LiftKind::LoadOperand(kind) => {
            if let Some(OperandView::SlotIndex(i)) = ins.operand {
                let (s1, v) = slot_variable(s0, kind, i as u32);
                assert(s1.counter <= s0.counter + 1);
            }
        },
        LiftKind::StoreOperand(kind) => {
            if let Some(OperandView::SlotIndex(i)) = ins.operand {
                if s0.stack.len() >= 1 {
                    let (s1, v) = slot_variable(with_stack(s0, s0.stack.drop_last()), kind, i as u32);
                    assert(s1.counter <= s0.counter + 1);
                }
            }
        },
        _ => {},
    }
}

/// A terminator takes no ids, keeps the environment, and names at most three blocks
/// (never a switch).
pub proof fn lemma_term_facts(s: LiftState, ins: InstructionView)
    ensures
        terminator_step(s, ins) matches Ok((s2, t)) ==> s2.counter == s.counter && s2.spans == s.spans
            && s2.db == s.db && s2.config == s.config && !(t is Switch) && term_successors(t).len() <= 3,
{
    reveal(terminator_step);
}

/// Lifting a list in order: at most one operation per instruction, at most four
/// ids per instruction, and the environment is kept.
pub proof fn lemma_lift_seq_facts(s: LiftState, bis: Seq<InstructionView>)
    ensures
        lift_seq(s, bis) matches Ok((s2, ops)) ==> ops.len() <= bis.len() && s.counter <= s2.counter <= s.counter + 4
            * bis.len() && s2.spans == s.spans && s2.db == s.db && s2.config == s.config,
    decreases bis.len(),
{
    if bis.len() > 0 {
        lemma_lift_seq_facts(s, bis.drop_last());
        if let Ok((s1, ops)) = lift_seq(s, bis.drop_last()) {
            lemma_step_facts(s1, bis.last());
        }
    }
}

/// `select` keeps at most all instructions.
pub proof fn lemma_select_len(iv: Seq<InstructionView>, lo: u32, hi: u32)
    ensures
        select(iv, lo, hi).len() <= iv.len(),
    decreases iv.len(),
{
    if iv.len() > 0 {
        lemma_select_len(iv.drop_last(), lo, hi);
    }
}

/// Adjacent ranges select disjoint parts that together make the joined range's selection.
pub proof fn lemma_select_split(iv: Seq<InstructionView>, lo: u32, mid: u32, hi: u32)
    requires
        lo <= mid <= hi,
    ensures
        select(iv, lo, mid).len() + select(iv, mid, hi).len() == select(iv, lo, hi).len(),
    decreases iv.len(),
{
    if iv.len() > 0 {
        lemma_select_split(iv.drop_last(), lo, mid, hi);
    }
}

/// Selecting from one more instruction.
pub proof fn lemma_select_take(iv: Seq<InstructionView>, i: int, lo: u32, hi: u32)
    requires
        0 <= i < iv.len(),
    ensures
        select(iv.take(i + 1), lo, hi) == if lo <= iv[i].offset < hi {
            select(iv.take(i), lo, hi).push(iv[i])
        } else {
            select(iv.take(i), lo, hi)
        },
{
    assert(iv.take(i + 1).drop_last() =~= iv.take(i));
}

/// Once a prefix fails, lifting the whole list fails the same way.
pub proof fn lemma_lift_seq_err_prefix(s: LiftState, bis: Seq<InstructionView>, k: int)
    requires
        0 <= k <= bis.len(),
        lift_seq(s, bis.take(k)) is Err,
    ensures
        lift_seq(s, bis) == lift_seq(s, bis.take(k)),
    decreases bis.len() - k,
{
    if k < bis.len() {
        assert(bis.take(k + 1).drop_last() =~= bis.take(k));
        lemma_lift_seq_err_prefix(s, bis, k + 1);
    } else {
        assert(bis.take(k) =~= bis);
    }
}

/// Lifting one more instruction.
pub proof fn lemma_lift_seq_push(s: LiftState, bis: Seq<InstructionView>, x: InstructionView)
    ensures
        lift_seq(s, bis.push(x)) == match lift_seq(s, bis) {
            Err(e) => Err(e),
            Ok((s1, ops)) => match lift_step(s1, x) {
                Err(e) => Err(e),
                Ok((s2, more)) => Ok((s2, ops + more)),
            },
        },
{
    assert(bis.push(x).drop_last() =~= bis);
}



/// Insert into an increasing list, keeping it increasing and without repeats.
fn insert_sorted(v: &mut Vec<u32>, x: u32)
    requires
        strictly_increasing(old(v)@),
    ensures
        strictly_increasing(final(v)@),
        forall|b: u32| final(v)@.contains(b) <==> (old(v)@.contains(b) || b == x),
        final(v)@.len() <= old(v)@.len() + 1,
{
    let mut i: usize = 0;
    while i < v.len() && v[i] < x
        invariant
            i <= v@.len(),
            v@ == old(v)@,
            strictly_increasing(v@),
            forall|k: int| 0 <= k < i ==> v@[k] < x,
        decreases v@.len() - i,
    {
        i = i + 1;
    }
    if i < v.len() && v[i] == x {
        proof {
            assert forall|b: u32| v@.contains(b) <==> (old(v)@.contains(b) || b == x) by {
                if b == x {
                    assert(v@[i as int] == x);
                }
            }
        }
        return;
    }
    let ghost before = v@;
    v.insert(i, x);
    proof {
        assert forall|a: int, b: int| 0 <= a < b < v@.len() implies v@[a] < v@[b] by {
            if b < i {
            } else if a < i && b == i {
            } else if a < i {
                assert(v@[b] == before[b - 1]);
                assert(before[a] < x || a == b - 1 || before[a] < before[b - 1]);
            } else if a == i {
                assert(v@[b] == before[b - 1]);
                assert(before[i as int] > x);
                if b - 1 > i {
                    assert(before[i as int] < before[b - 1]);
                }
            } else {
                assert(v@[a] == before[a - 1]);
                assert(v@[b] == before[b - 1]);
            }
        }
        assert forall|b: u32| v@.contains(b) <==> (before.contains(b) || b == x) by {
            if v@.contains(b) {
                let k = choose|k: int| 0 <= k < v@.len() && v@[k] == b;
                if k < i {
                    assert(before[k] == b);
                } else if k > i {
                    assert(before[k - 1] == b);
                }
            }
            if before.contains(b) {
                let k = choose|k: int| 0 <= k < before.len() && before[k] == b;
                if k < i {
                    assert(v@[k] == b);
                } else {
                    assert(v@[k + 1] == b);
                }
            }
            if b == x {
                assert(v@[i as int] == x);
            }
        }
    }
}

/// The offset where the code after a jump begins.
fn jump_end_of(instruction: &Instruction) -> (r: u32)
    requires
        rel_in_range(instruction@),
        end_in_range(instruction@),
    ensures
        r == jump_end(instruction@),
{
    match &instruction.operand {
        Some(Operand::JumpTarget8(_)) => instruction.offset + 2,
        Some(Operand::JumpTarget32(_)) => instruction.offset + 5,
        _ => instruction.offset + instruction.size as u32,
    }
}

/// Add the boundaries an instruction contributes.
fn add_contributions(instruction: &Instruction, v: &mut Vec<u32>)
    requires
        strictly_increasing(old(v)@),
        rel_in_range(instruction@),
        end_in_range(instruction@),
    ensures
        strictly_increasing(final(v)@),
        forall|b: u32| final(v)@.contains(b) <==> (old(v)@.contains(b) || contributes(instruction@, b)),
        final(v)@.len() <= old(v)@.len() + 3,
{
    let next = instruction.offset + instruction.size as u32;
    if instruction.opcode.is_jump() {
        if let Some(target_offset) = extract_jump_target(instruction) {
            insert_sorted(v, target_offset);
        }
        insert_sorted(v, jump_end_of(instruction));
    } else if instruction.opcode == OpCode::CALL || instruction.opcode == OpCode::CALL_L {
        if let Some(target_offset) = extract_jump_target(instruction) {
            insert_sorted(v, target_offset);
        }
        insert_sorted(v, next);
    } else if instruction.opcode == OpCode::TRY || instruction.opcode == OpCode::TRY_L {
        if let Some(Operand::TryBlock { catch_offset, finally_offset }) = &instruction.operand {
            insert_sorted(v, *catch_offset);
            if let Some(finally) = finally_offset {
                insert_sorted(v, *finally);
            }
            insert_sorted(v, next);
        }
    } else if matches!(instruction.opcode, OpCode::CALLA | OpCode::CALLT | OpCode::ENDTRY | OpCode::ENDTRY_L
        | OpCode::ENDFINALLY | OpCode::RET | OpCode::ABORT | OpCode::ABORTMSG | OpCode::THROW) {
        insert_sorted(v, next);
    }
}

/// Whether some instruction starts at `offset`.
fn has_instruction_at_offset(instructions: &[Instruction], offset: u32) -> (r: bool)
    ensures
        r == has_instruction_at(instrs_view(instructions@), offset),
{
    let ghost iv = instrs_view(instructions@);
    let mut i: usize = 0;
    while i < instructions.len()
        invariant
            i <= instructions@.len(),
            iv == instrs_view(instructions@),
            forall|k: int| 0 <= k < i ==> iv[k].offset != offset,
        decreases instructions@.len() - i,
    {
        if instructions[i].offset == offset {
            assert(iv[i as int].offset == offset);
            return true;
        }
        i = i + 1;
    }
    false
}

/// Positions of the instructions with offsets in `[lo, hi)`, in list order.
fn segment_indices(instructions: &[Instruction], lo: u32, hi: u32) -> (r: Vec<usize>)
    ensures
        r@.len() == select(instrs_view(instructions@), lo, hi).len(),
        forall|k: int| 0 <= k < r@.len() ==> #[trigger] r@[k] < instructions@.len() && instrs_view(instructions@)[r@[k] as int]
            == select(instrs_view(instructions@), lo, hi)[k],
{
    let ghost iv = instrs_view(instructions@);
    let mut r: Vec<usize> = Vec::new();
    let mut i: usize = 0;
    while i < instructions.len()
        invariant
            i <= instructions@.len(),
            iv == instrs_view(instructions@),
            r@.len() == select(iv.take(i as int), lo, hi).len(),
            forall|k: int| 0 <= k < r@.len() ==> #[trigger] r@[k] < i && iv[r@[k] as int] == select(iv.take(i as int), lo, hi)[k],
        decreases instructions@.len() - i,
    {
        proof {
            lemma_select_take(iv, i as int, lo, hi);
            assert(iv[i as int] == instructions@[i as int]@);
        }
        let offset = instructions[i].offset;
        let ghost r0 = r@;
        if lo <= offset && offset < hi {
            r.push(i);
        }
        proof {
            let s0 = select(iv.take(i as int), lo, hi);
            let s1 = select(iv.take(i + 1), lo, hi);
            assert forall|k: int| 0 <= k < r@.len() implies r@[k] < i + 1 && iv[r@[k] as int] == s1[k] by {
                if k < r0.len() {
                    assert(r@[k] == r0[k]);
                    assert(s1[k] == s0[k]);
                }
            }
            assert(r@.len() == s1.len());
        }
        i = i + 1;
    }
    assert(iv.take(instructions@.len() as int) =~= iv);
    assert(iv.len() == instructions@.len());
    r
}

/// The instructions at the given positions.
pub open spec fn picked(iv: Seq<InstructionView>, idx: Seq<usize>) -> Seq<InstructionView> {
    idx.map_values(|k: usize| iv[k as int])
}

impl IRLifter {
    /// Clear the state of a previous function.
    fn reset_state(&mut self)
        ensures
            final(self).state() == reset(old(self).state()),
    {
        self.var_counter = 0;
        self.stack.clear();
        self.alt_stack.clear();
        self.max_stack_depth = 0;
        self.variables.clear();
        self.arguments.clear();
        self.static_fields.clear();
        self.offset_to_block.clear();
        self.current_offset = 0;
        proof {
            assert(stack_view(self.stack@) =~= Seq::<ExprView>::empty());
            assert(stack_view(self.alt_stack@) =~= Seq::<ExprView>::empty());
            assert(slot_entries(self.variables@) =~= Seq::<(u32, VariableView)>::empty());
            assert(slot_entries(self.arguments@) =~= Seq::<(u32, VariableView)>::empty());
            assert(slot_entries(self.static_fields@) =~= Seq::<(u32, VariableView)>::empty());
            assert(assoc(Seq::<(u32, VariableView)>::empty()) =~= Map::<u32, VariableView>::empty());
        }
    }

    /// Block boundaries of an instruction list, in increasing order: the entry,
    /// jump targets and the code after each jump, call targets and returns,
    /// exception handler entries, and the code after instructions that leave the
    /// block; none past the end of the last instruction.
    pub fn find_block_boundaries(&self, instructions: &[Instruction]) -> (r: Vec<u32>)
        requires
            addressable(instrs_view(instructions@)),
        ensures
            strictly_increasing(r@),
            forall|b: u32| r@.contains(b) <==> is_boundary(instrs_view(instructions@), b),
            r@.len() <= 1 + 3 * instructions@.len(),
            r@ == boundaries(instrs_view(instructions@)),
    {
        let ghost iv = instrs_view(instructions@);
        let mut raw: Vec<u32> = Vec::new();
        insert_sorted(&mut raw, 0);
        let mut i: usize = 0;
        while i < instructions.len()
            invariant
                i <= instructions@.len(),
                iv == instrs_view(instructions@),
                addressable(iv),
                strictly_increasing(raw@),
                raw@.len() <= 1 + 3 * i,
                forall|b: u32| raw@.contains(b) <==> (b == 0 || exists|k: int| 0 <= k < i && contributes(
                    #[trigger] iv[k],
                    b,
                )),
            decreases instructions@.len() - i,
        {
            let ghost before = raw@;
            proof {
                assert(rel_in_range(iv[i as int]) && end_in_range(iv[i as int]));
            }
            add_contributions(&instructions[i], &mut raw);
            proof {
                assert forall|b: u32| raw@.contains(b) <==> (b == 0 || exists|k: int| 0 <= k < i + 1 && contributes(
                    #[trigger] iv[k],
                    b,
                )) by {
                    if contributes(iv[i as int], b) {
                        assert(0 <= i < i + 1);
                    }
                    if exists|k: int| 0 <= k < i + 1 && contributes(#[trigger] iv[k], b) {
                        let k = choose|k: int| 0 <= k < i + 1 && contributes(#[trigger] iv[k], b);
                        if k < i {
                            assert(before.contains(b));
                        }
                    }
                }
            }
            i = i + 1;
        }
        let mut r: Vec<u32> = Vec::new();
        if instructions.len() == 0 {
            r = raw;
        } else {
            let last = &instructions[instructions.len() - 1];
            proof {
                assert(end_in_range(iv[iv.len() - 1]));
            }
            let max_offset = last.offset + last.size as u32;
            let mut k: usize = 0;
            while k < raw.len()
                invariant
                    k <= raw@.len(),
                    strictly_increasing(raw@),
                    strictly_increasing(r@),
                    r@.len() <= k,
                    forall|b: u32| r@.contains(b) <==> (raw@.take(k as int).contains(b) && b <= max_offset),
                    forall|a: int, c: int| 0 <= a < r@.len() && k <= c < raw@.len() ==> r@[a] < raw@[c],
                decreases raw@.len() - k,
            {
                let ghost before = r@;
                if raw[k] <= max_offset {
                    r.push(raw[k]);
                }
                proof {
                    assert(raw@.take(k + 1) =~= raw@.take(k as int).push(raw@[k as int]));
                    assert forall|b: u32| r@.contains(b) <==> (raw@.take(k + 1).contains(b) && b <= max_offset) by {
                        let t1 = raw@.take(k + 1);
                        let t0 = raw@.take(k as int);
                        if r@.contains(b) {
                            let a = choose|a: int| 0 <= a < r@.len() && r@[a] == b;
                            if a < before.len() {
                                assert(before[a] == b);
                                assert(before.contains(b));
                                let c = choose|c: int| 0 <= c < t0.len() && t0[c] == b;
                                assert(t1[c] == b);
                                assert(t1.contains(b));
                            } else {
                                assert(t1[k as int] == b);
                                assert(t1.contains(b));
                            }
                        }
                        if t1.contains(b) && b <= max_offset {
                            let c = choose|c: int| 0 <= c < t1.len() && t1[c] == b;
                            if c < k {
                                assert(t0[c] == b);
                                assert(t0.contains(b));
                                assert(before.contains(b));
                                let a = choose|a: int| 0 <= a < before.len() && before[a] == b;
                                assert(r@[a] == b);
                                assert(r@.contains(b));
                            } else {
                                assert(r@[r@.len() - 1] == b);
                                assert(r@.contains(b));
                            }
                        }
                    }
                }
                k = k + 1;
            }
            proof {
                assert(raw@.take(raw@.len() as int) =~= raw@);
            }
        }
        proof {
            assert forall|b: u32| r@.contains(b) <==> is_boundary(iv, b) by {
                if b != 0 && exists|k: int| 0 <= k < iv.len() && contributes(#[trigger] iv[k], b) {
                }
            }
            lemma_sorted_set(r@, |b: u32| is_boundary(iv, b));
        }
        r
    }

    /// Map the offsets of each block's instructions to the block.
    fn build_offset_to_block_mapping(&mut self, instructions: &[Instruction], boundaries: &Vec<u32>)
        requires
            addressable(instrs_view(instructions@)),
            boundaries@.len() <= u32::MAX,
        ensures
            final(self).state() == with_spans(
                old(self).state(),
                spans_upto(instrs_view(instructions@), boundaries@, boundaries@.len() as int),
            ),
    {
        let ghost iv = instrs_view(instructions@);
        self.offset_to_block.clear();
        let mut j: usize = 0;
        while j < boundaries.len()
            invariant
                j <= boundaries@.len(),
                boundaries@.len() <= u32::MAX,
                iv == instrs_view(instructions@),
                addressable(iv),
                self.state() == with_spans(old(self).state(), spans_upto(iv, boundaries@, j as int)),
            decreases boundaries@.len() - j,
        {
            let start_offset = boundaries[j];
            let end_offset = if j + 1 < boundaries.len() { boundaries[j + 1] } else { u32::MAX };
            let ghost base = spans_upto(iv, boundaries@, j as int);
            let mut i: usize = 0;
            while i < instructions.len()
                invariant
                    i <= instructions@.len(),
                    j < boundaries@.len(),
                    boundaries@.len() <= u32::MAX,
                    iv == instrs_view(instructions@),
                    addressable(iv),
                    start_offset == boundaries@[j as int],
                    end_offset == range_end(boundaries@, j as int),
                    base == spans_upto(iv, boundaries@, j as int),
                    self.state() == with_spans(
                        old(self).state(),
                        base + select(iv.take(i as int), start_offset, end_offset).map_values(
                            |ins: InstructionView| (ins.offset, next_offset(ins), j as u32),
                        ),
                    ),
                decreases instructions@.len() - i,
            {
                proof {
                    lemma_select_take(iv, i as int, start_offset, end_offset);
                    assert(end_in_range(iv[i as int]));
                }
                let instruction = &instructions[i];
                if instruction.offset >= start_offset && instruction.offset < end_offset {
                    self.offset_to_block.push(
                        (instruction.offset, instruction.offset + instruction.size as u32, j as u32),
                    );
                }
                proof {
                    let f = |ins: InstructionView| (ins.offset, next_offset(ins), j as u32);
                    let sel = select(iv.take(i as int), start_offset, end_offset);
                    if start_offset <= iv[i as int].offset < end_offset {
                        assert(sel.push(iv[i as int]).map_values(f) =~= sel.map_values(f).push(f(iv[i as int])));
                        assert(base + sel.map_values(f).push(f(iv[i as int])) =~= (base + sel.map_values(f)).push(
                            f(iv[i as int]),
                        ));
                    }
                }
                i = i + 1;
            }
            proof {
                assert(iv.take(instructions@.len() as int) =~= iv);
            }
            j = j + 1;
        }
    }
}



impl IRLifter {
    /// Build a block from the instructions at `idx`: their operations in order,
    /// then the terminator of the last one.
    fn build_block(&mut self, block_id: BlockId, instructions: &[Instruction], idx: &Vec<usize>) -> (r: Result<
        IRBlock,
        LiftError,
    >)
        requires
            idx@.len() > 0,
            forall|k: int| 0 <= k < idx@.len() ==> #[trigger] idx@[k] < instructions@.len(),
            addressable(instrs_view(instructions@)),
            old(self).var_counter + 4 * idx@.len() <= u32::MAX,
        ensures
            match raw_block(old(self).state(), block_id, picked(instrs_view(instructions@), idx@)) {
                Ok((s2, b)) => (r matches Ok(x) && x@ == b) && final(self).state() == s2,
                Err(e) => r == Err::<IRBlock, LiftError>(e),
            },
    {
        let ghost iv = instrs_view(instructions@);
        let ghost bis = picked(iv, idx@);
        let mut block = IRBlock::new(block_id);
        let mut t: usize = 0;
        proof {
            assert(bis.take(0) =~= Seq::<InstructionView>::empty());
            assert(ops_view(block.operations@) =~= Seq::<OpView>::empty());
        }
        while t < idx.len()
            invariant
                t <= idx@.len(),
                iv == instrs_view(instructions@),
                bis == picked(iv, idx@),
                addressable(iv),
                forall|k: int| 0 <= k < idx@.len() ==> #[trigger] idx@[k] < instructions@.len(),
                old(self).var_counter + 4 * idx@.len() <= u32::MAX,
                self.var_counter <= old(self).var_counter + 4 * t,
                lift_seq(old(self).state(), bis.take(t as int)) == Step::Ok((self.state(), ops_view(block.operations@))),
                block.id == block_id,
                block.terminator@ == TermView::Return(None),
                block.predecessors@.len() == 0,
                block.successors@.len() == 0,
            decreases idx@.len() - t,
        {
            let i = idx[t];
            proof {
                assert(iv[i as int] == bis[t as int]);
                assert(rel_in_range(iv[i as int]));
                assert(bis.take(t + 1) =~= bis.take(t as int).push(bis[t as int]));
                lemma_lift_seq_push(old(self).state(), bis.take(t as int), bis[t as int]);
                lemma_step_facts(self.state(), bis[t as int]);
                assert(instructions@[i as int]@ == iv[i as int]);
            }
            let mut ops = match self.lift_instruction(&instructions[i]) {
                Ok(ops) => ops,
                Err(e) => {
                    proof {
                        lemma_lift_seq_err_prefix(old(self).state(), bis, t + 1);
                    }
                    return Err(e);
                },
            };
            let ghost before = block.operations@;
            let ghost added = ops@;
            block.operations.append(&mut ops);
            proof {
                assert(ops_view(before + added) =~= ops_view(before) + ops_view(added));
            }
            t = t + 1;
        }
        proof {
            assert(bis.take(idx@.len() as int) =~= bis);
            assert(bis.last() == iv[idx@[idx@.len() - 1] as int]);
            assert(instructions@[idx@[idx@.len() - 1] as int]@ == bis.last());
            assert(end_in_range(bis.last()) && rel_in_range(bis.last()));
        }
        let last = idx[idx.len() - 1];
        let terminator = match self.build_terminator(&instructions[last]) {
            Ok(t) => t,
            Err(e) => return Err(e),
        };
        block.set_terminator(terminator);
        proof {
            assert(block.predecessors@ =~= Seq::<BlockId>::empty());
            assert(block.successors@ =~= Seq::<BlockId>::empty());
        }
        Ok(block)
    }
}



/// Sort and remove repeats.
fn sorted_unique(v: &Vec<u32>) -> (r: Vec<u32>)
    ensures
        strictly_increasing(r@),
        forall|x: u32| r@.contains(x) <==> v@.contains(x),
        r@.len() <= v@.len(),
{
    let mut r: Vec<u32> = Vec::new();
    let mut i: usize = 0;
    while i < v.len()
        invariant
            i <= v@.len(),
            strictly_increasing(r@),
            r@.len() <= i,
            forall|x: u32| r@.contains(x) <==> v@.take(i as int).contains(x),
        decreases v@.len() - i,
    {
        let ghost r0 = r@;
        insert_sorted(&mut r, v[i]);
        proof {
            assert(v@.take(i + 1) =~= v@.take(i as int).push(v@[i as int]));
            assert forall|x: u32| v@.take(i + 1).contains(x) <==> (v@.take(i as int).contains(x) || x == v@[i as int]) by {
                if v@.take(i + 1).contains(x) {
                    let c = choose|c: int| 0 <= c < i + 1 && #[trigger] v@.take(i + 1)[c] == x;
                    if c < i {
                        assert(v@.take(i as int)[c] == x);
                    }
                }
                if v@.take(i as int).contains(x) {
                    let c = choose|c: int| 0 <= c < i && #[trigger] v@.take(i as int)[c] == x;
                    assert(v@.take(i + 1)[c] == x);
                }
                if x == v@[i as int] {
                    assert(v@.take(i + 1)[i as int] == x);
                }
            }
            assert forall|x: u32| r@.contains(x) <==> v@.take(i + 1).contains(x) by {
                assert(r@.contains(x) <==> (r0.contains(x) || x == v@[i as int]));
                assert(r0.contains(x) <==> v@.take(i as int).contains(x));
            }
        }
        i = i + 1;
    }
    assert(v@.take(v@.len() as int) =~= v@);
    r
}

/// The blocks a terminator names, in order.
fn terminator_successors(terminator: &Terminator) -> (r: Vec<BlockId>)
    ensures
        r@ == term_successors(terminator@),
{
    let mut r: Vec<BlockId> = Vec::new();
    match terminator {
        Terminator::Jump(target_id) => {
            r.push(*target_id);
        },
        Terminator::Branch { true_target, false_target, .. } => {
            r.push(*true_target);
            r.push(*false_target);
        },
        Terminator::Switch { targets, default_target, .. } => {
            let mut i: usize = 0;
            while i < targets.len()
                invariant
                    i <= targets@.len(),
                    r@ == targets@.take(i as int).map_values(|p: (Literal, BlockId)| p.1),
                decreases targets@.len() - i,
            {
                r.push(targets[i].1);
                proof {
                    assert(targets@.take(i + 1) =~= targets@.take(i as int).push(targets@[i as int]));
                    assert(r@ =~= targets@.take(i + 1).map_values(|p: (Literal, BlockId)| p.1));
                }
                i = i + 1;
            }
            if let Some(default) = default_target {
                r.push(*default);
            }
            proof {
                assert(targets@.take(targets@.len() as int) =~= targets@);
                let tv = targets@.map_values(|p: (Literal, BlockId)| (p.0@, p.1));
                assert(tv.map_values(|p: (LiteralView, BlockId)| p.1) =~= targets@.map_values(|p: (Literal, BlockId)| p.1));
                match default_target {
                    Some(d) => {
                        assert(r@ =~= tv.map_values(|p: (LiteralView, BlockId)| p.1) + seq![*d]);
                    },
                    None => {
                        assert(r@ =~= tv.map_values(|p: (LiteralView, BlockId)| p.1) + Seq::<BlockId>::empty());
                    },
                }
            }
        },
        Terminator::TryBlock { try_block, catch_block, finally_block } => {
            r.push(*try_block);
            if let Some(catch) = catch_block {
                r.push(*catch);
            }
            if let Some(finally) = finally_block {
                r.push(*finally);
            }
            proof {
                let c: Seq<BlockId> = match *catch_block {
                    Some(x) => seq![x],
                    None => seq![],
                };
                let f: Seq<BlockId> = match *finally_block {
                    Some(x) => seq![x],
                    None => seq![],
                };
                assert(r@ =~= seq![*try_block] + c + f);
            }
        },
        Terminator::Return(_) => {},
        Terminator::Abort(_) => {},
    }
    r
}

impl IRLifter {
    /// Set a block's successors from its terminator; a block that falls through
    /// with an unresolved `Jump(0)` jumps to the block after its last instruction.
    fn build_block_relationships(&self, block: &mut IRBlock, last_instruction: &Instruction)
        requires
            end_in_range(last_instruction@),
            !(old(block).terminator@ is Switch),
        ensures
            final(block)@ == relate(old(block)@, last_instruction@, self.offset_to_block@),
            final(block).successors@.len() <= 3,
            !(final(block).terminator@ is Switch),
    {
        let mut successors = terminator_successors(&block.terminator);
        proof {
            lemma_term_successors_len(block.terminator@);
        }
        let is_jump_zero = match &block.terminator {
            Terminator::Jump(0) => true,
            _ => false,
        };
        if is_jump_zero && !matches!(last_instruction.opcode, OpCode::RET | OpCode::ABORT | OpCode::ABORTMSG
            | OpCode::THROW | OpCode::JMP | OpCode::JMP_L) {
            let next_offset = last_instruction.offset + last_instruction.size as u32;
            if let Some(next_block_id) = self.lookup_block(next_offset) {
                successors = Vec::new();
                successors.push(next_block_id);
                block.terminator = Terminator::Jump(next_block_id);
            }
        }
        let sorted = sorted_unique(&successors);
        proof {
            lemma_sorted_set(sorted@, |x: u32| successors@.contains(x));
        }
        block.successors = sorted;
    }
}

/// A terminator other than a switch names at most three blocks.
proof fn lemma_term_successors_len(t: TermView)
    ensures
        !(t is Switch) ==> term_successors(t).len() <= 3,
{
}



/// An empty range selects nothing.
proof fn lemma_select_empty(iv: Seq<InstructionView>, lo: u32)
    ensures
        select(iv, lo, lo).len() == 0,
    decreases iv.len(),
{
    if iv.len() > 0 {
        lemma_select_empty(iv.drop_last(), lo);
    }
}

/// A built block: its id, at most one operation per instruction, at most four ids
/// per instruction, no switch, and the environment kept.
proof fn lemma_raw_block_facts(s: LiftState, id: u32, bis: Seq<InstructionView>)
    requires
        bis.len() > 0,
    ensures
        raw_block(s, id, bis) matches Ok((s2, b)) ==> b.id == id && b.operations.len() <= bis.len() && s.counter
            <= s2.counter <= s.counter + 4 * bis.len() && s2.spans == s.spans && s2.db == s.db && s2.config
            == s.config && !(b.terminator is Switch),
{
    lemma_lift_seq_facts(s, bis);
    if let Ok((s1, ops)) = lift_seq(s, bis) {
        lemma_term_facts(s1, bis.last());
    }
}

/// The upper end of the offsets covered by blocks before `j`.
pub open spec fn covered_end(bounds: Seq<u32>, j: int) -> u32 {
    if j < bounds.len() { bounds[j] } else { u32::MAX }
}

/// Block ids increase along the list.
pub open spec fn ids_increasing(bs: Seq<IRBlock>) -> bool {
    forall|a: int, b: int| 0 <= a < b < bs.len() ==> bs[a].id < bs[b].id
}

impl IRLifter {
    /// Build the blocks of every boundary range that holds instructions, in order.
    fn build_basic_blocks(&mut self, instructions: &[Instruction], boundaries: &Vec<u32>) -> (r: Result<
        Vec<IRBlock>,
        LiftError,
    >)
        requires
            addressable(instrs_view(instructions@)),
            strictly_increasing(boundaries@),
            0 < boundaries@.len() <= u32::MAX,
            old(self).var_counter == 0,
            4 * instructions@.len() + 4 <= u32::MAX,
        ensures
            match blocks_upto(old(self).state(), instrs_view(instructions@), boundaries@, boundaries@.len() as int) {
                Ok((s2, bs)) => (r matches Ok(v) && crate::engine::ir::blocks_view(v@) == bs) && final(self).state() == s2,
                Err(e) => r == Err::<Vec<IRBlock>, LiftError>(e),
            },
            r matches Ok(v) ==> v@.len() <= instructions@.len() && crate::engine::ir::total_operations(v@)
                <= instructions@.len() && crate::engine::ir::total_successors(v@) <= 3 * v@.len() && ids_increasing(v@)
                && final(self).offset_to_block@ == old(self).offset_to_block@,
    {
        let ghost iv = instrs_view(instructions@);
        let ghost bounds = boundaries@;
        let ghost s_init = old(self).state();
        let mut blocks: Vec<IRBlock> = Vec::new();
        let mut j: usize = 0;
        proof {
            lemma_select_empty(iv, bounds[0]);
            assert(crate::engine::ir::blocks_view(blocks@) =~= Seq::<BlockView>::empty());
        }
        while j < boundaries.len()
            invariant
                j <= bounds.len(),
                iv == instrs_view(instructions@),
                bounds == boundaries@,
                s_init == old(self).state(),
                addressable(iv),
                strictly_increasing(bounds),
                0 < bounds.len() <= u32::MAX,
                4 * instructions@.len() + 4 <= u32::MAX,
                blocks_upto(s_init, iv, bounds, j as int) == Ok::<(LiftState, Seq<BlockView>), LiftError>(
                    (self.state(), crate::engine::ir::blocks_view(blocks@)),
                ),
                self.state().spans == s_init.spans,
                self.var_counter <= 4 * select(iv, bounds[0], covered_end(bounds, j as int)).len(),
                blocks@.len() <= select(iv, bounds[0], covered_end(bounds, j as int)).len(),
                crate::engine::ir::total_operations(blocks@) <= select(iv, bounds[0], covered_end(bounds, j as int)).len(),
                crate::engine::ir::total_successors(blocks@) <= 3 * blocks@.len(),
                ids_increasing(blocks@),
                forall|a: int| 0 <= a < blocks@.len() ==> #[trigger] blocks@[a].id < j,
            decreases bounds.len() - j,
        {
            let start_offset = boundaries[j];
            let end_offset = if j + 1 < boundaries.len() { boundaries[j + 1] } else { u32::MAX };
            let idx = segment_indices(instructions, start_offset, end_offset);
            let ghost seg = segment(iv, bounds, j as int);
            proof {
                assert(picked(iv, idx@) =~= seg);
                lemma_select_len(iv, bounds[0], range_end(bounds, j as int));
                if j > 0 {
                    assert(bounds[0] < bounds[j as int]);
                }
                lemma_select_split(iv, bounds[0], bounds[j as int], range_end(bounds, j as int));
                assert(covered_end(bounds, j + 1) == range_end(bounds, j as int));
                assert(covered_end(bounds, j as int) == bounds[j as int]);
            }
            if idx.len() > 0 {
                let ghost s1 = self.state();
                proof {
                    lemma_raw_block_facts(s1, j as u32, seg);
                }
                let mut block = match self.build_block(j as u32, instructions, &idx) {
                    Ok(b) => b,
                    Err(e) => {
                        proof {
                            lemma_blocks_upto_err(s_init, iv, bounds, j as int + 1, bounds.len() as int);
                        }
                        return Err(e);
                    },
                };
                let last = idx[idx.len() - 1];
                proof {
                    assert(instructions@[last as int]@ == seg.last());
                    assert(end_in_range(iv[last as int]));
                }
                self.build_block_relationships(&mut block, &instructions[last]);
                let ghost before = blocks@;
                blocks.push(block);
                proof {
                    assert(crate::engine::ir::blocks_view(blocks@) =~= crate::engine::ir::blocks_view(before).push(blocks@.last()@));
                    assert(blocks@.drop_last() =~= before);
                }
            }
            j = j + 1;
        }
        proof {
            lemma_select_len(iv, bounds[0], covered_end(bounds, j as int));
        }
        Ok(blocks)
    }
}

/// Once the blocks of a prefix fail, all later prefixes fail the same way.
proof fn lemma_blocks_upto_err(s: LiftState, iv: Seq<InstructionView>, bounds: Seq<u32>, k: int, n: int)
    requires
        0 <= k <= n,
        blocks_upto(s, iv, bounds, k) is Err,
    ensures
        blocks_upto(s, iv, bounds, n) == blocks_upto(s, iv, bounds, k),
    decreases n - k,
{
    if k < n {
        lemma_blocks_upto_err(s, iv, bounds, k + 1, n);
    }
}



/// Whether a list holds a value.
fn vec_contains(v: &Vec<u32>, x: u32) -> (r: bool)
    ensures
        r == v@.contains(x),
{
    let mut i: usize = 0;
    while i < v.len()
        invariant
            i <= v@.len(),
            forall|k: int| 0 <= k < i ==> v@[k] != x,
        decreases v@.len() - i,
    {
        if v[i] == x {
            assert(v@[i as int] == x);
            return true;
        }
        i = i + 1;
    }
    false
}

/// The blocks naming `id` as a successor.
pub open spec fn names_successor(bs: Seq<BlockView>, y: u32, id: u32) -> bool {
    exists|i: int| 0 <= i < bs.len() && bs[i].id == y && #[trigger] bs[i].successors.contains(id)
}

impl IRLifter {
    /// Set each block's predecessors: the blocks naming it as a successor, sorted.
    fn build_predecessor_relationships(&self, blocks: &mut Vec<IRBlock>)
        ensures
            crate::engine::ir::blocks_view(final(blocks)@) == with_predecessors(crate::engine::ir::blocks_view(old(blocks)@)),
            final(blocks)@.len() == old(blocks)@.len(),
            forall|i: int| 0 <= i < old(blocks)@.len() ==> (#[trigger] final(blocks)@[i]).id == old(blocks)@[i].id
                && final(blocks)@[i].operations == old(blocks)@[i].operations && final(blocks)@[i].successors
                == old(blocks)@[i].successors,
    {
        let ghost bs = crate::engine::ir::blocks_view(blocks@);
        let n = blocks.len();
        let mut all_preds: Vec<Vec<u32>> = Vec::new();
        let mut i: usize = 0;
        while i < n
            invariant
                i <= n,
                n == blocks@.len(),
                bs == crate::engine::ir::blocks_view(blocks@),
                all_preds@.len() == i,
                forall|k: int| 0 <= k < i ==> (#[trigger] all_preds@[k])@ == sorted_set(
                    |y: u32| names_successor(bs, y, bs[k].id),
                ),
            decreases n - i,
        {
            let id = blocks[i].id;
            let mut preds: Vec<u32> = Vec::new();
            let mut a: usize = 0;
            while a < n
                invariant
                    a <= n,
                    i < n,
                    n == blocks@.len(),
                    bs == crate::engine::ir::blocks_view(blocks@),
                    id == bs[i as int].id,
                    strictly_increasing(preds@),
                    forall|y: u32| preds@.contains(y) <==> exists|c: int| 0 <= c < a && bs[c].id == y
                        && #[trigger] bs[c].successors.contains(id),
                decreases n - a,
            {
                let ghost p0 = preds@;
                let named = vec_contains(&blocks[a].successors, id);
                if named {
                    insert_sorted(&mut preds, blocks[a].id);
                }
                proof {
                    assert(bs[a as int] == blocks@[a as int]@);
                    assert(bs[a as int].successors == blocks@[a as int].successors@);
                    assert(named == bs[a as int].successors.contains(id));
                    assert forall|y: u32| preds@.contains(y) <==> (p0.contains(y) || (named && y == bs[a as int].id)) by {}
                    assert forall|y: u32| preds@.contains(y) <==> exists|c: int| 0 <= c < a + 1 && bs[c].id == y
                        && #[trigger] bs[c].successors.contains(id) by {
                        if exists|c: int| 0 <= c < a + 1 && bs[c].id == y && #[trigger] bs[c].successors.contains(id) {
                            let c = choose|c: int| 0 <= c < a + 1 && bs[c].id == y && #[trigger] bs[c].successors.contains(id);
                            if c < a {
                                assert(p0.contains(y));
                            }
                        }
                        if p0.contains(y) {
                            let c = choose|c: int| 0 <= c < a && bs[c].id == y && #[trigger] bs[c].successors.contains(id);
                            assert(0 <= c < a + 1);
                        }
                    }
                }
                a = a + 1;
            }
            proof {
                assert forall|y: u32| preds@.contains(y) <==> names_successor(bs, y, id) by {
                    if names_successor(bs, y, id) {
                        let c = choose|c: int| 0 <= c < bs.len() && bs[c].id == y && #[trigger] bs[c].successors.contains(id);
                        assert(0 <= c < n);
                    }
                }
                lemma_sorted_set(preds@, |y: u32| names_successor(bs, y, id));
            }
            all_preds.push(preds);
            i = i + 1;
        }
        let mut k = n;
        while k > 0
            invariant
                k <= n,
                n == blocks@.len(),
                all_preds@.len() == k,
                bs.len() == n,
                forall|c: int| 0 <= c < k ==> (#[trigger] all_preds@[c])@ == sorted_set(
                    |y: u32| names_successor(bs, y, bs[c].id),
                ),
                forall|c: int| 0 <= c < n ==> (#[trigger] blocks@[c]).id == old(blocks)@[c].id
                    && blocks@[c].operations == old(blocks)@[c].operations && blocks@[c].successors
                    == old(blocks)@[c].successors && blocks@[c].terminator == old(blocks)@[c].terminator,
                forall|c: int| 0 <= c < k ==> (#[trigger] blocks@[c]).predecessors == old(blocks)@[c].predecessors,
                forall|c: int| k <= c < n ==> (#[trigger] blocks@[c]).predecessors@ == sorted_set(
                    |y: u32| names_successor(bs, y, bs[c].id),
                ),
                bs == crate::engine::ir::blocks_view(old(blocks)@),
            decreases k,
        {
            k = k - 1;
            let preds = all_preds.pop().unwrap();
            blocks[k].predecessors = preds;
        }
        proof {
            let w = with_predecessors(bs);
            assert(crate::engine::ir::blocks_view(blocks@) =~= w) by {
                assert forall|c: int| 0 <= c < n implies crate::engine::ir::blocks_view(blocks@)[c] == w[c] by {
                    assert(bs[c] == old(blocks)@[c]@);
                    assert(w[c].predecessors == sorted_set(|y: u32| names_successor(bs, y, bs[c].id)));
                    assert(ops_view(blocks@[c].operations@) == ops_view(old(blocks)@[c].operations@));
                }
            }
        }
    }
}



/// Operation and successor totals depend only on the blocks' operations and successors.
proof fn lemma_totals_same(a: Seq<IRBlock>, b: Seq<IRBlock>)
    requires
        a.len() == b.len(),
        forall|i: int| 0 <= i < a.len() ==> (#[trigger] a[i]).operations == b[i].operations && a[i].successors
            == b[i].successors,
    ensures
        crate::engine::ir::total_operations(a) == crate::engine::ir::total_operations(b),
        crate::engine::ir::total_successors(a) == crate::engine::ir::total_successors(b),
    decreases a.len(),
{
    if a.len() > 0 {
        lemma_totals_same(a.drop_last(), b.drop_last());
        assert(a.last() == a[a.len() - 1]);
    }
}

/// The function lifted from blocks `bs`: named `main`, entered at block 0, with
/// complexity counted from its blocks and no parameters, locals or exits.
pub open spec fn lifted_function(f: IRFunction, bs: Seq<BlockView>) -> bool {
    &&& crate::engine::ir::blocks_view(f.blocks@) == bs
    &&& f.name@ == "main"@
    &&& f.entry_block == 0
    &&& f.parameters@.len() == 0
    &&& f.locals@.len() == 0
    &&& f.exit_blocks@.len() == 0
    &&& f.return_type is None
    &&& f.metadata.offset is None
    &&& !f.metadata.is_entry_point
    &&& !f.metadata.is_public
    &&& !f.metadata.is_safe
    &&& f.metadata.complexity == crate::engine::ir::ComplexityMetrics {
        cyclomatic: crate::engine::ir::cyclomatic(
            crate::engine::ir::total_successors(f.blocks@),
            f.blocks@.len(),
        ) as u32,
        blocks: f.blocks@.len() as u32,
        operations: crate::engine::ir::total_operations(f.blocks@) as u32,
        max_stack_depth: 0,
    }
    &&& f.wf()
}

impl IRLifter {
    /// Check that every instruction has a block within the limit, then that every
    /// jump target has a block or an instruction.
    fn validate_offset_mapping(&self, instructions: &[Instruction]) -> (r: Result<(), LiftError>)
        requires
            addressable(instrs_view(instructions@)),
        ensures
            r == validate_mapping(instrs_view(instructions@), self.offset_to_block@),
    {
        let ghost iv = instrs_view(instructions@);
        let ghost spans = self.offset_to_block@;
        let mut i: usize = 0;
        while i < instructions.len()
            invariant
                i <= instructions@.len(),
                iv == instrs_view(instructions@),
                spans == self.offset_to_block@,
                check_mapped(iv, spans, 0) == check_mapped(iv, spans, i as int),
            decreases instructions@.len() - i,
        {
            let instruction = &instructions[i];
            proof {
                assert(instruction@ == iv[i as int]);
            }
            match self.lookup_block(instruction.offset) {
                None => {
                    return Err(LiftError::InvalidControlFlow { offset: instruction.offset });
                },
                Some(block_id) => {
                    if block_id >= 1000 {
                        return Err(LiftError::InvalidControlFlow { offset: instruction.offset });
                    }
                },
            }
            i = i + 1;
        }
        let mut i: usize = 0;
        while i < instructions.len()
            invariant
                i <= instructions@.len(),
                iv == instrs_view(instructions@),
                addressable(iv),
                spans == self.offset_to_block@,
                check_mapped(iv, spans, 0) == Ok::<(), LiftError>(()),
                check_targets(iv, spans, 0) == check_targets(iv, spans, i as int),
            decreases instructions@.len() - i,
        {
            let instruction = &instructions[i];
            proof {
                assert(instruction@ == iv[i as int]);
                assert(rel_in_range(iv[i as int]));
            }
            if let Some(target_offset) = extract_jump_target(instruction) {
                if self.lookup_block(target_offset).is_none() {
                    if !has_instruction_at_offset(instructions, target_offset) {
                        return Err(LiftError::InvalidControlFlow { offset: instruction.offset });
                    }
                }
            }
            i = i + 1;
        }
        Ok(())
    }

    /// Lift an instruction list to a function named `main`.
    ///
    /// Blocks are cut at the boundaries, lifted in order with one simulated stack,
    /// given edges from their terminators and predecessors from those edges; then
    /// the offset mapping is validated and the complexity counted.
    pub fn lift_to_ir(&mut self, instructions: &[Instruction]) -> (r: Result<IRFunction, LiftError>)
        requires
            addressable(instrs_view(instructions@)),
            4 * instructions@.len() + 4 <= u32::MAX,
        ensures
            match lift_blocks(old(self).state(), instrs_view(instructions@)) {
                Ok(bs) => r matches Ok(f) && lifted_function(f, bs),
                Err(e) => r == Err::<IRFunction, LiftError>(e),
            },
    {
        let ghost iv = instrs_view(instructions@);
        let mut function = IRFunction::new(String::from_str("main"));
        self.reset_state();
        let block_boundaries = self.find_block_boundaries(instructions);
        proof {
            assert(is_boundary(iv, 0));
            assert(block_boundaries@.contains(0));
        }
        self.build_offset_to_block_mapping(instructions, &block_boundaries);
        let ghost s0 = self.state();
        let mut blocks = match self.build_basic_blocks(instructions, &block_boundaries) {
            Ok(b) => b,
            Err(e) => return Err(e),
        };
        let ghost built = blocks@;
        assert(self.offset_to_block@ == s0.spans);
        self.build_predecessor_relationships(&mut blocks);
        proof {
            lemma_totals_same(blocks@, built);
            assert(crate::engine::ir::distinct_ids(blocks@)) by {
                assert forall|a: int, b: int| 0 <= a < b < blocks@.len() implies blocks@[a].id != blocks@[b].id by {
                    assert(blocks@[a].id == built[a].id);
                    assert(blocks@[b].id == built[b].id);
                }
            }
        }
        function.blocks = blocks;
        if function.blocks.len() > 0 {
            function.entry_block = 0;
        }
        assert(self.offset_to_block@ == s0.spans);
        let valid = self.validate_offset_mapping(instructions);
        assert(valid == validate_mapping(iv, s0.spans));
        if let Err(e) = valid {
            return Err(e);
        }
        function.calculate_complexity();
        proof {
            let bounds = boundaries(iv);
            assert(block_boundaries@ == bounds);
            assert(s0 == (LiftState { spans: spans_upto(iv, bounds, bounds.len() as int), ..reset(old(self).state()) }));
            assert(blocks_upto(s0, iv, bounds, bounds.len() as int) matches Ok((s2, bs)) && bs == crate::engine::ir::blocks_view(built));
            assert(validate_mapping(iv, s0.spans) is Ok);
            assert(lift_blocks(old(self).state(), iv) == Ok::<Seq<BlockView>, LiftError>(with_predecessors(crate::engine::ir::blocks_view(built))));
            assert(crate::engine::ir::blocks_view(function.blocks@) == with_predecessors(crate::engine::ir::blocks_view(built)));
            assert(function.name@ == "main"@);
            assert(function.wf());
            assert(function.entry_block == 0);
            assert(function.metadata.offset is None);
        }
        Ok(function)
    }

    /// A lifter with the configuration's custom syscalls added to the built-in ones.
    pub fn new(config: &DecompilerConfig) -> (r: Self)
        ensures
            r.state() == (LiftState {
                config: config@,
                db: crate::engine::syscalls::db_add_all(
                    crate::engine::syscalls::builtin_db(),
                    config@.custom_syscalls.map_values(|p: (Seq<char>, crate::common::config::SyscallDefinitionView)| p.1),
                ),
                counter: 0,
                stack: seq![],
                alt_stack: seq![],
                max_depth: 0,
                locals: Map::empty(),
                args: Map::empty(),
                statics: Map::empty(),
                spans: seq![],
                offset: 0,
            }),
    {
        let mut syscall_db = SyscallDatabase::new();
        let ghost ds = config@.custom_syscalls.map_values(|p: (Seq<char>, crate::common::config::SyscallDefinitionView)| p.1);
        let customs = &config.syscalls.custom_syscalls;
        let mut i: usize = 0;
        while i < customs.len()
            invariant
                i <= customs@.len(),
                ds == config@.custom_syscalls.map_values(|p: (Seq<char>, crate::common::config::SyscallDefinitionView)| p.1),
                customs == &config.syscalls.custom_syscalls,
                syscall_db@ == crate::engine::syscalls::db_add_all(crate::engine::syscalls::builtin_db(), ds.take(i as int)),
            decreases customs@.len() - i,
        {
            proof {
                crate::engine::syscalls::lemma_db_add_all_step(crate::engine::syscalls::builtin_db(), ds, i as int);
                assert(ds[i as int] == customs@[i as int].1@);
            }
            let _ = syscall_db.add_syscall_definition(customs[i].1.clone_definition());
            i = i + 1;
        }
        proof {
            assert(ds.take(customs@.len() as int) =~= ds);
        }
        let r = IRLifter {
            config: config.clone_config(),
            syscall_db,
            var_counter: 0,
            stack: Vec::new(),
            alt_stack: Vec::new(),
            max_stack_depth: 0,
            variables: Vec::new(),
            arguments: Vec::new(),
            static_fields: Vec::new(),
            offset_to_block: Vec::new(),
            current_offset: 0,
        };
        proof {
            assert(stack_view(r.stack@) =~= Seq::<ExprView>::empty());
            assert(stack_view(r.alt_stack@) =~= Seq::<ExprView>::empty());
            assert(slot_entries(r.variables@) =~= Seq::<(u32, VariableView)>::empty());
            assert(slot_entries(r.arguments@) =~= Seq::<(u32, VariableView)>::empty());
            assert(slot_entries(r.static_fields@) =~= Seq::<(u32, VariableView)>::empty());
            assert(assoc(Seq::<(u32, VariableView)>::empty()) =~= Map::<u32, VariableView>::empty());
        }
        r
    }
}


} // verus!
