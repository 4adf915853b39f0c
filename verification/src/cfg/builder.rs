//! Construction of a control-flow graph from decoded instructions: block
//! leaders, blocks with their terminators, and the edges the terminators name.
use vstd::prelude::*;

use super::block::{term_successors, BasicBlock, BlockId, BlockView, TermView, Terminator};
use super::graph::{succs_of, lemma_push_contains, find_key, has_key, is_exit_term, key_pos, keyed, sorted_keys, upsert, Cfg, CfgView, Edge, EdgeKind};
use crate::common::opcode::OpCode;
use crate::common::types::{Instruction, InstructionView, Operand, OperandView};
use crate::engine::lifter::instrs_view;

verus! {

/// Each offset maps to the index of the last instruction at that offset.
pub open spec fn offset_index(iv: Seq<InstructionView>) -> Map<usize, usize>
    decreases iv.len(),
{
    if iv.len() == 0 {
        Map::empty()
    } else {
        offset_index(iv.drop_last()).insert(iv.last().offset as usize, (iv.len() - 1) as usize)
    }
}

/// The signed displacement of a jump operand.
pub open spec fn jump_delta(ins: InstructionView) -> Option<int> {
    match ins.operand {
        Some(OperandView::JumpTarget8(d)) => Some(d as int),
        Some(OperandView::JumpTarget32(d)) => Some(d as int),
        Some(OperandView::JumpTarget(d)) => Some(d as int),
        _ => None,
    }
}

/// `base + delta` when it is the offset of an instruction.
pub open spec fn resolve(iv: Seq<InstructionView>, base: int, delta: int) -> Option<usize> {
    let t = base + delta;
    if 0 <= t <= u32::MAX && offset_index(iv).contains_key(t as usize) {
        Some(t as usize)
    } else {
        None
    }
}

/// The offset a jump goes to, when it is the offset of an instruction;
/// displacements count from the jump's own opcode.
pub open spec fn cfg_jump_target(iv: Seq<InstructionView>, ins: InstructionView) -> Option<usize> {
    match jump_delta(ins) {
        Some(d) => resolve(iv, ins.offset as int, d),
        None => None,
    }
}

/// A handler offset: none for a zero displacement.
pub open spec fn handler(iv: Seq<InstructionView>, base: int, delta: int) -> Option<usize> {
    if delta != 0 {
        resolve(iv, base, delta)
    } else {
        None
    }
}

/// The catch and finally offsets of a `TRY`/`TRY_L`, each when it is the
/// offset of an instruction.
pub open spec fn cfg_try_targets(iv: Seq<InstructionView>, ins: InstructionView) -> Option<(Option<usize>, Option<usize>)> {
    if ins.opcode == OpCode::TRY || ins.opcode == OpCode::TRY_L {
        match ins.operand {
            Some(OperandView::TryBlock { catch_offset, finally_offset }) => Some(
                (
                    handler(iv, ins.offset as int, (catch_offset as i32) as int),
                    match finally_offset {
                        Some(f) => handler(iv, ins.offset as int, (f as i32) as int),
                        None => None,
                    },
                ),
            ),
            _ => None,
        }
    } else {
        None
    }
}

/// Conditional jumps.
pub open spec fn is_cond_jump(op: OpCode) -> bool {
    matches!(op, OpCode::JMPIF | OpCode::JMPIF_L | OpCode::JMPIFNOT | OpCode::JMPIFNOT_L | OpCode::JMPEQ | OpCode::JMPEQ_L
        | OpCode::JMPNE | OpCode::JMPNE_L | OpCode::JMPGT | OpCode::JMPGT_L | OpCode::JMPGE | OpCode::JMPGE_L
        | OpCode::JMPLT | OpCode::JMPLT_L | OpCode::JMPLE | OpCode::JMPLE_L)
}

/// Unconditional transfers with a displacement: jumps and `ENDTRY`.
pub open spec fn is_goto(op: OpCode) -> bool {
    matches!(op, OpCode::JMP | OpCode::JMP_L | OpCode::ENDTRY | OpCode::ENDTRY_L)
}

/// Instructions after which control does not fall through.
pub open spec fn is_leave(op: OpCode) -> bool {
    matches!(op, OpCode::RET | OpCode::THROW | OpCode::ABORT | OpCode::ABORTMSG | OpCode::ENDFINALLY)
}

/// The offset of the instruction after `i`, if any.
pub open spec fn next_of(iv: Seq<InstructionView>, i: int) -> Option<usize> {
    if i + 1 < iv.len() {
        Some(iv[i + 1].offset as usize)
    } else {
        None
    }
}

/// A call to a method in the script.
pub open spec fn is_call(op: OpCode) -> bool {
    op == OpCode::CALL || op == OpCode::CALL_L
}

/// Whether instruction `i` makes `x` a leader: the targets of jumps, the
/// handlers of `TRY`, and the instruction after any of these, after an
/// instruction that leaves its block, or after a call recorded in `nr` as
/// not returning.
pub open spec fn leader_contrib(iv: Seq<InstructionView>, nr: Set<usize>, i: int, x: usize) -> bool {
    let ins = iv[i];
    if is_goto(ins.opcode) || is_cond_jump(ins.opcode) {
        cfg_jump_target(iv, ins) == Some(x) || next_of(iv, i) == Some(x)
    } else if ins.opcode == OpCode::TRY || ins.opcode == OpCode::TRY_L {
        (match cfg_try_targets(iv, ins) {
            Some((c, f)) => c == Some(x) || f == Some(x),
            None => false,
        }) || next_of(iv, i) == Some(x)
    } else if is_leave(ins.opcode) || (is_call(ins.opcode) && nr.contains(ins.offset as usize)) {
        next_of(iv, i) == Some(x)
    } else {
        false
    }
}

/// Offsets where blocks begin: the first instruction and every contributed offset.
pub open spec fn is_leader(iv: Seq<InstructionView>, nr: Set<usize>, x: usize) -> bool {
    (iv.len() > 0 && x == iv[0].offset as usize) || exists|i: int| 0 <= i < iv.len() && #[trigger] leader_contrib(iv, nr, i, x)
}

/// Strictly increasing.
pub open spec fn increasing(s: Seq<usize>) -> bool {
    forall|i: int, j: int| 0 <= i < j < s.len() ==> s[i] < s[j]
}

/// The leaders in increasing order.
pub open spec fn leaders_of(iv: Seq<InstructionView>, nr: Set<usize>) -> Seq<usize> {
    choose|r: Seq<usize>| increasing(r) && forall|x: usize| r.contains(x) <==> is_leader(iv, nr, x)
}

/// Two increasing sequences with the same elements are equal.
pub proof fn lemma_increasing_unique(a: Seq<usize>, b: Seq<usize>)
    requires
        increasing(a),
        increasing(b),
        forall|x: usize| a.contains(x) <==> b.contains(x),
    ensures
        a == b,
    decreases a.len(),
{
    if a.len() == 0 {
        if b.len() > 0 {
            assert(b.contains(b[0]));
        }
        assert(a =~= b);
    } else {
        assert(a.contains(a[0]));
        assert(b.contains(b[0]));
        let ia = choose|i: int| 0 <= i < a.len() && a[i] == b[0];
        let ib = choose|i: int| 0 <= i < b.len() && b[i] == a[0];
        assert(a[0] == b[0]) by {
            if a[0] < b[0] {
                if ib > 0 {
                    assert(b[0] < b[ib]);
                }
            } else if b[0] < a[0] {
                if ia > 0 {
                    assert(a[0] < a[ia]);
                }
            }
        }
        let a1 = a.drop_first();
        let b1 = b.drop_first();
        assert forall|x: usize| a1.contains(x) <==> b1.contains(x) by {
            if a1.contains(x) {
                let i = choose|i: int| 0 <= i < a1.len() && a1[i] == x;
                assert(a[i + 1] == x);
                assert(b.contains(x));
                let j = choose|j: int| 0 <= j < b.len() && b[j] == x;
                assert(j != 0) by {
                    assert(a[0] < a[i + 1]);
                }
                assert(b1[j - 1] == x);
            }
            if b1.contains(x) {
                let i = choose|i: int| 0 <= i < b1.len() && b1[i] == x;
                assert(b[i + 1] == x);
                assert(a.contains(x));
                let j = choose|j: int| 0 <= j < a.len() && a[j] == x;
                assert(j != 0) by {
                    assert(b[0] < b[i + 1]);
                }
                assert(a1[j - 1] == x);
            }
        }
        lemma_increasing_unique(a1, b1);
        assert(a =~= seq![a[0]] + a1);
        assert(b =~= seq![b[0]] + b1);
    }
}

/// Where the code ends: past the last instruction.
pub open spec fn code_end(iv: Seq<InstructionView>) -> usize {
    if iv.len() == 0 {
        0
    } else {
        (iv.last().offset + iv.last().size) as usize
    }
}

/// The block holding `off`: the last leader not above it, or the entry block.
pub open spec fn block_of(ls: Seq<usize>, off: usize) -> usize
    decreases ls.len(),
{
    if ls.len() == 0 {
        0
    } else if ls.last() <= off {
        (ls.len() - 1) as usize
    } else {
        block_of(ls.drop_last(), off)
    }
}

/// The block identifier holding `off`.
pub open spec fn block_id_of(ls: Seq<usize>, off: usize) -> BlockId {
    BlockId(block_of(ls, off))
}

/// The terminator of a block whose instructions end before index `end_index`;
/// a call recorded in `nr` as not returning ends its path.
pub open spec fn term_spec(iv: Seq<InstructionView>, nr: Set<usize>, ls: Seq<usize>, end_index: int) -> TermView {
    if end_index == 0 || end_index > iv.len() {
        TermView::Unknown
    } else {
        let last = iv[end_index - 1];
        let op = last.opcode;
        let after = if end_index < iv.len() { iv[end_index].offset as usize } else { code_end(iv) };
        if op == OpCode::RET {
            TermView::Return
        } else if op == OpCode::THROW {
            TermView::Throw
        } else if op == OpCode::ABORT || op == OpCode::ABORTMSG {
            TermView::Abort
        } else if op == OpCode::ENDFINALLY {
            TermView::Unknown
        } else if op == OpCode::JMP || op == OpCode::JMP_L {
            match cfg_jump_target(iv, last) {
                Some(t) => TermView::Jump { target: block_id_of(ls, t) },
                None => TermView::Unknown,
            }
        } else if op == OpCode::ENDTRY || op == OpCode::ENDTRY_L {
            match cfg_jump_target(iv, last) {
                Some(t) => TermView::EndTry { continuation: block_id_of(ls, t), nonlocal: false },
                None => TermView::Unknown,
            }
        } else if is_cond_jump(op) {
            match cfg_jump_target(iv, last) {
                Some(t) => TermView::Branch { then_target: block_id_of(ls, t), else_target: block_id_of(ls, after) },
                None => TermView::Unknown,
            }
        } else if op == OpCode::TRY || op == OpCode::TRY_L {
            let (c, f) = match cfg_try_targets(iv, last) {
                Some(p) => p,
                None => (None, None),
            };
            TermView::TryEntry {
                body_target: block_id_of(ls, after),
                catch_target: match c {
                    Some(o) => Some(block_id_of(ls, o)),
                    None => None,
                },
                finally_target: match f {
                    Some(o) => Some(block_id_of(ls, o)),
                    None => None,
                },
            }
        } else if is_call(op) && nr.contains(last.offset as usize) {
            TermView::NoReturnCall
        } else if end_index < iv.len() {
            TermView::Fallthrough { target: block_id_of(ls, iv[end_index].offset as usize) }
        } else {
            TermView::Unknown
        }
    }
}

/// In well-laid code a block that ends in a conditional jump whose target is an instruction
/// branches to the block of that target when the jump is taken and to the block of the next
/// instruction when it is not; one that ends in `JMP` or `JMP_L` goes to the block of its
/// target.
pub proof fn lemma_jump_arms(iv: Seq<InstructionView>, nr: Set<usize>, ls: Seq<usize>, end_index: int, j: int)
    requires
        well_laid(iv),
        iv.len() <= usize::MAX,
        0 < end_index < iv.len(),
        0 <= j < iv.len(),
        (iv[end_index - 1].operand matches Some(OperandView::JumpTarget8(d)) && iv[j].offset == iv[end_index - 1].offset + d)
            || (iv[end_index - 1].operand matches Some(OperandView::JumpTarget32(d)) && iv[j].offset == iv[end_index - 1].offset + d)
            || (iv[end_index - 1].operand matches Some(OperandView::JumpTarget(d)) && iv[j].offset == iv[end_index - 1].offset + d),
    ensures
        is_cond_jump(iv[end_index - 1].opcode) ==> term_spec(iv, nr, ls, end_index) == (TermView::Branch {
            then_target: block_id_of(ls, iv[j].offset as usize),
            else_target: block_id_of(ls, iv[end_index].offset as usize),
        }),
        iv[end_index - 1].opcode == OpCode::JMP || iv[end_index - 1].opcode == OpCode::JMP_L ==> term_spec(iv, nr, ls, end_index)
            == (TermView::Jump { target: block_id_of(ls, iv[j].offset as usize) }),
{
    lemma_offset_index(iv);
    assert(offset_index(iv).contains_key(iv[j].offset as usize));
    assert(cfg_jump_target(iv, iv[end_index - 1]) == Some(iv[j].offset as usize));
}

/// The index of the instruction at `off`, or `dflt` when none is there.
pub open spec fn index_or(iv: Seq<InstructionView>, off: usize, dflt: usize) -> usize {
    if offset_index(iv).contains_key(off) {
        offset_index(iv)[off]
    } else {
        dflt
    }
}

/// Block `k`: from its leader to the next leader (or the end of the code),
/// with the instruction indices of those offsets and the terminator of its
/// last instruction.
pub open spec fn block_spec(iv: Seq<InstructionView>, nr: Set<usize>, ls: Seq<usize>, k: int) -> BlockView {
    let start = ls[k];
    let end = if k + 1 < ls.len() { ls[k + 1] } else { code_end(iv) };
    let si = index_or(iv, start, 0);
    let ei = index_or(iv, end, iv.len() as usize);
    BlockView {
        id: BlockId(k as usize),
        start_offset: start,
        end_offset: end,
        range_start: si,
        range_end: ei,
        terminator: term_spec(iv, nr, ls, ei as int),
    }
}

/// The edges a terminator adds, in the order of its targets.
pub open spec fn term_edges(from: BlockId, t: TermView) -> Seq<Edge> {
    match t {
        TermView::Fallthrough { target } => seq![Edge { from, to: target, kind: EdgeKind::Unconditional }],
        TermView::Jump { target } => seq![Edge { from, to: target, kind: EdgeKind::Unconditional }],
        TermView::Branch { then_target, else_target } => seq![
            Edge { from, to: then_target, kind: EdgeKind::ConditionalTrue },
            Edge { from, to: else_target, kind: EdgeKind::ConditionalFalse },
        ],
        TermView::TryEntry { body_target, catch_target, finally_target } => {
            let c = match catch_target {
                Some(b) => seq![Edge { from, to: b, kind: EdgeKind::Exception }],
                None => Seq::empty(),
            };
            let f = match finally_target {
                Some(b) => seq![Edge { from, to: b, kind: EdgeKind::Finally }],
                None => Seq::empty(),
            };
            seq![Edge { from, to: body_target, kind: EdgeKind::Unconditional }] + c + f
        },
        TermView::EndTry { continuation, .. } => seq![Edge { from, to: continuation, kind: EdgeKind::Unconditional }],
        TermView::EndTryFinally { finally_target, .. } => seq![Edge { from, to: finally_target, kind: EdgeKind::Finally }],
        TermView::EndFinally { normal_continuations } => normal_continuations.map_values(
            |c: BlockId| Edge { from, to: c, kind: EdgeKind::Unconditional },
        ),
        _ => Seq::empty(),
    }
}

/// The edges of blocks in order.
pub open spec fn edges_of(bs: Seq<BlockView>) -> Seq<Edge>
    decreases bs.len(),
{
    if bs.len() == 0 {
        Seq::empty()
    } else {
        edges_of(bs.drop_last()) + term_edges(bs.last().id, bs.last().terminator)
    }
}

/// The blocks of an instruction list, in order.
pub open spec fn blocks_spec(iv: Seq<InstructionView>, nr: Set<usize>) -> Seq<BlockView> {
    let ls = leaders_of(iv, nr);
    Seq::new(ls.len(), |k: int| block_spec(iv, nr, ls, k))
}

/// The blocks of a graph, in the order of their numbers.
pub open spec fn graph_blocks(g: CfgView, n: nat) -> Seq<BlockView> {
    Seq::new(n, |k: int| g.blocks[k as usize])
}

/// The graph of an instruction list: one block per leader, numbered from
/// zero, each with the offsets and instruction range its leaders give and
/// with the terminator its last instruction gives, unless finally routing
/// replaced it, in a block holding an `ENDTRY`, `ENDTRY_L` or `ENDFINALLY`,
/// by an ENDTRY, ENDTRY-through-finally or ENDFINALLY one; the edges those
/// terminators name, in block order; the exits; and the leaders indexed to
/// their blocks.
pub open spec fn built(iv: Seq<InstructionView>, nr: Set<usize>, g: CfgView) -> bool {
    let ls = leaders_of(iv, nr);
    let gs = graph_blocks(g, ls.len());
    &&& g.blocks.dom() == Set::new(|k: usize| k < ls.len())
    &&& routed_from(blocks_spec(iv, nr), gs, iv, ls)
    &&& g.edges == edges_of(gs)
    &&& g.entry == BlockId(0)
    &&& g.exits == Set::new(|id: BlockId| id.0 < ls.len() && is_exit_term(g.blocks[id.0].terminator))
    &&& g.offsets == Map::new(|o: usize| ls.contains(o), |o: usize| BlockId(block_of(ls, o)))
}

/// In a built graph the exit blocks are exactly the blocks that end in a return, a throw or
/// an abort.
pub proof fn lemma_built_exits(iv: Seq<InstructionView>, nr: Set<usize>, g: CfgView)
    requires
        built(iv, nr, g),
    ensures
        forall|k: usize| #[trigger] g.blocks.contains_key(k) ==> (g.exits.contains(BlockId(k)) <==> (
            g.blocks[k].terminator is Return || g.blocks[k].terminator is Throw || g.blocks[k].terminator is Abort)),
        forall|id: BlockId| #[trigger] g.exits.contains(id) ==> g.blocks.contains_key(id.0),
{
    let ls = leaders_of(iv, nr);
    assert forall|k: usize| #[trigger] g.blocks.contains_key(k) implies (g.exits.contains(BlockId(k)) <==> (
        g.blocks[k].terminator is Return || g.blocks[k].terminator is Throw || g.blocks[k].terminator is Abort)) by {
        assert(g.blocks.dom().contains(k));
        assert(k < ls.len());
    }
    assert forall|id: BlockId| #[trigger] g.exits.contains(id) implies g.blocks.contains_key(id.0) by {
        assert(Set::new(|k: usize| k < ls.len()).contains(id.0));
    }
}

/// Offsets and sizes fit the address arithmetic.
pub open spec fn fits(iv: Seq<InstructionView>) -> bool {
    forall|i: int| 0 <= i < iv.len() ==> (#[trigger] iv[i]).offset + iv[i].size <= usize::MAX
}


/// The map of a keyed list after `upsert`.
proof fn lemma_upsert_keyed<V>(o: Seq<(usize, V)>, n: Seq<(usize, V)>, k: usize, v: V)
    requires
        forall|k2: usize| has_key(n, k2) <==> (has_key(o, k2) || k2 == k),
        n[key_pos(n, k)].1 == v,
        forall|k2: usize| k2 != k && has_key(o, k2) ==> #[trigger] n[key_pos(n, k2)].1 == o[key_pos(o, k2)].1,
    ensures
        keyed(n) == keyed(o).insert(k, v),
{
    assert forall|k2: usize| #[trigger] keyed(n).contains_key(k2) <==> keyed(o).insert(k, v).contains_key(k2) by {}
    assert forall|k2: usize| keyed(n).contains_key(k2) implies #[trigger] keyed(n)[k2] == keyed(o).insert(k, v)[k2] by {
        if k2 != k {
            assert(n[key_pos(n, k2)].1 == o[key_pos(o, k2)].1);
        }
    }
    assert(keyed(n) =~= keyed(o).insert(k, v));
}

/// The block of a leader is its position.
proof fn lemma_block_of_leader(ls: Seq<usize>, k: int)
    requires
        increasing(ls),
        0 <= k < ls.len(),
        ls.len() <= usize::MAX,
    ensures
        block_of(ls, ls[k]) == k,
    decreases ls.len(),
{
    if k < ls.len() - 1 {
        assert(ls[k] < ls[ls.len() - 1]);
        let d = ls.drop_last();
        assert(increasing(d));
        assert(d[k] == ls[k]);
        lemma_block_of_leader(d, k);
    }
}

/// Insert `x` into an increasing list unless it is there.
fn insert_increasing(v: &mut Vec<usize>, x: usize)
    requires
        increasing(old(v)@),
    ensures
        increasing(final(v)@),
        forall|b: usize| final(v)@.contains(b) <==> (old(v)@.contains(b) || b == x),
        !old(v)@.contains(x) ==> final(v)@.len() == old(v)@.len() + 1,
{
    let ghost s = v@;
    let mut p: usize = 0;
    while p < v.len() && v[p] < x
        invariant
            p <= v@.len(),
            v@ == s,
            forall|j: int| 0 <= j < p ==> v@[j] < x,
        decreases v.len() - p,
    {
        p = p + 1;
    }
    if p < v.len() && v[p] == x {
        proof {
            assert forall|b: usize| v@.contains(b) <==> (s.contains(b) || b == x) by {
                if b == x {
                    assert(v@[p as int] == x);
                }
            }
        }
        return;
    }
    v.insert(p, x);
    proof {
        let t = v@;
        assert(t == s.insert(p as int, x));
        assert forall|i: int, j: int| 0 <= i < j < t.len() implies t[i] < t[j] by {
            if j < p {
            } else if j == p {
            } else if i == p {
                assert(s[j - 1] >= x);
                assert(s[j - 1] != x) by {
                    if j - 1 > p {
                        assert(s[p as int] < s[j - 1]);
                    }
                }
            } else if i < p {
                assert(s[i] < s[j - 1]);
            } else {
                assert(s[i - 1] < s[j - 1]);
            }
        }
        assert forall|b: usize| t.contains(b) <==> (s.contains(b) || b == x) by {
            if t.contains(b) {
                let i = choose|i: int| 0 <= i < t.len() && t[i] == b;
                if i < p {
                    assert(s[i] == b);
                } else if i > p {
                    assert(s[i - 1] == b);
                }
            }
            if s.contains(b) {
                let i = choose|i: int| 0 <= i < s.len() && s[i] == b;
                if i < p {
                    assert(t[i] == b);
                } else {
                    assert(t[i + 1] == b);
                }
            }
            if b == x {
                assert(t[p as int] == b);
            }
        }
    }
}

/// Builds a control-flow graph from instructions.
pub struct CfgBuilder<'a> {
    instructions: &'a [Instruction],
    offset_to_index: Vec<(usize, usize)>,
    leaders: Vec<usize>,
    non_returning_calls: Vec<usize>,
}

impl<'a> CfgBuilder<'a> {
    /// The instructions the builder works on.
    pub closed spec fn instrs(&self) -> Seq<InstructionView> {
        instrs_view(self.instructions@)
    }

    /// Call sites recorded as not returning.
    pub closed spec fn non_returning(&self) -> Set<usize> {
        self.non_returning_calls@.to_set()
    }

    /// Internal consistency of the builder.
    pub closed spec fn wf(&self) -> bool {
        &&& sorted_keys(self.offset_to_index@)
        &&& keyed(self.offset_to_index@) == offset_index(self.instrs())
        &&& increasing(self.non_returning_calls@)
        &&& increasing(self.leaders@)
    }

    /// A builder over `instructions`, with each offset indexed to the last
    /// instruction at that offset.
    pub fn new(instructions: &'a [Instruction]) -> (r: Self)
        ensures
            r.wf(),
            r.instrs() == instrs_view(instructions@),
            r.non_returning() == Set::<usize>::empty(),
    {
        let ghost iv = instrs_view(instructions@);
        let mut offset_to_index: Vec<(usize, usize)> = Vec::new();
        let mut i: usize = 0;
        proof {
            assert(iv.take(0) =~= Seq::<InstructionView>::empty());
            assert(keyed(offset_to_index@) =~= Map::<usize, usize>::empty());
        }
        while i < instructions.len()
            invariant
                iv == instrs_view(instructions@),
                i <= instructions@.len(),
                sorted_keys(offset_to_index@),
                keyed(offset_to_index@) == offset_index(iv.take(i as int)),
            decreases instructions.len() - i,
        {
            let ghost o = offset_to_index@;
            upsert(&mut offset_to_index, instructions[i].offset as usize, i);
            proof {
                lemma_upsert_keyed(o, offset_to_index@, instructions@[i as int].offset as usize, i);
                assert(iv.take(i + 1).drop_last() =~= iv.take(i as int));
                assert(iv.take(i + 1).last() == iv[i as int]);
            }
            i = i + 1;
        }
        proof {
            assert(iv.take(i as int) =~= iv);
        }
        let r = CfgBuilder { instructions, offset_to_index, leaders: Vec::new(), non_returning_calls: Vec::new() };
        proof {
            assert(r.non_returning_calls@.to_set() =~= Set::<usize>::empty());
        }
        r
    }

    /// The builder with the given call sites recorded as not returning: in the
    /// graph that `build` makes, such a call ends its block, which has no
    /// successors.
    pub fn with_non_returning_calls(self, offsets: &[usize]) -> (r: Self)
        requires
            self.wf(),
        ensures
            r.wf(),
            r.instrs() == self.instrs(),
            r.non_returning() == self.non_returning() + offsets@.to_set(),
    {
        let mut this = self;
        let ghost before = this.non_returning_calls@.to_set();
        let mut i: usize = 0;
        while i < offsets.len()
            invariant
                this.wf(),
                this.instrs() == self.instrs(),
                i <= offsets@.len(),
                this.non_returning_calls@.to_set() == before + offsets@.take(i as int).to_set(),
            decreases offsets.len() - i,
        {
            let ghost o = this.non_returning_calls@;
            insert_increasing(&mut this.non_returning_calls, offsets[i]);
            proof {
                assert(offsets@.take(i + 1) =~= offsets@.take(i as int).push(offsets@[i as int]));
                lemma_push_contains(offsets@.take(i as int), offsets@[i as int]);
                assert forall|x: usize| this.non_returning_calls@.to_set().contains(x) <==> (before + offsets@.take(i + 1).to_set()).contains(x) by {
                    assert(o.to_set().contains(x) <==> o.contains(x));
                    assert(this.non_returning_calls@.to_set().contains(x) <==> this.non_returning_calls@.contains(x));
                    assert(offsets@.take(i + 1).to_set().contains(x) <==> offsets@.take(i + 1).contains(x));
                    assert(offsets@.take(i as int).to_set().contains(x) <==> offsets@.take(i as int).contains(x));
                }
                assert(this.non_returning_calls@.to_set() =~= before + offsets@.take(i + 1).to_set());
            }
            i = i + 1;
        }
        proof {
            assert(offsets@.take(i as int) =~= offsets@);
        }
        this
    }

    /// The index of the instruction at `off`, if any.
    fn index_of(&self, off: usize) -> (r: Option<usize>)
        requires
            self.wf(),
        ensures
            match r {
                Some(i) => offset_index(self.instrs()).contains_key(off) && offset_index(self.instrs())[off] == i,
                None => !offset_index(self.instrs()).contains_key(off),
            },
    {
        match find_key(&self.offset_to_index, off) {
            Some(p) => Some(self.offset_to_index[p].1),
            None => None,
        }
    }

    /// `base + delta` when it is the offset of an instruction.
    fn resolve_offset(&self, base: u32, delta: i64) -> (r: Option<usize>)
        requires
            self.wf(),
            i32::MIN <= delta <= i32::MAX,
        ensures
            r == resolve(self.instrs(), base as int, delta as int),
    {
        let target: i64 = base as i64 + delta;
        if target < 0 || target > 0xffff_ffffi64 {
            return None;
        }
        let t = target as usize;
        match self.index_of(t) {
            Some(_) => Some(t),
            None => None,
        }
    }

    /// The offset a jump goes to, when an instruction is there.
    fn jump_target(&self, instr: &Instruction) -> (r: Option<usize>)
        requires
            self.wf(),
        ensures
            r == cfg_jump_target(self.instrs(), instr@),
    {
        let delta: i64 = match &instr.operand {
            Some(Operand::JumpTarget8(v)) => *v as i64,
            Some(Operand::JumpTarget32(v)) => *v as i64,
            Some(Operand::JumpTarget(v)) => *v as i64,
            _ => {
                return None;
            },
        };
        self.resolve_offset(instr.offset, delta)
    }

    /// A handler offset; none for a zero displacement.
    fn handler_offset(&self, base: u32, raw: u32) -> (r: Option<usize>)
        requires
            self.wf(),
        ensures
            r == handler(self.instrs(), base as int, (raw as i32) as int),
    {
        let delta = raw as i32;
        if delta != 0 {
            self.resolve_offset(base, delta as i64)
        } else {
            None
        }
    }

    /// The catch and finally offsets of a `TRY`/`TRY_L`.
    fn try_targets(&self, instr: &Instruction) -> (r: Option<(Option<usize>, Option<usize>)>)
        requires
            self.wf(),
        ensures
            r == cfg_try_targets(self.instrs(), instr@),
    {
        if instr.opcode != OpCode::TRY && instr.opcode != OpCode::TRY_L {
            return None;
        }
        match &instr.operand {
            Some(Operand::TryBlock { catch_offset, finally_offset }) => {
                let c = self.handler_offset(instr.offset, *catch_offset);
                let f = match finally_offset {
                    Some(x) => self.handler_offset(instr.offset, *x),
                    None => None,
                };
                Some((c, f))
            },
            _ => None,
        }
    }

    /// Where the code ends: past the last instruction.
    fn end_offset(&self) -> (r: usize)
        requires
            self.wf(),
            fits(self.instrs()),
        ensures
            r == code_end(self.instrs()),
    {
        let n = self.instructions.len();
        if n == 0 {
            return 0;
        }
        proof {
            assert(self.instrs()[n - 1] == self.instructions@[n - 1]@);
        }
        self.instructions[n - 1].offset as usize + self.instructions[n - 1].size as usize
    }
}


/// Add the edges of a terminator, in the order of its targets.
fn add_term_edges(cfg: &mut Cfg, from: BlockId, t: &Terminator)
    requires
        old(cfg).wf(),
    ensures
        final(cfg).wf(),
        final(cfg)@.edges == old(cfg)@.edges + term_edges(from, t@),
        final(cfg)@.blocks == old(cfg)@.blocks,
        final(cfg)@.exits == old(cfg)@.exits,
        final(cfg)@.offsets == old(cfg)@.offsets,
        final(cfg)@.entry == old(cfg)@.entry,
{
    let ghost e0 = cfg@.edges;
    match t {
        Terminator::Fallthrough { target } => {
            cfg.add_edge(from, *target, EdgeKind::Unconditional);
        },
        Terminator::Jump { target } => {
            cfg.add_edge(from, *target, EdgeKind::Unconditional);
        },
        Terminator::Branch { then_target, else_target } => {
            cfg.add_edge(from, *then_target, EdgeKind::ConditionalTrue);
            cfg.add_edge(from, *else_target, EdgeKind::ConditionalFalse);
        },
        Terminator::TryEntry { body_target, catch_target, finally_target } => {
            cfg.add_edge(from, *body_target, EdgeKind::Unconditional);
            if let Some(c) = catch_target {
                cfg.add_edge(from, *c, EdgeKind::Exception);
            }
            if let Some(f) = finally_target {
                cfg.add_edge(from, *f, EdgeKind::Finally);
            }
        },
        Terminator::EndTry { continuation, .. } => {
            cfg.add_edge(from, *continuation, EdgeKind::Unconditional);
        },
        Terminator::EndTryFinally { finally_target, .. } => {
            cfg.add_edge(from, *finally_target, EdgeKind::Finally);
        },
        Terminator::EndFinally { normal_continuations } => {
            let mut j: usize = 0;
            while j < normal_continuations.len()
                invariant
                    cfg.wf(),
                    j <= normal_continuations@.len(),
                    cfg@.edges == e0 + normal_continuations@.take(j as int).map_values(
                        |c: BlockId| Edge { from, to: c, kind: EdgeKind::Unconditional },
                    ),
                    cfg@.blocks == old(cfg)@.blocks,
                    cfg@.exits == old(cfg)@.exits,
                    cfg@.offsets == old(cfg)@.offsets,
                    cfg@.entry == old(cfg)@.entry,
                decreases normal_continuations.len() - j,
            {
                cfg.add_edge(from, normal_continuations[j], EdgeKind::Unconditional);
                proof {
                    assert(normal_continuations@.take(j + 1).map_values(|c: BlockId| Edge { from, to: c, kind: EdgeKind::Unconditional })
                        =~= normal_continuations@.take(j as int).map_values(|c: BlockId| Edge { from, to: c, kind: EdgeKind::Unconditional }).push(
                        Edge { from, to: normal_continuations@[j as int], kind: EdgeKind::Unconditional },
                    ));
                }
                j = j + 1;
            }
            proof {
                assert(normal_continuations@.take(j as int) =~= normal_continuations@);
            }
        },
        _ => {},
    }
    proof {
        assert(cfg@.edges =~= e0 + term_edges(from, t@));
    }
}

/// The graph of blocks numbered by position with increasing start offsets:
/// the blocks, their edges in block order, the exits, and each start offset
/// indexed to its block.
fn build_cfg(blocks: &Vec<BasicBlock>, Ghost(ls): Ghost<Seq<usize>>) -> (r: Cfg)
    requires
        blocks@.len() == ls.len(),
        increasing(ls),
        forall|k: int| 0 <= k < ls.len() ==> (#[trigger] blocks@[k]).id == BlockId(k as usize) && blocks@[k].start_offset == ls[k],
    ensures
        r.wf(),
        r@.blocks == Map::new(|k: usize| k < ls.len(), |k: usize| blocks@[k as int]@),
        r@.edges == edges_of(blocks@.map_values(|b: BasicBlock| b@)),
        r@.entry == BlockId(0),
        r@.exits == Set::new(|id: BlockId| id.0 < ls.len() && is_exit_term(blocks@[id.0 as int]@.terminator)),
        r@.offsets == Map::new(|o: usize| ls.contains(o), |o: usize| BlockId(block_of(ls, o))),
{
    let mut cfg = Cfg::new();
    let n = blocks.len();
    let mut i: usize = 0;
    proof {
        assert(cfg@.blocks =~= Map::new(|k: usize| k < 0, |k: usize| blocks@[k as int]@));
        assert(cfg@.exits =~= Set::new(|id: BlockId| id.0 < 0 && is_exit_term(blocks@[id.0 as int]@.terminator)));
        assert(cfg@.offsets =~= Map::new(|o: usize| ls.take(0).contains(o), |o: usize| BlockId(block_of(ls, o))));
    }
    while i < n
        invariant
            n == blocks@.len(),
            n == ls.len(),
            increasing(ls),
            forall|k: int| 0 <= k < ls.len() ==> (#[trigger] blocks@[k]).id == BlockId(k as usize) && blocks@[k].start_offset == ls[k],
            i <= n,
            cfg.wf(),
            cfg@.blocks == Map::new(|k: usize| k < i, |k: usize| blocks@[k as int]@),
            cfg@.edges == Seq::<Edge>::empty(),
            cfg@.entry == BlockId(0),
            cfg@.exits == Set::new(|id: BlockId| id.0 < i && is_exit_term(blocks@[id.0 as int]@.terminator)),
            cfg@.offsets == Map::new(|o: usize| ls.take(i as int).contains(o), |o: usize| BlockId(block_of(ls, o))),
        decreases n - i,
    {
        let b = blocks[i].duplicate();
        let ghost bv = blocks@[i as int]@;
        cfg.add_block(b);
        proof {
            assert(blocks@[i as int].id == BlockId(i));
            lemma_block_of_leader(ls, i as int);
            assert(cfg@.blocks =~= Map::new(|k: usize| k < i + 1, |k: usize| blocks@[k as int]@));
            assert(cfg@.exits =~= Set::new(|id: BlockId| id.0 < i + 1 && is_exit_term(blocks@[id.0 as int]@.terminator)));
            assert(ls.take(i + 1) =~= ls.take(i as int).push(ls[i as int]));
            lemma_push_contains(ls.take(i as int), ls[i as int]);
            assert(cfg@.offsets =~= Map::new(|o: usize| ls.take(i + 1).contains(o), |o: usize| BlockId(block_of(ls, o))));
        }
        i = i + 1;
    }
    proof {
        assert(ls.take(n as int) =~= ls);
    }
    let ghost bs = blocks@.map_values(|b: BasicBlock| b@);
    let mut k: usize = 0;
    while k < n
        invariant
            n == blocks@.len(),
            n == ls.len(),
            bs == blocks@.map_values(|b: BasicBlock| b@),
            k <= n,
            cfg.wf(),
            cfg@.blocks == Map::new(|k: usize| k < ls.len(), |k: usize| blocks@[k as int]@),
            cfg@.edges == edges_of(bs.take(k as int)),
            cfg@.entry == BlockId(0),
            cfg@.exits == Set::new(|id: BlockId| id.0 < ls.len() && is_exit_term(blocks@[id.0 as int]@.terminator)),
            cfg@.offsets == Map::new(|o: usize| ls.contains(o), |o: usize| BlockId(block_of(ls, o))),
        decreases n - k,
    {
        let block = &blocks[k];
        add_term_edges(&mut cfg, block.id, &block.terminator);
        proof {
            assert(bs.take(k + 1).drop_last() =~= bs.take(k as int));
            assert(bs.take(k + 1).last() == block@);
        }
        k = k + 1;
    }
    proof {
        assert(bs.take(k as int) =~= bs);
    }
    cfg
}

impl<'a> CfgBuilder<'a> {
    /// Record the leaders contributed by instruction `i`.
    fn add_leaders_of(&mut self, i: usize)
        requires
            old(self).wf(),
            i < old(self).instrs().len(),
        ensures
            final(self).wf(),
            final(self).instrs() == old(self).instrs(),
            final(self).non_returning() == old(self).non_returning(),
            forall|x: usize| final(self).leaders@.contains(x) <==> (old(self).leaders@.contains(x) || leader_contrib(old(self).instrs(), old(self).non_returning(), i as int, x)),
    {
        let ghost iv = self.instrs();
        let instr = &self.instructions[i];
        proof {
            assert(iv[i as int] == instr@);
        }
        let next: Option<usize> = if i + 1 < self.instructions.len() {
            Some(self.instructions[i + 1].offset as usize)
        } else {
            None
        };
        proof {
            if i + 1 < iv.len() {
                assert(iv[i + 1] == self.instructions@[i + 1]@);
            }
            assert(next == next_of(iv, i as int));
        }
        let op = instr.opcode;
        let is_goto_or_cond = match op {
            OpCode::JMP | OpCode::JMP_L | OpCode::ENDTRY | OpCode::ENDTRY_L | OpCode::JMPIF | OpCode::JMPIF_L
            | OpCode::JMPIFNOT | OpCode::JMPIFNOT_L | OpCode::JMPEQ | OpCode::JMPEQ_L | OpCode::JMPNE | OpCode::JMPNE_L
            | OpCode::JMPGT | OpCode::JMPGT_L | OpCode::JMPGE | OpCode::JMPGE_L | OpCode::JMPLT | OpCode::JMPLT_L
            | OpCode::JMPLE | OpCode::JMPLE_L => true,
            _ => false,
        };
        let ghost l0 = self.leaders@;
        if is_goto_or_cond {
            let t = self.jump_target(instr);
            if let Some(target) = t {
                insert_increasing(&mut self.leaders, target);
            }
            if let Some(nx) = next {
                insert_increasing(&mut self.leaders, nx);
            }
        } else if op == OpCode::TRY || op == OpCode::TRY_L {
            let tt = self.try_targets(instr);
            if let Some((c, f)) = tt {
                if let Some(co) = c {
                    insert_increasing(&mut self.leaders, co);
                }
                if let Some(fo) = f {
                    insert_increasing(&mut self.leaders, fo);
                }
            }
            if let Some(nx) = next {
                insert_increasing(&mut self.leaders, nx);
            }
        } else if matches!(op, OpCode::RET | OpCode::THROW | OpCode::ABORT | OpCode::ABORTMSG | OpCode::ENDFINALLY) || (matches!(
            op,
            OpCode::CALL | OpCode::CALL_L
        ) && contains_usize(&self.non_returning_calls, instr.offset as usize)) {
            if let Some(nx) = next {
                insert_increasing(&mut self.leaders, nx);
            }
        }
    }

    /// Collect the leaders: the first instruction and every contributed offset.
    fn find_leaders(&mut self)
        requires
            old(self).wf(),
        ensures
            final(self).wf(),
            final(self).instrs() == old(self).instrs(),
            final(self).non_returning() == old(self).non_returning(),
            final(self).leaders@ == leaders_of(old(self).instrs(), old(self).non_returning()),
            forall|x: usize| final(self).leaders@.contains(x) <==> is_leader(old(self).instrs(), old(self).non_returning(), x),
    {
        let ghost iv = self.instrs();
        let ghost nr = self.non_returning();
        self.leaders = Vec::new();
        let n = self.instructions.len();
        if n > 0 {
            proof {
                assert(iv[0] == self.instructions@[0]@);
            }
            let first = self.instructions[0].offset as usize;
            insert_increasing(&mut self.leaders, first);
        }
        let mut i: usize = 0;
        while i < n
            invariant
                self.wf(),
                self.instrs() == iv,
                self.non_returning() == old(self).non_returning(),
                nr == self.non_returning(),
                n == iv.len(),
                i <= n,
                forall|x: usize| self.leaders@.contains(x) <==> ((n > 0 && x == iv[0].offset as usize) || exists|j: int|
                    0 <= j < i && #[trigger] leader_contrib(iv, nr, j, x)),
            decreases n - i,
        {
            self.add_leaders_of(i);
            proof {
                assert forall|x: usize| self.leaders@.contains(x) <==> ((n > 0 && x == iv[0].offset as usize) || exists|j: int|
                    0 <= j < i + 1 && #[trigger] leader_contrib(iv, nr, j, x)) by {
                    if exists|j: int| 0 <= j < i + 1 && #[trigger] leader_contrib(iv, nr, j, x) {
                        let j = choose|j: int| 0 <= j < i + 1 && #[trigger] leader_contrib(iv, nr, j, x);
                        if j < i {
                            assert(exists|j2: int| 0 <= j2 < i && #[trigger] leader_contrib(iv, nr, j2, x));
                        }
                    }
                }
            }
            i = i + 1;
        }
        proof {
            let c = leaders_of(iv, nr);
            assert(increasing(self.leaders@) && forall|x: usize| self.leaders@.contains(x) <==> is_leader(iv, nr, x));
            assert(increasing(c) && forall|x: usize| c.contains(x) <==> is_leader(iv, nr, x));
            lemma_increasing_unique(c, self.leaders@);
        }
    }

    /// The block holding `offset`: the last leader not above it, else block 0.
    fn offset_to_block_id(&self, offset: usize, leaders: &Vec<usize>) -> (r: usize)
        ensures
            r == block_of(leaders@, offset),
    {
        let mut i: usize = leaders.len();
        proof {
            assert(leaders@.take(i as int) =~= leaders@);
        }
        while i > 0
            invariant
                i <= leaders@.len(),
                block_of(leaders@, offset) == block_of(leaders@.take(i as int), offset),
            decreases i,
        {
            proof {
                assert(leaders@.take(i as int).drop_last() =~= leaders@.take(i - 1));
            }
            if leaders[i - 1] <= offset {
                return i - 1;
            }
            i = i - 1;
        }
        0
    }

    /// The terminator of a block whose instructions end before `end_index`.
    fn compute_terminator(&self, end_index: usize, leaders: &Vec<usize>) -> (r: Terminator)
        requires
            self.wf(),
            fits(self.instrs()),
        ensures
            r@ == term_spec(self.instrs(), self.non_returning(), leaders@, end_index as int),
    {
        let ghost iv = self.instrs();
        let n = self.instructions.len();
        if end_index == 0 || end_index > n {
            return Terminator::Unknown;
        }
        let last = &self.instructions[end_index - 1];
        proof {
            assert(iv[end_index - 1] == last@);
        }
        let after: usize = if end_index < n {
            proof {
                assert(iv[end_index as int] == self.instructions@[end_index as int]@);
            }
            self.instructions[end_index].offset as usize
        } else {
            self.end_offset()
        };
        match last.opcode {
            OpCode::RET => Terminator::Return,
            OpCode::THROW => Terminator::Throw,
            OpCode::ABORT | OpCode::ABORTMSG => Terminator::Abort,
            OpCode::ENDFINALLY => Terminator::Unknown,
            OpCode::JMP | OpCode::JMP_L => match self.jump_target(last) {
                Some(t) => Terminator::Jump { target: BlockId(self.offset_to_block_id(t, leaders)) },
                None => Terminator::Unknown,
            },
            OpCode::ENDTRY | OpCode::ENDTRY_L => match self.jump_target(last) {
                Some(t) => Terminator::EndTry { continuation: BlockId(self.offset_to_block_id(t, leaders)), nonlocal: false },
                None => Terminator::Unknown,
            },
            OpCode::JMPIF | OpCode::JMPIF_L | OpCode::JMPIFNOT | OpCode::JMPIFNOT_L | OpCode::JMPEQ | OpCode::JMPEQ_L
            | OpCode::JMPNE | OpCode::JMPNE_L | OpCode::JMPGT | OpCode::JMPGT_L | OpCode::JMPGE | OpCode::JMPGE_L
            | OpCode::JMPLT | OpCode::JMPLT_L | OpCode::JMPLE | OpCode::JMPLE_L => match self.jump_target(last) {
                Some(t) => Terminator::Branch {
                    then_target: BlockId(self.offset_to_block_id(t, leaders)),
                    else_target: BlockId(self.offset_to_block_id(after, leaders)),
                },
                None => Terminator::Unknown,
            },
            OpCode::TRY | OpCode::TRY_L => {
                let body_target = BlockId(self.offset_to_block_id(after, leaders));
                let (c, f) = match self.try_targets(last) {
                    Some(p) => p,
                    None => (None, None),
                };
                let catch_target = match c {
                    Some(o) => Some(BlockId(self.offset_to_block_id(o, leaders))),
                    None => None,
                };
                let finally_target = match f {
                    Some(o) => Some(BlockId(self.offset_to_block_id(o, leaders))),
                    None => None,
                };
                Terminator::TryEntry { body_target, catch_target, finally_target }
            },
            OpCode::CALL if contains_usize(&self.non_returning_calls, last.offset as usize) => Terminator::NoReturnCall,
            OpCode::CALL_L if contains_usize(&self.non_returning_calls, last.offset as usize) => Terminator::NoReturnCall,
            _ => {
                if end_index < n {
                    Terminator::Fallthrough { target: BlockId(self.offset_to_block_id(self.instructions[end_index].offset as usize, leaders)) }
                } else {
                    Terminator::Unknown
                }
            },
        }
    }

    /// One block per leader, from it to the next leader or the end of the code.
    fn create_blocks(&self) -> (r: Vec<BasicBlock>)
        requires
            self.wf(),
            fits(self.instrs()),
        ensures
            r@.len() == self.leaders@.len(),
            forall|k: int| 0 <= k < r@.len() ==> (#[trigger] r@[k])@ == block_spec(self.instrs(), self.non_returning(), self.leaders@, k),
    {
        let ghost iv = self.instrs();
        let leaders = &self.leaders;
        let n = leaders.len();
        let mut blocks: Vec<BasicBlock> = Vec::new();
        let mut k: usize = 0;
        while k < n
            invariant
                self.wf(),
                fits(iv),
                iv == self.instrs(),
                leaders == &self.leaders,
                n == leaders@.len(),
                k <= n,
                blocks@.len() == k,
                forall|j: int| 0 <= j < k ==> (#[trigger] blocks@[j])@ == block_spec(iv, self.non_returning(), leaders@, j),
            decreases n - k,
        {
            let start_offset = leaders[k];
            let end_offset = if k + 1 < n { leaders[k + 1] } else { self.end_offset() };
            let start_index = match self.index_of(start_offset) {
                Some(x) => x,
                None => 0,
            };
            let end_index = match self.index_of(end_offset) {
                Some(x) => x,
                None => self.instructions.len(),
            };
            let terminator = self.compute_terminator(end_index, leaders);
            blocks.push(BasicBlock::new(BlockId(k), start_offset, end_offset, start_index..end_index, terminator));
            proof {
                assert(blocks@[k as int]@ == block_spec(iv, self.non_returning(), leaders@, k as int));
            }
            k = k + 1;
        }
        blocks
    }

    /// The control-flow graph of the instructions: no blocks when there are no
    /// instructions; otherwise one block per leader, numbered in offset order,
    /// the edges their terminators name, the exits, and the leaders indexed
    /// to their blocks.
    pub fn build(self) -> (r: Cfg)
        requires
            self.wf(),
            fits(self.instrs()),
        ensures
            r.wf(),
            built(self.instrs(), self.non_returning(), r@),
            well_laid(self.instrs()) ==> forall|i: int|
                0 <= i < self.instrs().len() && is_call(self.instrs()[i].opcode) && self.non_returning().contains(
                    self.instrs()[i].offset as usize,
                ) ==> #[trigger] ends_path(self.instrs(), self.non_returning(), r@, i),
            self.instrs().len() == 0 ==> r@.blocks.dom().len() == 0,
            forall|k: usize| #[trigger] r@.blocks.contains_key(k) ==> (r@.exits.contains(BlockId(k)) <==> (
                r@.blocks[k].terminator is Return || r@.blocks[k].terminator is Throw || r@.blocks[k].terminator is Abort)),
            forall|id: BlockId| #[trigger] r@.exits.contains(id) ==> r@.blocks.contains_key(id.0),
            forall|k: usize| #[trigger] r@.blocks.contains_key(k) ==> succs_of(r@.edges, BlockId(k)) == term_successors(r@.blocks[k].terminator),
            forall|i: int|
                0 <= i < r@.edges.len() ==> r@.blocks.contains_key((#[trigger] r@.edges[i]).from.0) && r@.blocks.contains_key(
                    r@.edges[i].to.0,
                ),
            well_laid(self.instrs()) && self.instrs().len() > 0 ==> partitions(
                self.instrs(),
                r@,
                leaders_of(self.instrs(), self.non_returning()).len(),
            ),
    {
        let ghost iv = self.instrs();
        let ghost nr = self.non_returning();
        let mut this = self;
        if this.instructions.len() == 0 {
            let r = Cfg::new();
            proof {
                let ls = leaders_of(iv, nr);
                assert(increasing(Seq::<usize>::empty()) && forall|x: usize| Seq::<usize>::empty().contains(x) <==> is_leader(iv, nr, x));
                lemma_increasing_unique(ls, Seq::<usize>::empty());
                assert(r@.blocks.dom() =~= Set::new(|k: usize| k < ls.len()));
                assert(blocks_spec(iv, nr) =~= Seq::<BlockView>::empty());
                assert(graph_blocks(r@, ls.len()) =~= Seq::<BlockView>::empty());
                assert(r@.edges =~= edges_of(graph_blocks(r@, ls.len())));
                assert(r@.exits =~= Set::new(|id: BlockId| id.0 < ls.len() && is_exit_term(r@.blocks[id.0].terminator)));
                assert(r@.offsets =~= Map::new(|o: usize| ls.contains(o), |o: usize| BlockId(block_of(ls, o))));
                assert(r@.blocks.dom() =~= Set::<usize>::empty());
            }
            return r;
        }
        this.find_leaders();
        let mut blocks = this.create_blocks();
        let n_leaders = this.leaders.len();
        let ghost ls = this.leaders@;
        let ghost bs = blocks_spec(iv, nr);
        proof {
            assert(block_views(blocks@) =~= bs);
            assert forall|k: int| 0 <= k < bs.len() implies same_shape(#[trigger] bs[k], block_views(blocks@)[k]) by {}
            assert forall|k: int| 0 <= k < bs.len() implies (#[trigger] bs[k]).id == BlockId(k as usize) by {}
            assert(ls.len() == this.leaders@.len());
            assert(ls.len() > 0) by {
                assert(is_leader(iv, nr, iv[0].offset as usize));
                assert(ls.contains(iv[0].offset as usize));
            }
            lemma_spec_targets(iv, nr, ls);
        }
        this.apply_finally_routing(&mut blocks, Ghost(bs));
        proof {
            assert forall|k: int| 0 <= k < ls.len() implies (#[trigger] blocks@[k]).id == BlockId(k as usize) && blocks@[k].start_offset == ls[k] by {
                assert(same_shape(bs[k], block_views(blocks@)[k]));
                assert(block_views(blocks@)[k] == blocks@[k]@);
            }
        }
        let r = build_cfg(&blocks, Ghost(ls));
        proof {
            let gs = graph_blocks(r@, ls.len());
            assert(gs =~= block_views(blocks@));
            assert(blocks@.map_values(|b: BasicBlock| b@) =~= gs);
            assert(r@.blocks.dom() =~= Set::new(|k: usize| k < ls.len()));
            assert(r@.exits =~= Set::new(|id: BlockId| id.0 < ls.len() && is_exit_term(r@.blocks[id.0].terminator)));
            assert(built(iv, nr, r@));
            lemma_built_exits(iv, nr, r@);
            assert forall|k: usize| #[trigger] r@.blocks.contains_key(k) implies succs_of(r@.edges, BlockId(k)) == term_successors(
                r@.blocks[k].terminator,
            ) by {
                lemma_built_successors(iv, nr, r@, k);
            }
            assert forall|k: int| 0 <= k < gs.len() implies (#[trigger] gs[k]).id == BlockId(k as usize) by {
                assert(same_shape(bs[k], gs[k]));
            }
            lemma_edges_join(gs, ls.len() as int);
            if well_laid(iv) {
                lemma_built_partition(iv, nr, ls, r@);
                lemma_built_ends_paths(iv, nr, ls, r@);
            }
        }
        r
    }
}


/// A try region: its body and handlers.
struct TryRegion {
    try_offset: usize,
    body_start: usize,
    body_layout_end: usize,
    catch_layout_range: Option<(usize, usize)>,
    finally_offset: Option<usize>,
    endfinally_offset: Option<usize>,
    parent: Option<usize>,
}

impl TryRegion {
    /// `offset` lies in the body, the catch handler or the finally handler
    /// (up to and including its ENDFINALLY).
    spec fn holds(self, offset: usize) -> bool {
        ||| self.body_start <= offset < self.body_layout_end
        ||| (match self.catch_layout_range {
            Some((start, end)) => start <= offset < end,
            None => false,
        })
        ||| (match (self.finally_offset, self.endfinally_offset) {
            (Some(start), Some(end)) => start <= offset <= end,
            _ => false,
        })
    }

    /// Whether `offset` lies in the body, the catch handler or the finally handler.
    fn lexically_contains(&self, offset: usize) -> (r: bool)
        ensures
            r == self.holds(offset),
    {
        (offset >= self.body_start && offset < self.body_layout_end) || match self.catch_layout_range {
            Some((start, end)) => offset >= start && offset < end,
            None => false,
        } || match (self.finally_offset, self.endfinally_offset) {
            (Some(start), Some(end)) => offset >= start && offset <= end,
            _ => false,
        }
    }
}

/// Two region lists agree on their ENDFINALLY offsets.
spec fn ef_same(a: Seq<TryRegion>, b: Seq<TryRegion>) -> bool {
    a.len() == b.len() && forall|i: int| 0 <= i < a.len() ==> (#[trigger] a[i]).endfinally_offset == b[i].endfinally_offset
}

/// Every recorded ENDFINALLY offset is that of an `ENDFINALLY` instruction.
spec fn ef_sound(regions: Seq<TryRegion>, iv: Seq<InstructionView>) -> bool {
    forall|i: int|
        0 <= i < regions.len() ==> match (#[trigger] regions[i]).endfinally_offset {
            Some(o) => exists|j: int| 0 <= j < iv.len() && (#[trigger] iv[j]).opcode == OpCode::ENDFINALLY && iv[j].offset as usize == o,
            None => true,
        }
}

proof fn lemma_ef_sound_same(a: Seq<TryRegion>, b: Seq<TryRegion>, iv: Seq<InstructionView>)
    requires
        ef_sound(a, iv),
        ef_same(a, b),
    ensures
        ef_sound(b, iv),
{
    assert forall|i: int| 0 <= i < b.len() implies match (#[trigger] b[i]).endfinally_offset {
        Some(o) => exists|j: int| 0 <= j < iv.len() && (#[trigger] iv[j]).opcode == OpCode::ENDFINALLY && iv[j].offset as usize == o,
        None => true,
    } by {
        assert(a[i].endfinally_offset == b[i].endfinally_offset);
    }
}

/// Regions hold parent indices within the list.
spec fn regions_ok(regions: Seq<TryRegion>) -> bool {
    forall|i: int| 0 <= i < regions.len() ==> opt_below((#[trigger] regions[i]).parent, regions.len() as int)
}

/// Whether the sorted list holds `x`.
fn contains_usize(v: &Vec<usize>, x: usize) -> (r: bool)
    ensures
        r == v@.contains(x),
{
    let mut i: usize = 0;
    while i < v.len()
        invariant
            i <= v@.len(),
            forall|j: int| 0 <= j < i ==> v@[j] != x,
        decreases v.len() - i,
    {
        if v[i] == x {
            return true;
        }
        i = i + 1;
    }
    false
}

/// Remove the entry with key `k`, if any.
fn remove_key(v: &mut Vec<(usize, usize)>, k: usize, Ghost(bound): Ghost<usize>)
    requires
        sorted_keys(old(v)@),
        forall|i: int| 0 <= i < old(v)@.len() ==> (#[trigger] old(v)@[i]).1 < bound,
    ensures
        sorted_keys(final(v)@),
        forall|i: int| 0 <= i < final(v)@.len() ==> (#[trigger] final(v)@[i]).1 < bound,
        keyed(final(v)@) == keyed(old(v)@).remove(k),
{
    match find_key(v, k) {
        Some(p) => {
            let ghost s = v@;
            v.remove(p);
            proof {
                assert(v@ == s.remove(p as int));
                assert forall|k2: usize| has_key(v@, k2) <==> (has_key(s, k2) && k2 != k) by {
                    if has_key(v@, k2) {
                        let i = choose|i: int| 0 <= i < v@.len() && (#[trigger] v@[i]).0 == k2;
                        if i < p {
                            assert(s[i].0 == k2);
                            assert(s[i].0 < s[p as int].0);
                        } else {
                            assert(s[i + 1].0 == k2);
                            assert(s[p as int].0 < s[i + 1].0);
                        }
                    }
                    if has_key(s, k2) && k2 != k {
                        let i = choose|i: int| 0 <= i < s.len() && (#[trigger] s[i]).0 == k2;
                        if i < p {
                            assert(v@[i].0 == k2);
                        } else {
                            assert(i != p);
                            assert(v@[i - 1].0 == k2);
                        }
                    }
                }
                assert forall|i: int, j: int| 0 <= i < j < v@.len() implies (#[trigger] v@[i]).0 < (#[trigger] v@[j]).0 by {
                    if i < p && j >= p {
                        assert(v@[j] == s[j + 1]);
                        assert(s[i].0 < s[j + 1].0);
                    } else if i >= p {
                        assert(s[i + 1].0 < s[j + 1].0);
                    }
                }
                assert forall|i: int| 0 <= i < v@.len() implies (#[trigger] v@[i]).1 < bound by {
                    if i < p {
                        assert(v@[i] == s[i]);
                    } else {
                        assert(v@[i] == s[i + 1]);
                    }
                }
                assert forall|k2: usize| #[trigger] keyed(v@).contains_key(k2) implies keyed(v@)[k2] == keyed(s)[k2] by {
                    let i = key_pos(v@, k2);
                    super::graph::lemma_key_pos(v@, i);
                    let j = if i < p { i } else { i + 1 };
                    assert(s[j] == v@[i]);
                    super::graph::lemma_key_pos(s, j);
                }
                assert(keyed(v@) =~= keyed(s).remove(k));
            }
        },
        None => {
            assert(keyed(v@) =~= keyed(v@).remove(k));
        },
    }
}

proof fn lemma_distinct_bound(cands: Seq<usize>, seen: Seq<usize>)
    requires
        seen.no_duplicates(),
        forall|v: usize| #[trigger] seen.contains(v) ==> cands.contains(v),
    ensures
        seen.len() <= cands.len(),
{
    seen.unique_seq_to_set();
    cands.lemma_cardinality_of_set();
    assert(seen.to_set().subset_of(cands.to_set()));
    vstd::set_lib::lemma_len_subset(seen.to_set(), cands.to_set());
}

/// Recording `o` as the owner of `t`: the owners, the ambiguous offsets,
/// and whether the record stands.
spec fn record_spec(om: Map<usize, usize>, amb: Set<usize>, t: usize, o: usize) -> (Map<usize, usize>, Set<usize>, bool) {
    if amb.contains(t) {
        (om, amb, false)
    } else if om.contains_key(t) && om[t] != o {
        (om.remove(t), amb.insert(t), false)
    } else {
        (om.insert(t, o), amb, true)
    }
}

/// Record `owner` as the region an ENDTRY at `offset` leaves; an offset
/// claimed by two regions becomes ambiguous.
fn record_endtry_owner(
    owners: &mut Vec<(usize, usize)>,
    ambiguous: &mut Vec<usize>,
    offset: usize,
    owner: usize,
    Ghost(bound): Ghost<usize>,
) -> (r: bool)
    requires
        sorted_keys(old(owners)@),
        increasing(old(ambiguous)@),
        owner < bound,
        forall|i: int| 0 <= i < old(owners)@.len() ==> (#[trigger] old(owners)@[i]).1 < bound,
    ensures
        sorted_keys(final(owners)@),
        increasing(final(ambiguous)@),
        forall|i: int| 0 <= i < final(owners)@.len() ==> (#[trigger] final(owners)@[i]).1 < bound,
        old(ambiguous)@.contains(offset) ==> !r && final(owners)@ == old(owners)@ && final(ambiguous)@ == old(ambiguous)@,
        !old(ambiguous)@.contains(offset) && keyed(old(owners)@).contains_key(offset) && keyed(old(owners)@)[offset] != owner
            ==> !r && keyed(final(owners)@) == keyed(old(owners)@).remove(offset) && (forall|b: usize|
            #[trigger] final(ambiguous)@.contains(b) <==> (old(ambiguous)@.contains(b) || b == offset)),
        !old(ambiguous)@.contains(offset) && !(keyed(old(owners)@).contains_key(offset) && keyed(old(owners)@)[offset] != owner)
            ==> r && keyed(final(owners)@) == keyed(old(owners)@).insert(offset, owner) && final(ambiguous)@ == old(ambiguous)@,
        (keyed(final(owners)@), final(ambiguous)@.to_set(), r) == record_spec(keyed(old(owners)@), old(ambiguous)@.to_set(), offset, owner),
{
    if contains_usize(ambiguous, offset) {
        return false;
    }
    match find_key(owners, offset) {
        Some(p) => {
            if owners[p].1 != owner {
                remove_key(owners, offset, Ghost(bound));
                let ghost a0 = ambiguous@;
                insert_increasing(ambiguous, offset);
                proof {
                    assert(ambiguous@.to_set() =~= a0.to_set().insert(offset)) by {
                        assert forall|b: usize| #[trigger] ambiguous@.to_set().contains(b) <==> a0.to_set().insert(offset).contains(b) by {
                            assert(ambiguous@.to_set().contains(b) == ambiguous@.contains(b));
                            assert(a0.to_set().contains(b) == a0.contains(b));
                        }
                    }
                    assert(has_key(old(owners)@, offset));
                }
                return false;
            }
        },
        None => {},
    }
    let ghost o = owners@;
    upsert(owners, offset, owner);
    proof {
        lemma_upsert_keyed(o, owners@, offset, owner);
        assert forall|i: int| 0 <= i < owners@.len() implies (#[trigger] owners@[i]).1 < bound by {
            let k = owners@[i].0;
            super::graph::lemma_key_pos(owners@, i);
            if k != offset {
                assert(has_key(o, k));
                let j = key_pos(o, k);
                assert(o[j].1 < bound);
            }
        }
    }
    true
}

/// Two blocks agree on everything but their terminators.
pub open spec fn same_shape(a: BlockView, b: BlockView) -> bool {
    a.id == b.id && a.start_offset == b.start_offset && a.end_offset == b.end_offset && a.range_start == b.range_start
        && a.range_end == b.range_end
}

/// Terminators that finally routing writes.
pub open spec fn try_family(t: TermView) -> bool {
    t is EndTry || t is EndTryFinally || t is EndFinally
}

/// Instructions whose blocks finally routing may rewrite.
pub open spec fn routes_through(op: OpCode) -> bool {
    op == OpCode::ENDTRY || op == OpCode::ENDTRY_L || op == OpCode::ENDFINALLY
}

/// Block `k` holds an `ENDTRY`, `ENDTRY_L` or `ENDFINALLY`.
pub open spec fn routing_block(iv: Seq<InstructionView>, ls: Seq<usize>, k: int) -> bool {
    exists|i: int| 0 <= i < iv.len() && routes_through(#[trigger] iv[i].opcode) && block_of(ls, iv[i].offset as usize) == k
}

/// `now` is `orig` with the terminators of some blocks that hold an
/// `ENDTRY`, `ENDTRY_L` or `ENDFINALLY` replaced by try-family ones.
pub open spec fn routed_from(orig: Seq<BlockView>, now: Seq<BlockView>, iv: Seq<InstructionView>, ls: Seq<usize>) -> bool {
    &&& now.len() == orig.len()
    &&& forall|k: int| 0 <= k < now.len() ==> same_shape(#[trigger] orig[k], now[k]) && (now[k].terminator
        == orig[k].terminator || (try_family(now[k].terminator) && routing_block(iv, ls, k)))
}

/// Terminator `t` names only blocks numbered below `n`.
pub open spec fn names_below(t: TermView, n: int) -> bool {
    forall|j: int| 0 <= j < term_successors(t).len() ==> (#[trigger] term_successors(t)[j]).0 < n
}

/// Every terminator of `bs` names only blocks numbered below `n`.
pub open spec fn targets_below(bs: Seq<BlockView>, n: int) -> bool {
    forall|k: int, j: int|
        0 <= k < bs.len() && 0 <= j < term_successors(bs[k].terminator).len() ==> (#[trigger] term_successors(
            bs[k].terminator,
        )[j]).0 < n
}

/// The terminators that leaders give name only leaders' blocks.
proof fn lemma_spec_targets(iv: Seq<InstructionView>, nr: Set<usize>, ls: Seq<usize>)
    requires
        ls.len() > 0,
        ls.len() <= usize::MAX,
    ensures
        targets_below(Seq::new(ls.len(), |k: int| block_spec(iv, nr, ls, k)), ls.len() as int),
{
    lemma_block_of_lt(ls);
    let bs = Seq::new(ls.len(), |k: int| block_spec(iv, nr, ls, k));
    assert forall|k: int, j: int|
        0 <= k < bs.len() && 0 <= j < term_successors(bs[k].terminator).len() implies (#[trigger] term_successors(
        bs[k].terminator,
    )[j]).0 < ls.len() by {
        let t = bs[k].terminator;
        assert(t == term_spec(iv, nr, ls, bs[k].range_end as int));
    }
}

/// The block of any offset is one of the leaders' blocks.
proof fn lemma_block_of_lt(ls: Seq<usize>)
    requires
        ls.len() > 0,
        ls.len() <= usize::MAX,
    ensures
        forall|x: usize| #[trigger] block_of(ls, x) < ls.len(),
    decreases ls.len(),
{
    assert forall|x: usize| #[trigger] block_of(ls, x) < ls.len() by {
        if ls.last() > x && ls.len() > 1 {
            lemma_block_of_lt(ls.drop_last());
            assert(block_of(ls.drop_last(), x) < ls.drop_last().len());
        }
    }
}

/// The models of a list of blocks.
pub open spec fn block_views(v: Seq<BasicBlock>) -> Seq<BlockView> {
    v.map_values(|b: BasicBlock| b@)
}

/// `b` with terminator `t`.
pub open spec fn with_term(b: BlockView, t: TermView) -> BlockView {
    BlockView {
        id: b.id,
        start_offset: b.start_offset,
        end_offset: b.end_offset,
        range_start: b.range_start,
        range_end: b.range_end,
        terminator: t,
    }
}

fn set_block_terminator(
    blocks: &mut Vec<BasicBlock>,
    p: usize,
    t: Terminator,
    Ghost(orig): Ghost<Seq<BlockView>>,
    Ghost(iv): Ghost<Seq<InstructionView>>,
    Ghost(ls): Ghost<Seq<usize>>,
)
    requires
        routed_from(orig, block_views(old(blocks)@), iv, ls),
        p < old(blocks)@.len(),
        try_family(t@),
        routing_block(iv, ls, p as int),
    ensures
        routed_from(orig, block_views(final(blocks)@), iv, ls),
        targets_below(block_views(old(blocks)@), old(blocks)@.len() as int) && names_below(t@, old(blocks)@.len() as int)
            ==> targets_below(block_views(final(blocks)@), old(blocks)@.len() as int),
        final(blocks)@.len() == old(blocks)@.len(),
        forall|k: int| 0 <= k < old(blocks)@.len() && k != p ==> final(blocks)@[k] == old(blocks)@[k],
        same_shape(final(blocks)@[p as int]@, old(blocks)@[p as int]@),
        final(blocks)@[p as int].terminator == t,
        block_views(final(blocks)@) == block_views(old(blocks)@).update(p as int, with_term(old(blocks)@[p as int]@, t@)),
{
    blocks[p].terminator = t;
    proof {
        assert forall|k: int| 0 <= k < block_views(blocks@).len() implies same_shape(#[trigger] orig[k], block_views(blocks@)[k])
            && (block_views(blocks@)[k].terminator == orig[k].terminator || (try_family(block_views(blocks@)[k].terminator)
            && routing_block(iv, ls, k))) by {
            if k != p {
                assert(blocks@[k] == old(blocks)@[k]);
                assert(block_views(old(blocks)@)[k] == old(blocks)@[k]@);
            } else {
                assert(block_views(old(blocks)@)[k] == old(blocks)@[k]@);
            }
        }
        assert(block_views(blocks@) =~= block_views(old(blocks)@).update(p as int, with_term(old(blocks)@[p as int]@, t@)));
        let n = old(blocks)@.len() as int;
        if targets_below(block_views(old(blocks)@), n) && names_below(t@, n) {
            assert forall|k: int, j: int|
                0 <= k < block_views(blocks@).len() && 0 <= j < term_successors(block_views(blocks@)[k].terminator).len() implies (
            #[trigger] term_successors(block_views(blocks@)[k].terminator)[j]).0 < n by {
                if k != p {
                    assert(block_views(blocks@)[k] == block_views(old(blocks)@)[k]);
                    assert(term_successors(block_views(old(blocks)@)[k].terminator)[j].0 < n);
                }
            }
        }
    }
}

/// The position of the first block with identifier `id`.
fn find_block_pos(blocks: &Vec<BasicBlock>, id: usize) -> (r: Option<usize>)
    ensures
        r matches Some(p) ==> p < blocks@.len() && blocks@[p as int].id.0 == id,
        match r {
            Some(p) => forall|j: int| 0 <= j < p ==> (#[trigger] blocks@[j]).id.0 != id,
            None => forall|j: int| 0 <= j < blocks@.len() ==> (#[trigger] blocks@[j]).id.0 != id,
        },
{
    let mut i: usize = 0;
    while i < blocks.len()
        invariant
            i <= blocks@.len(),
            forall|j: int| 0 <= j < i ==> (#[trigger] blocks@[j]).id.0 != id,
        decreases blocks.len() - i,
    {
        if blocks[i].id.0 == id {
            return Some(i);
        }
        i = i + 1;
    }
    None
}

fn is_endtry(op: OpCode) -> (r: bool)
    ensures
        r == (op == OpCode::ENDTRY || op == OpCode::ENDTRY_L),
{
    op == OpCode::ENDTRY || op == OpCode::ENDTRY_L
}

/// Instruction `i` is an ENDTRY in `[start, end)`.
spec fn endtry_within(iv: Seq<InstructionView>, start: usize, end: usize, i: int) -> bool {
    &&& 0 <= i < iv.len()
    &&& start <= iv[i].offset as usize && (iv[i].offset as usize) < end
    &&& (iv[i].opcode == OpCode::ENDTRY || iv[i].opcode == OpCode::ENDTRY_L)
}

/// Instruction `i` is an ENDTRY in `[start, end)` that jumps forward to a
/// place before `end`.
spec fn resumes_within(iv: Seq<InstructionView>, start: usize, end: usize, i: int) -> bool {
    &&& endtry_within(iv, start, end, i)
    &&& cfg_jump_target(iv, iv[i]) matches Some(t) && (iv[i].offset as usize) < t && t < end
}

/// Over the first `n` instructions, `r` is the least target of those that
/// resume within `[start, end)`, or `end` when there are none.
spec fn resume_bound_result(iv: Seq<InstructionView>, start: usize, end: usize, n: int, r: usize) -> bool {
    &&& forall|i: int| 0 <= i < n && #[trigger] resumes_within(iv, start, end, i) ==> r <= cfg_jump_target(iv, iv[i])->0
    &&& (r == end || exists|i: int| 0 <= i < n && #[trigger] resumes_within(iv, start, end, i) && cfg_jump_target(iv, iv[i]) == Some(r))
}

/// Instruction `i` is an ENDTRY in `[start, end)` that jumps past `after`.
spec fn continues_past(iv: Seq<InstructionView>, after: usize, start: usize, end: usize, i: int) -> bool {
    &&& endtry_within(iv, start, end, i)
    &&& cfg_jump_target(iv, iv[i]) matches Some(t) && t > after
}

/// Over the first `n` instructions, `r` is the least target of those that
/// continue past `after`, if any.
spec fn continuation_result(iv: Seq<InstructionView>, after: usize, start: usize, end: usize, n: int, r: Option<usize>) -> bool {
    match r {
        Some(b) => (forall|i: int| 0 <= i < n && #[trigger] continues_past(iv, after, start, end, i) ==> b <= cfg_jump_target(iv, iv[i])->0)
            && exists|i: int| 0 <= i < n && #[trigger] continues_past(iv, after, start, end, i) && cfg_jump_target(iv, iv[i]) == Some(b),
        None => forall|i: int| 0 <= i < n ==> !#[trigger] continues_past(iv, after, start, end, i),
    }
}

/// The least forward ENDTRY target within `[start, end)`, or `end`.
spec fn resume_bound(iv: Seq<InstructionView>, start: usize, end: usize) -> usize {
    choose|r: usize| resume_bound_result(iv, start, end, iv.len() as int, r)
}

/// The least ENDTRY target in `[start, end)` past `after`, if any.
spec fn continuation(iv: Seq<InstructionView>, after: usize, start: usize, end: usize) -> Option<usize> {
    choose|r: Option<usize>| continuation_result(iv, after, start, end, iv.len() as int, r)
}

proof fn lemma_resume_bound_unique(iv: Seq<InstructionView>, start: usize, end: usize, r: usize)
    requires
        resume_bound_result(iv, start, end, iv.len() as int, r),
    ensures
        resume_bound(iv, start, end) == r,
{
    let q = resume_bound(iv, start, end);
    assert(resume_bound_result(iv, start, end, iv.len() as int, q));
    if r != end {
        let i = choose|i: int| 0 <= i < iv.len() && #[trigger] resumes_within(iv, start, end, i) && cfg_jump_target(iv, iv[i]) == Some(r);
        assert(q <= r);
    }
    if q != end {
        let i = choose|i: int| 0 <= i < iv.len() && #[trigger] resumes_within(iv, start, end, i) && cfg_jump_target(iv, iv[i]) == Some(q);
        assert(r <= q);
    }
}

proof fn lemma_continuation_unique(iv: Seq<InstructionView>, after: usize, start: usize, end: usize, r: Option<usize>)
    requires
        continuation_result(iv, after, start, end, iv.len() as int, r),
    ensures
        continuation(iv, after, start, end) == r,
{
    let q = continuation(iv, after, start, end);
    assert(continuation_result(iv, after, start, end, iv.len() as int, q));
    match r {
        Some(b) => {
            let i = choose|i: int| 0 <= i < iv.len() && #[trigger] continues_past(iv, after, start, end, i) && cfg_jump_target(iv, iv[i]) == Some(b);
            match q {
                Some(c) => {
                    let k = choose|i: int| 0 <= i < iv.len() && #[trigger] continues_past(iv, after, start, end, i) && cfg_jump_target(iv, iv[i]) == Some(c);
                    assert(c <= b);
                    assert(b <= c);
                },
                None => {
                    assert(!continues_past(iv, after, start, end, i));
                },
            }
        },
        None => {
            if let Some(c) = q {
                let k = choose|i: int| 0 <= i < iv.len() && #[trigger] continues_past(iv, after, start, end, i) && cfg_jump_target(iv, iv[i]) == Some(c);
                assert(!continues_past(iv, after, start, end, k));
            }
        },
    }
}

/// The region that the `TRY` at instruction `i` opens, when its handlers
/// resolve and the catch handler does not come after the finally handler.
spec fn region_at(iv: Seq<InstructionView>, i: int) -> Option<TryRegion> {
    let ins = iv[i];
    if ins.opcode == OpCode::TRY || ins.opcode == OpCode::TRY_L {
        match cfg_try_targets(iv, ins) {
            Some((c, f)) => {
                let out_of_order = match (c, f) {
                    (Some(x), Some(y)) => x >= y,
                    _ => false,
                };
                if out_of_order {
                    None
                } else {
                    let body_start = if i + 1 < iv.len() {
                        iv[i + 1].offset as usize
                    } else {
                        code_end(iv)
                    };
                    let handler_start = match (c, f) {
                        (Some(x), Some(y)) => if x < y {
                            x
                        } else {
                            y
                        },
                        (Some(x), None) => x,
                        (None, Some(y)) => y,
                        (None, None) => code_end(iv),
                    };
                    let body_end = resume_bound(iv, body_start, handler_start);
                    let catch_layout_range = match c {
                        Some(x) => {
                            let handler_end = match f {
                                Some(y) => y,
                                None => match continuation(iv, x, body_start, body_end) {
                                    Some(z) => z,
                                    None => code_end(iv),
                                },
                            };
                            Some((x, if handler_end > x { handler_end } else { x }))
                        },
                        None => None,
                    };
                    Some(
                        TryRegion {
                            try_offset: ins.offset as usize,
                            body_start,
                            body_layout_end: handler_start,
                            catch_layout_range,
                            finally_offset: f,
                            endfinally_offset: None,
                            parent: None,
                        },
                    )
                }
            },
            None => None,
        }
    } else {
        None
    }
}

/// The regions that the first `k` instructions open, in order.
spec fn regions_upto(iv: Seq<InstructionView>, k: int) -> Seq<TryRegion>
    decreases k,
{
    if k <= 0 {
        Seq::empty()
    } else {
        let prev = regions_upto(iv, k - 1);
        match region_at(iv, k - 1) {
            Some(r) => prev.push(r),
            None => prev,
        }
    }
}

impl<'a> CfgBuilder<'a> {
    /// The first target after an ENDTRY in `[start, end)` that stays before `end`.
    fn local_resume_bound(&self, start: usize, end: usize) -> (r: usize)
        requires
            self.wf(),
        ensures
            resume_bound_result(self.instrs(), start, end, self.instrs().len() as int, r),
    {
        let ghost iv = self.instrs();
        let mut best = end;
        let mut i: usize = 0;
        while i < self.instructions.len()
            invariant
                self.wf(),
                iv == self.instrs(),
                iv.len() == self.instructions@.len(),
                i <= self.instructions@.len(),
                resume_bound_result(iv, start, end, i as int, best),
            decreases self.instructions.len() - i,
        {
            let instr = &self.instructions[i];
            proof {
                assert(iv[i as int] == instr@);
            }
            let ghost prev = best;
            let off = instr.offset as usize;
            if off >= start && off < end && is_endtry(instr.opcode) {
                if let Some(t) = self.jump_target(instr) {
                    if t > off && t < end && t < best {
                        best = t;
                    }
                }
            }
            proof {
                assert forall|j: int| 0 <= j < i + 1 && #[trigger] resumes_within(iv, start, end, j) implies best <= cfg_jump_target(
                    iv,
                    iv[j],
                )->0 by {
                    if j < i {
                        assert(resumes_within(iv, start, end, j));
                    }
                }
                if best != end {
                    if best == prev {
                        let w0 = choose|j: int| 0 <= j < i && #[trigger] resumes_within(iv, start, end, j) && cfg_jump_target(iv, iv[j]) == Some(prev);
                        assert(0 <= w0 < i + 1 && resumes_within(iv, start, end, w0) && cfg_jump_target(iv, iv[w0]) == Some(best));
                    } else {
                        assert(resumes_within(iv, start, end, i as int) && cfg_jump_target(iv, iv[i as int]) == Some(best));
                    }
                }
            }
            i = i + 1;
        }
        best
    }

    /// The first ENDTRY target in `[body_start, body_end)` past the catch handler.
    fn catch_continuation(&self, catch_target: usize, body_start: usize, body_end: usize) -> (r: Option<usize>)
        requires
            self.wf(),
        ensures
            continuation_result(self.instrs(), catch_target, body_start, body_end, self.instrs().len() as int, r),
    {
        let ghost iv = self.instrs();
        let mut best: Option<usize> = None;
        let mut i: usize = 0;
        while i < self.instructions.len()
            invariant
                self.wf(),
                iv == self.instrs(),
                iv.len() == self.instructions@.len(),
                i <= self.instructions@.len(),
                continuation_result(iv, catch_target, body_start, body_end, i as int, best),
            decreases self.instructions.len() - i,
        {
            let instr = &self.instructions[i];
            proof {
                assert(iv[i as int] == instr@);
            }
            let ghost prev = best;
            let off = instr.offset as usize;
            if off >= body_start && off < body_end && is_endtry(instr.opcode) {
                if let Some(t) = self.jump_target(instr) {
                    if t > catch_target {
                        best = match best {
                            Some(b) => if t < b {
                                Some(t)
                            } else {
                                Some(b)
                            },
                            None => Some(t),
                        };
                    }
                }
            }
            proof {
                match best {
                    Some(b) => {
                        assert forall|j: int| 0 <= j < i + 1 && #[trigger] continues_past(iv, catch_target, body_start, body_end, j) implies b
                            <= cfg_jump_target(iv, iv[j])->0 by {
                            if j < i {
                                assert(continues_past(iv, catch_target, body_start, body_end, j));
                            }
                        }
                        if prev == best {
                            let w0 = choose|j: int| 0 <= j < i && #[trigger] continues_past(iv, catch_target, body_start, body_end, j)
                                && cfg_jump_target(iv, iv[j]) == Some(b);
                            assert(0 <= w0 < i + 1 && continues_past(iv, catch_target, body_start, body_end, w0));
                        } else {
                            assert(continues_past(iv, catch_target, body_start, body_end, i as int));
                        }
                    },
                    None => {
                        assert forall|j: int| 0 <= j < i + 1 implies !#[trigger] continues_past(iv, catch_target, body_start, body_end, j) by {
                            if j < i {
                                assert(!continues_past(iv, catch_target, body_start, body_end, j));
                            }
                        }
                    },
                }
            }
            i = i + 1;
        }
        best
    }

    /// One region per `TRY` whose handlers resolve in order.
    fn collect_try_regions(&self) -> (r: Vec<TryRegion>)
        requires
            self.wf(),
            fits(self.instrs()),
        ensures
            regions_ok(r@),
            forall|i: int| 0 <= i < r@.len() ==> (#[trigger] r@[i]).endfinally_offset is None,
            r@ == regions_upto(self.instrs(), self.instrs().len() as int),
    {
        let ghost iv = self.instrs();
        let mut regions: Vec<TryRegion> = Vec::new();
        let n = self.instructions.len();
        let mut index: usize = 0;
        while index < n
            invariant
                self.wf(),
                fits(self.instrs()),
                iv == self.instrs(),
                iv.len() == n,
                n == self.instructions@.len(),
                index <= n,
                regions_ok(regions@),
                forall|i: int| 0 <= i < regions@.len() ==> (#[trigger] regions@[i]).endfinally_offset is None,
                regions@ == regions_upto(iv, index as int),
            decreases n - index,
        {
            let instruction = &self.instructions[index];
            proof {
                assert(iv[index as int] == instruction@);
                if index + 1 < n {
                    assert(iv[index + 1] == self.instructions@[index + 1]@);
                }
            }
            if instruction.opcode == OpCode::TRY || instruction.opcode == OpCode::TRY_L {
                if let Some((catch_target, finally_target)) = self.try_targets(instruction) {
                    let out_of_order = match (catch_target, finally_target) {
                        (Some(c), Some(f)) => c >= f,
                        _ => false,
                    };
                    if !out_of_order {
                        let body_start = if index + 1 < n {
                            self.instructions[index + 1].offset as usize
                        } else {
                            self.end_offset()
                        };
                        let handler_start = match (catch_target, finally_target) {
                            (Some(c), Some(f)) => if c < f {
                                c
                            } else {
                                f
                            },
                            (Some(c), None) => c,
                            (None, Some(f)) => f,
                            (None, None) => self.end_offset(),
                        };
                        let body_end = self.local_resume_bound(body_start, handler_start);
                        proof {
                            lemma_resume_bound_unique(iv, body_start, handler_start, body_end);
                        }
                        let catch_layout_range = match catch_target {
                            Some(catch) => {
                                let handler_end = match finally_target {
                                    Some(f) => f,
                                    None => {
                                        let cc = self.catch_continuation(catch, body_start, body_end);
                                        proof {
                                            lemma_continuation_unique(iv, catch, body_start, body_end, cc);
                                        }
                                        match cc {
                                            Some(c) => c,
                                            None => self.end_offset(),
                                        }
                                    },
                                };
                                Some((catch, if handler_end > catch { handler_end } else { catch }))
                            },
                            None => None,
                        };
                        let ghost before = regions@;
                        regions.push(
                            TryRegion {
                                try_offset: instruction.offset as usize,
                                body_start,
                                body_layout_end: handler_start,
                                catch_layout_range,
                                finally_offset: finally_target,
                                endfinally_offset: None,
                                parent: None,
                            },
                        );
                        proof {
                            assert forall|i: int| 0 <= i < regions@.len() implies opt_below((#[trigger] regions@[i]).parent, regions@.len() as int)
                                && regions@[i].endfinally_offset is None by {
                                if i < regions@.len() - 1 {
                                    assert(regions@[i] == before[i]);
                                }
                            }
                            assert(region_at(iv, index as int) == Some(regions@.last()));
                            assert(regions@ == regions_upto(iv, index + 1));
                        }
                    } else {
                        assert(regions@ == regions_upto(iv, index + 1));
                    }
                } else {
                    assert(regions@ == regions_upto(iv, index + 1));
                }
            } else {
                assert(regions@ == regions_upto(iv, index + 1));
            }
            index = index + 1;
        }
        regions
    }
}


/// Indices below `n`.
spec fn all_below(v: Seq<usize>, n: int) -> bool {
    forall|i: int| 0 <= i < v.len() ==> (#[trigger] v[i]) < n
}

/// An optional index below `n`.
spec fn opt_below(o: Option<usize>, n: int) -> bool {
    match o {
        Some(p) => p < n,
        None => true,
    }
}

/// Keyed entries whose values are indices below `n`.
spec fn values_below(v: Seq<(usize, usize)>, n: int) -> bool {
    forall|i: int| 0 <= i < v.len() ==> (#[trigger] v[i]).1 < n
}

/// `p` is the end of the leading run of `v` whose regions start no later
/// than `t`.
spec fn insertion_point(v: Seq<usize>, regions: Seq<TryRegion>, t: usize, p: int) -> bool {
    &&& 0 <= p <= v.len()
    &&& forall|j: int| 0 <= j < p ==> regions[#[trigger] v[j] as int].try_offset <= t
    &&& p < v.len() ==> regions[v[p] as int].try_offset > t
}

/// Insert `x` after the entries whose region starts no later, keeping the
/// order of regions that start together.
fn insert_by_try_offset(v: &mut Vec<usize>, x: usize, regions: &Vec<TryRegion>)
    requires
        all_below(old(v)@, regions@.len() as int),
        x < regions@.len(),
    ensures
        all_below(final(v)@, regions@.len() as int),
        exists|p: int| insertion_point(old(v)@, regions@, regions@[x as int].try_offset, p) && final(v)@ == old(v)@.insert(p, x),
{
    let mut p: usize = 0;
    while p < v.len() && regions[v[p]].try_offset <= regions[x].try_offset
        invariant
            p <= v@.len(),
            x < regions@.len(),
            all_below(v@, regions@.len() as int),
            forall|j: int| 0 <= j < p ==> regions@[#[trigger] v@[j] as int].try_offset <= regions@[x as int].try_offset,
        decreases v.len() - p,
    {
        p = p + 1;
    }
    let ghost s = v@;
    assert(insertion_point(s, regions@, regions@[x as int].try_offset, p as int));
    v.insert(p, x);
    proof {
        assert forall|i: int| 0 <= i < v@.len() implies (#[trigger] v@[i]) < regions@.len() by {
            if i < p {
                assert(v@[i] == s[i]);
            } else if i > p {
                assert(v@[i] == s[i - 1]);
            }
        }
    }
}

/// `r` with its ENDFINALLY offset set.
spec fn with_endfinally(r: TryRegion, o: Option<usize>) -> TryRegion {
    TryRegion {
        try_offset: r.try_offset,
        body_start: r.body_start,
        body_layout_end: r.body_layout_end,
        catch_layout_range: r.catch_layout_range,
        finally_offset: r.finally_offset,
        endfinally_offset: o,
        parent: r.parent,
    }
}

/// `r` with its parent set.
spec fn with_parent(r: TryRegion, p: Option<usize>) -> TryRegion {
    TryRegion {
        try_offset: r.try_offset,
        body_start: r.body_start,
        body_layout_end: r.body_layout_end,
        catch_layout_range: r.catch_layout_range,
        finally_offset: r.finally_offset,
        endfinally_offset: r.endfinally_offset,
        parent: p,
    }
}

/// `r` with its catch range set.
spec fn with_catch_range(r: TryRegion, c: Option<(usize, usize)>) -> TryRegion {
    TryRegion {
        try_offset: r.try_offset,
        body_start: r.body_start,
        body_layout_end: r.body_layout_end,
        catch_layout_range: c,
        finally_offset: r.finally_offset,
        endfinally_offset: r.endfinally_offset,
        parent: r.parent,
    }
}

fn set_endfinally(regions: &mut Vec<TryRegion>, ri: usize, offset: usize, Ghost(iv): Ghost<Seq<InstructionView>>, Ghost(j): Ghost<int>)
    requires
        regions_ok(old(regions)@),
        ef_sound(old(regions)@, iv),
        ri < old(regions)@.len(),
        0 <= j < iv.len(),
        iv[j].opcode == OpCode::ENDFINALLY,
        iv[j].offset as usize == offset,
    ensures
        regions_ok(final(regions)@),
        ef_sound(final(regions)@, iv),
        final(regions)@.len() == old(regions)@.len(),
        final(regions)@ == old(regions)@.update(ri as int, with_endfinally(old(regions)@[ri as int], Some(offset))),
{
    regions[ri].endfinally_offset = Some(offset);
    assert(regions@ =~= old(regions)@.update(ri as int, with_endfinally(old(regions)@[ri as int], Some(offset))));
    proof {
        assert forall|i: int| 0 <= i < regions@.len() implies opt_below((#[trigger] regions@[i]).parent, regions@.len() as int) by {
            assert(regions@[i].parent == old(regions)@[i].parent);
        }
        assert forall|i: int| 0 <= i < regions@.len() implies match (#[trigger] regions@[i]).endfinally_offset {
            Some(o) => exists|k: int| 0 <= k < iv.len() && (#[trigger] iv[k]).opcode == OpCode::ENDFINALLY && iv[k].offset as usize == o,
            None => true,
        } by {
            if i != ri {
                assert(regions@[i] == old(regions)@[i]);
            } else {
                assert(iv[j].opcode == OpCode::ENDFINALLY);
            }
        }
    }
}

fn set_parent(regions: &mut Vec<TryRegion>, ri: usize, parent: Option<usize>)
    requires
        regions_ok(old(regions)@),
        ri < old(regions)@.len(),
        opt_below(parent, old(regions)@.len() as int),
    ensures
        regions_ok(final(regions)@),
        final(regions)@.len() == old(regions)@.len(),
        ef_same(old(regions)@, final(regions)@),
        final(regions)@ == old(regions)@.update(ri as int, with_parent(old(regions)@[ri as int], parent)),
{
    regions[ri].parent = parent;
    assert(regions@ =~= old(regions)@.update(ri as int, with_parent(old(regions)@[ri as int], parent)));
    proof {
        assert forall|i: int| 0 <= i < regions@.len() implies (#[trigger] old(regions)@[i]).endfinally_offset
            == regions@[i].endfinally_offset by {
            if i != ri {
                assert(regions@[i] == old(regions)@[i]);
            }
        }
        assert forall|i: int| 0 <= i < regions@.len() implies opt_below((#[trigger] regions@[i]).parent, regions@.len() as int) by {
            if i != ri {
                assert(regions@[i].parent == old(regions)@[i].parent);
            }
        }
    }
}

fn set_catch_range(regions: &mut Vec<TryRegion>, ri: usize, start: usize, end: usize)
    requires
        regions_ok(old(regions)@),
        ri < old(regions)@.len(),
    ensures
        regions_ok(final(regions)@),
        final(regions)@.len() == old(regions)@.len(),
        ef_same(old(regions)@, final(regions)@),
        final(regions)@ == old(regions)@.update(ri as int, with_catch_range(old(regions)@[ri as int], Some((start, end)))),
{
    regions[ri].catch_layout_range = Some((start, end));
    assert(regions@ =~= old(regions)@.update(ri as int, with_catch_range(old(regions)@[ri as int], Some((start, end)))));
    proof {
        assert forall|i: int| 0 <= i < regions@.len() implies (#[trigger] old(regions)@[i]).endfinally_offset
            == regions@[i].endfinally_offset by {
            if i != ri {
                assert(regions@[i] == old(regions)@[i]);
            }
        }
        assert forall|i: int| 0 <= i < regions@.len() implies opt_below((#[trigger] regions@[i]).parent, regions@.len() as int) by {
            assert(regions@[i].parent == old(regions)@[i].parent);
        }
    }
}

/// Region `q` is another region whose `TRY` comes before that of region `c`
/// and whose layout holds it.
spec fn encloses(regions: Seq<TryRegion>, q: int, c: int) -> bool {
    q != c && regions[q].try_offset < regions[c].try_offset && regions[q].holds(regions[c].try_offset)
}

/// Among the first `n` regions, `r` is the last of latest `TRY` of those
/// enclosing region `c`, or none when none does.
spec fn parent_result(regions: Seq<TryRegion>, c: int, n: int, r: Option<usize>) -> bool {
    match r {
        Some(b) => {
            &&& 0 <= b < n
            &&& encloses(regions, b as int, c)
            &&& forall|j: int| 0 <= j < n && #[trigger] encloses(regions, j, c) ==> regions[j].try_offset <= regions[b as int].try_offset
                && (j > b ==> regions[j].try_offset < regions[b as int].try_offset)
        },
        None => forall|j: int| 0 <= j < n ==> !#[trigger] encloses(regions, j, c),
    }
}

/// For each region, the region of latest `TRY` before it whose layout holds
/// its `TRY`.
fn assign_region_parents(regions: &mut Vec<TryRegion>)
    requires
        regions_ok(old(regions)@),
    ensures
        regions_ok(final(regions)@),
        final(regions)@.len() == old(regions)@.len(),
        ef_same(old(regions)@, final(regions)@),
        forall|c: int|
            0 <= c < old(regions)@.len() ==> (#[trigger] final(regions)@[c]) == with_parent(old(regions)@[c], final(regions)@[c].parent)
                && parent_result(old(regions)@, c, old(regions)@.len() as int, final(regions)@[c].parent),
{
    let ghost r0 = regions@;
    let n = regions.len();
    let mut parents: Vec<Option<usize>> = Vec::new();
    let mut c: usize = 0;
    while c < n
        invariant
            n == regions@.len(),
            regions@ == r0,
            c <= n,
            parents@.len() == c,
            forall|j: int| 0 <= j < c ==> opt_below(#[trigger] parents@[j], n as int),
            forall|j: int| 0 <= j < c ==> parent_result(r0, j, n as int, #[trigger] parents@[j]),
        decreases n - c,
    {
        let child = regions[c].try_offset;
        let mut best: Option<usize> = None;
        let mut q: usize = 0;
        while q < n
            invariant
                n == regions@.len(),
                regions@ == r0,
                c < n,
                child == r0[c as int].try_offset,
                q <= n,
                opt_below(best, n as int),
                parent_result(r0, c as int, q as int, best),
            decreases n - q,
        {
            proof {
                assert(encloses(r0, q as int, c as int) == (q != c && r0[q as int].try_offset < child && r0[q as int].holds(child)));
            }
            if q != c && regions[q].try_offset < child && regions[q].lexically_contains(child) {
                best = match best {
                    Some(b) => if regions[q].try_offset >= regions[b].try_offset {
                        Some(q)
                    } else {
                        Some(b)
                    },
                    None => Some(q),
                };
            }
            q = q + 1;
        }
        let ghost pb = parents@;
        parents.push(best);
        proof {
            assert forall|j: int| 0 <= j < c + 1 implies parent_result(r0, j, n as int, #[trigger] parents@[j]) by {
                if j < c {
                    assert(parents@[j] == pb[j]);
                }
            }
        }
        c = c + 1;
    }
    let mut c: usize = 0;
    while c < n
        invariant
            n == regions@.len(),
            n == r0.len(),
            c <= n,
            parents@.len() == n,
            regions_ok(regions@),
            ef_same(r0, regions@),
            forall|j: int| 0 <= j < n ==> opt_below(#[trigger] parents@[j], n as int),
            forall|j: int| 0 <= j < n ==> parent_result(r0, j, n as int, #[trigger] parents@[j]),
            forall|j: int| 0 <= j < c ==> #[trigger] regions@[j] == with_parent(r0[j], parents@[j]),
            forall|j: int| c <= j < n ==> #[trigger] regions@[j] == r0[j],
        decreases n - c,
    {
        let ghost before = regions@;
        set_parent(regions, c, parents[c]);
        proof {
            assert forall|j: int| 0 <= j < c + 1 implies #[trigger] regions@[j] == with_parent(r0[j], parents@[j]) by {
                if j < c {
                    assert(regions@[j] == before[j]);
                }
            }
            assert forall|j: int| c + 1 <= j < n implies #[trigger] regions@[j] == r0[j] by {
                assert(regions@[j] == before[j]);
            }
            assert forall|i: int| 0 <= i < r0.len() implies (#[trigger] r0[i]).endfinally_offset == regions@[i].endfinally_offset by {
                assert(r0[i].endfinally_offset == before[i].endfinally_offset);
                assert(before[i].endfinally_offset == regions@[i].endfinally_offset);
            }
        }
        c = c + 1;
    }
    proof {
        assert forall|c: int| 0 <= c < r0.len() implies (#[trigger] regions@[c]) == with_parent(r0[c], regions@[c].parent)
            && parent_result(r0, c, r0.len() as int, regions@[c].parent) by {
            assert(regions@[c] == with_parent(r0[c], parents@[c]));
            assert(parent_result(r0, c, n as int, parents@[c]));
        }
    }
}

/// Following a chain of ENDTRYs from the one at `offset`, which leaves region
/// `owner`: while the next ENDTRY (the one this one jumps to) has not been
/// visited and lies in the parent of `owner`, record the parent as its
/// owner, and stop once a record does not stand. `fuel` bounds the steps.
spec fn chain_spec(
    tm: Map<usize, usize>,
    regions: Seq<TryRegion>,
    om: Map<usize, usize>,
    amb: Set<usize>,
    seen: Set<usize>,
    offset: usize,
    owner: usize,
    fuel: nat,
) -> (Map<usize, usize>, Set<usize>)
    decreases fuel,
{
    if fuel == 0 || seen.contains(offset) {
        (om, amb)
    } else {
        let target = tm[offset];
        if !tm.contains_key(target) {
            (om, amb)
        } else {
            match regions[owner as int].parent {
                None => (om, amb),
                Some(parent) => if !regions[parent as int].holds(target) {
                    (om, amb)
                } else {
                    let (om2, amb2, ok) = record_spec(om, amb, target, parent);
                    if !ok {
                        (om2, amb2)
                    } else {
                        chain_spec(tm, regions, om2, amb2, seen.insert(offset), target, parent, (fuel - 1) as nat)
                    }
                },
            }
        }
    }
}

/// Follow a chain of ENDTRYs that jump to ENDTRYs, each one leaving the
/// parent of the region the previous one left.
fn follow_endtry_chain(
    targets: &Vec<(usize, usize)>,
    regions: &Vec<TryRegion>,
    owners: &mut Vec<(usize, usize)>,
    ambiguous: &mut Vec<usize>,
    root: usize,
    root_owner: usize,
)
    requires
        sorted_keys(targets@),
        has_key(targets@, root),
        regions_ok(regions@),
        root_owner < regions@.len(),
        sorted_keys(old(owners)@),
        increasing(old(ambiguous)@),
        values_below(old(owners)@, regions@.len() as int),
    ensures
        sorted_keys(final(owners)@),
        increasing(final(ambiguous)@),
        values_below(final(owners)@, regions@.len() as int),
        (keyed(final(owners)@), final(ambiguous)@.to_set()) == chain_spec(
            keyed(targets@),
            regions@,
            keyed(old(owners)@),
            old(ambiguous)@.to_set(),
            Set::empty(),
            root,
            root_owner,
            (targets@.len() + 1) as nat,
        ),
{
    let ghost keys = targets@.map_values(|e: (usize, usize)| e.0);
    let ghost tm = keyed(targets@);
    let ghost goal = chain_spec(
        tm,
        regions@,
        keyed(owners@),
        ambiguous@.to_set(),
        Set::empty(),
        root,
        root_owner,
        (targets@.len() + 1) as nat,
    );
    let n = regions.len();
    let mut offset = root;
    let mut owner = root_owner;
    let mut seen: Vec<usize> = Vec::new();
    proof {
        assert(seen@.to_set() =~= Set::<usize>::empty());
    }
    loop
        invariant
            tm == keyed(targets@),
            keys.len() == targets@.len(),
            chain_spec(tm, regions@, keyed(owners@), ambiguous@.to_set(), seen@.to_set(), offset, owner, (targets@.len() + 1
                - seen@.len()) as nat) == goal,
            sorted_keys(targets@),
            regions_ok(regions@),
            n == regions@.len(),
            keys == targets@.map_values(|e: (usize, usize)| e.0),
            has_key(targets@, offset),
            owner < n,
            increasing(seen@),
            forall|v: usize| #[trigger] seen@.contains(v) ==> keys.contains(v),
            seen@.len() <= keys.len(),
            sorted_keys(owners@),
            increasing(ambiguous@),
            values_below(owners@, n as int),
        ensures
            (keyed(owners@), ambiguous@.to_set()) == goal,
        decreases keys.len() - seen@.len(),
    {
        let ghost fuel = (targets@.len() + 1 - seen@.len()) as nat;
        let ghost om0 = keyed(owners@);
        let ghost amb0 = ambiguous@.to_set();
        let ghost seen0 = seen@.to_set();
        if contains_usize(&seen, offset) {
            proof {
                assert(seen0.contains(offset));
            }
            break;
        }
        proof {
            assert(!seen0.contains(offset));
            assert(fuel > 0);
        }
        let ghost before = seen@;
        insert_increasing(&mut seen, offset);
        proof {
            assert(seen@.to_set() =~= seen0.insert(offset)) by {
                assert forall|b: usize| #[trigger] seen@.to_set().contains(b) <==> seen0.insert(offset).contains(b) by {
                    assert(seen@.to_set().contains(b) == seen@.contains(b));
                    assert(before.to_set().contains(b) == before.contains(b));
                }
            }
            let p = choose|i: int| 0 <= i < targets@.len() && (#[trigger] targets@[i]).0 == offset;
            assert(keys[p] == offset);
            assert forall|v: usize| #[trigger] seen@.contains(v) implies keys.contains(v) by {
                if v != offset {
                    assert(before.contains(v));
                }
            }
            assert(seen@.no_duplicates()) by {
                assert forall|i: int, j: int| 0 <= i < seen@.len() && 0 <= j < seen@.len() && i != j implies seen@[i] != seen@[j] by {
                    if i < j {
                        assert(seen@[i] < seen@[j]);
                    } else {
                        assert(seen@[j] < seen@[i]);
                    }
                }
            }
            lemma_distinct_bound(keys, seen@);
        }
        let target = match find_key(targets, offset) {
            Some(p) => targets[p].1,
            None => {
                break;
            },
        };
        proof {
            assert(tm.contains_key(offset));
            assert(tm[offset] == target);
        }
        if find_key(targets, target).is_none() {
            break;
        }
        proof {
            assert(tm.contains_key(target));
        }
        let parent = match regions[owner].parent {
            Some(p) => p,
            None => {
                break;
            },
        };
        if !regions[parent].lexically_contains(target) {
            break;
        }
        if !record_endtry_owner(owners, ambiguous, target, parent, Ghost(n)) {
            break;
        }
        offset = target;
        owner = parent;
    }
}

/// Among the first `n` regions, `b` holds `offset` and has the latest `TRY`
/// of those that hold it, and no later one holding it starts as late.
spec fn latest_holding(regions: Seq<TryRegion>, offset: usize, n: int, b: int) -> bool {
    &&& 0 <= b < n
    &&& regions[b].holds(offset)
    &&& forall|j: int| 0 <= j < n && (#[trigger] regions[j]).holds(offset) ==> regions[j].try_offset <= regions[b].try_offset
        && (j > b ==> regions[j].try_offset < regions[b].try_offset)
}

/// The region found among the first `n` regions for `offset`.
spec fn holding_result(regions: Seq<TryRegion>, offset: usize, n: int, r: Option<usize>) -> bool {
    match r {
        Some(b) => latest_holding(regions, offset, n, b as int),
        None => forall|j: int| 0 <= j < n ==> !(#[trigger] regions[j]).holds(offset),
    }
}

/// The last region of latest `TRY` whose layout holds `offset`.
fn innermost_region(regions: &Vec<TryRegion>, offset: usize) -> (r: Option<usize>)
    ensures
        opt_below(r, regions@.len() as int),
        holding_result(regions@, offset, regions@.len() as int, r),
{
    let mut best: Option<usize> = None;
    let mut q: usize = 0;
    while q < regions.len()
        invariant
            q <= regions@.len(),
            opt_below(best, regions@.len() as int),
            holding_result(regions@, offset, q as int, best),
        decreases regions.len() - q,
    {
        if regions[q].lexically_contains(offset) {
            best = match best {
                Some(b) => if regions[q].try_offset >= regions[b].try_offset {
                    Some(q)
                } else {
                    Some(b)
                },
                None => Some(q),
            };
        }
        q = q + 1;
    }
    best
}

/// Among the first `n` entries, `b` is the first with the largest count.
spec fn first_most(counts: Seq<(usize, usize)>, n: int, b: int) -> bool {
    &&& 0 <= b < n
    &&& forall|j: int| 0 <= j < n ==> (#[trigger] counts[j]).1 <= counts[b].1
    &&& forall|j: int| 0 <= j < b ==> (#[trigger] counts[j]).1 < counts[b].1
}

/// The key with the largest count; the first such key among ties.
fn most_frequent(counts: &Vec<(usize, usize)>) -> (r: usize)
    requires
        counts@.len() > 0,
    ensures
        exists|b: int| first_most(counts@, counts@.len() as int, b) && r == (#[trigger] counts@[b]).0,
{
    let mut best = counts[0].0;
    let mut best_count = counts[0].1;
    let mut k: usize = 1;
    let ghost mut bi: int = 0;
    while k < counts.len()
        invariant
            1 <= k <= counts@.len(),
            first_most(counts@, k as int, bi),
            best == counts@[bi].0,
            best_count == counts@[bi].1,
        decreases counts.len() - k,
    {
        if counts[k].1 > best_count {
            best = counts[k].0;
            best_count = counts[k].1;
            proof {
                bi = k as int;
            }
        }
        k = k + 1;
    }
    assert(first_most(counts@, counts@.len() as int, bi) && best == counts@[bi].0);
    best
}

/// How many of the first `n` instructions are ENDTRYs in `[start, end)`
/// that `owners` assigns to region `ri`, by the place each jumps to.
spec fn owned_counts(iv: Seq<InstructionView>, owners: Map<usize, usize>, ri: usize, start: usize, end: usize, n: int) -> Map<usize, usize>
    decreases n,
{
    if n <= 0 {
        Map::empty()
    } else {
        let m = owned_counts(iv, owners, ri, start, end, n - 1);
        let off = iv[n - 1].offset as usize;
        if endtry_within(iv, start, end, n - 1) && owners.contains_key(off) && owners[off] == ri {
            match cfg_jump_target(iv, iv[n - 1]) {
                Some(t) => m.insert(
                    t,
                    if m.contains_key(t) {
                        (m[t] + 1) as usize
                    } else {
                        1
                    },
                ),
                None => m,
            }
        } else {
            m
        }
    }
}

/// `k` has the largest count, and no smaller key has as large a one.
spec fn most_counted(m: Map<usize, usize>, k: usize) -> bool {
    &&& m.contains_key(k)
    &&& forall|j: usize| #[trigger] m.contains_key(j) ==> m[j] <= m[k] && (j < k ==> m[j] < m[k])
}

/// The smallest key with the largest count.
spec fn most_key(m: Map<usize, usize>) -> usize {
    choose|k: usize| most_counted(m, k)
}

proof fn lemma_most_key_unique(m: Map<usize, usize>, k: usize)
    requires
        most_counted(m, k),
    ensures
        most_key(m) == k,
{
    let q = most_key(m);
    assert(most_counted(m, q));
    assert(m[q] <= m[k] && m[k] <= m[q]);
}

/// The first entry with the largest count has the smallest key with the
/// largest count.
proof fn lemma_first_most_key(counts: Seq<(usize, usize)>, b: int)
    requires
        sorted_keys(counts),
        first_most(counts, counts.len() as int, b),
    ensures
        most_counted(keyed(counts), counts[b].0),
{
    super::graph::lemma_key_pos(counts, b);
    assert forall|j: usize| #[trigger] keyed(counts).contains_key(j) implies keyed(counts)[j] <= keyed(counts)[counts[b].0] && (j
        < counts[b].0 ==> keyed(counts)[j] < keyed(counts)[counts[b].0]) by {
        let i = key_pos(counts, j);
        super::graph::lemma_key_pos(counts, i);
        assert(counts[i].1 <= counts[b].1);
        if j < counts[b].0 {
            if i >= b {
                if i > b {
                    assert(counts[b].0 < counts[i].0);
                }
            }
            assert(i < b);
        }
    }
}

/// A region after its catch range is refined: a catch-only region whose
/// own ENDTRYs in its catch range do not jump to the range's end has that
/// end moved to the place they jump to most (not before the handler).
spec fn refined_region(r: TryRegion, iv: Seq<InstructionView>, owners: Map<usize, usize>, ri: usize) -> TryRegion {
    match r.catch_layout_range {
        Some((start, end)) => {
            let m = owned_counts(iv, owners, ri, start, end, iv.len() as int);
            if r.finally_offset is None && m.dom().len() > 0 && !m.contains_key(end) {
                let k = most_key(m);
                with_catch_range(r, Some((start, if k > start { k } else { start })))
            } else {
                r
            }
        },
        None => r,
    }
}

/// Region `a` comes before region `b`: its `TRY` is earlier, or at the same
/// offset and `a` was found first.
spec fn try_before(regions: Seq<TryRegion>, a: usize, b: usize) -> bool {
    regions[a as int].try_offset < regions[b as int].try_offset || (regions[a as int].try_offset == regions[b as int].try_offset
        && a < b)
}

/// `s` lists the regions below `q` whose finally handler starts at `off`,
/// each once, in `try_before` order.
spec fn finally_listing(regions: Seq<TryRegion>, off: usize, q: int, s: Seq<usize>) -> bool {
    &&& forall|i: int| 0 <= i < s.len() ==> (#[trigger] s[i]) < q && regions[s[i] as int].finally_offset == Some(off)
    &&& forall|x: usize| 0 <= x < q && regions[x as int].finally_offset == Some(off) ==> #[trigger] s.contains(x)
    &&& forall|i: int, j: int| 0 <= i < j < s.len() ==> try_before(regions, #[trigger] s[i], #[trigger] s[j])
}

/// The regions whose finally handler starts at `off`, in `try_before` order.
spec fn finally_order(regions: Seq<TryRegion>, off: usize) -> Seq<usize> {
    choose|s: Seq<usize>| finally_listing(regions, off, regions.len() as int, s)
}

/// Two lists in `try_before` order with the same members are equal.
proof fn lemma_listing_unique(regions: Seq<TryRegion>, a: Seq<usize>, b: Seq<usize>)
    requires
        forall|i: int, j: int| 0 <= i < j < a.len() ==> try_before(regions, #[trigger] a[i], #[trigger] a[j]),
        forall|i: int, j: int| 0 <= i < j < b.len() ==> try_before(regions, #[trigger] b[i], #[trigger] b[j]),
        forall|x: usize| #[trigger] a.contains(x) <==> b.contains(x),
    ensures
        a == b,
    decreases a.len(),
{
    if a.len() == 0 {
        if b.len() > 0 {
            assert(b.contains(b[0]));
            assert(a.contains(b[0]));
        }
        assert(a =~= b);
    } else {
        assert(a.contains(a[0]));
        assert(b.len() > 0);
        assert(b.contains(b[0]));
        assert(a.contains(b[0]));
        assert(b.contains(a[0]));
        let k = choose|k: int| 0 <= k < a.len() && a[k] == b[0];
        let m = choose|m: int| 0 <= m < b.len() && b[m] == a[0];
        if a[0] != b[0] {
            assert(k > 0 && m > 0);
            assert(try_before(regions, a[0], a[k]));
            assert(try_before(regions, b[0], b[m]));
        }
        let a1 = a.drop_first();
        let b1 = b.drop_first();
        assert forall|x: usize| #[trigger] a1.contains(x) <==> b1.contains(x) by {
            if a1.contains(x) {
                let i = choose|i: int| 0 <= i < a1.len() && a1[i] == x;
                assert(try_before(regions, a[0], a[i + 1]));
                assert(a[i + 1] == x);
                assert(a.contains(x));
                assert(b.contains(x));
                let j = choose|j: int| 0 <= j < b.len() && b[j] == x;
                if j == 0 {
                    assert(false);
                }
                assert(b1[j - 1] == x);
            }
            if b1.contains(x) {
                let i = choose|i: int| 0 <= i < b1.len() && b1[i] == x;
                assert(try_before(regions, b[0], b[i + 1]));
                assert(b[i + 1] == x);
                assert(b.contains(x));
                assert(a.contains(x));
                let j = choose|j: int| 0 <= j < a.len() && a[j] == x;
                if j == 0 {
                    assert(false);
                }
                assert(a1[j - 1] == x);
            }
        }
        lemma_listing_unique(regions, a1, b1);
        assert(a =~= seq![a[0]] + a1);
        assert(b =~= seq![b[0]] + b1);
    }
}

/// The state after the first `i` instructions of pairing finally regions
/// with ENDFINALLYs: the offsets seen, the open regions (innermost last),
/// and the regions with the ENDFINALLYs found so far.
spec fn endfinally_run(iv: Seq<InstructionView>, r0: Seq<TryRegion>, i: int) -> (Set<usize>, Seq<usize>, Seq<TryRegion>)
    decreases i,
{
    if i <= 0 {
        (Set::empty(), Seq::empty(), r0)
    } else {
        let (opened, active, rs) = endfinally_run(iv, r0, i - 1);
        let off = iv[i - 1].offset as usize;
        let opened2 = opened.insert(off);
        let active2 = if opened.contains(off) {
            active
        } else {
            active + finally_order(r0, off)
        };
        if iv[i - 1].opcode == OpCode::ENDFINALLY && active2.len() > 0 {
            let ri = active2.last();
            (opened2, active2.drop_last(), rs.update(ri as int, with_endfinally(rs[ri as int], Some(off))))
        } else {
            (opened2, active2, rs)
        }
    }
}

impl<'a> CfgBuilder<'a> {
    /// Pair each finally region with the ENDFINALLY that closes it: regions
    /// open at their finally offset (in order of their TRY) and the innermost
    /// open one closes at each ENDFINALLY.
    fn assign_endfinally_offsets(&self, regions: &mut Vec<TryRegion>)
        requires
            self.wf(),
            regions_ok(old(regions)@),
            ef_sound(old(regions)@, self.instrs()),
        ensures
            regions_ok(final(regions)@),
            ef_sound(final(regions)@, self.instrs()),
            final(regions)@.len() == old(regions)@.len(),
            final(regions)@ == endfinally_run(self.instrs(), old(regions)@, self.instrs().len() as int).2,
    {
        let ghost r0 = regions@;
        let ghost iv = self.instrs();
        let n = regions.len();
        let mut opened: Vec<usize> = Vec::new();
        let mut active: Vec<usize> = Vec::new();
        let mut i: usize = 0;
        proof {
            assert(opened@.to_set() =~= Set::<usize>::empty());
        }
        while i < self.instructions.len()
            invariant
                iv == self.instrs(),
                iv.len() == self.instructions@.len(),
                n == regions@.len(),
                n == r0.len(),
                regions_ok(regions@),
                ef_sound(regions@, self.instrs()),
                i <= self.instructions@.len(),
                increasing(opened@),
                all_below(active@, n as int),
                forall|j: int| 0 <= j < n ==> (#[trigger] regions@[j]).try_offset == r0[j].try_offset && regions@[j].finally_offset
                    == r0[j].finally_offset,
                opened@.to_set() == endfinally_run(iv, r0, i as int).0,
                active@ == endfinally_run(iv, r0, i as int).1,
                regions@ == endfinally_run(iv, r0, i as int).2,
            decreases self.instructions.len() - i,
        {
            let instr = &self.instructions[i];
            proof {
                assert(iv[i as int] == instr@);
            }
            let ghost st = endfinally_run(iv, r0, i as int);
            let off = instr.offset as usize;
            let ghost a0 = active@;
            let ghost o0 = opened@;
            if !contains_usize(&opened, off) {
                insert_increasing(&mut opened, off);
                let mut ordered: Vec<usize> = Vec::new();
                let mut q: usize = 0;
                while q < n
                    invariant
                        n == regions@.len(),
                        n == r0.len(),
                        q <= n,
                        all_below(ordered@, n as int),
                        forall|j: int| 0 <= j < n ==> (#[trigger] regions@[j]).try_offset == r0[j].try_offset && regions@[j].finally_offset
                            == r0[j].finally_offset,
                        finally_listing(r0, off, q as int, ordered@),
                    decreases n - q,
                {
                    match regions[q].finally_offset {
                        Some(f) => if f == off {
                            let ghost s0 = ordered@;
                            insert_by_try_offset(&mut ordered, q, regions);
                            proof {
                                let p = choose|p: int| insertion_point(s0, regions@, regions@[q as int].try_offset, p) && ordered@ == s0.insert(p, q);
                                let t = r0[q as int].try_offset;
                                assert forall|i: int, j: int| 0 <= i < j < ordered@.len() implies try_before(r0, #[trigger] ordered@[i], #[trigger] ordered@[j]) by {
                                    if j < p {
                                        assert(try_before(r0, s0[i], s0[j]));
                                    } else if j == p {
                                        assert(r0[s0[i] as int].try_offset <= t);
                                    } else if i == p {
                                        assert(r0[s0[p] as int].try_offset > t);
                                        if j - 1 > p {
                                            assert(try_before(r0, s0[p], s0[j - 1]));
                                        }
                                    } else if i < p {
                                        assert(try_before(r0, s0[i], s0[j - 1]));
                                    } else {
                                        assert(try_before(r0, s0[i - 1], s0[j - 1]));
                                    }
                                }
                                assert forall|i: int| 0 <= i < ordered@.len() implies (#[trigger] ordered@[i]) < q + 1 && r0[ordered@[i] as int].finally_offset == Some(off) by {
                                    if i < p {
                                        assert(ordered@[i] == s0[i]);
                                    } else if i > p {
                                        assert(ordered@[i] == s0[i - 1]);
                                    }
                                }
                                assert forall|x: usize| 0 <= x < q + 1 && r0[x as int].finally_offset == Some(off) implies #[trigger] ordered@.contains(x) by {
                                    if x < q {
                                        assert(s0.contains(x));
                                        let k = choose|k: int| 0 <= k < s0.len() && s0[k] == x;
                                        if k < p {
                                            assert(ordered@[k] == x);
                                        } else {
                                            assert(ordered@[k + 1] == x);
                                        }
                                    } else {
                                        assert(ordered@[p] == x);
                                    }
                                }
                            }
                        } else {
                            proof {
                                assert forall|x: usize| 0 <= x < q + 1 && r0[x as int].finally_offset == Some(off) implies #[trigger] ordered@.contains(x) by {
                                    if x < q {
                                    }
                                }
                            }
                        },
                        None => {
                            proof {
                                assert forall|x: usize| 0 <= x < q + 1 && r0[x as int].finally_offset == Some(off) implies #[trigger] ordered@.contains(x) by {
                                    if x < q {
                                    }
                                }
                            }
                        },
                    }
                    q = q + 1;
                }
                proof {
                    let fo = finally_order(r0, off);
                    assert(finally_listing(r0, off, n as int, fo));
                    assert forall|x: usize| #[trigger] ordered@.contains(x) <==> fo.contains(x) by {
                        if ordered@.contains(x) {
                            let k = choose|k: int| 0 <= k < ordered@.len() && ordered@[k] == x;
                            assert(ordered@[k] < n);
                        }
                        if fo.contains(x) {
                            let k = choose|k: int| 0 <= k < fo.len() && fo[k] == x;
                            assert(fo[k] < n);
                        }
                    }
                    lemma_listing_unique(r0, ordered@, fo);
                }
                let mut k: usize = 0;
                while k < ordered.len()
                    invariant
                        k <= ordered@.len(),
                        all_below(ordered@, n as int),
                        all_below(active@, n as int),
                        active@ == a0 + ordered@.take(k as int),
                    decreases ordered.len() - k,
                {
                    active.push(ordered[k]);
                    proof {
                        assert(ordered@.take(k + 1) == ordered@.take(k as int).push(ordered@[k as int]));
                    }
                    k = k + 1;
                }
                proof {
                    assert(ordered@.take(ordered@.len() as int) == ordered@);
                    assert(!st.0.contains(off));
                }
            } else {
                proof {
                    assert(st.0.contains(off));
                }
            }
            proof {
                assert(opened@.to_set() =~= st.0.insert(off)) by {
                    assert forall|b: usize| opened@.to_set().contains(b) <==> st.0.insert(off).contains(b) by {
                        assert(opened@.to_set().contains(b) == opened@.contains(b));
                        assert(o0.to_set().contains(b) == o0.contains(b));
                    }
                }
            }
            if instr.opcode == OpCode::ENDFINALLY {
                let ghost a1 = active@;
                if let Some(ri) = active.pop() {
                    proof {
                        assert(self.instrs()[i as int] == self.instructions@[i as int]@);
                        assert(active@ == a1.drop_last());
                    }
                    set_endfinally(regions, ri, off, Ghost(self.instrs()), Ghost(i as int));
                }
            }
            i = i + 1;
        }
    }
}


/// Count one more jump to `t`.
fn bump_count(counts: &mut Vec<(usize, usize)>, t: usize, Ghost(bound): Ghost<usize>)
    requires
        sorted_keys(old(counts)@),
        bound < usize::MAX,
        forall|j: int| 0 <= j < old(counts)@.len() ==> (#[trigger] old(counts)@[j]).1 <= bound,
    ensures
        sorted_keys(final(counts)@),
        forall|j: int| 0 <= j < final(counts)@.len() ==> (#[trigger] final(counts)@[j]).1 <= bound + 1,
        keyed(final(counts)@) == keyed(old(counts)@).insert(
            t,
            if keyed(old(counts)@).contains_key(t) {
                (keyed(old(counts)@)[t] + 1) as usize
            } else {
                1
            },
        ),
{
    let c = match find_key(counts, t) {
        Some(p) => counts[p].1,
        None => 0,
    };
    let ghost o = counts@;
    upsert(counts, t, c + 1);
    proof {
        lemma_upsert_keyed(o, counts@, t, (c + 1) as usize);
        assert forall|j: int| 0 <= j < counts@.len() implies (#[trigger] counts@[j]).1 <= bound + 1 by {
            let k = counts@[j].0;
            super::graph::lemma_key_pos(counts@, j);
            if k != t {
                assert(has_key(o, k));
                let i = key_pos(o, k);
                assert(o[i].1 <= bound);
            }
        }
    }
}

/// The block identifiers with the given numbers.
fn push_block_ids(conts: &Vec<usize>) -> (r: Vec<BlockId>)
    ensures
        r@.len() == conts@.len(),
        forall|j: int| 0 <= j < conts@.len() ==> (#[trigger] r@[j]).0 == conts@[j],
{
    let mut ids: Vec<BlockId> = Vec::new();
    let mut k: usize = 0;
    while k < conts.len()
        invariant
            k <= conts@.len(),
            ids@.len() == k,
            forall|j: int| 0 <= j < k ==> (#[trigger] ids@[j]).0 == conts@[j],
        decreases conts.len() - k,
    {
        ids.push(BlockId(conts[k]));
        k = k + 1;
    }
    ids
}

/// A block found by its identifier sits at the position its identifier
/// names.
proof fn lemma_pos_is_block(
    blocks: Seq<BasicBlock>,
    orig: Seq<BlockView>,
    iv: Seq<InstructionView>,
    ls: Seq<usize>,
    bp: int,
    id: usize,
)
    requires
        routed_from(orig, block_views(blocks), iv, ls),
        forall|k: int| 0 <= k < orig.len() ==> (#[trigger] orig[k]).id == BlockId(k as usize),
        0 <= bp < blocks.len(),
        bp <= usize::MAX,
        blocks[bp].id.0 == id,
    ensures
        bp == id,
{
    assert(block_views(blocks)[bp] == blocks[bp]@);
    assert(same_shape(orig[bp], block_views(blocks)[bp]));
    assert(orig[bp].id == BlockId(bp as usize));
    assert(blocks[bp]@.id == blocks[bp].id);
}

/// The last region of latest `TRY` whose layout holds `offset`, if any.
spec fn innermost(regions: Seq<TryRegion>, offset: usize) -> Option<usize> {
    choose|r: Option<usize>| holding_result(regions, offset, regions.len() as int, r)
}

proof fn lemma_innermost_unique(regions: Seq<TryRegion>, offset: usize, r: Option<usize>)
    requires
        holding_result(regions, offset, regions.len() as int, r),
    ensures
        innermost(regions, offset) == r,
{
    let q = innermost(regions, offset);
    assert(holding_result(regions, offset, regions.len() as int, q));
    match (r, q) {
        (Some(a), Some(b)) => {
            assert(regions[b as int].holds(offset));
            assert(regions[a as int].holds(offset));
            assert(regions[a as int].try_offset <= regions[b as int].try_offset);
            assert(regions[b as int].try_offset <= regions[a as int].try_offset);
        },
        (Some(a), None) => {
            assert(!regions[a as int].holds(offset));
        },
        (None, Some(b)) => {
            assert(!regions[b as int].holds(offset));
        },
        (None, None) => {},
    }
}

/// Where the ENDTRYs among the first `n` instructions jump, by offset.
spec fn endtry_targets(iv: Seq<InstructionView>, n: int) -> Map<usize, usize>
    decreases n,
{
    if n <= 0 {
        Map::empty()
    } else {
        let m = endtry_targets(iv, n - 1);
        let ins = iv[n - 1];
        if ins.opcode == OpCode::ENDTRY || ins.opcode == OpCode::ENDTRY_L {
            match cfg_jump_target(iv, ins) {
                Some(t) => m.insert(ins.offset as usize, t),
                None => m,
            }
        } else {
            m
        }
    }
}

/// An ENDTRY that no ENDTRY jumps to.
spec fn is_root(tm: Map<usize, usize>, x: usize) -> bool {
    tm.contains_key(x) && !exists|j: usize| #[trigger] tm.contains_key(j) && tm[j] == x
}

/// The ENDTRYs that no ENDTRY jumps to, in increasing order.
spec fn root_list(tm: Map<usize, usize>) -> Seq<usize> {
    choose|s: Seq<usize>| increasing(s) && forall|x: usize| #[trigger] s.contains(x) <==> is_root(tm, x)
}

/// Owners and ambiguous offsets after the chains from the first `q` roots.
spec fn owners_run(tm: Map<usize, usize>, regions: Seq<TryRegion>, roots: Seq<usize>, q: int) -> (Map<usize, usize>, Set<usize>)
    decreases q,
{
    if q <= 0 {
        (Map::empty(), Set::empty())
    } else {
        let (om, amb) = owners_run(tm, regions, roots, q - 1);
        let root = roots[q - 1];
        match innermost(regions, root) {
            Some(o) => {
                let (om2, amb2, ok) = record_spec(om, amb, root, o);
                if ok {
                    chain_spec(tm, regions, om2, amb2, Set::empty(), root, o, (tm.dom().len() + 1) as nat)
                } else {
                    (om2, amb2)
                }
            },
            None => (om, amb),
        }
    }
}

/// The owner of each ENDTRY that exactly one region claims.
spec fn endtry_owners(iv: Seq<InstructionView>, regions: Seq<TryRegion>) -> Map<usize, usize> {
    let tm = endtry_targets(iv, iv.len() as int);
    let roots = root_list(tm);
    let (om, amb) = owners_run(tm, regions, roots, roots.len() as int);
    om.remove_keys(amb)
}

/// The region whose layout encloses region `c`'s `TRY`, if any.
spec fn parent_of(regions: Seq<TryRegion>, c: int) -> Option<usize> {
    choose|r: Option<usize>| parent_result(regions, c, regions.len() as int, r)
}

proof fn lemma_parent_unique(regions: Seq<TryRegion>, c: int, r: Option<usize>)
    requires
        parent_result(regions, c, regions.len() as int, r),
    ensures
        parent_of(regions, c) == r,
{
    let q = parent_of(regions, c);
    assert(parent_result(regions, c, regions.len() as int, q));
    match (r, q) {
        (Some(a), Some(b)) => {
            assert(encloses(regions, b as int, c));
            assert(encloses(regions, a as int, c));
            assert(regions[a as int].try_offset <= regions[b as int].try_offset);
            assert(regions[b as int].try_offset <= regions[a as int].try_offset);
        },
        (Some(a), None) => {
            assert(!encloses(regions, a as int, c));
        },
        (None, Some(b)) => {
            assert(!encloses(regions, b as int, c));
        },
        (None, None) => {},
    }
}

/// The regions with their parents.
spec fn parented(regions: Seq<TryRegion>) -> Seq<TryRegion> {
    Seq::new(regions.len(), |c: int| with_parent(regions[c], parent_of(regions, c)))
}

/// The regions with their catch ranges refined.
spec fn refined(regions: Seq<TryRegion>, iv: Seq<InstructionView>, owners: Map<usize, usize>) -> Seq<TryRegion> {
    Seq::new(regions.len(), |c: int| refined_region(regions[c], iv, owners, c as usize))
}

/// The block state of finally routing: the blocks, the ENDTRYs that leave a
/// finally region elsewhere (region, block, continuation block), and the
/// finally regions left by an ENDTRY that jumps to itself.
type RouteState = (Seq<BlockView>, Seq<(usize, usize, usize)>, Seq<bool>);

/// Routing the ENDTRY at instruction `i`.
spec fn route_endtry(
    iv: Seq<InstructionView>,
    ls: Seq<usize>,
    rs: Seq<TryRegion>,
    om: Map<usize, usize>,
    st: RouteState,
    i: int,
) -> RouteState {
    let (bs, exits, sc) = st;
    let ins = iv[i];
    let off = ins.offset as usize;
    if (ins.opcode == OpCode::ENDTRY || ins.opcode == OpCode::ENDTRY_L) && om.contains_key(off) && cfg_jump_target(iv, ins) is Some {
        let target = cfg_jump_target(iv, ins)->0;
        let ri = om[off];
        let eb = block_of(ls, off);
        let cont = block_of(ls, target);
        match rs[ri as int].finally_offset {
            None => {
                let natural: Option<usize> = match rs[ri as int].catch_layout_range {
                    Some((_, e)) => Some(e),
                    None => None,
                };
                if eb < bs.len() && bs[eb as int].terminator is EndTry {
                    let nonlocal = match natural {
                        Some(e) => target != e,
                        None => false,
                    };
                    (
                        bs.update(
                            eb as int,
                            with_term(
                                bs[eb as int],
                                TermView::EndTry { continuation: bs[eb as int].terminator->EndTry_continuation, nonlocal },
                            ),
                        ),
                        exits,
                        sc,
                    )
                } else {
                    st
                }
            },
            Some(fo) => {
                let fb = block_of(ls, fo);
                let bs2 = if eb < bs.len() {
                    bs.update(
                        eb as int,
                        with_term(
                            bs[eb as int],
                            TermView::EndTryFinally { continuation: BlockId(cont), finally_target: BlockId(fb), nonlocal: false },
                        ),
                    )
                } else {
                    bs
                };
                if target == off {
                    (bs2, exits, sc.update(ri as int, true))
                } else {
                    (bs2, exits.push((ri, eb, cont)), sc)
                }
            },
        }
    } else {
        st
    }
}

/// Routing the ENDTRYs among the first `i` instructions.
spec fn route_run(
    iv: Seq<InstructionView>,
    ls: Seq<usize>,
    rs: Seq<TryRegion>,
    om: Map<usize, usize>,
    st: RouteState,
    i: int,
) -> RouteState
    decreases i,
{
    if i <= 0 {
        st
    } else {
        route_endtry(iv, ls, rs, om, route_run(iv, ls, rs, om, st, i - 1), i - 1)
    }
}

/// The continuation blocks recorded for region `ri`, increasing.
spec fn conts_of(exits: Seq<(usize, usize, usize)>, ri: usize) -> Seq<usize> {
    choose|s: Seq<usize>|
        increasing(s) && forall|x: usize| #[trigger] s.contains(x) <==> exists|e: int| 0 <= e < exits.len() && (#[trigger] exits[e]).0 == ri
            && exits[e].2 == x
}

/// Where code goes on after the ENDFINALLY at `efo`: the next instruction.
spec fn finally_natural(iv: Seq<InstructionView>, efo: usize) -> Option<usize> {
    let oi = offset_index(iv);
    if oi.contains_key(efo) && oi[efo] + 1 < iv.len() {
        Some(iv[oi[efo] + 1].offset as usize)
    } else {
        None
    }
}

/// Marking the first `e` exits of region `ri` nonlocal where they resume
/// elsewhere than after the ENDFINALLY.
spec fn exits_run(bs0: Seq<BlockView>, exits: Seq<(usize, usize, usize)>, ri: usize, natural: Option<usize>, e: int) -> Seq<BlockView>
    decreases e,
{
    if e <= 0 {
        bs0
    } else {
        let bs = exits_run(bs0, exits, ri, natural, e - 1);
        let x = exits[e - 1];
        if x.0 == ri {
            let resume: Option<usize> = if x.2 < bs.len() {
                Some(bs[x.2 as int].start_offset)
            } else {
                None
            };
            let nonlocal = match (resume, natural) {
                (Some(a), Some(b)) => a != b,
                (None, None) => false,
                _ => true,
            };
            if x.1 < bs.len() && bs[x.1 as int].terminator is EndTryFinally {
                bs.update(
                    x.1 as int,
                    with_term(
                        bs[x.1 as int],
                        TermView::EndTryFinally {
                            continuation: bs[x.1 as int].terminator->EndTryFinally_continuation,
                            finally_target: bs[x.1 as int].terminator->EndTryFinally_finally_target,
                            nonlocal,
                        },
                    ),
                )
            } else {
                bs
            }
        } else {
            bs
        }
    }
}

/// Closing finally region `ri`: its exits and its ENDFINALLY.
spec fn close_finally(
    iv: Seq<InstructionView>,
    ls: Seq<usize>,
    rs: Seq<TryRegion>,
    exits: Seq<(usize, usize, usize)>,
    sc: Seq<bool>,
    bs: Seq<BlockView>,
    ri: int,
) -> Seq<BlockView> {
    match rs[ri].endfinally_offset {
        Some(efo) => {
            let conts = conts_of(exits, ri as usize);
            if conts.len() == 0 && sc[ri] {
                bs
            } else {
                let bs2 = exits_run(bs, exits, ri as usize, finally_natural(iv, efo), exits.len() as int);
                let efb = block_of(ls, efo);
                if efb < bs2.len() {
                    bs2.update(
                        efb as int,
                        with_term(bs2[efb as int], TermView::EndFinally { normal_continuations: conts.map_values(|x: usize| BlockId(x)) }),
                    )
                } else {
                    bs2
                }
            }
        },
        None => bs,
    }
}

/// Closing the first `k` finally regions.
spec fn close_run(
    iv: Seq<InstructionView>,
    ls: Seq<usize>,
    rs: Seq<TryRegion>,
    exits: Seq<(usize, usize, usize)>,
    sc: Seq<bool>,
    bs0: Seq<BlockView>,
    k: int,
) -> Seq<BlockView>
    decreases k,
{
    if k <= 0 {
        bs0
    } else {
        close_finally(iv, ls, rs, exits, sc, close_run(iv, ls, rs, exits, sc, bs0, k - 1), k - 1)
    }
}

/// The blocks after finally routing.
pub closed spec fn routed_blocks(iv: Seq<InstructionView>, ls: Seq<usize>, bs0: Seq<BlockView>) -> Seq<BlockView> {
    let r1 = regions_upto(iv, iv.len() as int);
    let r2 = endfinally_run(iv, r1, iv.len() as int).2;
    let r3 = parented(r2);
    let om = endtry_owners(iv, r3);
    let rs = refined(r3, iv, om);
    let st = route_run(iv, ls, rs, om, (bs0, Seq::empty(), Seq::new(rs.len(), |c: int| false)), iv.len() as int);
    close_run(iv, ls, rs, st.1, st.2, st.0, rs.len() as int)
}

/// What looking a block up by its identifier gives while block positions
/// are identifiers: the identifier itself when it is in range, else nothing.
proof fn lemma_find_pos(
    blocks: Seq<BasicBlock>,
    orig: Seq<BlockView>,
    iv: Seq<InstructionView>,
    ls: Seq<usize>,
    id: usize,
    r: Option<usize>,
)
    requires
        routed_from(orig, block_views(blocks), iv, ls),
        forall|k: int| 0 <= k < orig.len() ==> (#[trigger] orig[k]).id == BlockId(k as usize),
        r matches Some(p) ==> p < blocks.len() && blocks[p as int].id.0 == id,
        match r {
            Some(p) => forall|j: int| 0 <= j < p ==> (#[trigger] blocks[j]).id.0 != id,
            None => forall|j: int| 0 <= j < blocks.len() ==> (#[trigger] blocks[j]).id.0 != id,
        },
    ensures
        r == (if id < blocks.len() { Some(id) } else { None::<usize> }),
{
    match r {
        Some(p) => {
            lemma_pos_is_block(blocks, orig, iv, ls, p as int, id);
        },
        None => {
            if id < blocks.len() {
                assert(block_views(blocks)[id as int] == blocks[id as int]@);
                assert(same_shape(orig[id as int], block_views(blocks)[id as int]));
                assert(blocks[id as int].id.0 != id);
            }
        },
    }
}

impl<'a> CfgBuilder<'a> {
    /// The region each ENDTRY leaves, keyed by the ENDTRY's offset: an ENDTRY
    /// that no other ENDTRY jumps to leaves the innermost region holding it,
    /// and an ENDTRY it jumps to leaves that region's parent, and so on up;
    /// offsets claimed by two regions are left out.
    fn assign_endtry_owners(&self, regions: &Vec<TryRegion>) -> (r: Vec<(usize, usize)>)
        requires
            self.wf(),
            regions_ok(regions@),
        ensures
            sorted_keys(r@),
            values_below(r@, regions@.len() as int),
            keyed(r@) == endtry_owners(self.instrs(), regions@),
    {
        let ghost iv = self.instrs();
        let n = regions.len();
        let mut targets: Vec<(usize, usize)> = Vec::new();
        let mut i: usize = 0;
        proof {
            assert(keyed(targets@) =~= Map::<usize, usize>::empty());
        }
        while i < self.instructions.len()
            invariant
                self.wf(),
                iv == self.instrs(),
                iv.len() == self.instructions@.len(),
                i <= self.instructions@.len(),
                sorted_keys(targets@),
                keyed(targets@) == endtry_targets(iv, i as int),
            decreases self.instructions.len() - i,
        {
            let instr = &self.instructions[i];
            proof {
                assert(iv[i as int] == instr@);
            }
            if is_endtry(instr.opcode) {
                if let Some(t) = self.jump_target(instr) {
                    let ghost o = targets@;
                    upsert(&mut targets, instr.offset as usize, t);
                    proof {
                        lemma_upsert_keyed(o, targets@, instr.offset as usize, t);
                    }
                }
            }
            i = i + 1;
        }
        let ghost tm = keyed(targets@);
        proof {
            super::graph::lemma_keyed_len(targets@);
        }
        let mut roots: Vec<usize> = Vec::new();
        let mut k: usize = 0;
        while k < targets.len()
            invariant
                sorted_keys(targets@),
                tm == keyed(targets@),
                k <= targets@.len(),
                forall|j: int| 0 <= j < roots@.len() ==> has_key(targets@, #[trigger] roots@[j]),
                increasing(roots@),
                k < targets@.len() ==> forall|j: int| 0 <= j < roots@.len() ==> #[trigger] roots@[j] < targets@[k as int].0,
                forall|x: usize| #[trigger] roots@.contains(x) <==> (is_root(tm, x) && (k < targets@.len() ==> x < targets@[k as int].0)),
            decreases targets.len() - k,
        {
            let off = targets[k].0;
            let mut targeted = false;
            let mut j: usize = 0;
            while j < targets.len()
                invariant
                    j <= targets@.len(),
                    targeted <==> exists|jj: int| 0 <= jj < j && (#[trigger] targets@[jj]).1 == off,
                decreases targets.len() - j,
            {
                if targets[j].1 == off {
                    targeted = true;
                }
                j = j + 1;
            }
            proof {
                super::graph::lemma_key_pos(targets@, k as int);
                if targeted {
                    let jj = choose|jj: int| 0 <= jj < targets@.len() && (#[trigger] targets@[jj]).1 == off;
                    super::graph::lemma_key_pos(targets@, jj);
                    assert(tm.contains_key(targets@[jj].0) && tm[targets@[jj].0] == off);
                } else {
                    assert forall|jk: usize| #[trigger] tm.contains_key(jk) implies tm[jk] != off by {
                        let p = key_pos(targets@, jk);
                        assert(targets@[p].1 != off);
                    }
                }
                assert(is_root(tm, off) == !targeted);
            }
            let ghost before = roots@;
            if !targeted {
                roots.push(off);
                proof {
                    assert(targets@[k as int].0 == off);
                    assert forall|j: int| 0 <= j < roots@.len() implies has_key(targets@, #[trigger] roots@[j]) by {
                        if j < before.len() {
                            assert(roots@[j] == before[j]);
                        }
                    }
                }
            }
            proof {
                assert(forall|j: int| 0 <= j < roots@.len() ==> #[trigger] roots@[j] <= off);
                if k + 1 < targets@.len() {
                    assert(off < targets@[k + 1].0);
                }
                assert forall|x: usize| #[trigger] roots@.contains(x) <==> (is_root(tm, x) && (k + 1 < targets@.len() ==> x
                    < targets@[k + 1].0)) by {
                    if roots@.contains(x) && x != off {
                        let p = choose|p: int| 0 <= p < roots@.len() && roots@[p] == x;
                        assert(before[p] == x);
                        assert(before.contains(x));
                    }
                    if is_root(tm, x) && (k + 1 < targets@.len() ==> x < targets@[k + 1].0) && x != off {
                        let p = key_pos(targets@, x);
                        super::graph::lemma_key_pos(targets@, p);
                        if p > k {
                            assert(targets@[k + 1].0 <= targets@[p].0);
                        }
                        if p == k {
                            assert(false);
                        }
                        assert(p < k);
                        if k < targets@.len() {
                            assert(targets@[p].0 < targets@[k as int].0);
                        }
                        assert(before.contains(x));
                        let q = choose|q: int| 0 <= q < before.len() && before[q] == x;
                        assert(roots@[q] == x);
                    }
                    if x == off && !targeted {
                        assert(roots@[roots@.len() - 1] == off);
                    }
                    if x == off && targeted {
                        assert(!is_root(tm, off));
                        assert(!before.contains(off));
                    }
                }
            }
            k = k + 1;
        }
        proof {
            lemma_increasing_unique(roots@, root_list(tm));
        }
        let mut owners: Vec<(usize, usize)> = Vec::new();
        let mut ambiguous: Vec<usize> = Vec::new();
        let mut q: usize = 0;
        proof {
            assert(keyed(owners@) =~= Map::<usize, usize>::empty());
            assert(ambiguous@.to_set() =~= Set::<usize>::empty());
        }
        while q < roots.len()
            invariant
                n == regions@.len(),
                regions_ok(regions@),
                sorted_keys(targets@),
                tm == keyed(targets@),
                tm.dom().len() == targets@.len(),
                q <= roots@.len(),
                forall|j: int| 0 <= j < roots@.len() ==> has_key(targets@, #[trigger] roots@[j]),
                sorted_keys(owners@),
                increasing(ambiguous@),
                values_below(owners@, n as int),
                (keyed(owners@), ambiguous@.to_set()) == owners_run(tm, regions@, roots@, q as int),
            decreases roots.len() - q,
        {
            let root = roots[q];
            let io = innermost_region(regions, root);
            proof {
                lemma_innermost_unique(regions@, root, io);
            }
            if let Some(root_owner) = io {
                if record_endtry_owner(&mut owners, &mut ambiguous, root, root_owner, Ghost(n)) {
                    follow_endtry_chain(&targets, regions, &mut owners, &mut ambiguous, root, root_owner);
                }
            }
            q = q + 1;
        }
        let ghost fin = owners_run(tm, regions@, roots@, roots@.len() as int);
        let mut a: usize = 0;
        proof {
            assert(ambiguous@.take(0).to_set() =~= Set::<usize>::empty());
            assert(keyed(owners@) =~= fin.0.remove_keys(ambiguous@.take(0).to_set()));
        }
        while a < ambiguous.len()
            invariant
                a <= ambiguous@.len(),
                sorted_keys(owners@),
                values_below(owners@, n as int),
                keyed(owners@) == fin.0.remove_keys(ambiguous@.take(a as int).to_set()),
            decreases ambiguous.len() - a,
        {
            remove_key(&mut owners, ambiguous[a], Ghost(n));
            proof {
                let t0 = ambiguous@.take(a as int);
                let t1 = ambiguous@.take(a + 1);
                let x = ambiguous@[a as int];
                assert(t1 =~= t0.push(x));
                assert forall|b: usize| #[trigger] t1.to_set().contains(b) <==> t0.to_set().insert(x).contains(b) by {
                    assert(t1.to_set().contains(b) == t1.contains(b));
                    assert(t0.to_set().contains(b) == t0.contains(b));
                    if t1.contains(b) {
                        let i = choose|i: int| 0 <= i < t1.len() && t1[i] == b;
                        if i < a {
                            assert(t0[i] == b);
                        }
                    }
                    if t0.contains(b) {
                        let i = choose|i: int| 0 <= i < t0.len() && t0[i] == b;
                        assert(t1[i] == b);
                    }
                    if b == x {
                        assert(t1[a as int] == b);
                    }
                }
                assert(t1.to_set() =~= t0.to_set().insert(x));
                assert(keyed(owners@) =~= fin.0.remove_keys(ambiguous@.take(a + 1).to_set()));
            }
            a = a + 1;
        }
        proof {
            assert(ambiguous@.take(ambiguous@.len() as int) == ambiguous@);
        }
        owners
    }

    /// For a catch-only region whose catch range its own ENDTRYs do not end
    /// at, end the catch range at the most frequent target of those ENDTRYs.
    fn refine_catch_continuations(&self, regions: &mut Vec<TryRegion>, owners: &Vec<(usize, usize)>)
        requires
            self.wf(),
            regions_ok(old(regions)@),
            sorted_keys(owners@),
        ensures
            regions_ok(final(regions)@),
            final(regions)@.len() == old(regions)@.len(),
            ef_same(old(regions)@, final(regions)@),
            forall|c: int|
                0 <= c < old(regions)@.len() ==> #[trigger] final(regions)@[c] == refined_region(
                    old(regions)@[c],
                    self.instrs(),
                    keyed(owners@),
                    c as usize,
                ),
    {
        let ghost r0 = regions@;
        let ghost iv = self.instrs();
        let ghost om = keyed(owners@);
        let n = regions.len();
        let mut ri: usize = 0;
        while ri < n
            invariant
                self.wf(),
                iv == self.instrs(),
                iv.len() == self.instructions@.len(),
                om == keyed(owners@),
                n == regions@.len(),
                n == r0.len(),
                ri <= n,
                regions_ok(regions@),
                ef_same(r0, regions@),
                sorted_keys(owners@),
                forall|j: int| 0 <= j < ri ==> #[trigger] regions@[j] == refined_region(r0[j], iv, om, j as usize),
                forall|j: int| ri <= j < n ==> #[trigger] regions@[j] == r0[j],
            decreases n - ri,
        {
            let ghost before = regions@;
            assert(before[ri as int] == r0[ri as int]);
            if regions[ri].finally_offset.is_none() {
                if let Some((catch_start, provisional_end)) = regions[ri].catch_layout_range {
                    let mut counts: Vec<(usize, usize)> = Vec::new();
                    let mut i: usize = 0;
                    while i < self.instructions.len()
                        invariant
                            self.wf(),
                            iv == self.instrs(),
                            iv.len() == self.instructions@.len(),
                            om == keyed(owners@),
                            i <= self.instructions@.len(),
                            sorted_keys(owners@),
                            sorted_keys(counts@),
                            forall|j: int| 0 <= j < counts@.len() ==> (#[trigger] counts@[j]).1 <= i,
                            keyed(counts@) == owned_counts(iv, om, ri, catch_start, provisional_end, i as int),
                        decreases self.instructions.len() - i,
                    {
                        let instr = &self.instructions[i];
                        proof {
                            assert(iv[i as int] == instr@);
                        }
                        let off = instr.offset as usize;
                        if off >= catch_start && off < provisional_end && is_endtry(instr.opcode) {
                            let owned = match find_key(owners, off) {
                                Some(p) => owners[p].1 == ri,
                                None => false,
                            };
                            proof {
                                if has_key(owners@, off) {
                                    assert(om.contains_key(off));
                                }
                                assert(owned == (om.contains_key(off) && om[off] == ri));
                            }
                            if owned {
                                if let Some(t) = self.jump_target(instr) {
                                    bump_count(&mut counts, t, Ghost(i));
                                }
                            }
                        }
                        i = i + 1;
                    }
                    let ghost m = keyed(counts@);
                    proof {
                        super::graph::lemma_keyed_len(counts@);
                    }
                    if counts.len() > 0 && find_key(&counts, provisional_end).is_none() {
                        let natural = most_frequent(&counts);
                        proof {
                            let b = choose|b: int| first_most(counts@, counts@.len() as int, b) && natural == (#[trigger] counts@[b]).0;
                            lemma_first_most_key(counts@, b);
                            lemma_most_key_unique(m, natural);
                        }
                        let end = if natural > catch_start {
                            natural
                        } else {
                            catch_start
                        };
                        set_catch_range(regions, ri, catch_start, end);
                        proof {
                            assert forall|i: int| 0 <= i < r0.len() implies (#[trigger] r0[i]).endfinally_offset
                                == regions@[i].endfinally_offset by {
                                assert(r0[i].endfinally_offset == before[i].endfinally_offset);
                                assert(before[i].endfinally_offset == regions@[i].endfinally_offset);
                            }
                        }
                    } else {
                        proof {
                            if counts@.len() > 0 {
                                assert(has_key(counts@, provisional_end));
                            }
                        }
                    }
                }
            }
            proof {
                assert(regions@[ri as int] == refined_region(r0[ri as int], iv, om, ri));
                assert forall|j: int| 0 <= j < ri + 1 implies #[trigger] regions@[j] == refined_region(r0[j], iv, om, j as usize) by {
                    if j < ri {
                        assert(regions@[j] == before[j]);
                    }
                }
                assert forall|j: int| ri + 1 <= j < n implies #[trigger] regions@[j] == r0[j] by {
                    assert(regions@[j] == before[j]);
                }
            }
            ri = ri + 1;
        }
    }

    /// Route control through finally handlers: an ENDTRY leaving a region
    /// with a finally handler goes to the handler and records where it
    /// resumes; the handler's ENDFINALLY goes on to the recorded places; an
    /// ENDTRY leaving a catch-only region is marked nonlocal when it does not
    /// resume where the catch handler ends.
    fn apply_finally_routing(&self, blocks: &mut Vec<BasicBlock>, Ghost(orig): Ghost<Seq<BlockView>>)
        requires
            self.wf(),
            fits(self.instrs()),
            routed_from(orig, block_views(old(blocks)@), self.instrs(), self.leaders@),
            forall|k: int| 0 <= k < orig.len() ==> (#[trigger] orig[k]).id == BlockId(k as usize),
            orig.len() == self.leaders@.len(),
            targets_below(block_views(old(blocks)@), self.leaders@.len() as int),
        ensures
            routed_from(orig, block_views(final(blocks)@), self.instrs(), self.leaders@),
            targets_below(block_views(final(blocks)@), self.leaders@.len() as int),
            block_views(final(blocks)@) == routed_blocks(self.instrs(), self.leaders@, block_views(old(blocks)@)),
    {
        let ghost iv = self.instrs();
        let ghost ls = self.leaders@;
        let ghost bs0 = block_views(blocks@);
        let n_leaders = self.leaders.len();
        proof {
            if ls.len() > 0 {
                lemma_block_of_lt(ls);
            }
        }
        let mut regions = self.collect_try_regions();
        let ghost r1 = regions@;
        proof {
            assert forall|i: int| 0 <= i < regions@.len() implies match (#[trigger] regions@[i]).endfinally_offset {
                Some(o) => exists|j: int| 0 <= j < iv.len() && (#[trigger] iv[j]).opcode == OpCode::ENDFINALLY && iv[j].offset as usize == o,
                None => true,
            } by {}
        }
        self.assign_endfinally_offsets(&mut regions);
        let ghost r2 = regions@;
        assign_region_parents(&mut regions);
        proof {
            lemma_ef_sound_same(r2, regions@, iv);
            assert forall|c: int| 0 <= c < r2.len() implies #[trigger] regions@[c] == parented(r2)[c] by {
                lemma_parent_unique(r2, c, regions@[c].parent);
            }
            assert(regions@ =~= parented(r2));
        }
        let owners = self.assign_endtry_owners(&regions);
        let ghost r3 = regions@;
        let ghost om = keyed(owners@);
        self.refine_catch_continuations(&mut regions, &owners);
        proof {
            lemma_ef_sound_same(r3, regions@, iv);
            assert(regions@ =~= refined(r3, iv, om));
        }
        let ghost rs = regions@;
        let n = regions.len();
        let mut exits: Vec<(usize, usize, usize)> = Vec::new();
        let mut self_continuing: Vec<bool> = Vec::new();
        let mut q: usize = 0;
        while q < n
            invariant
                q <= n,
                self_continuing@ == Seq::new(q as nat, |c: int| false),
            decreases n - q,
        {
            self_continuing.push(false);
            proof {
                assert(self_continuing@ =~= Seq::new((q + 1) as nat, |c: int| false));
            }
            q = q + 1;
        }
        let ghost st0: RouteState = (bs0, exits@, self_continuing@);
        proof {
            assert(exits@ =~= Seq::<(usize, usize, usize)>::empty());
        }
        let mut i: usize = 0;
        while i < self.instructions.len()
            invariant
                self.wf(),
                i <= self.instructions@.len(),
                iv.len() == self.instructions@.len(),
                n == regions@.len(),
                rs == regions@,
                om == keyed(owners@),
                self_continuing@.len() == n,
                sorted_keys(owners@),
                values_below(owners@, n as int),
                forall|j: int| 0 <= j < exits@.len() ==> (#[trigger] exits@[j]).0 < n && routing_block(iv, ls, exits@[j].1 as int) && (ls.len()
                    > 0 ==> exits@[j].2 < ls.len()),
                iv == self.instrs(),
                ls == self.leaders@,
                ef_sound(regions@, iv),
                forall|k: int| 0 <= k < orig.len() ==> (#[trigger] orig[k]).id == BlockId(k as usize),
                routed_from(orig, block_views(blocks@), iv, ls),
                orig.len() == ls.len(),
                ls.len() > 0 ==> forall|x: usize| #[trigger] block_of(ls, x) < ls.len(),
                targets_below(block_views(blocks@), ls.len() as int),
                (block_views(blocks@), exits@, self_continuing@) == route_run(iv, ls, rs, om, st0, i as int),
            decreases self.instructions.len() - i,
        {
            let instr = &self.instructions[i];
            let ghost prev: RouteState = (block_views(blocks@), exits@, self_continuing@);
            proof {
                assert(iv[i as int] == instr@);
            }
            if is_endtry(instr.opcode) {
                if let Some(p) = find_key(&owners, instr.offset as usize) {
                    let ri = owners[p].1;
                    proof {
                        super::graph::lemma_key_pos(owners@, p as int);
                        assert(om.contains_key(instr.offset as usize) && om[instr.offset as usize] == ri);
                    }
                    if let Some(target) = self.jump_target(instr) {
                        let off = instr.offset as usize;
                        let endtry_block = self.offset_to_block_id(off, &self.leaders);
                        let continuation = self.offset_to_block_id(target, &self.leaders);
                        proof {
                            assert(iv[i as int] == instr@);
                            assert(routes_through(iv[i as int].opcode));
                            assert(routing_block(iv, ls, endtry_block as int));
                        }
                        match regions[ri].finally_offset {
                            None => {
                                let natural: Option<usize> = match regions[ri].catch_layout_range {
                                    Some((_, end)) => Some(end),
                                    None => None,
                                };
                                let fp = find_block_pos(blocks, endtry_block);
                                proof {
                                    lemma_find_pos(blocks@, orig, iv, ls, endtry_block, fp);
                                }
                                if let Some(bp) = fp {
                                    proof {
                                        assert(block_views(blocks@)[bp as int] == blocks@[bp as int]@);
                                    }
                                    let current: Option<BlockId> = match &blocks[bp].terminator {
                                        Terminator::EndTry { continuation, .. } => Some(*continuation),
                                        _ => None,
                                    };
                                    if let Some(c) = current {
                                        proof {
                                            assert(term_successors(block_views(blocks@)[bp as int].terminator)[0] == c);
                                        }
                                        let nonlocal = match natural {
                                            Some(end) => target != end,
                                            None => false,
                                        };
                                        proof {
                                            assert(names_below(TermView::EndTry { continuation: c, nonlocal }, blocks@.len() as int)) by {
                                                assert(term_successors(TermView::EndTry { continuation: c, nonlocal }) =~= seq![c]);
                                            }
                                        }
                                        set_block_terminator(
                                            blocks,
                                            bp,
                                            Terminator::EndTry { continuation: c, nonlocal },
                                            Ghost(orig),
                                            Ghost(iv),
                                            Ghost(ls),
                                        );
                                    }
                                }
                            },
                            Some(finally_offset) => {
                                let finally_target = self.offset_to_block_id(finally_offset, &self.leaders);
                                let fp = find_block_pos(blocks, endtry_block);
                                proof {
                                    lemma_find_pos(blocks@, orig, iv, ls, endtry_block, fp);
                                }
                                if let Some(bp) = fp {
                                    proof {
                                        assert(ls.len() > 0);
                                        assert(finally_target < ls.len());
                                        let tv = TermView::EndTryFinally {
                                            continuation: BlockId(continuation),
                                            finally_target: BlockId(finally_target),
                                            nonlocal: false,
                                        };
                                        assert(names_below(tv, blocks@.len() as int)) by {
                                            assert(term_successors(tv) =~= seq![BlockId(finally_target)]);
                                        }
                                    }
                                    set_block_terminator(
                                        blocks,
                                        bp,
                                        Terminator::EndTryFinally {
                                            continuation: BlockId(continuation),
                                            finally_target: BlockId(finally_target),
                                            nonlocal: false,
                                        },
                                        Ghost(orig),
                                        Ghost(iv),
                                        Ghost(ls),
                                    );
                                }
                                if target == off {
                                    self_continuing.set(ri, true);
                                } else {
                                    let ghost pre = exits@;
                                    exits.push((ri, endtry_block, continuation));
                                    proof {
                                        assert forall|j: int| 0 <= j < exits@.len() implies (#[trigger] exits@[j]).0 < n
                                            && routing_block(iv, ls, exits@[j].1 as int) && (ls.len() > 0 ==> exits@[j].2 < ls.len()) by {
                                            if j < pre.len() {
                                                assert(exits@[j] == pre[j]);
                                            }
                                        }
                                    }
                                }
                            },
                        }
                    }
                }
            }
            proof {
                assert((block_views(blocks@), exits@, self_continuing@) == route_endtry(iv, ls, rs, om, prev, i as int));
            }
            i = i + 1;
        }
        let ghost sta = (block_views(blocks@), exits@, self_continuing@);
        let mut ri: usize = 0;
        while ri < n
            invariant
                self.wf(),
                ri <= n,
                n == regions@.len(),
                rs == regions@,
                self_continuing@.len() == n,
                exits@ == sta.1,
                self_continuing@ == sta.2,
                forall|j: int| 0 <= j < exits@.len() ==> (#[trigger] exits@[j]).0 < n && routing_block(iv, ls, exits@[j].1 as int) && (ls.len()
                    > 0 ==> exits@[j].2 < ls.len()),
                iv == self.instrs(),
                iv.len() == self.instructions@.len(),
                ls == self.leaders@,
                ef_sound(regions@, iv),
                forall|k: int| 0 <= k < orig.len() ==> (#[trigger] orig[k]).id == BlockId(k as usize),
                routed_from(orig, block_views(blocks@), iv, ls),
                orig.len() == ls.len(),
                ls.len() > 0 ==> forall|x: usize| #[trigger] block_of(ls, x) < ls.len(),
                targets_below(block_views(blocks@), ls.len() as int),
                block_views(blocks@) == close_run(iv, ls, rs, sta.1, sta.2, sta.0, ri as int),
            decreases n - ri,
        {
            let ghost prev = block_views(blocks@);
            if let Some(endfinally_offset) = regions[ri].endfinally_offset {
                let mut conts: Vec<usize> = Vec::new();
                let mut e: usize = 0;
                while e < exits.len()
                    invariant
                        e <= exits@.len(),
                        increasing(conts@),
                        forall|x: usize| #[trigger] conts@.contains(x) <==> exists|e2: int| 0 <= e2 < e && (#[trigger] exits@[e2]).0 == ri
                            && exits@[e2].2 == x,
                    decreases exits.len() - e,
                {
                    if exits[e].0 == ri {
                        insert_increasing(&mut conts, exits[e].2);
                    }
                    proof {
                        assert forall|x: usize| #[trigger] conts@.contains(x) <==> exists|e2: int| 0 <= e2 < e + 1 && (#[trigger] exits@[e2]).0
                            == ri && exits@[e2].2 == x by {
                            if exists|e2: int| 0 <= e2 < e + 1 && (#[trigger] exits@[e2]).0 == ri && exits@[e2].2 == x {
                                let e2 = choose|e2: int| 0 <= e2 < e + 1 && (#[trigger] exits@[e2]).0 == ri && exits@[e2].2 == x;
                                if e2 < e {
                                }
                            }
                        }
                    }
                    e = e + 1;
                }
                proof {
                    lemma_increasing_unique(conts@, conts_of(exits@, ri));
                }
                if !(conts.len() == 0 && self_continuing[ri]) {
                    let natural: Option<usize> = match self.index_of(endfinally_offset) {
                        Some(ix) => if ix < self.instructions.len() && ix + 1 < self.instructions.len() {
                            Some(self.instructions[ix + 1].offset as usize)
                        } else {
                            None
                        },
                        None => None,
                    };
                    proof {
                        if natural is Some {
                            let ix = offset_index(iv)[endfinally_offset];
                            assert(iv[ix + 1] == self.instructions@[ix + 1]@);
                        }
                        assert(natural == finally_natural(iv, endfinally_offset));
                    }
                    let ghost bsb = block_views(blocks@);
                    let mut e: usize = 0;
                    while e < exits.len()
                        invariant
                            e <= exits@.len(),
                            forall|j: int| 0 <= j < exits@.len() ==> (#[trigger] exits@[j]).0 < n && routing_block(iv, ls, exits@[j].1 as int) && (ls.len()
                    > 0 ==> exits@[j].2 < ls.len()),
                            forall|k: int| 0 <= k < orig.len() ==> (#[trigger] orig[k]).id == BlockId(k as usize),
                            routed_from(orig, block_views(blocks@), iv, ls),
                            orig.len() == ls.len(),
                            ls.len() > 0 ==> forall|x: usize| #[trigger] block_of(ls, x) < ls.len(),
                            targets_below(block_views(blocks@), ls.len() as int),
                orig.len() == ls.len(),
                ls.len() > 0 ==> forall|x: usize| #[trigger] block_of(ls, x) < ls.len(),
                targets_below(block_views(blocks@), ls.len() as int),
                            block_views(blocks@) == exits_run(bsb, exits@, ri, natural, e as int),
                        decreases exits.len() - e,
                    {
                        let ghost pe = block_views(blocks@);
                        if exits[e].0 == ri {
                            let fr = find_block_pos(blocks, exits[e].2);
                            proof {
                                lemma_find_pos(blocks@, orig, iv, ls, exits@[e as int].2, fr);
                            }
                            let resume: Option<usize> = match fr {
                                Some(bp) => Some(blocks[bp].start_offset),
                                None => None,
                            };
                            proof {
                                if let Some(bp) = fr {
                                    assert(block_views(blocks@)[bp as int] == blocks@[bp as int]@);
                                }
                            }
                            let nonlocal = match (resume, natural) {
                                (Some(a), Some(b)) => a != b,
                                (None, None) => false,
                                _ => true,
                            };
                            let fp = find_block_pos(blocks, exits[e].1);
                            proof {
                                lemma_find_pos(blocks@, orig, iv, ls, exits@[e as int].1, fp);
                            }
                            if let Some(bp) = fp {
                                proof {
                                    assert(block_views(blocks@)[bp as int] == blocks@[bp as int]@);
                                }
                                let current: Option<(BlockId, BlockId)> = match &blocks[bp].terminator {
                                    Terminator::EndTryFinally { continuation, finally_target, .. } => Some((*continuation, *finally_target)),
                                    _ => None,
                                };
                                if let Some((c, f)) = current {
                                    proof {
                                        assert(term_successors(block_views(blocks@)[bp as int].terminator)[0] == f);
                                        let tv = TermView::EndTryFinally { continuation: c, finally_target: f, nonlocal };
                                        assert(names_below(tv, blocks@.len() as int)) by {
                                            assert(term_successors(tv) =~= seq![f]);
                                        }
                                    }
                                    set_block_terminator(
                                        blocks,
                                        bp,
                                        Terminator::EndTryFinally { continuation: c, finally_target: f, nonlocal },
                                        Ghost(orig),
                                        Ghost(iv),
                                        Ghost(ls),
                                    );
                                }
                            }
                        }
                        proof {
                            assert(block_views(blocks@) == exits_run(bsb, exits@, ri, natural, e + 1));
                        }
                        e = e + 1;
                    }
                    let endfinally_block = self.offset_to_block_id(endfinally_offset, &self.leaders);
                    proof {
                        assert(regions@[ri as int].endfinally_offset == Some(endfinally_offset));
                        let j = choose|j: int| 0 <= j < iv.len() && (#[trigger] iv[j]).opcode == OpCode::ENDFINALLY && iv[j].offset as usize
                            == endfinally_offset;
                        assert(routes_through(iv[j].opcode));
                        assert(routing_block(iv, ls, endfinally_block as int));
                    }
                    let fp = find_block_pos(blocks, endfinally_block);
                    proof {
                        lemma_find_pos(blocks@, orig, iv, ls, endfinally_block, fp);
                    }
                    if let Some(bp) = fp {
                        let ids = push_block_ids(&conts);
                        proof {
                            assert(ids@ =~= conts@.map_values(|x: usize| BlockId(x)));
                            assert(ls.len() > 0);
                            let tv = TermView::EndFinally { normal_continuations: ids@ };
                            assert forall|j: int| 0 <= j < term_successors(tv).len() implies (#[trigger] term_successors(tv)[j]).0
                                < blocks@.len() by {
                                assert(term_successors(tv)[j] == ids@[j]);
                                assert(conts@.contains(conts@[j]));
                                let e2 = choose|e2: int| 0 <= e2 < exits@.len() && (#[trigger] exits@[e2]).0 == ri && exits@[e2].2 == conts@[j];
                                assert(exits@[e2].2 < ls.len());
                            }
                            assert(names_below(tv, blocks@.len() as int));
                        }
                        set_block_terminator(
                            blocks,
                            bp,
                            Terminator::EndFinally { normal_continuations: ids },
                            Ghost(orig),
                            Ghost(iv),
                            Ghost(ls),
                        );
                    }
                }
            }
            proof {
                assert(block_views(blocks@) == close_finally(iv, ls, rs, sta.1, sta.2, prev, ri as int));
            }
            ri = ri + 1;
        }
    }
}

/// The call at `i`, recorded as not returning, ends its path: the block
/// holding it ends right after it, in `NoReturnCall`, with no successors.
pub open spec fn ends_path(iv: Seq<InstructionView>, nr: Set<usize>, g: CfgView, i: int) -> bool {
    let k = block_of(leaders_of(iv, nr), iv[i].offset as usize);
    &&& g.blocks.contains_key(k)
    &&& g.blocks[k].range_end == i + 1
    &&& g.blocks[k].terminator == TermView::NoReturnCall
    &&& succs_of(g.edges, BlockId(k)).len() == 0
}

/// Instruction offsets strictly increase and every instruction has a size.
pub open spec fn well_laid(iv: Seq<InstructionView>) -> bool {
    &&& forall|a: int, b: int| 0 <= a < b < iv.len() ==> (#[trigger] iv[a]).offset < (#[trigger] iv[b]).offset
    &&& forall|i: int| 0 <= i < iv.len() ==> (#[trigger] iv[i]).size > 0
}

/// In well-laid code each instruction's offset indexes that instruction,
/// and only instruction offsets are indexed.
proof fn lemma_offset_index(iv: Seq<InstructionView>)
    requires
        well_laid(iv),
        iv.len() <= usize::MAX,
    ensures
        forall|j: int| 0 <= j < iv.len() ==> offset_index(iv).contains_key(#[trigger] iv[j].offset as usize)
            && offset_index(iv)[iv[j].offset as usize] == j,
        forall|x: usize| #[trigger] offset_index(iv).contains_key(x) ==> exists|j: int| 0 <= j < iv.len() && iv[j].offset as usize == x,
    decreases iv.len(),
{
    if iv.len() > 0 {
        let d = iv.drop_last();
        assert(well_laid(d)) by {
            assert forall|a: int, b: int| 0 <= a < b < d.len() implies (#[trigger] d[a]).offset < (#[trigger] d[b]).offset by {
                assert(iv[a].offset < iv[b].offset);
            }
        }
        lemma_offset_index(d);
        assert forall|j: int| 0 <= j < iv.len() implies offset_index(iv).contains_key(#[trigger] iv[j].offset as usize)
            && offset_index(iv)[iv[j].offset as usize] == j by {
            if j < iv.len() - 1 {
                assert(d[j] == iv[j]);
                assert(offset_index(d).contains_key(d[j].offset as usize));
                assert(iv[j].offset < iv[iv.len() - 1].offset);
            }
        }
        assert forall|x: usize| #[trigger] offset_index(iv).contains_key(x) implies exists|j: int| 0 <= j < iv.len() && iv[j].offset as usize == x by {
            if x != iv.last().offset as usize {
                assert(offset_index(d).contains_key(x));
                let j = choose|j: int| 0 <= j < d.len() && d[j].offset as usize == x;
                assert(iv[j] == d[j]);
            } else {
                assert(iv[iv.len() - 1].offset as usize == x);
            }
        }
    }
}

/// Every leader is the offset of an instruction.
proof fn lemma_leader_is_offset(iv: Seq<InstructionView>, nr: Set<usize>, x: usize)
    requires
        well_laid(iv),
        iv.len() <= usize::MAX,
        is_leader(iv, nr, x),
    ensures
        exists|j: int| 0 <= j < iv.len() && iv[j].offset as usize == x,
{
    lemma_offset_index(iv);
    if !(iv.len() > 0 && x == iv[0].offset as usize) {
        let i = choose|i: int| 0 <= i < iv.len() && #[trigger] leader_contrib(iv, nr, i, x);
        if next_of(iv, i) == Some(x) {
            assert(iv[i + 1].offset as usize == x);
        } else {
            assert(offset_index(iv).contains_key(x));
        }
    }
}

/// The block of an offset at or above the first leader lies between its
/// leader and the next one.
proof fn lemma_block_of_range(ls: Seq<usize>, off: usize)
    requires
        increasing(ls),
        ls.len() <= usize::MAX,
        ls.len() > 0,
        ls[0] <= off,
    ensures
        block_of(ls, off) < ls.len(),
        ls[block_of(ls, off) as int] <= off,
        block_of(ls, off) + 1 < ls.len() ==> off < ls[block_of(ls, off) + 1],
    decreases ls.len(),
{
    if ls.last() > off {
        let d = ls.drop_last();
        assert(d.len() > 0) by {
            if ls.len() == 1 {
                assert(ls[0] == ls.last());
            }
        }
        assert(increasing(d));
        lemma_block_of_range(d, off);
        let b = block_of(d, off);
        assert(ls[b as int] == d[b as int]);
        if b + 1 < ls.len() {
            if b + 1 < d.len() {
                assert(ls[b + 1] == d[b + 1]);
            } else {
                assert(ls[b + 1] == ls.last());
            }
        }
    }
}

/// A leader above leader `k` is at or above the next leader.
proof fn lemma_next_leader(ls: Seq<usize>, k: int, x: usize)
    requires
        increasing(ls),
        0 <= k < ls.len(),
        ls.contains(x),
        ls[k] < x,
    ensures
        k + 1 < ls.len(),
        ls[k + 1] <= x,
{
    let p = choose|p: int| 0 <= p < ls.len() && ls[p] == x;
    if p <= k {
        if p < k {
            assert(ls[p] < ls[k]);
        }
    }
    if p > k + 1 {
        assert(ls[k + 1] < ls[p]);
    }
}

/// In well-laid code a call recorded as not returning is the last
/// instruction of its block, which ends in `NoReturnCall`, and finally
/// routing does not touch that block.
proof fn lemma_no_return_block(iv: Seq<InstructionView>, nr: Set<usize>, ls: Seq<usize>, i: int)
    requires
        well_laid(iv),
        fits(iv),
        iv.len() <= usize::MAX,
        ls.len() <= usize::MAX,
        increasing(ls),
        forall|x: usize| ls.contains(x) <==> is_leader(iv, nr, x),
        0 <= i < iv.len(),
        is_call(iv[i].opcode),
        nr.contains(iv[i].offset as usize),
    ensures
        block_of(ls, iv[i].offset as usize) < ls.len(),
        block_spec(iv, nr, ls, block_of(ls, iv[i].offset as usize) as int).range_end == i + 1,
        block_spec(iv, nr, ls, block_of(ls, iv[i].offset as usize) as int).terminator == TermView::NoReturnCall,
{
    let off = iv[i].offset as usize;
    lemma_offset_index(iv);
    assert(is_leader(iv, nr, iv[0].offset as usize));
    assert(ls.contains(iv[0].offset as usize));
    let p0 = choose|p: int| 0 <= p < ls.len() && ls[p] == iv[0].offset as usize;
    assert(ls[0] <= iv[0].offset as usize) by {
        if p0 > 0 {
            assert(ls[0] < ls[p0]);
        }
    }
    assert forall|m: int| 0 <= m < iv.len() implies ls[0] <= #[trigger] iv[m].offset as usize by {
        if m > 0 {
            assert(iv[0].offset < iv[m].offset);
        }
    }
    lemma_block_of_range(ls, off);
    let k = block_of(ls, off) as int;
    if i + 1 < iv.len() {
        assert(leader_contrib(iv, nr, i, iv[i + 1].offset as usize));
        assert(ls.contains(iv[i + 1].offset as usize));
        assert(iv[i].offset < iv[i + 1].offset);
        lemma_next_leader(ls, k, iv[i + 1].offset as usize);
        let x = ls[k + 1];
        assert(ls.contains(x));
        lemma_leader_is_offset(iv, nr, x);
        let j = choose|j: int| 0 <= j < iv.len() && iv[j].offset as usize == x;
        if j <= i {
            if j < i {
                assert(iv[j].offset < iv[i].offset);
            }
        }
        if j > i + 1 {
            assert(iv[i + 1].offset < iv[j].offset);
        }
        assert(j == i + 1);
        assert(offset_index(iv).contains_key(iv[j].offset as usize));
        assert(offset_index(iv)[x] == i + 1);
    } else {
        if k + 1 < ls.len() {
            let x = ls[k + 1];
            assert(ls.contains(x));
            lemma_leader_is_offset(iv, nr, x);
            let j = choose|j: int| 0 <= j < iv.len() && iv[j].offset as usize == x;
            if j < i {
                assert(iv[j].offset < iv[i].offset);
            }
        }
        assert(k + 1 == ls.len());
        let ce = code_end(iv);
        assert(iv[i].size > 0);
        assert(iv[i] == iv.last());
        assert(ce == (iv[i].offset + iv[i].size) as usize);
        if offset_index(iv).contains_key(ce) {
            let j = choose|j: int| 0 <= j < iv.len() && iv[j].offset as usize == ce;
            if j < i {
                assert(iv[j].offset < iv[i].offset);
            }
            assert(false);
        }
    }
    let bs = block_spec(iv, nr, ls, k);
    assert(bs.range_end == i + 1);
    assert(iv[i].opcode == OpCode::CALL || iv[i].opcode == OpCode::CALL_L);
    assert(bs.terminator == TermView::NoReturnCall);
}

/// Finally routing does not touch the block that a call recorded as not
/// returning ends.
#[verifier::spinoff_prover]
#[verifier::rlimit(50)]
proof fn lemma_no_return_unrouted(iv: Seq<InstructionView>, nr: Set<usize>, ls: Seq<usize>, i: int)
    requires
        well_laid(iv),
        fits(iv),
        iv.len() <= usize::MAX,
        ls.len() <= usize::MAX,
        increasing(ls),
        forall|x: usize| ls.contains(x) <==> is_leader(iv, nr, x),
        0 <= i < iv.len(),
        is_call(iv[i].opcode),
        nr.contains(iv[i].offset as usize),
    ensures
        !routing_block(iv, ls, block_of(ls, iv[i].offset as usize) as int),
{
    let off = iv[i].offset as usize;
    assert(is_leader(iv, nr, iv[0].offset as usize));
    assert(ls.contains(iv[0].offset as usize));
    let p0 = choose|p: int| 0 <= p < ls.len() && ls[p] == iv[0].offset as usize;
    assert(ls[0] <= iv[0].offset as usize) by {
        if p0 > 0 {
            assert(ls[0] < ls[p0]);
        }
    }
    assert forall|m: int| 0 <= m < iv.len() implies ls[0] <= #[trigger] iv[m].offset as usize by {
        if m > 0 {
            assert(iv[0].offset < iv[m].offset);
        }
    }
    lemma_block_of_range(ls, off);
    let k = block_of(ls, off) as int;
    if i + 1 < iv.len() {
        assert(leader_contrib(iv, nr, i, iv[i + 1].offset as usize));
        assert(ls.contains(iv[i + 1].offset as usize));
        assert(iv[i].offset < iv[i + 1].offset);
        lemma_next_leader(ls, k, iv[i + 1].offset as usize);
    }
    if routing_block(iv, ls, k) {
        let m = choose|m: int| 0 <= m < iv.len() && routes_through(#[trigger] iv[m].opcode) && block_of(ls, iv[m].offset as usize) == k;
        lemma_block_of_range(ls, iv[m].offset as usize);
        assert(m != i);
        if m > i {
            if i + 1 < iv.len() {
                if m > i + 1 {
                    assert(iv[i + 1].offset < iv[m].offset);
                }
            }
        } else {
            assert(iv[m].offset < iv[m + 1].offset);
            assert(leader_contrib(iv, nr, m, iv[m + 1].offset as usize));
            assert(ls.contains(iv[m + 1].offset as usize));
            lemma_next_leader(ls, k, iv[m + 1].offset as usize);
            if m + 1 < i {
                assert(iv[m + 1].offset < iv[i].offset);
            }
        }
    }
}

/// The blocks of well-laid code, numbered from zero in offset order, split
/// the instructions: block 0 starts at the first instruction, each block
/// holds at least one instruction and starts at its first one, each ends
/// where the next starts, and the last ends with the code.
pub open spec fn partitions(iv: Seq<InstructionView>, g: CfgView, n: nat) -> bool {
    &&& n > 0
    &&& g.blocks[0].start_offset == iv[0].offset as usize
    &&& g.blocks[0].range_start == 0
    &&& g.blocks[(n - 1) as usize].range_end == iv.len()
    &&& forall|k: int|
        0 <= k < n ==> (#[trigger] g.blocks[k as usize]).id == BlockId(k as usize) && g.blocks[k as usize].range_start
            < g.blocks[k as usize].range_end && g.blocks[k as usize].range_end <= iv.len() && g.blocks[k as usize].start_offset
            == iv[g.blocks[k as usize].range_start as int].offset as usize
    &&& forall|k: int| 0 <= k < n - 1 ==> #[trigger] blocks_meet(g, k)
}

/// Block `k` ends where block `k + 1` starts, and starts before it.
pub open spec fn blocks_meet(g: CfgView, k: int) -> bool {
    g.blocks[k as usize].range_end == g.blocks[(k + 1) as usize].range_start && g.blocks[k as usize].start_offset
        < g.blocks[(k + 1) as usize].start_offset
}

/// The blocks that leaders `k` and `k + 1` give meet.
spec fn specs_meet(iv: Seq<InstructionView>, nr: Set<usize>, ls: Seq<usize>, k: int) -> bool {
    block_spec(iv, nr, ls, k).range_end == block_spec(iv, nr, ls, k + 1).range_start && block_spec(iv, nr, ls, k).start_offset
        < block_spec(iv, nr, ls, k + 1).start_offset
}

/// The instruction at leader `k`, in well-laid code.
proof fn lemma_leader_index(iv: Seq<InstructionView>, nr: Set<usize>, ls: Seq<usize>, k: int)
    requires
        well_laid(iv),
        iv.len() <= usize::MAX,
        increasing(ls),
        forall|x: usize| ls.contains(x) <==> is_leader(iv, nr, x),
        0 <= k < ls.len(),
    ensures
        0 <= index_or(iv, ls[k], 0) < iv.len(),
        iv[index_or(iv, ls[k], 0) as int].offset as usize == ls[k],
        index_or(iv, ls[k], iv.len() as usize) == index_or(iv, ls[k], 0),
{
    lemma_offset_index(iv);
    assert(ls.contains(ls[k]));
    lemma_leader_is_offset(iv, nr, ls[k]);
    let j = choose|j: int| 0 <= j < iv.len() && iv[j].offset as usize == ls[k];
    assert(offset_index(iv).contains_key(iv[j].offset as usize));
}

/// The blocks that leaders give split well-laid code.
proof fn lemma_blocks_partition(iv: Seq<InstructionView>, nr: Set<usize>, ls: Seq<usize>)
    requires
        well_laid(iv),
        fits(iv),
        iv.len() > 0,
        iv.len() <= usize::MAX,
        ls.len() <= usize::MAX,
        increasing(ls),
        forall|x: usize| ls.contains(x) <==> is_leader(iv, nr, x),
    ensures
        ls.len() > 0,
        block_spec(iv, nr, ls, 0).start_offset == iv[0].offset as usize,
        block_spec(iv, nr, ls, 0).range_start == 0,
        block_spec(iv, nr, ls, ls.len() - 1).range_end == iv.len(),
        forall|k: int|
            0 <= k < ls.len() ==> (#[trigger] block_spec(iv, nr, ls, k)).range_start < block_spec(iv, nr, ls, k).range_end
                && block_spec(iv, nr, ls, k).range_end <= iv.len() && block_spec(iv, nr, ls, k).start_offset
                == iv[block_spec(iv, nr, ls, k).range_start as int].offset as usize,
        forall|k: int| 0 <= k < ls.len() - 1 ==> #[trigger] specs_meet(iv, nr, ls, k),
{
    lemma_offset_index(iv);
    assert(is_leader(iv, nr, iv[0].offset as usize));
    assert(ls.contains(iv[0].offset as usize));
    lemma_leader_index(iv, nr, ls, 0);
    let p0 = choose|p: int| 0 <= p < ls.len() && ls[p] == iv[0].offset as usize;
    let j0 = index_or(iv, ls[0], 0) as int;
    if p0 > 0 {
        assert(ls[0] < ls[p0]);
    }
    if j0 > 0 {
        assert(iv[0].offset < iv[j0].offset);
    }
    assert(j0 == 0);
    let ce = code_end(iv);
    assert(iv[iv.len() - 1].size > 0);
    assert(!offset_index(iv).contains_key(ce)) by {
        if offset_index(iv).contains_key(ce) {
            let j = choose|j: int| 0 <= j < iv.len() && iv[j].offset as usize == ce;
            if j < iv.len() - 1 {
                assert(iv[j].offset < iv[iv.len() - 1].offset);
            }
        }
    }
    assert forall|k: int| 0 <= k < ls.len() implies (#[trigger] block_spec(iv, nr, ls, k)).range_start < block_spec(iv, nr, ls, k).range_end
        && block_spec(iv, nr, ls, k).range_end <= iv.len() && block_spec(iv, nr, ls, k).start_offset
        == iv[block_spec(iv, nr, ls, k).range_start as int].offset as usize by {
        lemma_leader_index(iv, nr, ls, k);
        if k + 1 < ls.len() {
            lemma_leader_index(iv, nr, ls, k + 1);
            let a = index_or(iv, ls[k], 0) as int;
            let b = index_or(iv, ls[k + 1], 0) as int;
            assert(ls[k] < ls[k + 1]);
            if b <= a {
                if b < a {
                    assert(iv[b].offset < iv[a].offset);
                }
            }
        }
    }
    assert forall|k: int| 0 <= k < ls.len() - 1 implies #[trigger] specs_meet(iv, nr, ls, k) by {
        lemma_leader_index(iv, nr, ls, k + 1);
        assert(ls[k] < ls[k + 1]);
    }
}

/// The facts `build` establishes about its leaders and graph.
pub open spec fn built_from(iv: Seq<InstructionView>, nr: Set<usize>, ls: Seq<usize>, g: CfgView) -> bool {
    &&& built(iv, nr, g)
    &&& ls == leaders_of(iv, nr)
    &&& increasing(ls)
    &&& forall|x: usize| ls.contains(x) <==> is_leader(iv, nr, x)
    &&& fits(iv)
    &&& iv.len() <= usize::MAX
    &&& ls.len() <= usize::MAX
}

proof fn lemma_built_partition(iv: Seq<InstructionView>, nr: Set<usize>, ls: Seq<usize>, g: CfgView)
    requires
        built_from(iv, nr, ls, g),
        well_laid(iv),
        iv.len() > 0,
    ensures
        partitions(iv, g, ls.len()),
{
    let bs = blocks_spec(iv, nr);
    let gs = graph_blocks(g, ls.len());
    lemma_blocks_partition(iv, nr, ls);
    assert forall|k: int| 0 <= k < ls.len() implies #[trigger] g.blocks[k as usize] == gs[k] && same_shape(bs[k], gs[k]) by {}
    let n = ls.len();
    assert(same_shape(bs[0], gs[0]));
    assert(same_shape(bs[n - 1], gs[n - 1]));
    assert forall|k: int| 0 <= k < n - 1 implies #[trigger] blocks_meet(g, k) by {
        assert(specs_meet(iv, nr, ls, k));
        assert(same_shape(bs[k], gs[k]));
        assert(same_shape(bs[k + 1], gs[k + 1]));
        assert(g.blocks[(k + 1) as usize] == gs[k + 1]);
    }
}

proof fn lemma_built_ends_paths(iv: Seq<InstructionView>, nr: Set<usize>, ls: Seq<usize>, g: CfgView)
    requires
        built_from(iv, nr, ls, g),
        well_laid(iv),
    ensures
        forall|i: int| 0 <= i < iv.len() && is_call(iv[i].opcode) && nr.contains(iv[i].offset as usize) ==> #[trigger] ends_path(iv, nr, g, i),
{
    let bs = blocks_spec(iv, nr);
    let gs = graph_blocks(g, ls.len());
    assert forall|i: int| 0 <= i < iv.len() && is_call(iv[i].opcode) && nr.contains(iv[i].offset as usize) implies #[trigger] ends_path(
        iv,
        nr,
        g,
        i,
    ) by {
        lemma_no_return_block(iv, nr, ls, i);
        lemma_no_return_unrouted(iv, nr, ls, i);
        let k = block_of(ls, iv[i].offset as usize);
        assert(same_shape(bs[k as int], gs[k as int]));
        assert(gs[k as int] == g.blocks[k]);
        lemma_built_successors(iv, nr, g, k);
    }
}

/// The edges a terminator adds all leave the given block.
proof fn lemma_term_edges_from(from: BlockId, t: TermView)
    ensures
        forall|i: int| 0 <= i < term_edges(from, t).len() ==> (#[trigger] term_edges(from, t)[i]).from == from,
{
    match t {
        TermView::TryEntry { body_target, catch_target, finally_target } => {
            let c = match catch_target {
                Some(b) => seq![Edge { from, to: b, kind: EdgeKind::Exception }],
                None => Seq::empty(),
            };
            let f = match finally_target {
                Some(b) => seq![Edge { from, to: b, kind: EdgeKind::Finally }],
                None => Seq::empty(),
            };
            let es = seq![Edge { from, to: body_target, kind: EdgeKind::Unconditional }] + c + f;
            assert forall|i: int| 0 <= i < es.len() implies (#[trigger] es[i]).from == from by {
                if i >= 1 + c.len() {
                    assert(es[i] == f[i - 1 - c.len()]);
                } else if i >= 1 {
                    assert(es[i] == c[i - 1]);
                }
            }
        },
        _ => {},
    }
}

/// In the edges of blocks numbered by position, every edge leaves a block.
proof fn lemma_edges_of_from(bs: Seq<BlockView>)
    requires
        forall|k: int| 0 <= k < bs.len() ==> (#[trigger] bs[k]).id == BlockId(k as usize),
        bs.len() <= usize::MAX,
    ensures
        forall|i: int| 0 <= i < edges_of(bs).len() ==> (#[trigger] edges_of(bs)[i]).from.0 < bs.len(),
    decreases bs.len(),
{
    if bs.len() > 0 {
        let d = bs.drop_last();
        lemma_edges_of_from(d);
        let last = bs.last();
        lemma_term_edges_from(last.id, last.terminator);
        let a = edges_of(d);
        let t = term_edges(last.id, last.terminator);
        assert forall|i: int| 0 <= i < edges_of(bs).len() implies (#[trigger] edges_of(bs)[i]).from.0 < bs.len() by {
            if i < a.len() {
                assert(edges_of(bs)[i] == a[i]);
            } else {
                assert(edges_of(bs)[i] == t[i - a.len()]);
                assert(last.id == BlockId((bs.len() - 1) as usize));
            }
        }
    }
}

/// In the edges of blocks numbered by position, whose terminators name only
/// those blocks, every edge joins two of them.
proof fn lemma_edges_join(bs: Seq<BlockView>, n: int)
    requires
        forall|k: int| 0 <= k < bs.len() ==> (#[trigger] bs[k]).id == BlockId(k as usize),
        bs.len() == n,
        n <= usize::MAX,
        targets_below(bs, n),
    ensures
        forall|i: int| 0 <= i < edges_of(bs).len() ==> (#[trigger] edges_of(bs)[i]).from.0 < n && edges_of(bs)[i].to.0 < n,
{
    lemma_edges_of_from(bs);
    let es = edges_of(bs);
    assert forall|i: int| 0 <= i < es.len() implies (#[trigger] es[i]).from.0 < n && es[i].to.0 < n by {
        let u = es[i].from;
        super::graph::lemma_succs_of(es, u);
        assert(succs_of(es, u).contains(es[i].to));
        lemma_edges_of_successors(bs, u.0 as int);
        let j = choose|j: int| 0 <= j < succs_of(es, u).len() && succs_of(es, u)[j] == es[i].to;
        assert(term_successors(bs[u.0 as int].terminator)[j] == es[i].to);
    }
}

/// Successors over a concatenation of edge lists.
pub proof fn lemma_succs_of_append(a: Seq<Edge>, b: Seq<Edge>, id: BlockId)
    ensures
        succs_of(a + b, id) == succs_of(a, id) + succs_of(b, id),
    decreases b.len(),
{
    if b.len() == 0 {
        assert(a + b =~= a);
        assert(succs_of(a, id) + succs_of(b, id) =~= succs_of(a, id));
    } else {
        assert((a + b).drop_last() =~= a + b.drop_last());
        lemma_succs_of_append(a, b.drop_last(), id);
        if b.last().from == id {
            assert(succs_of(a, id) + succs_of(b, id) =~= (succs_of(a, id) + succs_of(b.drop_last(), id)).push(b.last().to));
        }
    }
}

proof fn lemma_succs_of_map(cs: Seq<BlockId>, from: BlockId, id: BlockId)
    ensures
        succs_of(cs.map_values(|c: BlockId| Edge { from, to: c, kind: EdgeKind::Unconditional }), id) == if from == id {
            cs
        } else {
            Seq::<BlockId>::empty()
        },
    decreases cs.len(),
{
    let es = cs.map_values(|c: BlockId| Edge { from, to: c, kind: EdgeKind::Unconditional });
    if cs.len() > 0 {
        assert(es.drop_last() =~= cs.drop_last().map_values(|c: BlockId| Edge { from, to: c, kind: EdgeKind::Unconditional }));
        lemma_succs_of_map(cs.drop_last(), from, id);
        if from == id {
            assert(cs.drop_last().push(cs.last()) =~= cs);
        }
    } else {
        assert(cs =~= Seq::<BlockId>::empty());
    }
}

proof fn lemma_succs_of_one(e: Edge, id: BlockId)
    ensures
        succs_of(seq![e], id) == if e.from == id { seq![e.to] } else { Seq::<BlockId>::empty() },
{
    let s1 = seq![e];
    assert(s1.drop_last() =~= Seq::<Edge>::empty());
    assert(s1.last() == e);
    assert(succs_of(Seq::<Edge>::empty(), id) =~= Seq::<BlockId>::empty());
    assert(succs_of(s1.drop_last(), id) =~= Seq::<BlockId>::empty());
    assert(Seq::<BlockId>::empty().push(e.to) =~= seq![e.to]);
    if e.from == id {
        assert(succs_of(s1, id) == succs_of(s1.drop_last(), id).push(e.to));
    } else {
        assert(succs_of(s1, id) == succs_of(s1.drop_last(), id));
    }
}

proof fn lemma_succs_of_opt(o: Option<Edge>, id: BlockId)
    ensures
        succs_of(
            match o {
                Some(e) => seq![e],
                None => Seq::<Edge>::empty(),
            },
            id,
        ) == match o {
            Some(e) => if e.from == id { seq![e.to] } else { Seq::<BlockId>::empty() },
            None => Seq::<BlockId>::empty(),
        },
{
    if let Some(e) = o {
        lemma_succs_of_one(e, id);
    }
}

/// The successors that a terminator's edges give its own block are its
/// targets; they give other blocks none.
pub proof fn lemma_term_edges_successors(from: BlockId, t: TermView, id: BlockId)
    ensures
        succs_of(term_edges(from, t), id) == if from == id {
            super::block::term_successors(t)
        } else {
            Seq::<BlockId>::empty()
        },
{
    let es = term_edges(from, t);
    match t {
        TermView::Branch { then_target, else_target } => {
            let a = Edge { from, to: then_target, kind: EdgeKind::ConditionalTrue };
            let b = Edge { from, to: else_target, kind: EdgeKind::ConditionalFalse };
            assert(es =~= seq![a] + seq![b]);
            lemma_succs_of_append(seq![a], seq![b], id);
            lemma_succs_of_one(a, id);
            lemma_succs_of_one(b, id);
            assert(succs_of(es, id) =~= if from == id { super::block::term_successors(t) } else { Seq::<BlockId>::empty() });
        },
        TermView::TryEntry { body_target, catch_target, finally_target } => {
            let e0 = Edge { from, to: body_target, kind: EdgeKind::Unconditional };
            let oc = match catch_target {
                Some(x) => Some(Edge { from, to: x, kind: EdgeKind::Exception }),
                None => None,
            };
            let of = match finally_target {
                Some(x) => Some(Edge { from, to: x, kind: EdgeKind::Finally }),
                None => None,
            };
            let c = match oc {
                Some(e) => seq![e],
                None => Seq::<Edge>::empty(),
            };
            let f = match of {
                Some(e) => seq![e],
                None => Seq::<Edge>::empty(),
            };
            assert(es =~= seq![e0] + c + f);
            lemma_succs_of_append(seq![e0] + c, f, id);
            lemma_succs_of_append(seq![e0], c, id);
            lemma_succs_of_one(e0, id);
            lemma_succs_of_opt(oc, id);
            lemma_succs_of_opt(of, id);
            assert(succs_of(es, id) =~= if from == id { super::block::term_successors(t) } else { Seq::<BlockId>::empty() });
        },
        TermView::EndFinally { normal_continuations } => {
            lemma_succs_of_map(normal_continuations, from, id);
        },
        TermView::Fallthrough { target } => {
            lemma_succs_of_one(Edge { from, to: target, kind: EdgeKind::Unconditional }, id);
        },
        TermView::Jump { target } => {
            lemma_succs_of_one(Edge { from, to: target, kind: EdgeKind::Unconditional }, id);
        },
        TermView::EndTry { continuation, .. } => {
            lemma_succs_of_one(Edge { from, to: continuation, kind: EdgeKind::Unconditional }, id);
        },
        TermView::EndTryFinally { finally_target, .. } => {
            lemma_succs_of_one(Edge { from, to: finally_target, kind: EdgeKind::Finally }, id);
        },
        _ => {},
    }
}

proof fn lemma_edges_of_successors(bs: Seq<BlockView>, k: int)
    requires
        0 <= k < bs.len(),
        forall|j: int| 0 <= j < bs.len() ==> (#[trigger] bs[j]).id == BlockId(j as usize),
        bs.len() <= usize::MAX,
    ensures
        succs_of(edges_of(bs), BlockId(k as usize)) == super::block::term_successors(bs[k].terminator),
    decreases bs.len(),
{
    let d = bs.drop_last();
    let last = bs.last();
    lemma_succs_of_append(edges_of(d), term_edges(last.id, last.terminator), BlockId(k as usize));
    lemma_term_edges_successors(last.id, last.terminator, BlockId(k as usize));
    if k == bs.len() - 1 {
        lemma_edges_of_no_successors(d, k);
        assert(Seq::<BlockId>::empty() + super::block::term_successors(last.terminator) =~= super::block::term_successors(last.terminator));
    } else {
        assert(last.id != BlockId(k as usize));
        lemma_edges_of_successors(d, k);
        assert(d[k] == bs[k]);
        assert(succs_of(edges_of(d), BlockId(k as usize)) + Seq::<BlockId>::empty() =~= succs_of(edges_of(d), BlockId(k as usize)));
    }
}

proof fn lemma_edges_of_no_successors(bs: Seq<BlockView>, k: int)
    requires
        forall|j: int| 0 <= j < bs.len() ==> (#[trigger] bs[j]).id == BlockId(j as usize),
        bs.len() <= k <= usize::MAX,
    ensures
        succs_of(edges_of(bs), BlockId(k as usize)) == Seq::<BlockId>::empty(),
    decreases bs.len(),
{
    if bs.len() > 0 {
        let d = bs.drop_last();
        let last = bs.last();
        lemma_succs_of_append(edges_of(d), term_edges(last.id, last.terminator), BlockId(k as usize));
        lemma_term_edges_successors(last.id, last.terminator, BlockId(k as usize));
        assert(last.id != BlockId(k as usize));
        lemma_edges_of_no_successors(d, k);
        assert(Seq::<BlockId>::empty() + Seq::<BlockId>::empty() =~= Seq::<BlockId>::empty());
    } else {
        assert(edges_of(bs) =~= Seq::<Edge>::empty());
    }
}

/// In a graph built from instructions, the successors of each block are the
/// targets of its terminator, in order.
pub proof fn lemma_built_successors(iv: Seq<InstructionView>, nr: Set<usize>, g: CfgView, k: usize)
    requires
        built(iv, nr, g),
        g.blocks.contains_key(k),
        leaders_of(iv, nr).len() <= usize::MAX,
    ensures
        succs_of(g.edges, BlockId(k)) == super::block::term_successors(g.blocks[k].terminator),
{
    let ls = leaders_of(iv, nr);
    let bs = blocks_spec(iv, nr);
    let gs = graph_blocks(g, ls.len());
    assert forall|j: int| 0 <= j < gs.len() implies (#[trigger] gs[j]).id == BlockId(j as usize) by {
        assert(same_shape(bs[j], gs[j]));
    }
    assert(g.blocks.dom().contains(k));
    lemma_edges_of_successors(gs, k as int);
}

} // verus!
