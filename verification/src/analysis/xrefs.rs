//! Cross-references of local, argument and static slots: for each slot, the
//! offsets at which a method reads it and writes it.
use crate::analysis::value_types::{
    first_slot_counts, scan_slot_counts, slot_operation, slot_operation_of, MethodRef, SlotKind,
};
use crate::common::types::{Instruction, InstructionView};
use crate::engine::lifter::instrs_view;
use vstd::prelude::*;

verus! {

/// The slot an instruction reads or writes: its kind, index, and whether it
/// is a write; none for an indexed form without an index operand.
pub open spec fn slot_access_of(ins: InstructionView) -> Option<(SlotKind, usize, bool)> {
    match slot_operation(ins) {
        Some((kind, write, Some(i))) => Some((kind, i as usize, write)),
        _ => None,
    }
}

/// The slot an instruction reads or writes.
pub fn slot_access(instr: &Instruction) -> (r: Option<(SlotKind, usize, bool)>)
    ensures
        r == slot_access_of(instr@),
{
    match slot_operation_of(instr) {
        Some((kind, write, Some(i))) => Some((kind, i as usize, write)),
        _ => None,
    }
}

/// The offsets, in order, at which the instructions access slot `j` of the
/// given kind, reading or writing as `write` says.
pub open spec fn hits(iv: Seq<InstructionView>, kind: SlotKind, j: usize, write: bool) -> Seq<usize>
    decreases iv.len(),
{
    if iv.len() == 0 {
        Seq::empty()
    } else {
        let rest = hits(iv.drop_last(), kind, j, write);
        if slot_access_of(iv.last()) == Some((kind, j, write)) {
            rest.push(iv.last().offset as usize)
        } else {
            rest
        }
    }
}

/// How many slots of a kind a method has: its declared count, raised past
/// every index the instructions access.
pub open spec fn extent(iv: Seq<InstructionView>, kind: SlotKind, base: nat) -> nat
    decreases iv.len(),
{
    if iv.len() == 0 {
        base
    } else {
        let e = extent(iv.drop_last(), kind, base);
        match slot_access_of(iv.last()) {
            Some((k, i, _)) => if k == kind && i >= e {
                (i + 1) as nat
            } else {
                e
            },
            None => e,
        }
    }
}

/// Reads and writes of one slot.
pub struct SlotXref {
    pub index: usize,
    pub reads: Vec<usize>,
    pub writes: Vec<usize>,
}

/// The slot cross-references of one method.
pub struct MethodXrefs {
    pub method: MethodRef,
    pub locals: Vec<SlotXref>,
    pub arguments: Vec<SlotXref>,
    pub statics: Vec<SlotXref>,
}

/// Cross-references of all methods.
pub struct Xrefs {
    pub methods: Vec<MethodXrefs>,
}

/// `v` lists, for each slot of the kind in index order, where the
/// instructions read and write it.
pub open spec fn xrefs_of(v: Seq<SlotXref>, iv: Seq<InstructionView>, kind: SlotKind, base: nat) -> bool {
    &&& v.len() == extent(iv, kind, base)
    &&& forall|j: int|
        0 <= j < v.len() ==> (#[trigger] v[j]).index == j && v[j].reads@ == hits(iv, kind, j as usize, false)
            && v[j].writes@ == hits(iv, kind, j as usize, true)
}

fn slot_extent(slice: &[Instruction], kind: SlotKind, base: usize) -> (r: usize)
    requires
        base <= 256,
    ensures
        r == extent(instrs_view(slice@), kind, base as nat),
        r <= 256,
{
    let ghost iv = instrs_view(slice@);
    let mut e = base;
    let mut i: usize = 0;
    proof {
        assert(iv.take(0) =~= Seq::<InstructionView>::empty());
    }
    while i < slice.len()
        invariant
            iv == instrs_view(slice@),
            i <= slice@.len(),
            e <= 256,
            e == extent(iv.take(i as int), kind, base as nat),
        decreases slice.len() - i,
    {
        proof {
            assert(iv.take(i + 1).drop_last() =~= iv.take(i as int));
            assert(iv.take(i + 1).last() == iv[i as int]);
        }
        match slot_access(&slice[i]) {
            Some((k, idx, _)) => {
                if k == kind && idx >= e {
                    e = idx + 1;
                }
            },
            None => {},
        }
        i = i + 1;
    }
    proof {
        assert(iv.take(i as int) =~= iv);
    }
    e
}

fn slot_hits(slice: &[Instruction], kind: SlotKind, j: usize, write: bool) -> (r: Vec<usize>)
    ensures
        r@ == hits(instrs_view(slice@), kind, j, write),
{
    let ghost iv = instrs_view(slice@);
    let mut out: Vec<usize> = Vec::new();
    let mut i: usize = 0;
    proof {
        assert(iv.take(0) =~= Seq::<InstructionView>::empty());
    }
    while i < slice.len()
        invariant
            iv == instrs_view(slice@),
            i <= slice@.len(),
            out@ == hits(iv.take(i as int), kind, j, write),
        decreases slice.len() - i,
    {
        proof {
            assert(iv.take(i + 1).drop_last() =~= iv.take(i as int));
            assert(iv.take(i + 1).last() == iv[i as int]);
        }
        match slot_access(&slice[i]) {
            Some((k, idx, w)) => {
                if k == kind && idx == j && w == write {
                    out.push(slice[i].offset as usize);
                }
            },
            None => {},
        }
        i = i + 1;
    }
    proof {
        assert(iv.take(i as int) =~= iv);
    }
    out
}

fn slot_xrefs(slice: &[Instruction], kind: SlotKind, base: usize) -> (r: Vec<SlotXref>)
    requires
        base <= 256,
    ensures
        xrefs_of(r@, instrs_view(slice@), kind, base as nat),
{
    let n = slot_extent(slice, kind, base);
    let mut out: Vec<SlotXref> = Vec::new();
    let mut j: usize = 0;
    while j < n
        invariant
            n == extent(instrs_view(slice@), kind, base as nat),
            j <= n,
            out@.len() == j,
            forall|k: int|
                0 <= k < j ==> (#[trigger] out@[k]).index == k && out@[k].reads@ == hits(instrs_view(slice@), kind, k as usize, false)
                    && out@[k].writes@ == hits(instrs_view(slice@), kind, k as usize, true),
        decreases n - j,
    {
        let reads = slot_hits(slice, kind, j, false);
        let writes = slot_hits(slice, kind, j, true);
        out.push(SlotXref { index: j, reads, writes });
        j = j + 1;
    }
    out
}

/// The slot cross-references of one method's instructions: each declared
/// local and argument slot (from the first `INITSLOT`), each static slot up
/// to `static_count`, and any slot an instruction accesses past those, with
/// the offsets of its reads and writes in order.
pub fn method_xrefs(method: MethodRef, slice: &[Instruction], static_count: u8) -> (r: MethodXrefs)
    ensures
        r.method == method,
        ({
            let iv = instrs_view(slice@);
            let counts = match first_slot_counts(iv) {
                Some(c) => c,
                None => (0usize, 0usize),
            };
            &&& xrefs_of(r.locals@, iv, SlotKind::Local, counts.0 as nat)
            &&& xrefs_of(r.arguments@, iv, SlotKind::Argument, counts.1 as nat)
            &&& xrefs_of(r.statics@, iv, SlotKind::Static, static_count as nat)
        }),
{
    let (locals_count, args_count) = match scan_slot_counts(slice) {
        Some(c) => c,
        None => (0, 0),
    };
    proof {
        lemma_slot_counts_bounded(instrs_view(slice@));
    }
    let locals = slot_xrefs(slice, SlotKind::Local, locals_count);
    let arguments = slot_xrefs(slice, SlotKind::Argument, args_count);
    let statics = slot_xrefs(slice, SlotKind::Static, static_count as usize);
    MethodXrefs { method, locals, arguments, statics }
}

/// Declared slot counts are byte-sized.
proof fn lemma_slot_counts_bounded(iv: Seq<InstructionView>)
    ensures
        first_slot_counts(iv) matches Some(c) ==> c.0 <= 255 && c.1 <= 255,
    decreases iv.len(),
{
    if iv.len() > 0 {
        lemma_slot_counts_bounded(iv.drop_first());
    }
}

} // verus!
