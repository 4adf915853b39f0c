//! Basic blocks, their identifiers and how they end.
use vstd::prelude::*;

verus! {

/// Identifier of a basic block within a control-flow graph.
#[derive(Debug, Clone, Copy, PartialEq, Eq, Hash, PartialOrd, Ord, Structural)]
pub struct BlockId(pub usize);

impl BlockId {
    /// The identifier as written in listings: `BB` and its number.
    pub fn label(&self) -> (r: String)
        ensures
            r@ == "BB"@ + crate::text::dec(self.0 as nat),
    {
        crate::text::prefixed_decimal("BB", self.0 as u64)
    }

    /// A block identifier with the given number.
    pub fn new(id: usize) -> (r: BlockId)
        ensures
            r.0 == id,
    {
        BlockId(id)
    }

    /// The number of this identifier.
    pub fn index(self) -> (r: usize)
        ensures
            r == self.0,
    {
        self.0
    }
}

/// How a basic block ends.
#[derive(Debug, Clone, PartialEq, Eq)]
pub enum Terminator {
    /// Falls through to the next block.
    Fallthrough { target: BlockId },
    /// Unconditional jump.
    Jump { target: BlockId },
    /// Conditional branch: `then_target` when the condition holds, else `else_target`.
    Branch { then_target: BlockId, else_target: BlockId },
    /// Return from the method.
    Return,
    /// Throw an exception.
    Throw,
    /// Abort execution.
    Abort,
    /// A resolved call that cannot return normally.
    NoReturnCall,
    /// Entry of a try region with its handlers.
    TryEntry { body_target: BlockId, catch_target: Option<BlockId>, finally_target: Option<BlockId> },
    /// End of a try or catch region.
    EndTry { continuation: BlockId, nonlocal: bool },
    /// End of a try or catch region that first runs the owning finally region.
    EndTryFinally { continuation: BlockId, finally_target: BlockId, nonlocal: bool },
    /// End of a finally region, resuming at one of the saved continuations.
    EndFinally { normal_continuations: Vec<BlockId> },
    /// Not analysed.
    Unknown,
}

/// Model of a terminator.
pub enum TermView {
    Fallthrough { target: BlockId },
    Jump { target: BlockId },
    Branch { then_target: BlockId, else_target: BlockId },
    Return,
    Throw,
    Abort,
    NoReturnCall,
    TryEntry { body_target: BlockId, catch_target: Option<BlockId>, finally_target: Option<BlockId> },
    EndTry { continuation: BlockId, nonlocal: bool },
    EndTryFinally { continuation: BlockId, finally_target: BlockId, nonlocal: bool },
    EndFinally { normal_continuations: Seq<BlockId> },
    Unknown,
}

impl View for Terminator {
    type V = TermView;

    open spec fn view(&self) -> TermView {
        match *self {
            Terminator::Fallthrough { target } => TermView::Fallthrough { target },
            Terminator::Jump { target } => TermView::Jump { target },
            Terminator::Branch { then_target, else_target } => TermView::Branch { then_target, else_target },
            Terminator::Return => TermView::Return,
            Terminator::Throw => TermView::Throw,
            Terminator::Abort => TermView::Abort,
            Terminator::NoReturnCall => TermView::NoReturnCall,
            Terminator::TryEntry { body_target, catch_target, finally_target } => TermView::TryEntry {
                body_target,
                catch_target,
                finally_target,
            },
            Terminator::EndTry { continuation, nonlocal } => TermView::EndTry { continuation, nonlocal },
            Terminator::EndTryFinally { continuation, finally_target, nonlocal } => TermView::EndTryFinally {
                continuation,
                finally_target,
                nonlocal,
            },
            Terminator::EndFinally { normal_continuations } => TermView::EndFinally {
                normal_continuations: normal_continuations@,
            },
            Terminator::Unknown => TermView::Unknown,
        }
    }
}

/// The blocks that a terminator can pass control to, in the order of its fields.
pub open spec fn term_successors(t: TermView) -> Seq<BlockId> {
    match t {
        TermView::Fallthrough { target } => seq![target],
        TermView::Jump { target } => seq![target],
        TermView::Branch { then_target, else_target } => seq![then_target, else_target],
        TermView::TryEntry { body_target, catch_target, finally_target } => {
            let c = match catch_target {
                Some(b) => seq![b],
                None => Seq::empty(),
            };
            let f = match finally_target {
                Some(b) => seq![b],
                None => Seq::empty(),
            };
            seq![body_target] + c + f
        },
        TermView::EndTry { continuation, .. } => seq![continuation],
        TermView::EndTryFinally { finally_target, .. } => seq![finally_target],
        TermView::EndFinally { normal_continuations } => normal_continuations,
        _ => Seq::empty(),
    }
}

/// A copy of a list of block identifiers.
pub fn copy_ids(v: &Vec<BlockId>) -> (r: Vec<BlockId>)
    ensures
        r@ == v@,
{
    let mut r: Vec<BlockId> = Vec::new();
    let mut i: usize = 0;
    while i < v.len()
        invariant
            i <= v.len(),
            r@ == v@.take(i as int),
        decreases v.len() - i,
    {
        r.push(v[i]);
        i = i + 1;
        assert(r@ =~= v@.take(i as int));
    }
    assert(v@.take(v.len() as int) =~= v@);
    r
}

impl Terminator {
    /// A copy of this terminator.
    pub fn duplicate(&self) -> (r: Terminator)
        ensures
            r@ == self@,
    {
        match self {
            Terminator::Fallthrough { target } => Terminator::Fallthrough { target: *target },
            Terminator::Jump { target } => Terminator::Jump { target: *target },
            Terminator::Branch { then_target, else_target } => Terminator::Branch {
                then_target: *then_target,
                else_target: *else_target,
            },
            Terminator::Return => Terminator::Return,
            Terminator::Throw => Terminator::Throw,
            Terminator::Abort => Terminator::Abort,
            Terminator::NoReturnCall => Terminator::NoReturnCall,
            Terminator::TryEntry { body_target, catch_target, finally_target } => Terminator::TryEntry {
                body_target: *body_target,
                catch_target: *catch_target,
                finally_target: *finally_target,
            },
            Terminator::EndTry { continuation, nonlocal } => Terminator::EndTry {
                continuation: *continuation,
                nonlocal: *nonlocal,
            },
            Terminator::EndTryFinally { continuation, finally_target, nonlocal } => Terminator::EndTryFinally {
                continuation: *continuation,
                finally_target: *finally_target,
                nonlocal: *nonlocal,
            },
            Terminator::EndFinally { normal_continuations } => Terminator::EndFinally {
                normal_continuations: copy_ids(normal_continuations),
            },
            Terminator::Unknown => Terminator::Unknown,
        }
    }

    /// The blocks this terminator can pass control to: the targets in the order
    /// of the fields, the catch and finally targets where present, only the
    /// finally region for an `EndTryFinally`, and the saved continuations of an
    /// `EndFinally`.
    pub fn successors(&self) -> (r: Vec<BlockId>)
        ensures
            r@ == term_successors(self@),
    {
        match self {
            Terminator::Fallthrough { target } => vec![*target],
            Terminator::Jump { target } => vec![*target],
            Terminator::Branch { then_target, else_target } => vec![*then_target, *else_target],
            Terminator::Return | Terminator::Throw | Terminator::Abort | Terminator::NoReturnCall => Vec::new(),
            Terminator::TryEntry { body_target, catch_target, finally_target } => {
                let mut succs = vec![*body_target];
                if let Some(c) = catch_target {
                    succs.push(*c);
                }
                if let Some(f) = finally_target {
                    succs.push(*f);
                }
                proof {
                    assert(succs@ =~= term_successors(self@));
                }
                succs
            },
            Terminator::EndTry { continuation, .. } => vec![*continuation],
            Terminator::EndTryFinally { finally_target, .. } => vec![*finally_target],
            Terminator::EndFinally { normal_continuations } => copy_ids(normal_continuations),
            Terminator::Unknown => Vec::new(),
        }
    }

    /// Whether control falls through to the next block.
    pub fn can_fallthrough(&self) -> (r: bool)
        ensures
            r == (self@ is Fallthrough),
    {
        matches!(self, Terminator::Fallthrough { .. })
    }

    /// Whether this is a conditional branch.
    pub fn is_conditional(&self) -> (r: bool)
        ensures
            r == (self@ is Branch),
    {
        matches!(self, Terminator::Branch { .. })
    }
}

/// A basic block: a run of instructions with one entry and one exit.
#[derive(Debug)]
pub struct BasicBlock {
    /// Identifier.
    pub id: BlockId,
    /// First byte offset of the block.
    pub start_offset: usize,
    /// Byte offset just past the block.
    pub end_offset: usize,
    /// Indices of the block's instructions: `range_start..range_end`.
    pub instruction_range: std::ops::Range<usize>,
    /// How the block ends.
    pub terminator: Terminator,
}

/// Model of a basic block.
pub struct BlockView {
    pub id: BlockId,
    pub start_offset: usize,
    pub end_offset: usize,
    pub range_start: usize,
    pub range_end: usize,
    pub terminator: TermView,
}

impl View for BasicBlock {
    type V = BlockView;

    open spec fn view(&self) -> BlockView {
        BlockView {
            id: self.id,
            start_offset: self.start_offset,
            end_offset: self.end_offset,
            range_start: self.instruction_range.start,
            range_end: self.instruction_range.end,
            terminator: self.terminator@,
        }
    }
}

impl BasicBlock {
    /// A block with the given fields.
    pub fn new(
        id: BlockId,
        start_offset: usize,
        end_offset: usize,
        instruction_range: std::ops::Range<usize>,
        terminator: Terminator,
    ) -> (r: Self)
        ensures
            r.id == id,
            r.start_offset == start_offset,
            r.end_offset == end_offset,
            r.instruction_range == instruction_range,
            r@.terminator == terminator@,
    {
        BasicBlock { id, start_offset, end_offset, instruction_range, terminator }
    }

    /// Whether `offset` lies in `[start_offset, end_offset)`.
    pub fn contains_offset(&self, offset: usize) -> (r: bool)
        ensures
            r == (self.start_offset <= offset && offset < self.end_offset),
    {
        offset >= self.start_offset && offset < self.end_offset
    }

    /// The number of instructions in the block.
    pub fn instruction_count(&self) -> (r: usize)
        ensures
            r == (if self@.range_start < self@.range_end { self@.range_end - self@.range_start } else { 0 }),
    {
        if self.instruction_range.start < self.instruction_range.end {
            self.instruction_range.end - self.instruction_range.start
        } else {
            0
        }
    }

    /// Whether the block holds no instruction.
    pub fn is_empty(&self) -> (r: bool)
        ensures
            r == !(self@.range_start < self@.range_end),
    {
        !(self.instruction_range.start < self.instruction_range.end)
    }

    /// A copy of this block.
    pub fn duplicate(&self) -> (r: BasicBlock)
        ensures
            r@ == self@,
    {
        BasicBlock {
            id: self.id,
            start_offset: self.start_offset,
            end_offset: self.end_offset,
            instruction_range: self.instruction_range.start..self.instruction_range.end,
            terminator: self.terminator.duplicate(),
        }
    }
}

} // verus!
