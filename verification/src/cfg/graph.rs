//! The control-flow graph: blocks keyed by number, edges, exits and an index
//! from start offsets to blocks.
use vstd::prelude::*;

use super::block::{BasicBlock, BlockId, BlockView, TermView};

verus! {

/// An edge of a control-flow graph.
#[derive(Debug, Clone, Copy, PartialEq, Eq, Structural)]
pub struct Edge {
    /// Source block.
    pub from: BlockId,
    /// Target block.
    pub to: BlockId,
    /// Kind of edge.
    pub kind: EdgeKind,
}

/// The kind of an edge.
#[derive(Debug, Clone, Copy, PartialEq, Eq, Structural)]
pub enum EdgeKind {
    /// Fallthrough or jump.
    Unconditional,
    /// Taken branch.
    ConditionalTrue,
    /// Branch not taken.
    ConditionalFalse,
    /// To an exception handler.
    Exception,
    /// To a finally region.
    Finally,
}

/// Keys of a keyed sequence strictly increase.
pub open spec fn sorted_keys<V>(s: Seq<(usize, V)>) -> bool {
    forall|i: int, j: int| 0 <= i < j < s.len() ==> (#[trigger] s[i]).0 < (#[trigger] s[j]).0
}

/// Some entry has key `k`.
pub open spec fn has_key<V>(s: Seq<(usize, V)>, k: usize) -> bool {
    exists|i: int| 0 <= i < s.len() && (#[trigger] s[i]).0 == k
}

/// The position of the entry with key `k`.
pub open spec fn key_pos<V>(s: Seq<(usize, V)>, k: usize) -> int {
    choose|i: int| 0 <= i < s.len() && (#[trigger] s[i]).0 == k
}

/// The map that a keyed sequence stands for.
pub open spec fn keyed<V>(s: Seq<(usize, V)>) -> Map<usize, V> {
    Map::new(|k: usize| has_key(s, k), |k: usize| s[key_pos(s, k)].1)
}

/// The blocks of a keyed block sequence, by number.
pub open spec fn block_model(s: Seq<(usize, BasicBlock)>) -> Map<usize, BlockView> {
    Map::new(|k: usize| has_key(s, k), |k: usize| s[key_pos(s, k)].1@)
}

/// Block identifiers strictly increase.
pub open spec fn sorted_ids(s: Seq<BlockId>) -> bool {
    forall|i: int, j: int| 0 <= i < j < s.len() ==> (#[trigger] s[i]).0 < (#[trigger] s[j]).0
}

/// In a sorted keyed sequence the entry at `i` is the one its key names.
pub proof fn lemma_key_pos<V>(s: Seq<(usize, V)>, i: int)
    requires
        sorted_keys(s),
        0 <= i < s.len(),
    ensures
        has_key(s, s[i].0),
        key_pos(s, s[i].0) == i,
{
    assert(has_key(s, s[i].0));
    let j = key_pos(s, s[i].0);
    if j < i {
        assert(s[j].0 < s[i].0);
    } else if j > i {
        assert(s[i].0 < s[j].0);
    }
}

/// Replacing the block at a position keeps the keys and changes the one entry.
pub proof fn lemma_block_model_update(s: Seq<(usize, BasicBlock)>, i: int, b: BasicBlock)
    requires
        sorted_keys(s),
        0 <= i < s.len(),
    ensures
        sorted_keys(s.update(i, (s[i].0, b))),
        block_model(s.update(i, (s[i].0, b))) == block_model(s).insert(s[i].0, b@),
{
    let t = s.update(i, (s[i].0, b));
    assert(sorted_keys(t)) by {
        assert forall|a: int, c: int| 0 <= a < c < t.len() implies (#[trigger] t[a]).0 < (#[trigger] t[c]).0 by {
            assert(s[a].0 < s[c].0);
        }
    }
    assert forall|k: usize| has_key(t, k) <==> has_key(s, k) by {
        if has_key(t, k) {
            let j = choose|j: int| 0 <= j < t.len() && (#[trigger] t[j]).0 == k;
            assert(s[j].0 == k);
        }
        if has_key(s, k) {
            let j = choose|j: int| 0 <= j < s.len() && (#[trigger] s[j]).0 == k;
            assert(t[j].0 == k);
        }
    }
    lemma_key_pos(s, i);
    lemma_key_pos(t, i);
    assert forall|k: usize| has_key(s, k) && k != s[i].0 implies #[trigger] block_model(t)[k] == block_model(s)[k] by {
        let j = key_pos(s, k);
        lemma_key_pos(s, j);
        assert(t[j].0 == k);
        lemma_key_pos(t, j);
    }
    assert(block_model(t) =~= block_model(s).insert(s[i].0, b@));
}

/// The number of entries of a sorted keyed sequence is the size of its map.
pub proof fn lemma_keyed_len<V>(s: Seq<(usize, V)>)
    requires
        sorted_keys(s),
    ensures
        keyed(s).dom().len() == s.len(),
        keyed(s).dom().finite(),
{
    let ks = s.map_values(|p: (usize, V)| p.0);
    assert(ks.no_duplicates()) by {
        assert forall|i: int, j: int| 0 <= i < ks.len() && 0 <= j < ks.len() && i != j implies ks[i] != ks[j] by {
            if i < j {
                assert(s[i].0 < s[j].0);
            } else {
                assert(s[j].0 < s[i].0);
            }
        }
    }
    assert(keyed(s).dom() =~= ks.to_set()) by {
        assert forall|k: usize| keyed(s).dom().contains(k) implies ks.to_set().contains(k) by {
            let i = key_pos(s, k);
            assert(ks[i] == k);
        }
        assert forall|k: usize| ks.to_set().contains(k) implies keyed(s).dom().contains(k) by {
            let i = choose|i: int| 0 <= i < ks.len() && ks[i] == k;
            assert(s[i].0 == k);
        }
    }
    ks.unique_seq_to_set();
}

/// The index of the entry with key `k`, if any.
pub fn find_key<V>(v: &Vec<(usize, V)>, k: usize) -> (r: Option<usize>)
    requires
        sorted_keys(v@),
    ensures
        match r {
            Some(i) => i < v@.len() && v@[i as int].0 == k && key_pos(v@, k) == i,
            None => !has_key(v@, k),
        },
{
    let mut i: usize = 0;
    while i < v.len()
        invariant
            i <= v@.len(),
            sorted_keys(v@),
            forall|j: int| 0 <= j < i ==> (#[trigger] v@[j]).0 != k,
        decreases v.len() - i,
    {
        if v[i].0 == k {
            proof {
                lemma_key_pos(v@, i as int);
            }
            return Some(i);
        }
        i = i + 1;
    }
    None
}

/// Put `val` under key `k`, replacing the entry with that key if there is one.
pub fn upsert<V>(v: &mut Vec<(usize, V)>, k: usize, val: V)
    requires
        sorted_keys(old(v)@),
    ensures
        sorted_keys(final(v)@),
        forall|k2: usize| has_key(final(v)@, k2) <==> (has_key(old(v)@, k2) || k2 == k),
        final(v)@[key_pos(final(v)@, k)].1 == val,
        forall|k2: usize|
            k2 != k && has_key(old(v)@, k2) ==> #[trigger] final(v)@[key_pos(final(v)@, k2)].1 == old(v)@[key_pos(
                old(v)@,
                k2,
            )].1,
{
    let ghost s = v@;
    let mut p: usize = 0;
    while p < v.len() && v[p].0 < k
        invariant
            p <= v@.len(),
            v@ == s,
            forall|j: int| 0 <= j < p ==> (#[trigger] v@[j]).0 < k,
        decreases v.len() - p,
    {
        p = p + 1;
    }
    if p < v.len() && v[p].0 == k {
        v.set(p, (k, val));
        let ghost t = v@;
        proof {
            assert(t == s.update(p as int, (k, val)));
            assert(sorted_keys(t)) by {
                assert forall|i: int, j: int| 0 <= i < j < t.len() implies (#[trigger] t[i]).0 < (#[trigger] t[j]).0 by {
                    assert(s[i].0 < s[j].0);
                }
            }
            assert forall|k2: usize| has_key(t, k2) <==> (has_key(s, k2) || k2 == k) by {
                if has_key(t, k2) {
                    let i = choose|i: int| 0 <= i < t.len() && (#[trigger] t[i]).0 == k2;
                    if i != p {
                        assert(s[i].0 == k2);
                    }
                }
                if has_key(s, k2) {
                    let i = choose|i: int| 0 <= i < s.len() && (#[trigger] s[i]).0 == k2;
                    assert(t[i].0 == k2);
                }
                if k2 == k {
                    assert(t[p as int].0 == k);
                }
            }
            lemma_key_pos(t, p as int);
            assert forall|k2: usize| k2 != k && has_key(s, k2) implies #[trigger] t[key_pos(t, k2)].1 == s[key_pos(s, k2)].1 by {
                let i = key_pos(s, k2);
                lemma_key_pos(s, i);
                assert(i != p);
                assert(t[i].0 == k2);
                lemma_key_pos(t, i);
            }
        }
    } else {
        v.insert(p, (k, val));
        let ghost t = v@;
        proof {
            assert(t == s.insert(p as int, (k, val)));
            assert(sorted_keys(t)) by {
                assert forall|i: int, j: int| 0 <= i < j < t.len() implies (#[trigger] t[i]).0 < (#[trigger] t[j]).0 by {
                    if j < p {
                        assert(s[i].0 < s[j].0);
                    } else if j == p {
                        assert(s[i].0 < k);
                    } else if i == p {
                        assert(s[j - 1].0 >= k);
                        assert(s[j - 1].0 != k) by {
                            if j - 1 > p {
                                assert(s[p as int].0 < s[j - 1].0);
                            }
                        }
                    } else if i < p {
                        assert(s[i].0 < s[j - 1].0);
                    } else {
                        assert(s[i - 1].0 < s[j - 1].0);
                    }
                }
            }
            assert forall|k2: usize| has_key(t, k2) <==> (has_key(s, k2) || k2 == k) by {
                if has_key(t, k2) {
                    let i = choose|i: int| 0 <= i < t.len() && (#[trigger] t[i]).0 == k2;
                    if i < p {
                        assert(s[i].0 == k2);
                    } else if i > p {
                        assert(s[i - 1].0 == k2);
                    }
                }
                if has_key(s, k2) {
                    let i = choose|i: int| 0 <= i < s.len() && (#[trigger] s[i]).0 == k2;
                    if i < p {
                        assert(t[i].0 == k2);
                    } else {
                        assert(t[i + 1].0 == k2);
                    }
                }
                if k2 == k {
                    assert(t[p as int].0 == k);
                }
            }
            lemma_key_pos(t, p as int);
            assert forall|k2: usize| k2 != k && has_key(s, k2) implies #[trigger] t[key_pos(t, k2)].1 == s[key_pos(s, k2)].1 by {
                let i = key_pos(s, k2);
                lemma_key_pos(s, i);
                if i < p {
                    assert(t[i].0 == k2);
                    lemma_key_pos(t, i);
                } else {
                    assert(t[i + 1].0 == k2);
                    lemma_key_pos(t, i + 1);
                }
            }
        }
    }
}

/// Insert `id` into a sorted list of identifiers unless it is there.
pub fn insert_id(v: &mut Vec<BlockId>, id: BlockId)
    requires
        sorted_ids(old(v)@),
    ensures
        sorted_ids(final(v)@),
        final(v)@.to_set() == old(v)@.to_set().insert(id),
{
    let ghost s = v@;
    let mut p: usize = 0;
    while p < v.len() && v[p].0 < id.0
        invariant
            p <= v@.len(),
            v@ == s,
            forall|j: int| 0 <= j < p ==> (#[trigger] v@[j]).0 < id.0,
        decreases v.len() - p,
    {
        p = p + 1;
    }
    if p < v.len() && v[p].0 == id.0 {
        proof {
            assert(v@[p as int] == id);
            assert(s.to_set().insert(id) =~= s.to_set());
        }
        return;
    }
    v.insert(p, id);
    proof {
        let t = v@;
        assert(t == s.insert(p as int, id));
        assert(sorted_ids(t)) by {
            assert forall|i: int, j: int| 0 <= i < j < t.len() implies (#[trigger] t[i]).0 < (#[trigger] t[j]).0 by {
                if j < p {
                    assert(s[i].0 < s[j].0);
                } else if j == p {
                    assert(s[i].0 < id.0);
                } else if i == p {
                    assert(s[j - 1].0 >= id.0);
                    assert(s[j - 1].0 != id.0) by {
                        if j - 1 > p {
                            assert(s[p as int].0 < s[j - 1].0);
                        }
                    }
                } else if i < p {
                    assert(s[i].0 < s[j - 1].0);
                } else {
                    assert(s[i - 1].0 < s[j - 1].0);
                }
            }
        }
        assert(t.to_set() =~= s.to_set().insert(id)) by {
            assert forall|x: BlockId| t.to_set().contains(x) implies s.to_set().insert(id).contains(x) by {
                let i = choose|i: int| 0 <= i < t.len() && t[i] == x;
                if i < p {
                    assert(s[i] == x);
                } else if i > p {
                    assert(s[i - 1] == x);
                }
            }
            assert forall|x: BlockId| s.to_set().insert(id).contains(x) implies t.to_set().contains(x) by {
                if x == id {
                    assert(t[p as int] == x);
                } else {
                    let i = choose|i: int| 0 <= i < s.len() && s[i] == x;
                    if i < p {
                        assert(t[i] == x);
                    } else {
                        assert(t[i + 1] == x);
                    }
                }
            }
        }
    }
}

/// The targets of the edges leaving `id`, in edge order.
pub open spec fn succs_of(es: Seq<Edge>, id: BlockId) -> Seq<BlockId>
    decreases es.len(),
{
    if es.len() == 0 {
        Seq::empty()
    } else {
        let r = succs_of(es.drop_last(), id);
        if es.last().from == id {
            r.push(es.last().to)
        } else {
            r
        }
    }
}

/// The sources of the edges entering `id`, in edge order.
pub open spec fn preds_of(es: Seq<Edge>, id: BlockId) -> Seq<BlockId>
    decreases es.len(),
{
    if es.len() == 0 {
        Seq::empty()
    } else {
        let r = preds_of(es.drop_last(), id);
        if es.last().to == id {
            r.push(es.last().from)
        } else {
            r
        }
    }
}

/// Keys strictly increase.
pub open spec fn strictly_increasing_keys(ks: Seq<usize>) -> bool {
    forall|i: int, j: int| 0 <= i < j < ks.len() ==> ks[i] < ks[j]
}

/// `vs` lists the values of `m` in increasing order of their keys.
pub open spec fn in_key_order<V>(vs: Seq<V>, m: Map<usize, V>) -> bool {
    exists|ks: Seq<usize>| #![trigger ks.len()]
        ks.len() == vs.len() && strictly_increasing_keys(ks) && forall|j: int|
            0 <= j < ks.len() ==> #[trigger] m.contains_key(ks[j]) && vs[j] == m[ks[j]]
}

/// A block ends the function: it returns, throws or aborts.
pub open spec fn is_exit_term(t: TermView) -> bool {
    t is Return || t is Throw || t is Abort
}

/// Model of a control-flow graph.
pub struct CfgView {
    /// Blocks by number.
    pub blocks: Map<usize, BlockView>,
    /// Edges in insertion order.
    pub edges: Seq<Edge>,
    /// The entry block.
    pub entry: BlockId,
    /// Blocks that were added returning, throwing or aborting.
    pub exits: Set<BlockId>,
    /// Block added last at each start offset.
    pub offsets: Map<usize, BlockId>,
}

/// A control-flow graph.
pub struct Cfg {
    blocks: Vec<(usize, BasicBlock)>,
    edges: Vec<Edge>,
    entry: BlockId,
    exits: Vec<BlockId>,
    offsets: Vec<(usize, BlockId)>,
}

impl View for Cfg {
    type V = CfgView;

    closed spec fn view(&self) -> CfgView {
        CfgView {
            blocks: block_model(self.blocks@),
            edges: self.edges@,
            entry: self.entry,
            exits: self.exits@.to_set(),
            offsets: keyed(self.offsets@),
        }
    }
}

/// The largest indexed start offset that is at most `x`.
pub open spec fn floor_key(m: Map<usize, BlockId>, x: usize) -> Option<usize> {
    if exists|k: usize| m.contains_key(k) && k <= x {
        Some(choose|k: usize| m.contains_key(k) && k <= x && forall|k2: usize| m.contains_key(k2) && k2 <= x ==> k2 <= k)
    } else {
        None
    }
}

/// The block that holds offset `x`: the block indexed at the largest start
/// offset not above `x`, when it exists and its range holds `x`.
pub open spec fn block_at(g: CfgView, x: usize) -> Option<BlockView> {
    match floor_key(g.offsets, x) {
        Some(k) => {
            let id = g.offsets[k];
            if g.blocks.contains_key(id.0) && g.blocks[id.0].start_offset <= x && x < g.blocks[id.0].end_offset {
                Some(g.blocks[id.0])
            } else {
                None
            }
        },
        None => None,
    }
}

/// The offset index without the entry of the block that `id` replaces: the
/// old block's start offset, when it is still indexed to `id`.
pub open spec fn stale_dropped(g: CfgView, id: BlockId) -> Map<usize, BlockId> {
    if g.blocks.contains_key(id.0) && g.offsets.contains_key(g.blocks[id.0].start_offset) && g.offsets[g.blocks[id.0].start_offset]
        == id {
        g.offsets.remove(g.blocks[id.0].start_offset)
    } else {
        g.offsets
    }
}

/// Remove the entry with key `k`, if any.
fn remove_entry<V>(v: &mut Vec<(usize, V)>, k: usize)
    requires
        sorted_keys(old(v)@),
    ensures
        sorted_keys(final(v)@),
        keyed(final(v)@) == keyed(old(v)@).remove(k),
{
    match find_key(v, k) {
        Some(p) => {
            let ghost s = v@;
            v.remove(p);
            proof {
                assert(v@ == s.remove(p as int));
                assert forall|i: int, j: int| 0 <= i < j < v@.len() implies (#[trigger] v@[i]).0 < (#[trigger] v@[j]).0 by {
                    if i < p && j >= p {
                        assert(v@[j] == s[j + 1]);
                        assert(s[i].0 < s[j + 1].0);
                    } else if i >= p {
                        assert(s[i + 1].0 < s[j + 1].0);
                    }
                }
                assert forall|k2: usize| has_key(v@, k2) <==> (has_key(s, k2) && k2 != k) by {
                    if has_key(v@, k2) {
                        let i = choose|i: int| 0 <= i < v@.len() && (#[trigger] v@[i]).0 == k2;
                        if i < p {
                            assert(s[i].0 == k2);
                            assert(s[i].0 < s[p as int].0);
                        } else {
                            assert(s[i + 1].0 == k2);
                            assert(s[p as int].0 < s[i + 1].0);
                        }
                    }
                    if has_key(s, k2) && k2 != k {
                        let i = choose|i: int| 0 <= i < s.len() && (#[trigger] s[i]).0 == k2;
                        if i < p {
                            assert(v@[i].0 == k2);
                        } else {
                            assert(i != p);
                            assert(v@[i - 1].0 == k2);
                        }
                    }
                }
                assert forall|k2: usize| #[trigger] keyed(v@).contains_key(k2) implies keyed(v@)[k2] == keyed(s)[k2] by {
                    let i = key_pos(v@, k2);
                    lemma_key_pos(v@, i);
                    let j = if i < p { i } else { i + 1 };
                    assert(s[j] == v@[i]);
                    lemma_key_pos(s, j);
                }
                assert(keyed(v@) =~= keyed(s).remove(k));
            }
        },
        None => {
            assert(keyed(v@) =~= keyed(v@).remove(k));
        },
    }
}

impl Cfg {
    /// Internal consistency: the keyed lists are sorted.
    pub closed spec fn wf(&self) -> bool {
        &&& sorted_keys(self.blocks@)
        &&& sorted_ids(self.exits@)
        &&& sorted_keys(self.offsets@)
        &&& forall|j: int| 0 <= j < self.exits@.len() ==> has_key(self.blocks@, (#[trigger] self.exits@[j]).0)
    }

    /// Every exit is a block of the graph.
    pub proof fn lemma_exits_are_blocks(&self)
        requires
            self.wf(),
        ensures
            forall|id: BlockId| #[trigger] self@.exits.contains(id) ==> self@.blocks.contains_key(id.0),
    {
        assert forall|id: BlockId| #[trigger] self@.exits.contains(id) implies self@.blocks.contains_key(id.0) by {
            let j = choose|j: int| 0 <= j < self.exits@.len() && self.exits@[j] == id;
            assert(self.exits@.to_set().contains(id) == self.exits@.contains(id));
            assert(has_key(self.blocks@, self.exits@[j].0));
        }
    }

    /// An empty graph whose entry is block 0.
    pub fn new() -> (r: Self)
        ensures
            r.wf(),
            r@.blocks == Map::<usize, BlockView>::empty(),
            r@.edges == Seq::<Edge>::empty(),
            r@.entry == BlockId(0),
            r@.exits == Set::<BlockId>::empty(),
            r@.offsets == Map::<usize, BlockId>::empty(),
    {
        let r = Cfg { blocks: Vec::new(), edges: Vec::new(), entry: BlockId(0), exits: Vec::new(), offsets: Vec::new() };
        proof {
            assert(block_model(r.blocks@) =~= Map::<usize, BlockView>::empty());
            assert(keyed(r.offsets@) =~= Map::<usize, BlockId>::empty());
            assert(r.exits@.to_set() =~= Set::<BlockId>::empty());
        }
        r
    }

    /// Add a block under its identifier, replacing any block with that
    /// identifier; a returning, throwing or aborting block is recorded as an
    /// exit, and its start offset is indexed to it (the replaced block's
    /// start offset, still indexed to the identifier, is dropped first).
    pub fn add_block(&mut self, block: BasicBlock)
        requires
            old(self).wf(),
        ensures
            final(self).wf(),
            final(self)@.blocks == old(self)@.blocks.insert(block.id.0, block@),
            final(self)@.exits == (if is_exit_term(block@.terminator) {
                old(self)@.exits.insert(block.id)
            } else {
                old(self)@.exits
            }),
            final(self)@.offsets == stale_dropped(old(self)@, block.id).insert(block.start_offset, block.id),
            final(self)@.edges == old(self)@.edges,
            final(self)@.entry == old(self)@.entry,
            !old(self)@.blocks.contains_key(block.id.0) ==> final(self)@.blocks.dom().len() == old(self)@.blocks.dom().len() + 1,
            !old(self)@.blocks.contains_key(block.id.0) ==> (final(self)@.exits.contains(block.id) <==> is_exit_term(
                block@.terminator,
            )),
            block@.terminator is Return || block@.terminator is Throw || block@.terminator is Abort
                ==> final(self)@.exits.contains(block.id),
            !(block@.terminator is Return || block@.terminator is Throw || block@.terminator is Abort)
                ==> final(self)@.exits == old(self)@.exits,
            block.start_offset < block.end_offset ==> block_at(final(self)@, block.start_offset) == Some(block@),
    {
        proof {
            self.lemma_exits_are_blocks();
            lemma_keyed_len(self.blocks@);
            assert(keyed(self.blocks@).dom() =~= block_model(self.blocks@).dom());
        }
        let id = block.id;
        let start_offset = block.start_offset;
        let ghost bv = block@;
        let ghost oe = self.exits@;
        if matches!(block.terminator, super::block::Terminator::Return | super::block::Terminator::Throw | super::block::Terminator::Abort) {
            insert_id(&mut self.exits, id);
        }
        let ghost ob = self.blocks@;
        let ghost g0 = self@;
        match find_key(&self.blocks, id.0) {
            Some(p) => {
                let s0 = self.blocks[p].1.start_offset;
                proof {
                    lemma_key_pos(self.blocks@, p as int);
                    assert(g0.blocks[id.0] == self.blocks@[p as int].1@);
                }
                match find_key(&self.offsets, s0) {
                    Some(q) => {
                        if self.offsets[q].1 == id {
                            proof {
                                lemma_key_pos(self.offsets@, q as int);
                            }
                            remove_entry(&mut self.offsets, s0);
                        }
                    },
                    None => {},
                }
            },
            None => {},
        }
        assert(keyed(self.offsets@) == stale_dropped(g0, id));
        let ghost oo = self.offsets@;
        upsert(&mut self.offsets, start_offset, id);
        upsert(&mut self.blocks, id.0, block);
        proof {
            assert(block_model(self.blocks@) =~= block_model(ob).insert(id.0, bv));
            assert(keyed(self.offsets@) =~= keyed(oo).insert(start_offset, id));
            let m = self@.offsets;
            if bv.start_offset < bv.end_offset {
                assert(m.contains_key(start_offset) && start_offset <= start_offset);
                let c = floor_key(m, start_offset).unwrap();
                assert(c <= start_offset);
                assert(start_offset <= c);
                assert(m[c] == id);
            }
            assert(block_model(ob).dom().finite());
            if !block_model(ob).contains_key(id.0) {
                assert(block_model(self.blocks@).dom() =~= block_model(ob).dom().insert(id.0));
            }
            assert forall|j: int| 0 <= j < self.exits@.len() implies has_key(self.blocks@, (#[trigger] self.exits@[j]).0) by {
                let e = self.exits@[j];
                assert(self.exits@.to_set().contains(e));
                if e != id {
                    assert(oe.to_set().contains(e));
                    let j0 = choose|j0: int| 0 <= j0 < oe.len() && oe[j0] == e;
                    assert(has_key(ob, oe[j0].0));
                }
            }
        }
    }

    /// Add an edge.
    pub fn add_edge(&mut self, from: BlockId, to: BlockId, kind: EdgeKind)
        requires
            old(self).wf(),
        ensures
            final(self).wf(),
            final(self)@.edges == old(self)@.edges.push(Edge { from, to, kind }),
            final(self)@.blocks == old(self)@.blocks,
            final(self)@.exits == old(self)@.exits,
            final(self)@.offsets == old(self)@.offsets,
            final(self)@.entry == old(self)@.entry,
    {
        self.edges.push(Edge { from, to, kind });
    }

    /// The block with identifier `id`.
    pub fn block(&self, id: BlockId) -> (r: Option<&BasicBlock>)
        requires
            self.wf(),
        ensures
            match r {
                Some(b) => self@.blocks.contains_key(id.0) && b@ == self@.blocks[id.0],
                None => !self@.blocks.contains_key(id.0),
            },
    {
        match find_key(&self.blocks, id.0) {
            Some(i) => Some(&self.blocks[i].1),
            None => None,
        }
    }

    /// The block with identifier `id`, for changing it in place.
    pub fn block_mut(&mut self, id: BlockId) -> (r: Option<&mut BasicBlock>)
        requires
            old(self).wf(),
        ensures
            final(self).wf(),
            old(self)@.blocks.contains_key(id.0) ==> r.is_some() && (*r.unwrap())@ == old(self)@.blocks[id.0]
                && final(self)@.blocks == old(self)@.blocks.insert(id.0, (*final(r.unwrap()))@),
            !old(self)@.blocks.contains_key(id.0) ==> r.is_none() && final(self)@.blocks == old(self)@.blocks,
            final(self)@.edges == old(self)@.edges,
            final(self)@.exits == old(self)@.exits,
            final(self)@.offsets == old(self)@.offsets,
            final(self)@.entry == old(self)@.entry,
    {
        match find_key(&self.blocks, id.0) {
            Some(i) => {
                let ghost ob = self.blocks@;
                let r = &mut self.blocks[i].1;
                proof {
                    lemma_block_model_update(ob, i as int, *final(r));
                    let t = ob.update(i as int, (ob[i as int].0, *final(r)));
                    assert forall|k: usize| has_key(ob, k) implies has_key(t, k) by {
                        let j = choose|j: int| 0 <= j < ob.len() && (#[trigger] ob[j]).0 == k;
                        assert(t[j].0 == k);
                    }
                }
                Some(r)
            },
            None => None,
        }
    }

    /// The entry block, if it has been added.
    pub fn entry_block(&self) -> (r: Option<&BasicBlock>)
        requires
            self.wf(),
        ensures
            match r {
                Some(b) => self@.blocks.contains_key(self@.entry.0) && b@ == self@.blocks[self@.entry.0],
                None => !self@.blocks.contains_key(self@.entry.0),
            },
    {
        self.block(self.entry)
    }

    /// The blocks in increasing order of their numbers.
    pub closed spec fn block_list(&self) -> Seq<BlockView> {
        self.blocks@.map_values(|p: (usize, BasicBlock)| p.1@)
    }

    /// `block_list` holds every block once, in increasing order of the numbers.
    pub proof fn lemma_block_list(&self)
        requires
            self.wf(),
        ensures
            self.block_list().len() == self@.blocks.dom().len(),
            in_key_order(self.block_list(), self@.blocks),
    {
        lemma_keyed_len(self.blocks@);
        assert(keyed(self.blocks@).dom() =~= block_model(self.blocks@).dom());
        let ks = self.blocks@.map_values(|p: (usize, BasicBlock)| p.0);
        let vs = self.block_list();
        assert forall|j: int| 0 <= j < ks.len() implies #[trigger] self@.blocks.contains_key(ks[j])
            && vs[j] == self@.blocks[ks[j]] by {
            lemma_key_pos(self.blocks@, j);
        }
        assert(strictly_increasing_keys(ks));
    }

    /// All blocks in increasing order of their numbers.
    pub fn blocks(&self) -> (r: Vec<&BasicBlock>)
        requires
            self.wf(),
        ensures
            r@.len() == self@.blocks.dom().len(),
            in_key_order(r@.map_values(|b: &BasicBlock| b@), self@.blocks),
            r@.map_values(|b: &BasicBlock| b@) == self.block_list(),
    {
        let mut r: Vec<&BasicBlock> = Vec::new();
        let mut i: usize = 0;
        while i < self.blocks.len()
            invariant
                self.wf(),
                i <= self.blocks@.len(),
                r@.len() == i,
                forall|j: int| 0 <= j < i ==> r@[j] == &self.blocks@[j].1,
            decreases self.blocks.len() - i,
        {
            r.push(&self.blocks[i].1);
            i = i + 1;
        }
        proof {
            assert(r@.map_values(|b: &BasicBlock| b@) =~= self.block_list());
            self.lemma_block_list();
        }
        r
    }

    /// The number of blocks.
    pub fn block_count(&self) -> (r: usize)
        requires
            self.wf(),
        ensures
            r == self@.blocks.dom().len(),
    {
        proof {
            lemma_keyed_len(self.blocks@);
            assert(keyed(self.blocks@).dom() =~= block_model(self.blocks@).dom());
        }
        self.blocks.len()
    }

    /// All edges, in insertion order.
    pub fn edges(&self) -> (r: &[Edge])
        ensures
            r@ == self@.edges,
    {
        self.edges.as_slice()
    }

    /// The targets of the edges leaving `id`, in insertion order.
    pub fn successors(&self, id: BlockId) -> (r: Vec<BlockId>)
        ensures
            r@ == succs_of(self@.edges, id),
    {
        let mut r: Vec<BlockId> = Vec::new();
        let mut i: usize = 0;
        while i < self.edges.len()
            invariant
                i <= self.edges@.len(),
                r@ == succs_of(self.edges@.take(i as int), id),
            decreases self.edges.len() - i,
        {
            assert(self.edges@.take(i + 1).drop_last() =~= self.edges@.take(i as int));
            if self.edges[i].from == id {
                r.push(self.edges[i].to);
            }
            i = i + 1;
        }
        assert(self.edges@.take(i as int) =~= self.edges@);
        r
    }

    /// The sources of the edges entering `id`, in insertion order.
    pub fn predecessors(&self, id: BlockId) -> (r: Vec<BlockId>)
        ensures
            r@ == preds_of(self@.edges, id),
    {
        let mut r: Vec<BlockId> = Vec::new();
        let mut i: usize = 0;
        while i < self.edges.len()
            invariant
                i <= self.edges@.len(),
                r@ == preds_of(self.edges@.take(i as int), id),
            decreases self.edges.len() - i,
        {
            assert(self.edges@.take(i + 1).drop_last() =~= self.edges@.take(i as int));
            if self.edges[i].to == id {
                r.push(self.edges[i].from);
            }
            i = i + 1;
        }
        assert(self.edges@.take(i as int) =~= self.edges@);
        r
    }

    /// The exit blocks, in increasing order.
    pub fn exit_blocks(&self) -> (r: &Vec<BlockId>)
        requires
            self.wf(),
        ensures
            sorted_ids(r@),
            r@.to_set() == self@.exits,
    {
        &self.exits
    }

    /// The block that holds `offset`: the block indexed at the largest start
    /// offset not above `offset`, when its range holds `offset`.
    pub fn block_at_offset(&self, offset: usize) -> (r: Option<&BasicBlock>)
        requires
            self.wf(),
        ensures
            match r {
                Some(b) => block_at(self@, offset) == Some(b@),
                None => block_at(self@, offset).is_none(),
            },
    {
        let n = self.offsets.len();
        let mut i: usize = n;
        while i > 0 && self.offsets[i - 1].0 > offset
            invariant
                i <= n,
                n == self.offsets@.len(),
                forall|j: int| i <= j < n ==> (#[trigger] self.offsets@[j]).0 > offset,
            decreases i,
        {
            i = i - 1;
        }
        if i == 0 {
            proof {
                assert(!(exists|k: usize| self@.offsets.contains_key(k) && k <= offset)) by {
                    if exists|k: usize| self@.offsets.contains_key(k) && k <= offset {
                        let k = choose|k: usize| self@.offsets.contains_key(k) && k <= offset;
                        let j = key_pos(self.offsets@, k);
                        assert(self.offsets@[j].0 == k);
                    }
                }
            }
            return None;
        }
        let ghost k = self.offsets@[i - 1].0;
        proof {
            lemma_key_pos(self.offsets@, i - 1);
            assert(self@.offsets.contains_key(k) && k <= offset);
            assert forall|k2: usize| self@.offsets.contains_key(k2) && k2 <= offset implies k2 <= k by {
                let j = key_pos(self.offsets@, k2);
                assert(self.offsets@[j].0 == k2);
                if j > i - 1 {
                    if j >= i {
                        assert(self.offsets@[j].0 > offset);
                    }
                } else if j < i - 1 {
                    assert(self.offsets@[j].0 < self.offsets@[i - 1].0);
                }
            }
            let c = floor_key(self@.offsets, offset).unwrap();
            assert(c == k) by {
                assert(c <= k);
                assert(k <= c);
            }
        }
        let id = self.offsets[i - 1].1;
        match self.block(id) {
            Some(b) => {
                if b.contains_offset(offset) {
                    Some(b)
                } else {
                    None
                }
            },
            None => None,
        }
    }

    /// The entry block identifier.
    pub fn entry_id(&self) -> (r: BlockId)
        ensures
            r == self@.entry,
    {
        self.entry
    }
}

impl Default for Cfg {
    fn default() -> (r: Self)
        ensures
            r.wf(),
            r@.blocks == Map::<usize, BlockView>::empty(),
            r@.edges == Seq::<Edge>::empty(),
            r@.entry == BlockId(0),
    {
        Cfg::new()
    }
}


/// Some edge goes from `a` to `b`.
pub open spec fn has_edge(es: Seq<Edge>, a: BlockId, b: BlockId) -> bool {
    exists|k: int| 0 <= k < es.len() && (#[trigger] es[k]).from == a && es[k].to == b
}

/// Each target listed by `succs_of` is the target of an edge from `id`, and
/// each edge from `id` has its target listed.
pub proof fn lemma_succs_of(es: Seq<Edge>, id: BlockId)
    ensures
        forall|m: int| 0 <= m < succs_of(es, id).len() ==> has_edge(es, id, #[trigger] succs_of(es, id)[m]),
        forall|k: int| 0 <= k < es.len() && (#[trigger] es[k]).from == id ==> succs_of(es, id).contains(es[k].to),
    decreases es.len(),
{
    if es.len() > 0 {
        let d = es.drop_last();
        lemma_succs_of(d, id);
        assert forall|m: int| 0 <= m < succs_of(es, id).len() implies has_edge(es, id, #[trigger] succs_of(es, id)[m]) by {
            if m < succs_of(d, id).len() {
                assert(succs_of(es, id)[m] == succs_of(d, id)[m]);
                assert(has_edge(d, id, succs_of(d, id)[m]));
                let k = choose|k: int| 0 <= k < d.len() && (#[trigger] d[k]).from == id && d[k].to == succs_of(d, id)[m];
                assert(es[k] == d[k]);
            } else {
                let k = es.len() - 1;
                assert(es[k].from == id && es[k].to == succs_of(es, id)[m]);
            }
        }
        assert forall|k: int| 0 <= k < es.len() && (#[trigger] es[k]).from == id implies succs_of(es, id).contains(es[k].to) by {
            if k < es.len() - 1 {
                assert(d[k] == es[k]);
                let m = choose|m: int| 0 <= m < succs_of(d, id).len() && succs_of(d, id)[m] == d[k].to;
                assert(succs_of(es, id)[m] == es[k].to);
            } else {
                assert(succs_of(es, id)[succs_of(es, id).len() - 1] == es[k].to);
            }
        }
    }
}

/// Each source listed by `preds_of` is the source of an edge into `id`, and
/// each edge into `id` has its source listed.
pub proof fn lemma_preds_of(es: Seq<Edge>, id: BlockId)
    ensures
        forall|m: int| 0 <= m < preds_of(es, id).len() ==> has_edge(es, #[trigger] preds_of(es, id)[m], id),
        forall|k: int| 0 <= k < es.len() && (#[trigger] es[k]).to == id ==> preds_of(es, id).contains(es[k].from),
    decreases es.len(),
{
    if es.len() > 0 {
        let d = es.drop_last();
        lemma_preds_of(d, id);
        assert forall|m: int| 0 <= m < preds_of(es, id).len() implies has_edge(es, #[trigger] preds_of(es, id)[m], id) by {
            if m < preds_of(d, id).len() {
                assert(preds_of(es, id)[m] == preds_of(d, id)[m]);
                assert(has_edge(d, preds_of(d, id)[m], id));
                let k = choose|k: int| 0 <= k < d.len() && (#[trigger] d[k]).from == preds_of(d, id)[m] && d[k].to == id;
                assert(es[k] == d[k]);
            } else {
                let k = es.len() - 1;
                assert(es[k].to == id && es[k].from == preds_of(es, id)[m]);
            }
        }
        assert forall|k: int| 0 <= k < es.len() && (#[trigger] es[k]).to == id implies preds_of(es, id).contains(es[k].from) by {
            if k < es.len() - 1 {
                assert(d[k] == es[k]);
                let m = choose|m: int| 0 <= m < preds_of(d, id).len() && preds_of(d, id)[m] == d[k].from;
                assert(preds_of(es, id)[m] == es[k].from);
            } else {
                assert(preds_of(es, id)[preds_of(es, id).len() - 1] == es[k].from);
            }
        }
    }
}

/// Successors and predecessors mirror each other: `b` follows `a` exactly
/// when `a` precedes `b`, exactly when some edge goes from `a` to `b`.
pub proof fn lemma_successors_mirror_predecessors(g: CfgView, a: BlockId, b: BlockId)
    ensures
        succs_of(g.edges, a).contains(b) <==> has_edge(g.edges, a, b),
        preds_of(g.edges, b).contains(a) <==> has_edge(g.edges, a, b),
{
    lemma_succs_of(g.edges, a);
    lemma_preds_of(g.edges, b);
    if succs_of(g.edges, a).contains(b) {
        let m = choose|m: int| 0 <= m < succs_of(g.edges, a).len() && succs_of(g.edges, a)[m] == b;
        assert(has_edge(g.edges, a, succs_of(g.edges, a)[m]));
    }
    if preds_of(g.edges, b).contains(a) {
        let m = choose|m: int| 0 <= m < preds_of(g.edges, b).len() && preds_of(g.edges, b)[m] == a;
        assert(has_edge(g.edges, preds_of(g.edges, b)[m], b));
    }
    if has_edge(g.edges, a, b) {
        let k = choose|k: int| 0 <= k < g.edges.len() && (#[trigger] g.edges[k]).from == a && g.edges[k].to == b;
        assert(g.edges[k].from == a);
        assert(g.edges[k].to == b);
    }
}

/// Adding an edge appends its target to the successors of its source and its
/// source to the predecessors of its target, and changes no other list.
pub proof fn lemma_add_edge_adjacency(es: Seq<Edge>, e: Edge, id: BlockId)
    ensures
        succs_of(es.push(e), id) == (if e.from == id { succs_of(es, id).push(e.to) } else { succs_of(es, id) }),
        preds_of(es.push(e), id) == (if e.to == id { preds_of(es, id).push(e.from) } else { preds_of(es, id) }),
{
    assert(es.push(e).drop_last() =~= es);
}

/// `id` is reached from the entry block in at most `n` steps, every step
/// along an edge whose target is a block of the graph.
pub open spec fn reach_within(g: CfgView, n: nat, id: BlockId) -> bool
    decreases n,
{
    if n == 0 {
        id == g.entry && g.blocks.contains_key(id.0)
    } else {
        reach_within(g, (n - 1) as nat, id) || (g.blocks.contains_key(id.0) && exists|k: int|
            0 <= k < g.edges.len() && (#[trigger] g.edges[k]).to == id && reach_within(g, (n - 1) as nat, g.edges[k].from))
    }
}

/// `id` is a block reached from the entry block along edges between blocks.
pub open spec fn reachable(g: CfgView, id: BlockId) -> bool {
    exists|n: nat| #[trigger] reach_within(g, n, id)
}

/// Reachability is closed: the entry block is reachable, and so is every
/// block that an edge leads to from a reachable block.
pub proof fn lemma_reachable_closed(g: CfgView)
    ensures
        g.blocks.contains_key(g.entry.0) ==> reachable(g, g.entry),
        forall|k: int|
            0 <= k < g.edges.len() && reachable(g, (#[trigger] g.edges[k]).from) && g.blocks.contains_key(g.edges[k].to.0)
                ==> reachable(g, g.edges[k].to),
{
    if g.blocks.contains_key(g.entry.0) {
        assert(reach_within(g, 0, g.entry));
    }
    assert forall|k: int|
        0 <= k < g.edges.len() && reachable(g, (#[trigger] g.edges[k]).from) && g.blocks.contains_key(g.edges[k].to.0) implies reachable(
        g,
        g.edges[k].to,
    ) by {
        let n = choose|n: nat| #[trigger] reach_within(g, n, g.edges[k].from);
        assert(reach_within(g, n + 1, g.edges[k].to));
    }
}

/// Reachability is the least such set: any set of blocks that holds the
/// entry block and every block an edge leads to from one of its members
/// holds every reachable block.
pub proof fn lemma_reachable_least(g: CfgView, s: Set<BlockId>, id: BlockId)
    requires
        g.blocks.contains_key(g.entry.0) ==> s.contains(g.entry),
        forall|k: int|
            0 <= k < g.edges.len() && s.contains((#[trigger] g.edges[k]).from) && g.blocks.contains_key(g.edges[k].to.0) ==> s.contains(
                g.edges[k].to,
            ),
        reachable(g, id),
    ensures
        s.contains(id),
{
    let n = choose|n: nat| #[trigger] reach_within(g, n, id);
    lemma_reach_within_in(g, s, n, id);
}

proof fn lemma_reach_within_in(g: CfgView, s: Set<BlockId>, n: nat, id: BlockId)
    requires
        g.blocks.contains_key(g.entry.0) ==> s.contains(g.entry),
        forall|k: int|
            0 <= k < g.edges.len() && s.contains((#[trigger] g.edges[k]).from) && g.blocks.contains_key(g.edges[k].to.0) ==> s.contains(
                g.edges[k].to,
            ),
        reach_within(g, n, id),
    ensures
        s.contains(id),
    decreases n,
{
    if n > 0 {
        if reach_within(g, (n - 1) as nat, id) {
            lemma_reach_within_in(g, s, (n - 1) as nat, id);
        } else {
            let k = choose|k: int| 0 <= k < g.edges.len() && (#[trigger] g.edges[k]).to == id && reach_within(g, (n - 1) as nat, g.edges[k].from);
            lemma_reach_within_in(g, s, (n - 1) as nat, g.edges[k].from);
        }
    }
}

/// The number of `false` entries.
pub open spec fn count_false(s: Seq<bool>) -> nat
    decreases s.len(),
{
    if s.len() == 0 {
        0
    } else {
        count_false(s.drop_last()) + if s.last() { 0nat } else { 1nat }
    }
}

proof fn lemma_count_false_set(s: Seq<bool>, i: int)
    requires
        0 <= i < s.len(),
        !s[i],
    ensures
        count_false(s.update(i, true)) + 1 == count_false(s),
    decreases s.len(),
{
    let t = s.update(i, true);
    if i == s.len() - 1 {
        assert(t.drop_last() =~= s.drop_last());
    } else {
        assert(t.drop_last() =~= s.drop_last().update(i, true));
        lemma_count_false_set(s.drop_last(), i);
    }
}

/// Membership after a push.
pub proof fn lemma_push_contains<A>(s: Seq<A>, v: A)
    ensures
        forall|x: A| #[trigger] s.push(v).contains(x) <==> (s.contains(x) || x == v),
{
    assert forall|x: A| #[trigger] s.push(v).contains(x) <==> (s.contains(x) || x == v) by {
        if s.contains(x) {
            let i = choose|i: int| 0 <= i < s.len() && s[i] == x;
            assert(s.push(v)[i] == x);
        }
        if x == v {
            assert(s.push(v)[s.len() as int] == x);
        }
        if s.push(v).contains(x) {
            let i = choose|i: int| 0 <= i < s.len() + 1 && s.push(v)[i] == x;
            if i < s.len() {
                assert(s[i] == x);
            }
        }
    }
}

/// Membership after dropping the last element.
pub proof fn lemma_drop_last_contains<A>(s: Seq<A>)
    requires
        s.len() > 0,
    ensures
        forall|x: A| #[trigger] s.contains(x) <==> (s.drop_last().contains(x) || x == s.last()),
{
    assert(s.drop_last().push(s.last()) =~= s);
    lemma_push_contains(s.drop_last(), s.last());
}

/// A list of `n` copies of `false`.
fn falses(n: usize) -> (r: Vec<bool>)
    ensures
        r@.len() == n,
        forall|i: int| 0 <= i < n ==> !r@[i],
{
    let mut r: Vec<bool> = Vec::new();
    let mut i: usize = 0;
    while i < n
        invariant
            i <= n,
            r@.len() == i,
            forall|j: int| 0 <= j < i ==> !r@[j],
        decreases n - i,
    {
        r.push(false);
        i = i + 1;
    }
    r
}

/// Whether `id` is in the list.
fn contains_id(v: &Vec<BlockId>, id: BlockId) -> (r: bool)
    ensures
        r == v@.contains(id),
{
    let mut i: usize = 0;
    while i < v.len()
        invariant
            i <= v@.len(),
            forall|j: int| 0 <= j < i ==> v@[j] != id,
        decreases v.len() - i,
    {
        if v[i] == id {
            return true;
        }
        i = i + 1;
    }
    false
}

impl Cfg {
    /// The blocks reached from the entry block, following edges into blocks of
    /// the graph, in increasing order.
    pub fn reachable_blocks(&self) -> (r: Vec<BlockId>)
        requires
            self.wf(),
        ensures
            sorted_ids(r@),
            forall|id: BlockId| r@.contains(id) <==> reachable(self@, id),
    {
        let n = self.blocks.len();
        let mut marked = falses(n);
        let mut out: Vec<BlockId> = Vec::new();
        let ghost g = self@;
        let ei = match find_key(&self.blocks, self.entry.0) {
            Some(i) => i,
            None => {
                proof {
                    assert forall|id: BlockId| !reachable(g, id) by {
                        if reachable(g, id) {
                            let m = choose|m: nat| #[trigger] reach_within(g, m, id);
                            lemma_reach_within_entry(g, m, id);
                        }
                    }
                }
                return out;
            },
        };
        proof {
            assert(reach_within(g, 0, self.entry));
            assert(BlockId(self.blocks@[ei as int].0) == self.entry);
        }
        let mut stack: Vec<usize> = vec![ei];
        while stack.len() > 0
            invariant
                self.wf(),
                g == self@,
                n == self.blocks@.len(),
                marked@.len() == n,
                ei < n,
                BlockId(self.blocks@[ei as int].0) == self.entry,
                forall|j: int| 0 <= j < stack@.len() ==> (#[trigger] stack@[j]) < n && reachable(g, BlockId(self.blocks@[stack@[j] as int].0)),
                forall|i: int| 0 <= i < n && #[trigger] marked@[i] ==> reachable(g, BlockId(self.blocks@[i].0)),
                marked@[ei as int] || stack@.contains(ei),
                forall|i: int, k: int|
                    0 <= i < n && #[trigger] marked@[i] && 0 <= k < self.edges@.len() && (#[trigger] self.edges@[k]).from.0
                        == self.blocks@[i].0 && has_key(self.blocks@, self.edges@[k].to.0) ==> marked@[key_pos(
                        self.blocks@,
                        self.edges@[k].to.0,
                    )] || stack@.contains(key_pos(self.blocks@, self.edges@[k].to.0) as usize),
            decreases count_false(marked@), stack@.len(),
        {
            let ghost st = stack@;
            let i = stack.pop().unwrap();
            proof {
                lemma_drop_last_contains(st);
                assert(stack@ == st.drop_last());
                assert(i == st.last());
            }
            if marked[i] {
                continue;
            }
            proof {
                lemma_count_false_set(marked@, i as int);
            }
            marked.set(i, true);
            let key = self.blocks[i].0;
            let ghost i0 = i;
            let mut k: usize = 0;
            while k < self.edges.len()
                invariant
                    self.wf(),
                    g == self@,
                    n == self.blocks@.len(),
                    marked@.len() == n,
                    i0 == i,
                    i < n,
                    key == self.blocks@[i as int].0,
                    marked@[i as int],
                    reachable(g, BlockId(key)),
                    ei < n,
                    BlockId(self.blocks@[ei as int].0) == self.entry,
                    marked@[ei as int] || stack@.contains(ei),
                    k <= self.edges@.len(),
                    forall|j: int| 0 <= j < stack@.len() ==> (#[trigger] stack@[j]) < n && reachable(g, BlockId(self.blocks@[stack@[j] as int].0)),
                    forall|kk: int|
                        0 <= kk < k && (#[trigger] self.edges@[kk]).from.0 == key && has_key(self.blocks@, self.edges@[kk].to.0)
                            ==> stack@.contains(key_pos(self.blocks@, self.edges@[kk].to.0) as usize),
                    forall|i2: int, k2: int|
                        0 <= i2 < n && #[trigger] marked@[i2] && i2 != i && 0 <= k2 < self.edges@.len() && (#[trigger] self.edges@[k2]).from.0
                            == self.blocks@[i2].0 && has_key(self.blocks@, self.edges@[k2].to.0) ==> marked@[key_pos(
                            self.blocks@,
                            self.edges@[k2].to.0,
                        )] || stack@.contains(key_pos(self.blocks@, self.edges@[k2].to.0) as usize),
                decreases self.edges.len() - k,
            {
                let e = self.edges[k];
                if e.from.0 == key {
                    match find_key(&self.blocks, e.to.0) {
                        Some(j) => {
                            proof {
                                let m = choose|m: nat| #[trigger] reach_within(g, m, BlockId(key));
                                assert(e.from == BlockId(key));
                                assert(BlockId(self.blocks@[j as int].0) == e.to);
                                assert(reach_within(g, m + 1, e.to));
                            }
                            let ghost st2 = stack@;
                            stack.push(j);
                            proof {
                                lemma_push_contains(st2, j);
                                lemma_key_pos(self.blocks@, j as int);
                            }
                        },
                        None => {},
                    }
                }
                k = k + 1;
            }
        }
        proof {
            assert forall|id: BlockId| reachable(g, id) implies has_key(self.blocks@, id.0) && marked@[key_pos(self.blocks@, id.0)] by {
                let m = choose|m: nat| #[trigger] reach_within(g, m, id);
                self.lemma_marked_closed(marked@, ei as int, m, id);
            }
        }
        let mut i: usize = 0;
        let ghost mut src: Seq<int> = Seq::empty();
        while i < n
            invariant
                self.wf(),
                g == self@,
                n == self.blocks@.len(),
                marked@.len() == n,
                i <= n,
                sorted_ids(out@),
                src.len() == out@.len(),
                forall|m: int| 0 <= m < src.len() ==> 0 <= #[trigger] src[m] < i && marked@[src[m]] && out@[m] == BlockId(self.blocks@[src[m]].0),
                forall|j: int| 0 <= j < i && #[trigger] marked@[j] ==> out@.contains(BlockId(self.blocks@[j].0)),
                forall|i2: int| 0 <= i2 < n && #[trigger] marked@[i2] ==> reachable(g, BlockId(self.blocks@[i2].0)),
            decreases n - i,
        {
            if marked[i] {
                proof {
                    assert forall|m: int| 0 <= m < out@.len() implies (#[trigger] out@[m]).0 < self.blocks@[i as int].0 by {
                        assert(0 <= src[m] < i);
                        assert(self.blocks@[src[m]].0 < self.blocks@[i as int].0);
                    }
                }
                let ghost o = out@;
                out.push(BlockId(self.blocks[i].0));
                proof {
                    lemma_push_contains(o, BlockId(self.blocks@[i as int].0));
                    src = src.push(i as int);
                    assert forall|m: int| 0 <= m < src.len() implies 0 <= #[trigger] src[m] < i + 1 && marked@[src[m]] && out@[m] == BlockId(self.blocks@[src[m]].0) by {
                        if m < o.len() {
                            assert(out@[m] == o[m]);
                        }
                    }
                }
            }
            i = i + 1;
        }
        proof {
            assert forall|id: BlockId| out@.contains(id) <==> reachable(g, id) by {
                if reachable(g, id) {
                    let j = key_pos(self.blocks@, id.0);
                    assert(BlockId(self.blocks@[j].0) == id);
                }
                if out@.contains(id) {
                    let m = choose|m: int| 0 <= m < out@.len() && out@[m] == id;
                    assert(marked@[src[m]]);
                }
            }
        }
        out
    }

    proof fn lemma_marked_closed(&self, marked: Seq<bool>, ei: int, m: nat, id: BlockId)
        requires
            self.wf(),
            marked.len() == self.blocks@.len(),
            0 <= ei < marked.len(),
            marked[ei],
            BlockId(self.blocks@[ei].0) == self.entry,
            forall|i: int, k: int|
                0 <= i < marked.len() && #[trigger] marked[i] && 0 <= k < self.edges@.len() && (#[trigger] self.edges@[k]).from.0
                    == self.blocks@[i].0 && has_key(self.blocks@, self.edges@[k].to.0) ==> marked[key_pos(
                    self.blocks@,
                    self.edges@[k].to.0,
                )],
            reach_within(self@, m, id),
        ensures
            has_key(self.blocks@, id.0),
            marked[key_pos(self.blocks@, id.0)],
        decreases m,
    {
        if m == 0 {
            lemma_key_pos(self.blocks@, ei);
        } else if reach_within(self@, (m - 1) as nat, id) {
            self.lemma_marked_closed(marked, ei, (m - 1) as nat, id);
        } else {
            let k = choose|k: int| 0 <= k < self@.edges.len() && (#[trigger] self@.edges[k]).to == id && reach_within(self@, (m - 1) as nat, self@.edges[k].from);
            let from = self.edges@[k].from;
            self.lemma_marked_closed(marked, ei, (m - 1) as nat, from);
            let i = key_pos(self.blocks@, from.0);
            assert(self.edges@[k].from.0 == self.blocks@[i].0);
        }
    }

    /// The blocks of the graph that are not reachable from the entry, in
    /// increasing order.
    pub fn unreachable_blocks(&self) -> (r: Vec<BlockId>)
        requires
            self.wf(),
        ensures
            sorted_ids(r@),
            forall|id: BlockId| r@.contains(id) <==> self@.blocks.contains_key(id.0) && !reachable(self@, id),
    {
        let reachable_ids = self.reachable_blocks();
        let mut out: Vec<BlockId> = Vec::new();
        let mut i: usize = 0;
        while i < self.blocks.len()
            invariant
                self.wf(),
                i <= self.blocks@.len(),
                sorted_ids(out@),
                forall|id: BlockId| reachable_ids@.contains(id) <==> reachable(self@, id),
                forall|m: int| #![trigger out@[m]] 0 <= m < out@.len() ==> exists|j: int| 0 <= j < i && (#[trigger] self.blocks@[j]).0 == out@[m].0,
                forall|id: BlockId| out@.contains(id) <==> exists|j: int| 0 <= j < i && (#[trigger] self.blocks@[j]).0 == id.0 && !reachable(self@, id),
            decreases self.blocks.len() - i,
        {
            let id = BlockId(self.blocks[i].0);
            if !contains_id(&reachable_ids, id) {
                proof {
                    assert forall|m: int| #![trigger out@[m]] 0 <= m < out@.len() implies out@[m].0 < self.blocks@[i as int].0 by {
                        let j = choose|j: int| 0 <= j < i && (#[trigger] self.blocks@[j]).0 == out@[m].0;
                    }
                }
                let ghost o = out@;
                out.push(id);
                proof {
                    lemma_push_contains(o, id);
                    assert forall|x: BlockId| out@.contains(x) <==> exists|j: int| 0 <= j < i + 1 && (#[trigger] self.blocks@[j]).0 == x.0 && !reachable(self@, x) by {
                        if exists|j: int| 0 <= j < i + 1 && (#[trigger] self.blocks@[j]).0 == x.0 && !reachable(self@, x) {
                            let j = choose|j: int| 0 <= j < i + 1 && (#[trigger] self.blocks@[j]).0 == x.0 && !reachable(self@, x);
                            if j == i {
                                assert(x == id);
                            }
                        }
                        if x == id {
                            assert(self.blocks@[i as int].0 == x.0);
                            assert(!reachable(self@, x));
                        }
                    }
                }
            } else {
                proof {
                    assert forall|x: BlockId| out@.contains(x) <==> exists|j: int| 0 <= j < i + 1 && (#[trigger] self.blocks@[j]).0 == x.0 && !reachable(self@, x) by {
                        if exists|j: int| 0 <= j < i + 1 && (#[trigger] self.blocks@[j]).0 == x.0 && !reachable(self@, x) {
                            let j = choose|j: int| 0 <= j < i + 1 && (#[trigger] self.blocks@[j]).0 == x.0 && !reachable(self@, x);
                            if j == i {
                                assert(x == id);
                            }
                        }
                    }
                }
            }
            i = i + 1;
        }
        proof {
            assert forall|id: BlockId| out@.contains(id) <==> self@.blocks.contains_key(id.0) && !reachable(self@, id) by {
                if self@.blocks.contains_key(id.0) && !reachable(self@, id) {
                    let j = key_pos(self.blocks@, id.0);
                    assert(self.blocks@[j].0 == id.0);
                }
            }
        }
        out
    }

    /// Whether block `id` is reachable from the entry block.
    pub fn is_reachable(&self, id: BlockId) -> (r: bool)
        requires
            self.wf(),
        ensures
            r == reachable(self@, id),
    {
        let reachable_ids = self.reachable_blocks();
        contains_id(&reachable_ids, id)
    }
}

proof fn lemma_reach_within_entry(g: CfgView, m: nat, id: BlockId)
    requires
        reach_within(g, m, id),
    ensures
        g.blocks.contains_key(g.entry.0),
    decreases m,
{
    if m > 0 {
        if reach_within(g, (m - 1) as nat, id) {
            lemma_reach_within_entry(g, (m - 1) as nat, id);
        } else {
            let k = choose|k: int| 0 <= k < g.edges.len() && (#[trigger] g.edges[k]).to == id && reach_within(g, (m - 1) as nat, g.edges[k].from);
            lemma_reach_within_entry(g, (m - 1) as nat, g.edges[k].from);
        }
    }
}


/// The successors still to visit of each frame, plus one per frame.
pub open spec fn pending(es: Seq<Edge>, st: Seq<(BlockId, usize)>) -> int
    decreases st.len(),
{
    if st.len() == 0 {
        0
    } else {
        pending(es, st.drop_last()) + (succs_of(es, st.last().0).len() - st.last().1) + 1
    }
}

proof fn lemma_pending_nonneg(es: Seq<Edge>, st: Seq<(BlockId, usize)>)
    requires
        forall|j: int| 0 <= j < st.len() ==> (#[trigger] st[j]).1 <= succs_of(es, st[j].0).len(),
    ensures
        pending(es, st) >= 0,
    decreases st.len(),
{
    if st.len() > 0 {
        let d = st.drop_last();
        assert forall|j: int| 0 <= j < d.len() implies (#[trigger] d[j]).1 <= succs_of(es, d[j].0).len() by {
            assert(d[j] == st[j]);
        }
        lemma_pending_nonneg(es, d);
        assert(st[st.len() - 1].1 <= succs_of(es, st[st.len() - 1].0).len());
    }
}

/// A frame of the depth-first walk: its block is visited, and so are the
/// successors it has stepped past that are blocks of the graph.
pub open spec fn frame_ok(g: CfgView, visited: Seq<BlockId>, f: (BlockId, usize)) -> bool {
    &&& f.1 <= succs_of(g.edges, f.0).len()
    &&& visited.contains(f.0)
    &&& forall|m: int| 0 <= m < f.1 && g.blocks.contains_key(succs_of(g.edges, f.0)[m].0) ==> visited.contains(
        #[trigger] succs_of(g.edges, f.0)[m],
    )
}

/// Every successor of `v` that is a block of the graph is visited.
pub open spec fn closed_at(g: CfgView, visited: Seq<BlockId>, v: BlockId) -> bool {
    forall|m: int| 0 <= m < succs_of(g.edges, v).len() && g.blocks.contains_key(succs_of(g.edges, v)[m].0) ==> visited.contains(
        #[trigger] succs_of(g.edges, v)[m],
    )
}

/// Some frame of the walk is at block `v`.
pub open spec fn on_stack(st: Seq<(BlockId, usize)>, v: BlockId) -> bool {
    exists|j: int| 0 <= j < st.len() && (#[trigger] st[j]).0 == v
}

/// What the depth-first walk keeps while it runs.
pub open spec fn walk_inv(
    g: CfgView,
    cands: Seq<BlockId>,
    visited: Seq<BlockId>,
    postorder: Seq<BlockId>,
    st: Seq<(BlockId, usize)>,
) -> bool {
    &&& visited.no_duplicates()
    &&& forall|v: BlockId| #[trigger] visited.contains(v) ==> reachable(g, v) && cands.contains(v)
    &&& visited.contains(g.entry)
    &&& forall|j: int| 0 <= j < st.len() ==> frame_ok(g, visited, #[trigger] st[j])
    &&& forall|j: int, l: int| 0 <= j < l < st.len() ==> (#[trigger] st[j]).0 != (#[trigger] st[l]).0
    &&& st.len() > 0 ==> st[0].0 == g.entry
    &&& postorder.no_duplicates()
    &&& forall|v: BlockId| #[trigger] postorder.contains(v) ==> visited.contains(v) && !on_stack(st, v) && closed_at(g, visited, v)
    &&& forall|v: BlockId| #[trigger] visited.contains(v) ==> postorder.contains(v) || on_stack(st, v)
    &&& st.len() == 0 ==> postorder.len() > 0 && postorder.last() == g.entry
}

proof fn lemma_visited_bound(cands: Seq<BlockId>, visited: Seq<BlockId>)
    requires
        visited.no_duplicates(),
        forall|v: BlockId| #[trigger] visited.contains(v) ==> cands.contains(v),
    ensures
        visited.len() <= cands.len(),
{
    visited.unique_seq_to_set();
    cands.lemma_cardinality_of_set();
    assert(visited.to_set().subset_of(cands.to_set()));
    vstd::set_lib::lemma_len_subset(visited.to_set(), cands.to_set());
}

proof fn lemma_reach_closed(g: CfgView, visited: Seq<BlockId>, postorder: Seq<BlockId>, n: nat, id: BlockId)
    requires
        visited.contains(g.entry),
        forall|v: BlockId| #[trigger] visited.contains(v) ==> postorder.contains(v),
        forall|v: BlockId| #[trigger] postorder.contains(v) ==> closed_at(g, visited, v),
        reach_within(g, n, id),
    ensures
        visited.contains(id),
    decreases n,
{
    if n > 0 {
        if reach_within(g, (n - 1) as nat, id) {
            lemma_reach_closed(g, visited, postorder, (n - 1) as nat, id);
        } else {
            let k = choose|k: int| 0 <= k < g.edges.len() && (#[trigger] g.edges[k]).to == id && reach_within(g, (n - 1) as nat, g.edges[k].from);
            let u = g.edges[k].from;
            lemma_reach_closed(g, visited, postorder, (n - 1) as nat, u);
            lemma_succs_of(g.edges, u);
            assert(succs_of(g.edges, u).contains(id));
            let m = choose|m: int| 0 <= m < succs_of(g.edges, u).len() && succs_of(g.edges, u)[m] == id;
            assert(postorder.contains(u));
            assert(closed_at(g, visited, u));
            assert(visited.contains(succs_of(g.edges, u)[m]));
        }
    }
}

/// The state of a depth-first walk: the visited blocks, the post-order so
/// far, and the frames (a block and the index of its next successor).
pub type DfsState = (Seq<BlockId>, Seq<BlockId>, Seq<(BlockId, usize)>);

/// One step of the depth-first walk: the top frame takes its next successor
/// in edge order, entering it when it is an unvisited block; a frame with no
/// successors left is finished and its block appended to the post-order.
pub open spec fn dfs_step(g: CfgView, st: DfsState) -> DfsState {
    let (visited, post, stack) = st;
    if stack.len() == 0 {
        st
    } else {
        let top = stack.last();
        let succs = succs_of(g.edges, top.0);
        if top.1 < succs.len() {
            let succ = succs[top.1 as int];
            let stack2 = stack.update(stack.len() - 1, (top.0, (top.1 + 1) as usize));
            if g.blocks.contains_key(succ.0) && !visited.contains(succ) {
                (visited.push(succ), post, stack2.push((succ, 0usize)))
            } else {
                (visited, post, stack2)
            }
        } else {
            (visited, post.push(top.0), stack.drop_last())
        }
    }
}

/// The depth-first walk from the entry after `n` steps.
pub open spec fn dfs_run(g: CfgView, n: nat) -> DfsState
    decreases n,
{
    if n == 0 {
        (seq![g.entry], Seq::empty(), seq![(g.entry, 0usize)])
    } else {
        dfs_step(g, dfs_run(g, (n - 1) as nat))
    }
}

impl Cfg {
    /// The blocks reached from the entry along edges into blocks, in reverse
    /// post-order of a depth-first walk that takes the successors of each
    /// block in edge order. Every listed block is listed once, the entry
    /// first; none when the entry block is missing.
    pub fn reverse_postorder(&self) -> (r: Vec<BlockId>)
        requires
            self.wf(),
        ensures
            r@.no_duplicates(),
            forall|id: BlockId| r@.contains(id) <==> reachable(self@, id),
            self@.blocks.contains_key(self@.entry.0) ==> r@.len() > 0 && r@[0] == self@.entry,
            !self@.blocks.contains_key(self@.entry.0) ==> r@.len() == 0,
            self@.blocks.contains_key(self@.entry.0) ==> exists|n: nat|
                (#[trigger] dfs_run(self@, n)).2.len() == 0 && r@ == dfs_run(self@, n).1.reverse(),
    {
        let ghost g = self@;
        if self.block(self.entry).is_none() {
            let r: Vec<BlockId> = Vec::new();
            proof {
                assert forall|id: BlockId| r@.contains(id) <==> reachable(g, id) by {
                    if reachable(g, id) {
                        let m = choose|m: nat| #[trigger] reach_within(g, m, id);
                        lemma_reach_within_entry(g, m, id);
                    }
                }
            }
            return r;
        }
        let ghost cands: Seq<BlockId> = seq![self.entry] + self.edges@.map_values(|e: Edge| e.to);
        let mut visited: Vec<BlockId> = vec![self.entry];
        let mut postorder: Vec<BlockId> = Vec::new();
        let mut stack: Vec<(BlockId, usize)> = vec![(self.entry, 0)];
        let ghost mut steps: nat = 0;
        proof {
            assert((visited@, postorder@, stack@) =~= dfs_run(g, 0));
            assert(reach_within(g, 0, self.entry));
            assert(cands[0] == self.entry);
            assert(visited@.contains(self.entry)) by {
                assert(visited@[0] == self.entry);
            }
            assert forall|v: BlockId| #[trigger] visited@.contains(v) implies v == self.entry by {
                let i = choose|i: int| 0 <= i < visited@.len() && visited@[i] == v;
            }
            assert forall|v: BlockId| #[trigger] visited@.contains(v) implies postorder@.contains(v) || on_stack(stack@, v) by {
                assert(stack@[0].0 == v);
            }
            assert(walk_inv(g, cands, visited@, postorder@, stack@));
        }
        while stack.len() > 0
            invariant
                self.wf(),
                g == self@,
                cands == seq![self.entry] + self.edges@.map_values(|e: Edge| e.to),
                walk_inv(g, cands, visited@, postorder@, stack@),
                visited@.len() <= cands.len(),
                (visited@, postorder@, stack@) == dfs_run(g, steps),
            decreases cands.len() - visited@.len(), pending(g.edges, stack@),
        {
            let top = stack.len() - 1;
            let (block, next_idx) = stack[top];
            let succs = self.successors(block);
            let ghost st = stack@;
            let ghost vis = visited@;
            let ghost po = postorder@;
            proof {
                assert(frame_ok(g, vis, st[top as int]));
            }
            if next_idx < succs.len() {
                let succ = succs[next_idx];
                stack.set(top, (block, next_idx + 1));
                proof {
                    assert(st.update(top as int, (block, (next_idx + 1) as usize)).drop_last() =~= st.drop_last());
                    assert(stack@ == st.update(top as int, (block, (next_idx + 1) as usize)));
                    assert(pending(g.edges, stack@) == pending(g.edges, st) - 1);
                    assert forall|j: int| 0 <= j < stack@.len() implies (#[trigger] stack@[j]).1 <= succs_of(g.edges, stack@[j].0).len() by {
                        assert(frame_ok(g, vis, st[j]));
                    }
                    lemma_pending_nonneg(g.edges, stack@);
                    lemma_succs_of(g.edges, block);
                    assert(has_edge(g.edges, block, succs_of(g.edges, block)[next_idx as int]));
                }
                let is_block = self.block(succ).is_some();
                if is_block && !contains_id(&visited, succ) {
                    let ghost st1 = stack@;
                    visited.push(succ);
                    stack.push((succ, 0));
                    proof {
                        lemma_push_contains(vis, succ);
                        // the new block is reached and is a candidate
                        let k = choose|k: int| 0 <= k < g.edges.len() && (#[trigger] g.edges[k]).from == block && g.edges[k].to == succ;
                        let nb = choose|nb: nat| #[trigger] reach_within(g, nb, block);
                        assert(reach_within(g, nb + 1, succ));
                        assert(cands[k + 1] == succ);
                        assert(visited@.no_duplicates()) by {
                            assert forall|a: int, b: int| 0 <= a < b < visited@.len() implies visited@[a] != visited@[b] by {
                                if b == visited@.len() - 1 {
                                    assert(vis.contains(visited@[a]) ==> visited@[a] != succ);
                                    assert(visited@[a] == vis[a]);
                                }
                            }
                        }
                        assert forall|v: BlockId| #[trigger] on_stack(stack@, v) <==> (on_stack(st1, v) || v == succ) by {
                            if on_stack(st1, v) {
                                let j = choose|j: int| 0 <= j < st1.len() && (#[trigger] st1[j]).0 == v;
                                assert(stack@[j] == st1[j]);
                            }
                            if v == succ {
                                assert(stack@[st1.len() as int].0 == v);
                            }
                            if on_stack(stack@, v) {
                                let j = choose|j: int| 0 <= j < stack@.len() && (#[trigger] stack@[j]).0 == v;
                                if j < st1.len() {
                                    assert(st1[j] == stack@[j]);
                                }
                            }
                        }
                        assert forall|v: BlockId| on_stack(st1, v) <==> on_stack(st, v) by {
                            if on_stack(st, v) {
                                let j = choose|j: int| 0 <= j < st.len() && (#[trigger] st[j]).0 == v;
                                assert(st1[j].0 == v);
                            }
                            if on_stack(st1, v) {
                                let j = choose|j: int| 0 <= j < st1.len() && (#[trigger] st1[j]).0 == v;
                                assert(st[j].0 == v);
                            }
                        }
                        assert forall|j: int| 0 <= j < stack@.len() implies frame_ok(g, visited@, #[trigger] stack@[j]) by {
                            if j < st1.len() {
                                assert(frame_ok(g, vis, st[j]));
                                if j == top {
                                    assert forall|m: int| 0 <= m < stack@[j].1 && g.blocks.contains_key(succs_of(g.edges, stack@[j].0)[m].0) implies visited@.contains(#[trigger] succs_of(g.edges, stack@[j].0)[m]) by {
                                        if m < next_idx {
                                            assert(vis.contains(succs_of(g.edges, st[j].0)[m]));
                                        }
                                    }
                                } else {
                                    assert forall|m: int| 0 <= m < stack@[j].1 && g.blocks.contains_key(succs_of(g.edges, stack@[j].0)[m].0) implies visited@.contains(#[trigger] succs_of(g.edges, stack@[j].0)[m]) by {
                                        assert(vis.contains(succs_of(g.edges, st[j].0)[m]));
                                    }
                                }
                            }
                        }
                        assert forall|j: int, l: int| 0 <= j < l < stack@.len() implies (#[trigger] stack@[j]).0 != (#[trigger] stack@[l]).0 by {
                            if l == stack@.len() - 1 {
                                assert(st[j].0 == stack@[j].0);
                                assert(frame_ok(g, vis, st[j]));
                            } else {
                                assert(st[j].0 != st[l].0);
                            }
                        }
                        assert forall|v: BlockId| #[trigger] postorder@.contains(v) implies visited@.contains(v) && !on_stack(stack@, v) && closed_at(g, visited@, v) by {
                            assert(closed_at(g, vis, v));
                            assert forall|m: int| 0 <= m < succs_of(g.edges, v).len() && g.blocks.contains_key(succs_of(g.edges, v)[m].0) implies visited@.contains(#[trigger] succs_of(g.edges, v)[m]) by {
                                assert(vis.contains(succs_of(g.edges, v)[m]));
                            }
                        }
                        lemma_visited_bound(cands, visited@);
                    }
                } else {
                    proof {
                        assert forall|v: BlockId| on_stack(stack@, v) <==> on_stack(st, v) by {
                            if on_stack(st, v) {
                                let j = choose|j: int| 0 <= j < st.len() && (#[trigger] st[j]).0 == v;
                                assert(stack@[j].0 == v);
                            }
                            if on_stack(stack@, v) {
                                let j = choose|j: int| 0 <= j < stack@.len() && (#[trigger] stack@[j]).0 == v;
                                assert(st[j].0 == v);
                            }
                        }
                        assert forall|j: int| 0 <= j < stack@.len() implies frame_ok(g, visited@, #[trigger] stack@[j]) by {
                            assert(frame_ok(g, vis, st[j]));
                            if j == top {
                                assert forall|m: int| 0 <= m < stack@[j].1 && g.blocks.contains_key(succs_of(g.edges, stack@[j].0)[m].0) implies visited@.contains(#[trigger] succs_of(g.edges, stack@[j].0)[m]) by {
                                    if m < next_idx {
                                        assert(vis.contains(succs_of(g.edges, st[j].0)[m]));
                                    }
                                }
                            }
                        }
                        assert forall|j: int, l: int| 0 <= j < l < stack@.len() implies (#[trigger] stack@[j]).0 != (#[trigger] stack@[l]).0 by {
                            assert(st[j].0 != st[l].0);
                        }
                    }
                }
            } else {
                postorder.push(block);
                stack.pop();
                proof {
                    lemma_push_contains(po, block);
                    assert(stack@ == st.drop_last());
                    assert(pending(g.edges, stack@) == pending(g.edges, st) - 1);
                    assert forall|j: int| 0 <= j < stack@.len() implies (#[trigger] stack@[j]).1 <= succs_of(g.edges, stack@[j].0).len() by {
                        assert(frame_ok(g, vis, st[j]));
                    }
                    lemma_pending_nonneg(g.edges, stack@);
                    assert(frame_ok(g, vis, st[top as int]));
                    assert(next_idx == succs_of(g.edges, block).len());
                    assert(!po.contains(block)) by {
                        if po.contains(block) {
                            assert(!on_stack(st, block));
                            assert(st[top as int].0 == block);
                        }
                    }
                    assert(postorder@.no_duplicates()) by {
                        assert forall|a: int, b: int| 0 <= a < b < postorder@.len() implies postorder@[a] != postorder@[b] by {
                            if b == postorder@.len() - 1 {
                                assert(postorder@[a] == po[a]);
                                assert(po.contains(po[a]));
                            }
                        }
                    }
                    assert forall|v: BlockId| on_stack(stack@, v) <==> (on_stack(st, v) && v != block) by {
                        if on_stack(st, v) && v != block {
                            let j = choose|j: int| 0 <= j < st.len() && (#[trigger] st[j]).0 == v;
                            assert(j != top);
                            assert(stack@[j].0 == v);
                        }
                        if on_stack(stack@, v) {
                            let j = choose|j: int| 0 <= j < stack@.len() && (#[trigger] stack@[j]).0 == v;
                            assert(st[j].0 == v);
                            assert(st[j].0 != st[top as int].0);
                        }
                    }
                    assert forall|j: int| 0 <= j < stack@.len() implies frame_ok(g, visited@, #[trigger] stack@[j]) by {
                        assert(frame_ok(g, vis, st[j]));
                    }
                    assert forall|j: int, l: int| 0 <= j < l < stack@.len() implies (#[trigger] stack@[j]).0 != (#[trigger] stack@[l]).0 by {
                        assert(st[j].0 != st[l].0);
                    }
                    assert(closed_at(g, visited@, block)) by {
                        assert forall|m: int| 0 <= m < succs_of(g.edges, block).len() && g.blocks.contains_key(succs_of(g.edges, block)[m].0) implies visited@.contains(#[trigger] succs_of(g.edges, block)[m]) by {
                            assert(st[top as int].0 == block);
                        }
                    }
                    if stack@.len() == 0 {
                        assert(top == 0);
                        assert(block == g.entry);
                        assert(postorder@.last() == block);
                    }
                }
            }
            proof {
                assert((visited@, postorder@, stack@) == dfs_step(g, (vis, po, st)));
                steps = steps + 1;
            }
        }
        proof {
            assert forall|id: BlockId| reachable(g, id) implies visited@.contains(id) by {
                let n = choose|n: nat| #[trigger] reach_within(g, n, id);
                assert forall|v: BlockId| #[trigger] visited@.contains(v) implies postorder@.contains(v) by {
                    assert(!on_stack(stack@, v));
                }
                lemma_reach_closed(g, visited@, postorder@, n, id);
            }
        }
        let n = postorder.len();
        let mut r: Vec<BlockId> = Vec::new();
        let mut i: usize = n;
        while i > 0
            invariant
                i <= n,
                n == postorder@.len(),
                r@.len() == n - i,
                forall|j: int| 0 <= j < r@.len() ==> r@[j] == postorder@[n - 1 - j],
            decreases i,
        {
            i = i - 1;
            r.push(postorder[i]);
        }
        proof {
            assert forall|a: int, b: int| 0 <= a < b < r@.len() implies r@[a] != r@[b] by {
                assert(postorder@[n - 1 - a] != postorder@[n - 1 - b]);
            }
            assert forall|id: BlockId| r@.contains(id) <==> reachable(g, id) by {
                if r@.contains(id) {
                    let j = choose|j: int| 0 <= j < r@.len() && r@[j] == id;
                    assert(postorder@.contains(postorder@[n - 1 - j]));
                }
                if reachable(g, id) {
                    assert(visited@.contains(id));
                    assert(!on_stack(stack@, id));
                    let j = choose|j: int| 0 <= j < n && postorder@[j] == id;
                    assert(r@[n - 1 - j] == id);
                }
            }
            assert(r@ =~= postorder@.reverse());
            assert(dfs_run(g, steps).2.len() == 0);
        }
        r
    }
}

} // verus!
