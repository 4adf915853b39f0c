//! Graphviz rendering of a control-flow graph.
use vstd::prelude::*;

use super::block::{BlockId, BlockView};
use super::graph::{reachable, Cfg, CfgView, Edge, EdgeKind};
use crate::text::{dec, hex_word, push_decimal, push_hex_word};

verus! {

/// The node name of a block: `BB` and its number.
pub open spec fn node_name(id: BlockId) -> Seq<char> {
    "BB"@ + dec(id.0 as nat)
}

/// The number of instructions of a block.
pub open spec fn instruction_count_of(b: BlockView) -> nat {
    if b.range_start < b.range_end {
        (b.range_end - b.range_start) as nat
    } else {
        0
    }
}

/// Fill of a node: grey when unreachable, else green for the entry, else red
/// for an exit, else none.
pub open spec fn node_style(g: CfgView, id: BlockId) -> Seq<char> {
    if !reachable(g, id) {
        ", style=filled, fillcolor=lightgray"@
    } else if id == g.entry {
        ", style=filled, fillcolor=lightgreen"@
    } else if g.exits.contains(id) {
        ", style=filled, fillcolor=lightcoral"@
    } else {
        ""@
    }
}

/// The label part of a block's line: name, byte range and instruction count.
pub open spec fn node_head(b: BlockView) -> Seq<char> {
    "  "@ + node_name(b.id) + " [label=\""@ + node_name(b.id) + "\\n["@ + hex_word(b.start_offset as nat) + "-"@
        + hex_word(b.end_offset as nat) + ")\\n"@ + dec(instruction_count_of(b)) + " instrs\""@
}

/// The line of one block: its label and fill.
pub open spec fn node_line(g: CfgView, b: BlockView) -> Seq<char> {
    node_head(b) + node_style(g, b.id) + "];\n"@
}

/// Attributes of an edge line by kind.
pub open spec fn edge_style(k: EdgeKind) -> Seq<char> {
    match k {
        EdgeKind::Unconditional => ""@,
        EdgeKind::ConditionalTrue => " [color=green, label=\"T\"]"@,
        EdgeKind::ConditionalFalse => " [color=red, label=\"F\"]"@,
        EdgeKind::Exception => " [color=orange, style=dashed, label=\"exc\"]"@,
        EdgeKind::Finally => " [color=blue, style=dashed, label=\"finally\"]"@,
    }
}

/// The line of one edge.
pub open spec fn edge_line(e: Edge) -> Seq<char> {
    "  "@ + node_name(e.from) + " -> "@ + node_name(e.to) + edge_style(e.kind) + ";\n"@
}

/// The lines of the given blocks, in order.
pub open spec fn node_lines(g: CfgView, bs: Seq<BlockView>) -> Seq<char>
    decreases bs.len(),
{
    if bs.len() == 0 {
        Seq::empty()
    } else {
        node_lines(g, bs.drop_last()) + node_line(g, bs.last())
    }
}

/// The lines of the given edges, in order.
pub open spec fn edge_lines(es: Seq<Edge>) -> Seq<char>
    decreases es.len(),
{
    if es.len() == 0 {
        Seq::empty()
    } else {
        edge_lines(es.drop_last()) + edge_line(es.last())
    }
}

/// The whole Graphviz text: header, one line per block, one per edge.
pub open spec fn dot_text(g: CfgView, bs: Seq<BlockView>) -> Seq<char> {
    "digraph CFG {\n"@ + "  node [shape=box];\n"@ + node_lines(g, bs) + edge_lines(g.edges) + "}\n"@
}

fn contains(v: &Vec<BlockId>, id: BlockId) -> (r: bool)
    ensures
        r == v@.contains(id),
{
    let mut i: usize = 0;
    while i < v.len()
        invariant
            i <= v@.len(),
            forall|j: int| 0 <= j < i ==> v@[j] != id,
        decreases v.len() - i,
    {
        if v[i] == id {
            return true;
        }
        i = i + 1;
    }
    false
}

fn push_node_name(s: &mut String, id: BlockId)
    ensures
        final(s)@ == old(s)@ + node_name(id),
{
    s.append("BB");
    push_decimal(s, id.0 as u64);
    assert(final(s)@ =~= old(s)@ + node_name(id));
}

fn push_node_head(dot: &mut String, block: &super::block::BasicBlock)
    ensures
        final(dot)@ == old(dot)@ + node_head(block@),
{
    dot.append("  ");
    push_node_name(dot, block.id);
    dot.append(" [label=\"");
    push_node_name(dot, block.id);
    dot.append("\\n[");
    push_hex_word(dot, block.start_offset as u64);
    dot.append("-");
    push_hex_word(dot, block.end_offset as u64);
    dot.append(")\\n");
    push_decimal(dot, block.instruction_count() as u64);
    dot.append(" instrs\"");
    proof {
        assert(final(dot)@ =~= old(dot)@ + node_head(block@));
    }
}

fn push_node_line(
    dot: &mut String,
    block: &super::block::BasicBlock,
    reachable_ids: &Vec<BlockId>,
    exits: &Vec<BlockId>,
    entry: BlockId,
    Ghost(g): Ghost<CfgView>,
)
    requires
        entry == g.entry,
        exits@.to_set() == g.exits,
        forall|id: BlockId| reachable_ids@.contains(id) <==> reachable(g, id),
    ensures
        final(dot)@ == old(dot)@ + node_line(g, block@),
{
    push_node_head(dot, block);
    let ghost mid = dot@;
    if !contains(reachable_ids, block.id) {
        dot.append(", style=filled, fillcolor=lightgray");
    } else if block.id == entry {
        dot.append(", style=filled, fillcolor=lightgreen");
    } else if contains(exits, block.id) {
        dot.append(", style=filled, fillcolor=lightcoral");
    } else {
        dot.append("");
    }
    proof {
        assert(exits@.contains(block.id) <==> g.exits.contains(block.id));
        assert(dot@ == mid + node_style(g, block.id));
    }
    dot.append("];\n");
    proof {
        assert(final(dot)@ =~= old(dot)@ + node_line(g, block@));
    }
}

impl Cfg {
    /// The graph in Graphviz form: one box per block, in increasing order of
    /// the numbers, labelled with its range and instruction count and filled
    /// by reachability, entry and exit; then one arrow per edge in insertion
    /// order, coloured by kind.
    pub fn to_dot(&self) -> (r: String)
        requires
            self.wf(),
        ensures
            r@ == dot_text(self@, self.block_list()),
    {
        let mut dot = String::from_str("digraph CFG {\n");
        dot.append("  node [shape=box];\n");
        let reachable_ids = self.reachable_blocks();
        let exits = self.exit_blocks();
        let entry = self.entry_id();
        let blocks = self.blocks();
        let ghost g = self@;
        let ghost bs = self.block_list();
        let mut i: usize = 0;
        while i < blocks.len()
            invariant
                g == self@,
                bs == self.block_list(),
                blocks@.map_values(|b: &super::block::BasicBlock| b@) == bs,
                i <= blocks@.len(),
                entry == g.entry,
                exits@.to_set() == g.exits,
                forall|id: BlockId| reachable_ids@.contains(id) <==> reachable(g, id),
                dot@ == "digraph CFG {\n"@ + "  node [shape=box];\n"@ + node_lines(g, bs.take(i as int)),
            decreases blocks.len() - i,
        {
            let block = blocks[i];
            proof {
                assert(bs[i as int] == block@);
            }
            push_node_line(&mut dot, block, &reachable_ids, exits, entry, Ghost(g));
            proof {
                assert(bs.take(i + 1).drop_last() =~= bs.take(i as int));
                assert(dot@ =~= "digraph CFG {\n"@ + "  node [shape=box];\n"@ + node_lines(g, bs.take(i + 1)));
            }
            i = i + 1;
        }
        proof {
            assert(bs.take(i as int) =~= bs);
        }
        let edges = self.edges();
        let ghost prefix = dot@;
        let mut k: usize = 0;
        while k < edges.len()
            invariant
                g == self@,
                edges@ == g.edges,
                k <= edges@.len(),
                dot@ == prefix + edge_lines(g.edges.take(k as int)),
            decreases edges.len() - k,
        {
            let e = edges[k];
            dot.append("  ");
            push_node_name(&mut dot, e.from);
            dot.append(" -> ");
            push_node_name(&mut dot, e.to);
            match e.kind {
                EdgeKind::Unconditional => dot.append(""),
                EdgeKind::ConditionalTrue => dot.append(" [color=green, label=\"T\"]"),
                EdgeKind::ConditionalFalse => dot.append(" [color=red, label=\"F\"]"),
                EdgeKind::Exception => dot.append(" [color=orange, style=dashed, label=\"exc\"]"),
                EdgeKind::Finally => dot.append(" [color=blue, style=dashed, label=\"finally\"]"),
            }
            dot.append(";\n");
            proof {
                assert(g.edges.take(k + 1).drop_last() =~= g.edges.take(k as int));
                assert(dot@ =~= prefix + edge_lines(g.edges.take(k + 1)));
            }
            k = k + 1;
        }
        proof {
            assert(g.edges.take(k as int) =~= g.edges);
        }
        dot.append("}\n");
        proof {
            assert(dot@ =~= dot_text(g, bs));
        }
        dot
    }
}

} // verus!
