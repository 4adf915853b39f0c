//! How faithfully a method body was lowered: per-opcode fidelity and the
//! report of lowering issues, ordered and deduplicated by what they are
//! about.
use crate::common::opcode::{opcode_byte, OpCode};
use crate::text::{lemma_seq_lt_irrefl, lemma_seq_lt_total, lemma_seq_lt_trans, seq_lt, str_eq, str_lt};
use vstd::prelude::*;

verus! {

/// How faithfully code was lowered; later variants are worse.
#[derive(Debug, Clone, Copy, PartialEq, Eq, Structural)]
pub enum Fidelity {
    Exact,
    Conservative,
    Incomplete,
}

/// The rank of a fidelity in the order `Exact < Conservative < Incomplete`.
pub open spec fn fidelity_rank(f: Fidelity) -> nat {
    match f {
        Fidelity::Exact => 0,
        Fidelity::Conservative => 1,
        Fidelity::Incomplete => 2,
    }
}

/// The kind of a lowering issue, in their order.
#[derive(Debug, Clone, Copy, PartialEq, Eq, Structural)]
pub enum LoweringIssueKind {
    UnsupportedControl,
    UnsupportedOpcode,
    LostStackValue,
    MissingOperandMetadata,
    UnresolvedCall,
    MissingProvenance,
    BudgetExceeded,
}

/// The rank of an issue kind in declaration order.
pub open spec fn kind_rank(k: LoweringIssueKind) -> nat {
    match k {
        LoweringIssueKind::UnsupportedControl => 0,
        LoweringIssueKind::UnsupportedOpcode => 1,
        LoweringIssueKind::LostStackValue => 2,
        LoweringIssueKind::MissingOperandMetadata => 3,
        LoweringIssueKind::UnresolvedCall => 4,
        LoweringIssueKind::MissingProvenance => 5,
        LoweringIssueKind::BudgetExceeded => 6,
    }
}

/// One thing lowering could not represent exactly.
#[derive(Debug, PartialEq, Eq)]
pub struct LoweringIssue {
    pub offset: usize,
    pub opcode: OpCode,
    pub kind: LoweringIssueKind,
    pub fidelity: Fidelity,
    pub detail: String,
}

/// Model of an issue.
pub struct IssueView {
    pub offset: usize,
    pub opcode: OpCode,
    pub kind: LoweringIssueKind,
    pub fidelity: Fidelity,
    pub detail: Seq<char>,
}

impl View for LoweringIssue {
    type V = IssueView;

    open spec fn view(&self) -> IssueView {
        IssueView { offset: self.offset, opcode: self.opcode, kind: self.kind, fidelity: self.fidelity, detail: self.detail@ }
    }
}

/// The models of a list of issues.
pub open spec fn issue_views(v: Seq<LoweringIssue>) -> Seq<IssueView> {
    v.map_values(|i: LoweringIssue| i@)
}

/// Two issues are about the same thing: offset, opcode, kind and detail.
#[verifier::opaque]
pub open spec fn same_ident(a: IssueView, b: IssueView) -> bool {
    a.offset == b.offset && opcode_byte(a.opcode) == opcode_byte(b.opcode) && a.kind == b.kind && a.detail == b.detail
}

/// The order of issues by offset, then opcode byte, then kind, then detail.
#[verifier::opaque]
pub open spec fn ident_lt(a: IssueView, b: IssueView) -> bool {
    ||| a.offset < b.offset
    ||| a.offset == b.offset && opcode_byte(a.opcode) < opcode_byte(b.opcode)
    ||| a.offset == b.offset && opcode_byte(a.opcode) == opcode_byte(b.opcode) && kind_rank(a.kind) < kind_rank(b.kind)
    ||| a.offset == b.offset && opcode_byte(a.opcode) == opcode_byte(b.opcode) && a.kind == b.kind && seq_lt(a.detail, b.detail)
}

proof fn lemma_kind_rank_injective(a: LoweringIssueKind, b: LoweringIssueKind)
    ensures
        kind_rank(a) == kind_rank(b) ==> a == b,
{
}

proof fn lemma_ident_order(a: IssueView, b: IssueView, c: IssueView)
    ensures
        !ident_lt(a, a),
        ident_lt(a, b) ==> !same_ident(a, b) && !ident_lt(b, a),
        ident_lt(a, b) || ident_lt(b, a) || same_ident(a, b),
        ident_lt(a, b) && ident_lt(b, c) ==> ident_lt(a, c),
        same_ident(a, b) && ident_lt(b, c) ==> ident_lt(a, c),
        ident_lt(a, b) && same_ident(b, c) ==> ident_lt(a, c),
        same_ident(a, a),
        same_ident(a, b) ==> same_ident(b, a),
        same_ident(a, b) && same_ident(b, c) ==> same_ident(a, c),
{
    reveal(ident_lt);
    reveal(same_ident);
    lemma_seq_lt_irrefl(a.detail);
    lemma_seq_lt_irrefl(b.detail);
    lemma_seq_lt_total(a.detail, b.detail);
    lemma_kind_rank_injective(a.kind, b.kind);
    lemma_kind_rank_injective(b.kind, c.kind);
    lemma_kind_rank_injective(a.kind, c.kind);
    if a.offset == b.offset && opcode_byte(a.opcode) == opcode_byte(b.opcode) && a.kind == b.kind && seq_lt(a.detail, b.detail) {
        if seq_lt(b.detail, a.detail) {
            lemma_seq_lt_trans(a.detail, b.detail, a.detail);
        }
    }
    if ident_lt(a, b) && ident_lt(b, c) && a.offset == c.offset && opcode_byte(a.opcode) == opcode_byte(c.opcode)
        && a.kind == c.kind {
        lemma_seq_lt_trans(a.detail, b.detail, c.detail);
    }
}

/// Issues strictly ordered by `ident_lt`: sorted, one per thing.
pub open spec fn ident_sorted(s: Seq<IssueView>) -> bool {
    forall|i: int, j: int| 0 <= i < j < s.len() ==> ident_lt(#[trigger] s[i], #[trigger] s[j])
}

/// Some issue of `r` is about what issue `k` of `s` is about.
pub open spec fn covered(s: Seq<IssueView>, r: Seq<IssueView>, k: int) -> bool {
    exists|i: int| 0 <= i < r.len() && same_ident(r[i], s[k])
}

/// Issue `i` of `r` is one of the issues of `s`.
pub open spec fn from_input(s: Seq<IssueView>, r: Seq<IssueView>, i: int) -> bool {
    exists|k: int| 0 <= k < s.len() && r[i] == s[k]
}

/// `r` holds, in order, one issue for each thing `s` has issues about: the
/// worst of them.
pub open spec fn deduplicated(s: Seq<IssueView>, r: Seq<IssueView>) -> bool {
    &&& ident_sorted(r)
    &&& forall|k: int| 0 <= k < s.len() ==> #[trigger] covered(s, r, k)
    &&& forall|i: int| 0 <= i < r.len() ==> #[trigger] from_input(s, r, i)
    &&& forall|i: int, k: int|
        0 <= i < r.len() && 0 <= k < s.len() && same_ident(#[trigger] r[i], #[trigger] s[k]) ==> fidelity_rank(s[k].fidelity)
            <= fidelity_rank(r[i].fidelity)
}

/// The worst fidelity among issues; exact when there are none.
pub open spec fn worst(s: Seq<IssueView>) -> Fidelity
    decreases s.len(),
{
    if s.len() == 0 {
        Fidelity::Exact
    } else {
        let w = worst(s.drop_last());
        if fidelity_rank(s.last().fidelity) > fidelity_rank(w) {
            s.last().fidelity
        } else {
            w
        }
    }
}

/// The first issue that leaves the lowering incomplete, else the first
/// issue.
pub open spec fn primary_index(s: Seq<IssueView>) -> Option<int> {
    if exists|i: int| 0 <= i < s.len() && s[i].fidelity == Fidelity::Incomplete {
        Some(choose|i: int| 0 <= i < s.len() && s[i].fidelity == Fidelity::Incomplete && forall|j: int| 0 <= j < i ==> s[j].fidelity != Fidelity::Incomplete)
    } else if s.len() > 0 {
        Some(0)
    } else {
        None
    }
}

/// The fidelity of lowering one opcode, when its operand is known.
#[derive(Debug, Clone, Copy, PartialEq, Eq, Structural)]
pub enum OpcodeFidelity {
    Exact,
    Conservative,
    Incomplete(LoweringIssueKind),
}

/// The fidelity of lowering an opcode: unknown opcodes are unsupported,
/// aborts and syscalls are lowered conservatively, everything else exactly.
pub fn classify_opcode(opcode: OpCode) -> (r: OpcodeFidelity)
    ensures
        r == match opcode {
            OpCode::UNKNOWN(_) => OpcodeFidelity::Incomplete(LoweringIssueKind::UnsupportedOpcode),
            OpCode::ABORT | OpCode::ABORTMSG | OpCode::SYSCALL => OpcodeFidelity::Conservative,
            _ => OpcodeFidelity::Exact,
        },
{
    match opcode {
        OpCode::UNKNOWN(_) => OpcodeFidelity::Incomplete(LoweringIssueKind::UnsupportedOpcode),
        OpCode::ABORT | OpCode::ABORTMSG | OpCode::SYSCALL => OpcodeFidelity::Conservative,
        _ => OpcodeFidelity::Exact,
    }
}

fn fidelity_rank_of(f: Fidelity) -> (r: u8)
    ensures
        r == fidelity_rank(f),
{
    match f {
        Fidelity::Exact => 0,
        Fidelity::Conservative => 1,
        Fidelity::Incomplete => 2,
    }
}

fn kind_rank_of(k: LoweringIssueKind) -> (r: u8)
    ensures
        r == kind_rank(k),
{
    match k {
        LoweringIssueKind::UnsupportedControl => 0,
        LoweringIssueKind::UnsupportedOpcode => 1,
        LoweringIssueKind::LostStackValue => 2,
        LoweringIssueKind::MissingOperandMetadata => 3,
        LoweringIssueKind::UnresolvedCall => 4,
        LoweringIssueKind::MissingProvenance => 5,
        LoweringIssueKind::BudgetExceeded => 6,
    }
}

fn issue_lt(a: &LoweringIssue, b: &LoweringIssue) -> (r: bool)
    ensures
        r == ident_lt(a@, b@),
{
    reveal(ident_lt);
    if a.offset != b.offset {
        return a.offset < b.offset;
    }
    let ab = a.opcode.byte();
    let bb = b.opcode.byte();
    if ab != bb {
        return ab < bb;
    }
    let ak = kind_rank_of(a.kind);
    let bk = kind_rank_of(b.kind);
    if ak != bk {
        proof {
            lemma_kind_rank_injective(a.kind, b.kind);
        }
        return ak < bk;
    }
    proof {
        lemma_kind_rank_injective(a.kind, b.kind);
    }
    str_lt(a.detail.as_str(), b.detail.as_str())
}

fn issue_same(a: &LoweringIssue, b: &LoweringIssue) -> (r: bool)
    ensures
        r == same_ident(a@, b@),
{
    reveal(same_ident);
    a.offset == b.offset && a.opcode.byte() == b.opcode.byte() && a.kind == b.kind && str_eq(a.detail.as_str(), b.detail.as_str())
}

fn copy_issue(x: &LoweringIssue) -> (r: LoweringIssue)
    ensures
        r@ == x@,
{
    LoweringIssue { offset: x.offset, opcode: x.opcode, kind: x.kind, fidelity: x.fidelity, detail: x.detail.clone() }
}

/// Lowering fidelity of a method: its status, its issues, the offsets it
/// covered and how many instructions it had.
#[derive(Debug, PartialEq, Eq)]
pub struct FidelityReport {
    pub status: Fidelity,
    pub issues: Vec<LoweringIssue>,
    pub covered_offsets: Vec<usize>,
    pub instruction_count: usize,
}

impl FidelityReport {
    /// An exact report with no issues for `instruction_count` instructions.
    pub fn exact(instruction_count: usize) -> (r: Self)
        ensures
            r.status == Fidelity::Exact,
            r.issues@.len() == 0,
            r.covered_offsets@.len() == 0,
            r.instruction_count == instruction_count,
    {
        FidelityReport { status: Fidelity::Exact, issues: Vec::new(), covered_offsets: Vec::new(), instruction_count }
    }

    /// Order the issues by offset, opcode, kind and detail, keep the worst
    /// of the issues about the same thing, and set the status to the worst
    /// fidelity left (exact when there is no issue).
    pub fn finish(&mut self)
        ensures
            deduplicated(issue_views(old(self).issues@), issue_views(final(self).issues@)),
            final(self).status == worst(issue_views(final(self).issues@)),
            final(self).covered_offsets == old(self).covered_offsets,
            final(self).instruction_count == old(self).instruction_count,
    {
        let ghost s = issue_views(self.issues@);
        let mut out: Vec<LoweringIssue> = Vec::new();
        let mut i: usize = 0;
        while i < self.issues.len()
            invariant
                s == issue_views(self.issues@),
                i <= self.issues@.len(),
                deduplicated(s.take(i as int), issue_views(out@)),
            decreases self.issues@.len() - i,
        {
            let x = copy_issue(&self.issues[i]);
            proof {
                assert(s[i as int] == x@);
            }
            insert_issue(&mut out, x, Ghost(s.take(i as int)));
            proof {
                assert(s.take(i + 1) =~= s.take(i as int).push(s[i as int]));
            }
            i = i + 1;
        }
        proof {
            assert(s.take(i as int) =~= s);
        }
        self.issues = out;
        let mut status = Fidelity::Exact;
        let mut k: usize = 0;
        proof {
            assert(issue_views(self.issues@).take(0) =~= Seq::<IssueView>::empty());
        }
        while k < self.issues.len()
            invariant
                k <= self.issues@.len(),
                status == worst(issue_views(self.issues@).take(k as int)),
            decreases self.issues@.len() - k,
        {
            proof {
                let v = issue_views(self.issues@);
                assert(v.take(k + 1).drop_last() =~= v.take(k as int));
                assert(v.take(k + 1).last() == self.issues@[k as int]@);
            }
            if fidelity_rank_of(self.issues[k].fidelity) > fidelity_rank_of(status) {
                status = self.issues[k].fidelity;
            }
            k = k + 1;
        }
        proof {
            assert(issue_views(self.issues@).take(k as int) =~= issue_views(self.issues@));
        }
        self.status = status;
    }

    /// The first issue that leaves the lowering incomplete, else the first
    /// issue, if any.
    pub fn primary_issue(&self) -> (r: Option<&LoweringIssue>)
        ensures
            match primary_index(issue_views(self.issues@)) {
                Some(i) => r matches Some(x) && x@ == issue_views(self.issues@)[i],
                None => r is None,
            },
    {
        let ghost v = issue_views(self.issues@);
        let mut i: usize = 0;
        while i < self.issues.len()
            invariant
                v == issue_views(self.issues@),
                i <= self.issues@.len(),
                forall|j: int| 0 <= j < i ==> v[j].fidelity != Fidelity::Incomplete,
            decreases self.issues@.len() - i,
        {
            if self.issues[i].fidelity == Fidelity::Incomplete {
                proof {
                    assert(v[i as int].fidelity == Fidelity::Incomplete);
                    let c = choose|c: int| 0 <= c < v.len() && v[c].fidelity == Fidelity::Incomplete && forall|j: int| 0 <= j < c ==> v[j].fidelity != Fidelity::Incomplete;
                    if c < i {
                    } else if c > i {
                        assert(v[i as int].fidelity != Fidelity::Incomplete);
                    }
                }
                return Some(&self.issues[i]);
            }
            i = i + 1;
        }
        if self.issues.len() > 0 {
            Some(&self.issues[0])
        } else {
            None
        }
    }
}

/// Insert an issue into an ordered, deduplicated list: beside an issue about
/// the same thing the worse of the two stays.
fn insert_issue(v: &mut Vec<LoweringIssue>, x: LoweringIssue, Ghost(s): Ghost<Seq<IssueView>>)
    requires
        deduplicated(s, issue_views(old(v)@)),
    ensures
        deduplicated(s.push(x@), issue_views(final(v)@)),
{
    let ghost t = issue_views(v@);
    let ghost xv = x@;
    let ghost s2 = s.push(xv);
    let mut p: usize = 0;
    while p < v.len() && issue_lt(&v[p], &x)
        invariant
            p <= v@.len(),
            t == issue_views(v@),
            xv == x@,
            forall|j: int| 0 <= j < p ==> ident_lt(#[trigger] t[j], xv),
        decreases v.len() - p,
    {
        p = p + 1;
    }
    if p < v.len() && issue_same(&v[p], &x) {
        if fidelity_rank_of(x.fidelity) > fidelity_rank_of(v[p].fidelity) {
            let ghost old_p = t[p as int];
            v.set(p, x);
            proof {
                let u = issue_views(v@);
                assert(u =~= t.update(p as int, xv));
                lemma_replace_keeps_dedup(s, t, xv, p as int);
            }
        } else {
            proof {
                lemma_absorb_keeps_dedup(s, t, xv, p as int);
            }
        }
    } else {
        proof {
            if p < t.len() {
                lemma_ident_order(t[p as int], xv, xv);
                assert(!ident_lt(t[p as int], xv));
                assert(!same_ident(t[p as int], xv));
                assert(ident_lt(xv, t[p as int]));
            }
        }
        v.insert(p, x);
        proof {
            let u = issue_views(v@);
            assert(u =~= t.insert(p as int, xv));
            lemma_insert_keeps_dedup(s, t, xv, p as int);
        }
    }
}

proof fn lemma_replace_keeps_dedup(s: Seq<IssueView>, t: Seq<IssueView>, x: IssueView, p: int)
    requires
        deduplicated(s, t),
        0 <= p < t.len(),
        same_ident(t[p], x),
        fidelity_rank(x.fidelity) > fidelity_rank(t[p].fidelity),
    ensures
        deduplicated(s.push(x), t.update(p, x)),
{
    let s2 = s.push(x);
    let u = t.update(p, x);
    lemma_ident_order(t[p], x, x);
    assert forall|i: int, j: int| 0 <= i < j < u.len() implies ident_lt(#[trigger] u[i], #[trigger] u[j]) by {
        assert(ident_lt(t[i], t[j]));
        if i == p {
            lemma_ident_order(x, t[p], t[j]);
        } else if j == p {
            lemma_ident_order(t[i], t[p], x);
        }
    }
    assert forall|k: int| 0 <= k < s2.len() implies covered(s2, u, k) by {
        if k < s.len() {
            assert(s2[k] == s[k]);
            assert(covered(s, t, k));
            let i = choose|i: int| 0 <= i < t.len() && same_ident(t[i], s[k]);
            if i == p {
                lemma_ident_order(x, t[p], s[k]);
                assert(same_ident(u[p], s2[k]));
            } else {
                assert(same_ident(u[i], s2[k]));
            }
        } else {
            lemma_ident_order(x, x, x);
            assert(same_ident(u[p], s2[k]));
        }
    }
    assert forall|i: int| 0 <= i < u.len() implies from_input(s2, u, i) by {
        if i == p {
            assert(u[i] == s2[s.len() as int]);
        } else {
            assert(from_input(s, t, i));
            let k = choose|k: int| 0 <= k < s.len() && t[i] == s[k];
            assert(u[i] == s2[k]);
        }
    }
    assert forall|i: int, k: int|
        0 <= i < u.len() && 0 <= k < s2.len() && same_ident(#[trigger] u[i], #[trigger] s2[k]) implies fidelity_rank(s2[k].fidelity)
        <= fidelity_rank(u[i].fidelity) by {
        if k < s.len() {
            assert(s2[k] == s[k]);
            if i == p {
                lemma_ident_order(t[p], x, s[k]);
                assert(same_ident(t[p], s[k]));
            } else {
                assert(u[i] == t[i]);
            }
        } else if i != p {
            assert(u[i] == t[i]);
            assert(same_ident(t[i], x));
            lemma_ident_order(t[i], x, t[p]);
            lemma_ident_order(x, t[p], t[p]);
            lemma_distinct_idents(t, i, p);
        }
    }
}

proof fn lemma_absorb_keeps_dedup(s: Seq<IssueView>, t: Seq<IssueView>, x: IssueView, p: int)
    requires
        deduplicated(s, t),
        0 <= p < t.len(),
        same_ident(t[p], x),
        fidelity_rank(x.fidelity) <= fidelity_rank(t[p].fidelity),
    ensures
        deduplicated(s.push(x), t),
{
    let s2 = s.push(x);
    lemma_ident_order(t[p], x, x);
    assert forall|k: int| 0 <= k < s2.len() implies covered(s2, t, k) by {
        if k < s.len() {
            assert(s2[k] == s[k]);
            assert(covered(s, t, k));
            let i = choose|i: int| 0 <= i < t.len() && same_ident(t[i], s[k]);
            assert(same_ident(t[i], s2[k]));
        } else {
            assert(same_ident(t[p], s2[k]));
        }
    }
    assert forall|i: int| 0 <= i < t.len() implies from_input(s2, t, i) by {
        assert(from_input(s, t, i));
        let k = choose|k: int| 0 <= k < s.len() && t[i] == s[k];
        assert(t[i] == s2[k]);
    }
    assert forall|i: int, k: int|
        0 <= i < t.len() && 0 <= k < s2.len() && same_ident(#[trigger] t[i], #[trigger] s2[k]) implies fidelity_rank(s2[k].fidelity)
        <= fidelity_rank(t[i].fidelity) by {
        if k < s.len() {
            assert(s2[k] == s[k]);
        } else if i != p {
            assert(same_ident(t[i], x));
            lemma_ident_order(t[i], x, t[p]);
            lemma_ident_order(x, t[p], t[p]);
            lemma_distinct_idents(t, i, p);
        }
    }
}

proof fn lemma_insert_keeps_dedup(s: Seq<IssueView>, t: Seq<IssueView>, x: IssueView, p: int)
    requires
        deduplicated(s, t),
        0 <= p <= t.len(),
        forall|j: int| 0 <= j < p ==> ident_lt(#[trigger] t[j], x),
        p < t.len() ==> ident_lt(x, t[p]),
    ensures
        deduplicated(s.push(x), t.insert(p, x)),
{
    let s2 = s.push(x);
    let u = t.insert(p, x);
    assert forall|i: int, j: int| 0 <= i < j < u.len() implies ident_lt(#[trigger] u[i], #[trigger] u[j]) by {
        if j < p {
            assert(ident_lt(t[i], t[j]));
        } else if j == p {
            assert(ident_lt(t[i], x));
        } else if i == p {
            if j - 1 > p {
                assert(ident_lt(t[p], t[j - 1]));
                lemma_ident_order(x, t[p], t[j - 1]);
            }
        } else if i < p {
            assert(ident_lt(t[i], x));
            lemma_ident_order(t[i], x, t[p]);
            if j - 1 > p {
                assert(ident_lt(t[p], t[j - 1]));
                lemma_ident_order(t[i], t[p], t[j - 1]);
            }
        } else {
            assert(ident_lt(t[i - 1], t[j - 1]));
        }
    }
    assert forall|k: int| 0 <= k < s2.len() implies covered(s2, u, k) by {
        if k < s.len() {
            assert(s2[k] == s[k]);
            assert(covered(s, t, k));
            let i = choose|i: int| 0 <= i < t.len() && same_ident(t[i], s[k]);
            if i < p {
                assert(u[i] == t[i]);
            } else {
                assert(u[i + 1] == t[i]);
            }
        } else {
            lemma_ident_order(x, x, x);
            assert(u[p] == x);
            assert(same_ident(u[p], s2[k]));
        }
    }
    assert forall|i: int| 0 <= i < u.len() implies from_input(s2, u, i) by {
        if i == p {
            assert(u[i] == s2[s.len() as int]);
        } else if i < p {
            assert(from_input(s, t, i));
            let k = choose|k: int| 0 <= k < s.len() && t[i] == s[k];
            assert(u[i] == s2[k]);
        } else {
            assert(from_input(s, t, i - 1));
            let k = choose|k: int| 0 <= k < s.len() && t[i - 1] == s[k];
            assert(u[i] == s2[k]);
        }
    }
    assert forall|i: int, k: int|
        0 <= i < u.len() && 0 <= k < s2.len() && same_ident(#[trigger] u[i], #[trigger] s2[k]) implies fidelity_rank(s2[k].fidelity)
        <= fidelity_rank(u[i].fidelity) by {
        if k < s.len() {
            assert(s2[k] == s[k]);
            if i == p {
                assert(covered(s, t, k));
                let i2 = choose|i2: int| 0 <= i2 < t.len() && same_ident(t[i2], s[k]);
                assert(u[i] == x);
                lemma_ident_order(t[i2], s[k], x);
                lemma_ident_order(x, s[k], t[i2]);
                lemma_ident_order(x, t[i2], t[i2]);
                lemma_not_same_as_new(t, x, p, i2);
            } else if i < p {
                assert(u[i] == t[i]);
            } else {
                assert(u[i] == t[i - 1]);
            }
        } else {
            assert(s2[k] == x);
            if i != p {
                let j = if i < p { i } else { i - 1 };
                assert(u[i] == t[j]);
                lemma_not_same_as_new(t, x, p, j);
            } else {
                assert(u[i] == x);
            }
        }
    }
}

/// In a strictly ordered list no two entries are about the same thing.
proof fn lemma_distinct_idents(t: Seq<IssueView>, i: int, j: int)
    requires
        ident_sorted(t),
        0 <= i < t.len(),
        0 <= j < t.len(),
        i != j,
    ensures
        !same_ident(t[i], t[j]),
{
    if i < j {
        assert(ident_lt(t[i], t[j]));
        lemma_ident_order(t[i], t[j], t[j]);
    } else {
        assert(ident_lt(t[j], t[i]));
        lemma_ident_order(t[j], t[i], t[i]);
        lemma_ident_order(t[i], t[j], t[j]);
    }
}

/// An issue that goes between two ordered entries is about neither.
proof fn lemma_not_same_as_new(t: Seq<IssueView>, x: IssueView, p: int, j: int)
    requires
        ident_sorted(t),
        0 <= p <= t.len(),
        forall|k: int| 0 <= k < p ==> ident_lt(#[trigger] t[k], x),
        p < t.len() ==> ident_lt(x, t[p]),
        0 <= j < t.len(),
    ensures
        !same_ident(t[j], x),
{
    if j < p {
        assert(ident_lt(t[j], x));
        lemma_ident_order(t[j], x, x);
    } else {
        assert(ident_lt(x, t[p]));
        if j > p {
            assert(ident_lt(t[p], t[j]));
            lemma_ident_order(x, t[p], t[j]);
        }
        lemma_ident_order(x, t[j], t[j]);
        if same_ident(t[j], x) {
            lemma_ident_order(t[j], x, x);
        }
    }
}

} // verus!
