//! Contract standards, behaviour patterns and source-language hints, each
//! backed by the evidence that produced it.
use vstd::prelude::*;

use crate::common::opcode::OpCode;
use crate::common::types::{Instruction, InstructionView, Operand, OperandView};
use crate::contract::interop::{interop_name, lookup};
use crate::contract::manifest::{ContractManifest, ManifestPermissionContract, ManifestPermissionMethods};
use crate::contract::native::{describe_method_token, eq_ignore_ascii_case, first_match, native_index, native_methods, native_name};
use crate::contract::nef::{MethodToken, NefFile};
use crate::engine::lifter::instrs_view;
use crate::text::{
    dec, is_prefix, starts_with, is_suffix, lemma_seq_lt_asym, lemma_seq_lt_irrefl, lemma_seq_lt_total, lemma_seq_lt_trans,
    lower_seq, push_decimal, seq_lt, str_eq, str_lt, trimmed,
};

verus! {

/// How sure an identification is.
#[derive(Debug, Clone, Copy, PartialEq, Eq, Structural)]
pub enum PatternConfidence {
    /// Declared by the manifest.
    High,
    /// Several independent hints agree.
    Medium,
    /// One weak hint.
    Low,
    /// No signal.
    Unknown,
}

impl Default for PatternConfidence {
    fn default() -> (r: Self)
        ensures
            r == PatternConfidence::Unknown,
    {
        PatternConfidence::Unknown
    }
}

/// A signal behind an identification: where it was seen and what it was.
#[derive(Debug, Clone)]
pub struct PatternEvidence {
    pub source: String,
    pub value: String,
}

/// Model of a piece of evidence.
pub struct EvidenceView {
    pub source: Seq<char>,
    pub value: Seq<char>,
}

impl View for PatternEvidence {
    type V = EvidenceView;

    open spec fn view(&self) -> EvidenceView {
        EvidenceView { source: self.source@, value: self.value@ }
    }
}

/// Standards, behaviour patterns, language and compiler of a contract, with
/// the evidence for them.
#[derive(Debug)]
pub struct PatternInfo {
    /// Declared standards, sorted, without repeats.
    pub standards: Vec<String>,
    /// Behaviour patterns, sorted, without repeats.
    pub patterns: Vec<String>,
    /// Source language hint (only C# is reported).
    pub language: Option<String>,
    /// Compiler identifier of the NEF header.
    pub compiler: Option<String>,
    /// Overall confidence.
    pub confidence: PatternConfidence,
    /// Evidence, sorted by source and then value.
    pub evidence: Vec<PatternEvidence>,
}

/// A piece of evidence.
pub open spec fn ev(source: Seq<char>, value: Seq<char>) -> EvidenceView {
    EvidenceView { source, value }
}

/// Evidence order: by source, then by value.
pub open spec fn ev_lt(a: EvidenceView, b: EvidenceView) -> bool {
    seq_lt(a.source, b.source) || (a.source == b.source && seq_lt(a.value, b.value))
}

/// No later entry comes before an earlier one.
pub open spec fn ev_sorted(s: Seq<EvidenceView>) -> bool {
    forall|i: int, j: int| 0 <= i < j < s.len() ==> !ev_lt(#[trigger] s[j], #[trigger] s[i])
}

/// The models of evidence entries.
pub open spec fn ev_views(v: Seq<PatternEvidence>) -> Seq<EvidenceView> {
    v.map_values(|e: PatternEvidence| e@)
}

/// The characters of each string.
pub open spec fn str_views(v: Seq<String>) -> Seq<Seq<char>> {
    v.map_values(|s: String| s@)
}

/// Each element comes strictly before the next.
pub open spec fn strictly_sorted(s: Seq<Seq<char>>) -> bool {
    forall|i: int, j: int| 0 <= i < j < s.len() ==> seq_lt(#[trigger] s[i], #[trigger] s[j])
}

/// Insert a name into a sorted set of names.
fn insert_name(set: &mut Vec<String>, x: String)
    requires
        strictly_sorted(str_views(old(set)@)),
    ensures
        strictly_sorted(str_views(final(set)@)),
        forall|t: Seq<char>| str_views(final(set)@).contains(t) <==> (str_views(old(set)@).contains(t) || t == x@),
        str_views(final(set)@).to_set() == str_views(old(set)@).to_set().insert(x@),
{
    let ghost s = str_views(set@);
    let ghost xv = x@;
    let mut p: usize = 0;
    while p < set.len() && str_lt(set[p].as_str(), x.as_str())
        invariant
            p <= set@.len(),
            str_views(set@) == s,
            xv == x@,
            forall|j: int| 0 <= j < p ==> seq_lt(#[trigger] s[j], xv),
        decreases set.len() - p,
    {
        proof {
            assert(s[p as int] == set@[p as int]@);
        }
        p = p + 1;
    }
    if p < set.len() && str_eq(set[p].as_str(), x.as_str()) {
        proof {
            assert forall|t: Seq<char>| str_views(set@).contains(t) <==> (s.contains(t) || t == xv) by {
                if t == xv {
                    assert(s[p as int] == t);
                }
            }
            assert(s.to_set() =~= s.to_set().insert(xv));
        }
        return;
    }
    proof {
        if p < s.len() {
            assert(s[p as int] == set@[p as int]@);
            lemma_seq_lt_total(s[p as int], xv);
            assert forall|k: int| p <= k < s.len() implies seq_lt(xv, #[trigger] s[k]) by {
                if k > p {
                    lemma_seq_lt_trans(xv, s[p as int], s[k]);
                }
            }
        }
    }
    set.insert(p, x);
    proof {
        let t = str_views(set@);
        assert(t =~= s.insert(p as int, xv));
        assert forall|i: int, j: int| 0 <= i < j < t.len() implies seq_lt(#[trigger] t[i], #[trigger] t[j]) by {
            if j < p {
            } else if j == p {
            } else if i == p {
                if j - 1 > p {
                    lemma_seq_lt_trans(xv, s[p as int], s[j - 1]);
                }
            } else if i < p {
                lemma_seq_lt_trans(s[i], xv, s[j - 1]);
            } else {
            }
        }
        assert forall|u: Seq<char>| t.contains(u) <==> (s.contains(u) || u == xv) by {
            if t.contains(u) {
                let i = choose|i: int| 0 <= i < t.len() && t[i] == u;
                if i < p {
                    assert(s[i] == u);
                } else if i > p {
                    assert(s[i - 1] == u);
                }
            }
            if s.contains(u) {
                let i = choose|i: int| 0 <= i < s.len() && s[i] == u;
                if i < p {
                    assert(t[i] == u);
                } else {
                    assert(t[i + 1] == u);
                }
            }
            if u == xv {
                assert(t[p as int] == u);
            }
        }
        assert(t.to_set() =~= s.to_set().insert(xv));
    }
}

proof fn lemma_push_contains_seq(s: Seq<Seq<char>>, v: Seq<char>)
    ensures
        forall|x: Seq<char>| #[trigger] s.push(v).contains(x) <==> (s.contains(x) || x == v),
        s.push(v).to_set() == s.to_set().insert(v),
{
    crate::cfg::graph::lemma_push_contains(s, v);
    assert(s.push(v).to_set() =~= s.to_set().insert(v));
}

/// Append one piece of evidence.
fn push_ev(evidence: &mut Vec<PatternEvidence>, source: &str, value: String)
    ensures
        ev_views(final(evidence)@) == ev_views(old(evidence)@).push(ev(source@, value@)),
{
    evidence.push(PatternEvidence { source: String::from_str(source), value });
    proof {
        assert(ev_views(final(evidence)@) =~= ev_views(old(evidence)@).push(ev(source@, value@)));
    }
}

/// Whether evidence `a` comes before `b`.
fn ev_less(a: &PatternEvidence, b: &PatternEvidence) -> (r: bool)
    ensures
        r == ev_lt(a@, b@),
{
    if str_lt(a.source.as_str(), b.source.as_str()) {
        true
    } else if str_eq(a.source.as_str(), b.source.as_str()) {
        str_lt(a.value.as_str(), b.value.as_str())
    } else {
        false
    }
}

proof fn lemma_ev_lt_trans(a: EvidenceView, b: EvidenceView, c: EvidenceView)
    requires
        ev_lt(a, b),
        ev_lt(b, c),
    ensures
        ev_lt(a, c),
{
    if seq_lt(a.source, b.source) && seq_lt(b.source, c.source) {
        lemma_seq_lt_trans(a.source, b.source, c.source);
    } else if seq_lt(a.source, b.source) {
    } else if seq_lt(b.source, c.source) {
    } else {
        lemma_seq_lt_trans(a.value, b.value, c.value);
    }
}

proof fn lemma_ev_irrefl(a: EvidenceView)
    ensures
        !ev_lt(a, a),
{
    lemma_seq_lt_irrefl(a.source);
    lemma_seq_lt_irrefl(a.value);
}

/// The evidence in order of source and value.
fn sort_evidence(raw: Vec<PatternEvidence>) -> (r: Vec<PatternEvidence>)
    ensures
        ev_sorted(ev_views(r@)),
        ev_views(r@).to_multiset() == ev_views(raw@).to_multiset(),
{
    let mut out: Vec<PatternEvidence> = Vec::new();
    let mut i: usize = 0;
    proof {
        assert(ev_views(raw@.take(0)) =~= Seq::<EvidenceView>::empty());
        assert(ev_views(out@) =~= Seq::<EvidenceView>::empty());
    }
    while i < raw.len()
        invariant
            i <= raw@.len(),
            ev_sorted(ev_views(out@)),
            ev_views(out@).to_multiset() == ev_views(raw@.take(i as int)).to_multiset(),
        decreases raw.len() - i,
    {
        let x = PatternEvidence { source: raw[i].source.clone(), value: raw[i].value.clone() };
        let ghost xv = raw@[i as int]@;
        let ghost s = ev_views(out@);
        let mut p: usize = 0;
        while p < out.len() && !ev_less(&x, &out[p])
            invariant
                p <= out@.len(),
                ev_views(out@) == s,
                x@ == xv,
                forall|j: int| 0 <= j < p ==> !ev_lt(xv, #[trigger] s[j]),
            decreases out.len() - p,
        {
            p = p + 1;
        }
        out.insert(p, x);
        proof {
            let t = ev_views(out@);
            assert(t =~= s.insert(p as int, xv));
            assert forall|a: int, b: int| 0 <= a < b < t.len() implies !ev_lt(#[trigger] t[b], #[trigger] t[a]) by {
                if b < p {
                } else if b == p {
                } else if a == p {
                    assert(ev_lt(xv, s[p as int]));
                    if ev_lt(s[b - 1], xv) {
                        lemma_ev_lt_trans(s[b - 1], xv, s[p as int]);
                        if b - 1 == p {
                            lemma_ev_irrefl(s[p as int]);
                        }
                    }
                } else if a < p {
                    assert(!ev_lt(s[b - 1], s[a]));
                } else {
                    assert(!ev_lt(s[b - 1], s[a - 1]));
                }
            }
            assert(t.remove(p as int) =~= s);
            broadcast use vstd::seq_lib::group_to_multiset_ensures;
            assert(t.to_multiset().remove(xv) =~= s.to_multiset());
            assert(t.to_multiset() =~= s.to_multiset().insert(xv));
            assert(ev_views(raw@.take(i + 1)) =~= ev_views(raw@.take(i as int)).push(xv));
        }
        i = i + 1;
    }
    proof {
        assert(raw@.take(i as int) =~= raw@);
    }
    out
}


/// Storage, iterator and notification patterns of a syscall name.
#[verifier::opaque]
pub open spec fn storage_syscall_patterns(n: Seq<char>) -> Set<Seq<char>> {
    (if is_prefix("System.Storage."@, n) { set!["storage"@] } else { Set::<Seq<char>>::empty() })
    + (if (n == "System.Storage.Get"@ || n == "System.Storage.Local.Get"@) { set!["storage_reads"@] } else { Set::<Seq<char>>::empty() })
    + (if (n == "System.Storage.Put"@ || n == "System.Storage.Local.Put"@) { set!["storage_writes"@] } else { Set::<Seq<char>>::empty() })
    + (if (n == "System.Storage.Delete"@ || n == "System.Storage.Local.Delete"@) { set!["storage_deletes"@] } else { Set::<Seq<char>>::empty() })
    + (if (n == "System.Storage.Find"@ || n == "System.Storage.Local.Find"@) { set!["storage_iteration"@] } else { Set::<Seq<char>>::empty() })
    + (if (n == "System.Iterator.Next"@ || n == "System.Iterator.Value"@) { set!["iterator_usage"@] } else { Set::<Seq<char>>::empty() })
    + (if (n == "System.Runtime.Notify"@ || n == "System.Runtime.Log"@) { set!["notifications"@] } else { Set::<Seq<char>>::empty() })
}

/// Signature, context, account and gas patterns of a syscall name.
#[verifier::opaque]
pub open spec fn other_syscall_patterns(n: Seq<char>) -> Set<Seq<char>> {
    (if (n == "System.Crypto.CheckSig"@ || n == "System.Crypto.CheckMultisig"@) { set!["signature_verification"@] } else { Set::<Seq<char>>::empty() })
    + (if n == "System.Crypto.CheckMultisig"@ { set!["multisig"@] } else { Set::<Seq<char>>::empty() })
    + (if n == "System.Runtime.CheckWitness"@ { set!["authorization"@] } else { Set::<Seq<char>>::empty() })
    + (if n == "System.Runtime.GetCallingScriptHash"@ { set!["caller_context"@] } else { Set::<Seq<char>>::empty() })
    + (if n == "System.Runtime.CurrentSigners"@ { set!["signer_introspection"@] } else { Set::<Seq<char>>::empty() })
    + (if (n == "System.Runtime.GetAddressVersion"@ || n == "System.Runtime.GetEntryScriptHash"@ || n == "System.Runtime.GetExecutingScriptHash"@ || n == "System.Runtime.GetInvocationCounter"@ || n == "System.Runtime.GetNetwork"@ || n == "System.Runtime.GetNotifications"@ || n == "System.Runtime.GetRandom"@ || n == "System.Runtime.GetScriptContainer"@ || n == "System.Runtime.GetTime"@ || n == "System.Runtime.GetTrigger"@ || n == "System.Runtime.Platform"@) { set!["runtime_context"@] } else { Set::<Seq<char>>::empty() })
    + (if (n == "System.Contract.CreateMultisigAccount"@ || n == "System.Contract.CreateStandardAccount"@) { set!["account_creation"@] } else { Set::<Seq<char>>::empty() })
    + (if (n == "System.Runtime.BurnGas"@ || n == "System.Runtime.GasLeft"@) { set!["gas_management"@] } else { Set::<Seq<char>>::empty() })
}

/// The patterns a syscall of name `n` shows.
pub open spec fn syscall_patterns(n: Seq<char>) -> Set<Seq<char>> {
    storage_syscall_patterns(n) + other_syscall_patterns(n)
}

/// Evidence count of the storage rules.
#[verifier::opaque]
pub open spec fn storage_syscall_count(n: Seq<char>) -> nat {
    (if is_prefix("System.Storage."@, n) { 1nat } else { 0nat })
    + (if (n == "System.Storage.Get"@ || n == "System.Storage.Local.Get"@) { 1nat } else { 0nat })
    + (if (n == "System.Storage.Put"@ || n == "System.Storage.Local.Put"@) { 1nat } else { 0nat })
    + (if (n == "System.Storage.Delete"@ || n == "System.Storage.Local.Delete"@) { 1nat } else { 0nat })
    + (if (n == "System.Storage.Find"@ || n == "System.Storage.Local.Find"@) { 1nat } else { 0nat })
    + (if (n == "System.Iterator.Next"@ || n == "System.Iterator.Value"@) { 1nat } else { 0nat })
    + (if (n == "System.Runtime.Notify"@ || n == "System.Runtime.Log"@) { 1nat } else { 0nat })
}

/// Evidence count of the other rules.
#[verifier::opaque]
pub open spec fn other_syscall_count(n: Seq<char>) -> nat {
    (if (n == "System.Crypto.CheckSig"@ || n == "System.Crypto.CheckMultisig"@) { 1nat } else { 0nat })
    + (if n == "System.Runtime.CheckWitness"@ { 1nat } else { 0nat })
    + (if n == "System.Runtime.GetCallingScriptHash"@ { 1nat } else { 0nat })
    + (if n == "System.Runtime.CurrentSigners"@ { 1nat } else { 0nat })
    + (if (n == "System.Runtime.GetAddressVersion"@ || n == "System.Runtime.GetEntryScriptHash"@ || n == "System.Runtime.GetExecutingScriptHash"@ || n == "System.Runtime.GetInvocationCounter"@ || n == "System.Runtime.GetNetwork"@ || n == "System.Runtime.GetNotifications"@ || n == "System.Runtime.GetRandom"@ || n == "System.Runtime.GetScriptContainer"@ || n == "System.Runtime.GetTime"@ || n == "System.Runtime.GetTrigger"@ || n == "System.Runtime.Platform"@) { 1nat } else { 0nat })
    + (if (n == "System.Contract.CreateMultisigAccount"@ || n == "System.Contract.CreateStandardAccount"@) { 1nat } else { 0nat })
    + (if (n == "System.Runtime.BurnGas"@ || n == "System.Runtime.GasLeft"@) { 1nat } else { 0nat })
}

/// How many pieces of evidence a syscall of name `n` yields: one per rule it meets.
pub open spec fn syscall_ev_count(n: Seq<char>) -> nat {
    storage_syscall_count(n) + other_syscall_count(n)
}

/// The evidence of a syscall name.
pub open spec fn syscall_evs(n: Seq<char>) -> Seq<EvidenceView> {
    Seq::new(syscall_ev_count(n), |i: int| ev("syscall"@, n))
}

fn add_syscall(patterns: &mut Vec<String>, evidence: &mut Vec<PatternEvidence>, pattern: &str, name: &str)
    requires
        strictly_sorted(str_views(old(patterns)@)),
    ensures
        strictly_sorted(str_views(final(patterns)@)),
        str_views(final(patterns)@).to_set() == str_views(old(patterns)@).to_set().insert(pattern@),
        ev_views(final(evidence)@) == ev_views(old(evidence)@).push(ev("syscall"@, name@)),
{
    insert_name(patterns, String::from_str(pattern));
    push_ev(evidence, "syscall", String::from_str(name));
}

proof fn lemma_push_same(e0: Seq<EvidenceView>, c: nat, x: EvidenceView)
    ensures
        (e0 + Seq::new(c, |i: int| x)).push(x) == e0 + Seq::new(c + 1, |i: int| x),
{
    assert((e0 + Seq::new(c, |i: int| x)).push(x) =~= e0 + Seq::new(c + 1, |i: int| x));
}

fn apply_storage_syscall_rules(name: &str, patterns: &mut Vec<String>, evidence: &mut Vec<PatternEvidence>)
    requires
        strictly_sorted(str_views(old(patterns)@)),
    ensures
        strictly_sorted(str_views(final(patterns)@)),
        str_views(final(patterns)@).to_set() == str_views(old(patterns)@).to_set() + storage_syscall_patterns(name@),
        ev_views(final(evidence)@) == ev_views(old(evidence)@) + Seq::new(storage_syscall_count(name@), |i: int| ev("syscall"@, name@)),
{
    let ghost n = name@;
    let ghost e0 = ev_views(evidence@);
    let ghost s0 = str_views(patterns@).to_set();
    let ghost mut c: nat = 0;
    proof {
        reveal(storage_syscall_patterns);
        reveal(other_syscall_patterns);
        reveal(storage_syscall_count);
        reveal(other_syscall_count);
    }
    proof {
        assert(ev_views(evidence@) =~= e0 + Seq::new(c, |i: int| ev("syscall"@, n)));
    }
    if starts_with(name, "System.Storage.") {
        add_syscall(patterns, evidence, "storage", name);
        proof {
            lemma_push_same(e0, c, ev("syscall"@, n));
            c = c + 1;
        }
    }
    if (str_eq(name, "System.Storage.Get") || str_eq(name, "System.Storage.Local.Get")) {
        add_syscall(patterns, evidence, "storage_reads", name);
        proof {
            lemma_push_same(e0, c, ev("syscall"@, n));
            c = c + 1;
        }
    }
    if (str_eq(name, "System.Storage.Put") || str_eq(name, "System.Storage.Local.Put")) {
        add_syscall(patterns, evidence, "storage_writes", name);
        proof {
            lemma_push_same(e0, c, ev("syscall"@, n));
            c = c + 1;
        }
    }
    if (str_eq(name, "System.Storage.Delete") || str_eq(name, "System.Storage.Local.Delete")) {
        add_syscall(patterns, evidence, "storage_deletes", name);
        proof {
            lemma_push_same(e0, c, ev("syscall"@, n));
            c = c + 1;
        }
    }
    if (str_eq(name, "System.Storage.Find") || str_eq(name, "System.Storage.Local.Find")) {
        add_syscall(patterns, evidence, "storage_iteration", name);
        proof {
            lemma_push_same(e0, c, ev("syscall"@, n));
            c = c + 1;
        }
    }
    if (str_eq(name, "System.Iterator.Next") || str_eq(name, "System.Iterator.Value")) {
        add_syscall(patterns, evidence, "iterator_usage", name);
        proof {
            lemma_push_same(e0, c, ev("syscall"@, n));
            c = c + 1;
        }
    }
    if (str_eq(name, "System.Runtime.Notify") || str_eq(name, "System.Runtime.Log")) {
        add_syscall(patterns, evidence, "notifications", name);
        proof {
            lemma_push_same(e0, c, ev("syscall"@, n));
            c = c + 1;
        }
    }
    proof {
        assert(c == storage_syscall_count(n));
        assert(str_views(patterns@).to_set() =~= s0 + storage_syscall_patterns(n));
    }
}

fn apply_other_syscall_rules(name: &str, patterns: &mut Vec<String>, evidence: &mut Vec<PatternEvidence>)
    requires
        strictly_sorted(str_views(old(patterns)@)),
    ensures
        strictly_sorted(str_views(final(patterns)@)),
        str_views(final(patterns)@).to_set() == str_views(old(patterns)@).to_set() + other_syscall_patterns(name@),
        ev_views(final(evidence)@) == ev_views(old(evidence)@) + Seq::new(other_syscall_count(name@), |i: int| ev("syscall"@, name@)),
{
    let ghost n = name@;
    let ghost e0 = ev_views(evidence@);
    let ghost s0 = str_views(patterns@).to_set();
    let ghost mut c: nat = 0;
    proof {
        reveal(storage_syscall_patterns);
        reveal(other_syscall_patterns);
        reveal(storage_syscall_count);
        reveal(other_syscall_count);
    }
    proof {
        assert(ev_views(evidence@) =~= e0 + Seq::new(c, |i: int| ev("syscall"@, n)));
    }
    if (str_eq(name, "System.Crypto.CheckSig") || str_eq(name, "System.Crypto.CheckMultisig")) {
        insert_name(patterns, String::from_str("signature_verification"));
        if str_eq(name, "System.Crypto.CheckMultisig") {
            insert_name(patterns, String::from_str("multisig"));
        }
        push_ev(evidence, "syscall", String::from_str(name));
        proof {
            lemma_push_same(e0, c, ev("syscall"@, n));
            c = c + 1;
        }
    }
    if str_eq(name, "System.Runtime.CheckWitness") {
        add_syscall(patterns, evidence, "authorization", name);
        proof {
            lemma_push_same(e0, c, ev("syscall"@, n));
            c = c + 1;
        }
    }
    if str_eq(name, "System.Runtime.GetCallingScriptHash") {
        add_syscall(patterns, evidence, "caller_context", name);
        proof {
            lemma_push_same(e0, c, ev("syscall"@, n));
            c = c + 1;
        }
    }
    if str_eq(name, "System.Runtime.CurrentSigners") {
        add_syscall(patterns, evidence, "signer_introspection", name);
        proof {
            lemma_push_same(e0, c, ev("syscall"@, n));
            c = c + 1;
        }
    }
    if (str_eq(name, "System.Runtime.GetAddressVersion") || str_eq(name, "System.Runtime.GetEntryScriptHash") || str_eq(name, "System.Runtime.GetExecutingScriptHash") || str_eq(name, "System.Runtime.GetInvocationCounter") || str_eq(name, "System.Runtime.GetNetwork") || str_eq(name, "System.Runtime.GetNotifications") || str_eq(name, "System.Runtime.GetRandom") || str_eq(name, "System.Runtime.GetScriptContainer") || str_eq(name, "System.Runtime.GetTime") || str_eq(name, "System.Runtime.GetTrigger") || str_eq(name, "System.Runtime.Platform")) {
        add_syscall(patterns, evidence, "runtime_context", name);
        proof {
            lemma_push_same(e0, c, ev("syscall"@, n));
            c = c + 1;
        }
    }
    if (str_eq(name, "System.Contract.CreateMultisigAccount") || str_eq(name, "System.Contract.CreateStandardAccount")) {
        add_syscall(patterns, evidence, "account_creation", name);
        proof {
            lemma_push_same(e0, c, ev("syscall"@, n));
            c = c + 1;
        }
    }
    if (str_eq(name, "System.Runtime.BurnGas") || str_eq(name, "System.Runtime.GasLeft")) {
        add_syscall(patterns, evidence, "gas_management", name);
        proof {
            lemma_push_same(e0, c, ev("syscall"@, n));
            c = c + 1;
        }
    }
    proof {
        assert(c == other_syscall_count(n));
        assert(str_views(patterns@).to_set() =~= s0 + other_syscall_patterns(n));
    }
}

/// Record the patterns and evidence of one syscall name.
fn infer_syscall_patterns(name: &str, patterns: &mut Vec<String>, evidence: &mut Vec<PatternEvidence>)
    requires
        strictly_sorted(str_views(old(patterns)@)),
    ensures
        strictly_sorted(str_views(final(patterns)@)),
        str_views(final(patterns)@).to_set() == str_views(old(patterns)@).to_set() + syscall_patterns(name@),
        ev_views(final(evidence)@) == ev_views(old(evidence)@) + syscall_evs(name@),
{
    let ghost e0 = ev_views(evidence@);
    let ghost s0 = str_views(patterns@).to_set();
    apply_storage_syscall_rules(name, patterns, evidence);
    apply_other_syscall_rules(name, patterns, evidence);
    proof {
        assert(str_views(patterns@).to_set() =~= s0 + syscall_patterns(name@));
        let x = ev("syscall"@, name@);
        assert(Seq::new(storage_syscall_count(name@), |i: int| x) + Seq::new(other_syscall_count(name@), |i: int| x)
            =~= Seq::new(syscall_ev_count(name@), |i: int| x));
        assert(ev_views(evidence@) =~= e0 + syscall_evs(name@));
    }
}

/// The Stdlib pattern of a method.
pub open spec fn stdlib_pattern(m: Seq<char>) -> Option<Seq<char>> {
    if m == "Base58CheckDecode"@ || m == "Base58CheckEncode"@ || m == "Base58Decode"@ || m == "Base58Encode"@ || m == "Base64Decode"@ || m == "Base64Encode"@ || m == "Base64UrlDecode"@ || m == "Base64UrlEncode"@ || m == "Deserialize"@ || m == "HexDecode"@ || m == "HexEncode"@ || m == "JsonDeserialize"@ || m == "JsonSerialize"@ || m == "Serialize"@ {
        Some("serialization"@)
    } else if m == "Atoi"@ || m == "Itoa"@ || m == "StrLen"@ || m == "StringSplit"@ {
        Some("string_operations"@)
    } else if m == "MemoryCompare"@ || m == "MemorySearch"@ {
        Some("memory_operations"@)
    } else {
        None
    }
}

/// The patterns that a call of native contract `c`'s method `m` shows, in order.
pub open spec fn native_pats(c: Seq<char>, m: Seq<char>) -> Seq<Seq<char>> {
    if c == "OracleContract"@ {
        seq!["oracle"@]
    } else if c == "Governance"@ {
        seq!["governance"@]
    } else if c == "RoleManagement"@ {
        seq!["role_management"@]
    } else if c == "PolicyContract"@ {
        seq!["policy_management"@]
    } else if c == "TokenManagement"@ {
        seq!["token_management"@]
    } else if c == "LedgerContract"@ {
        seq!["ledger"@, "blockchain_queries"@]
    } else if c == "Notary"@ {
        seq!["notary"@]
    } else if c == "Treasury"@ {
        seq!["treasury"@]
    } else if c == "CryptoLib"@ {
        seq!["cryptography"@]
    } else if c == "StdLib"@ {
        match stdlib_pattern(m) {
            Some(p) => seq![p],
            None => Seq::empty(),
        }
    } else if c == "GasToken"@ || c == "NeoToken"@ {
        seq!["native_token_calls"@]
    } else if c == "ContractManagement"@ {
        if m == "Deploy"@ || m == "Destroy"@ || m == "Update"@ {
            if m == "Update"@ {
                seq!["contract_management"@, "contract_lifecycle"@, "upgradeable"@]
            } else {
                seq!["contract_management"@, "contract_lifecycle"@]
            }
        } else if m == "GetContract"@ || m == "GetContractById"@ || m == "GetContractHashes"@ || m == "HasMethod"@
            || m == "IsContract"@ {
            seq!["contract_management"@, "contract_queries"@]
        } else {
            seq!["contract_management"@]
        }
    } else {
        Seq::empty()
    }
}

/// The evidence value of a native pattern: the pattern, a colon and the label.
pub open spec fn native_value(p: Seq<char>, label: Seq<char>) -> Seq<char> {
    p + ": "@ + label
}

/// The evidence of native patterns.
pub open spec fn native_evs(ps: Seq<Seq<char>>, label: Seq<char>) -> Seq<EvidenceView> {
    ps.map_values(|p: Seq<char>| ev("nef.method_tokens.pattern"@, native_value(p, label)))
}

proof fn lemma_small_to_set(ps: Seq<Seq<char>>)
    requires
        ps.len() <= 3,
    ensures
        ps.len() == 0 ==> ps.to_set() == Set::<Seq<char>>::empty(),
        ps.len() == 1 ==> ps.to_set() == set![ps[0]],
        ps.len() == 2 ==> ps.to_set() == set![ps[0], ps[1]],
        ps.len() == 3 ==> ps.to_set() == set![ps[0], ps[1], ps[2]],
{
    assert forall|t: Seq<char>| ps.to_set().contains(t) <==> (exists|i: int| 0 <= i < ps.len() && ps[i] == t) by {}
    if ps.len() >= 1 {
        assert(ps.to_set().contains(ps[0]));
    }
    if ps.len() >= 2 {
        assert(ps.to_set().contains(ps[1]));
    }
    if ps.len() >= 3 {
        assert(ps.to_set().contains(ps[2]));
    }
    if ps.len() == 0 {
        assert(ps.to_set() =~= Set::<Seq<char>>::empty());
    } else if ps.len() == 1 {
        assert(ps.to_set() =~= set![ps[0]]);
    } else if ps.len() == 2 {
        assert(ps.to_set() =~= set![ps[0], ps[1]]);
    } else {
        assert(ps.to_set() =~= set![ps[0], ps[1], ps[2]]);
    }
}

fn add_native(patterns: &mut Vec<String>, evidence: &mut Vec<PatternEvidence>, pattern: &str, label: &str)
    requires
        strictly_sorted(str_views(old(patterns)@)),
    ensures
        strictly_sorted(str_views(final(patterns)@)),
        str_views(final(patterns)@).to_set() == str_views(old(patterns)@).to_set().insert(pattern@),
        ev_views(final(evidence)@) == ev_views(old(evidence)@).push(ev("nef.method_tokens.pattern"@, native_value(pattern@, label@))),
{
    insert_name(patterns, String::from_str(pattern));
    let mut value = String::from_str(pattern);
    value.append(": ");
    value.append(label);
    push_ev(evidence, "nef.method_tokens.pattern", value);
}

/// Record the patterns of a call of native contract `contract`'s method `method`.
fn infer_native_patterns(contract: &str, method: &str, label: &str, patterns: &mut Vec<String>, evidence: &mut Vec<PatternEvidence>)
    requires
        strictly_sorted(str_views(old(patterns)@)),
    ensures
        strictly_sorted(str_views(final(patterns)@)),
        str_views(final(patterns)@).to_set() == str_views(old(patterns)@).to_set() + native_pats(contract@, method@).to_set(),
        ev_views(final(evidence)@) == ev_views(old(evidence)@) + native_evs(native_pats(contract@, method@), label@),
{
    let ghost e0 = ev_views(evidence@);
    let ghost s0 = str_views(patterns@).to_set();
    let ghost ps = native_pats(contract@, method@);
    if str_eq(contract, "OracleContract") {
        add_native(patterns, evidence, "oracle", label);
    } else if str_eq(contract, "Governance") {
        add_native(patterns, evidence, "governance", label);
    } else if str_eq(contract, "RoleManagement") {
        add_native(patterns, evidence, "role_management", label);
    } else if str_eq(contract, "PolicyContract") {
        add_native(patterns, evidence, "policy_management", label);
    } else if str_eq(contract, "TokenManagement") {
        add_native(patterns, evidence, "token_management", label);
    } else if str_eq(contract, "LedgerContract") {
        add_native(patterns, evidence, "ledger", label);
        add_native(patterns, evidence, "blockchain_queries", label);
    } else if str_eq(contract, "Notary") {
        add_native(patterns, evidence, "notary", label);
    } else if str_eq(contract, "Treasury") {
        add_native(patterns, evidence, "treasury", label);
    } else if str_eq(contract, "CryptoLib") {
        add_native(patterns, evidence, "cryptography", label);
    } else if str_eq(contract, "StdLib") {
        if str_eq(method, "Base58CheckDecode") || str_eq(method, "Base58CheckEncode") || str_eq(method, "Base58Decode") || str_eq(method, "Base58Encode") || str_eq(method, "Base64Decode") || str_eq(method, "Base64Encode") || str_eq(method, "Base64UrlDecode") || str_eq(method, "Base64UrlEncode") || str_eq(method, "Deserialize") || str_eq(method, "HexDecode") || str_eq(method, "HexEncode") || str_eq(method, "JsonDeserialize") || str_eq(method, "JsonSerialize") || str_eq(method, "Serialize") {
            add_native(patterns, evidence, "serialization", label);
        } else if str_eq(method, "Atoi") || str_eq(method, "Itoa") || str_eq(method, "StrLen") || str_eq(method, "StringSplit") {
            add_native(patterns, evidence, "string_operations", label);
        } else if str_eq(method, "MemoryCompare") || str_eq(method, "MemorySearch") {
            add_native(patterns, evidence, "memory_operations", label);
        }
    } else if str_eq(contract, "GasToken") || str_eq(contract, "NeoToken") {
        add_native(patterns, evidence, "native_token_calls", label);
    } else if str_eq(contract, "ContractManagement") {
        add_native(patterns, evidence, "contract_management", label);
        if str_eq(method, "Deploy") || str_eq(method, "Destroy") || str_eq(method, "Update") {
            add_native(patterns, evidence, "contract_lifecycle", label);
            if str_eq(method, "Update") {
                add_native(patterns, evidence, "upgradeable", label);
            }
        } else if str_eq(method, "GetContract") || str_eq(method, "GetContractById") || str_eq(method, "GetContractHashes")
            || str_eq(method, "HasMethod") || str_eq(method, "IsContract") {
            add_native(patterns, evidence, "contract_queries", label);
        }
    }
    proof {
        assert(ev_views(evidence@) =~= e0 + native_evs(ps, label@));
        lemma_small_to_set(ps);
        assert(str_views(patterns@).to_set() =~= s0 + ps.to_set());
    }
}


/// ASCII letters.
pub open spec fn is_ascii_alpha(c: char) -> bool {
    ('a' <= c && c <= 'z') || ('A' <= c && c <= 'Z')
}

/// ASCII letters and digits.
pub open spec fn is_ascii_alnum(c: char) -> bool {
    is_ascii_alpha(c) || ('0' <= c && c <= '9')
}

/// `w` occurs in `l` at `i` as a whole word: not next to another letter or digit.
pub open spec fn word_at(l: Seq<char>, w: Seq<char>, i: int) -> bool {
    &&& 0 <= i && i + w.len() <= l.len()
    &&& l.subrange(i, i + w.len()) == w
    &&& (i == 0 || !is_ascii_alnum(l[i - 1]))
    &&& (i + w.len() == l.len() || !is_ascii_alnum(l[i + w.len()]))
}

/// A compiler identifier names the C# compiler: after trimming and ASCII
/// lower-casing it starts with `cs` not followed by a letter, or holds the
/// word `csharp`.
pub open spec fn csharp_tag(compiler: Seq<char>) -> bool {
    lower_seq(trimmed(compiler)).len() > 0 && (short_cs_tag(lower_seq(trimmed(compiler))) || csharp_word(lower_seq(trimmed(compiler))))
}

/// Starts with `cs` not followed by a letter.
pub open spec fn short_cs_tag(l: Seq<char>) -> bool {
    is_prefix("cs"@, l) && (l.len() == 2 || !is_ascii_alpha(l[2]))
}

/// Holds the word `csharp`.
pub open spec fn csharp_word(l: Seq<char>) -> bool {
    exists|i: int| word_at(l, "csharp"@, i)
}

/// `i` is where a source reference's query or fragment begins (or its end).
pub open spec fn is_cut(l: Seq<char>, i: int) -> bool {
    &&& 0 <= i <= l.len()
    &&& forall|j: int| 0 <= j < i ==> l[j] != '?' && l[j] != '#'
    &&& (i == l.len() || l[i] == '?' || l[i] == '#')
}

/// A source reference names a C# file or project: before any query or
/// fragment, its ASCII lower-cased path ends with `.cs` or `.csproj`.
pub open spec fn csharp_source(source: Seq<char>) -> bool {
    let l = lower_seq(source);
    exists|i: int| is_cut(l, i) && (is_suffix(".cs"@, l.take(i)) || is_suffix(".csproj"@, l.take(i)))
}

fn char_is_alpha(c: char) -> (r: bool)
    ensures
        r == is_ascii_alpha(c),
{
    ('a' <= c && c <= 'z') || ('A' <= c && c <= 'Z')
}

fn char_is_alnum(c: char) -> (r: bool)
    ensures
        r == is_ascii_alnum(c),
{
    char_is_alpha(c) || ('0' <= c && c <= '9')
}

/// ASCII lower-casing.
pub fn ascii_lower(s: &str) -> (r: String)
    ensures
        r@ == lower_seq(s@),
{
    let n = s.unicode_len();
    let mut r = String::new();
    let mut i: usize = 0;
    while i < n
        invariant
            n == s@.len(),
            i <= n,
            r@ == lower_seq(s@.take(i as int)),
        decreases n - i,
    {
        crate::text::push_char(&mut r, crate::text::to_lower_char(s.get_char(i)));
        proof {
            assert(lower_seq(s@.take(i + 1)) =~= lower_seq(s@.take(i as int)).push(crate::text::lower_char(s@[i as int])));
        }
        i = i + 1;
    }
    proof {
        assert(s@.take(n as int) =~= s@);
    }
    r
}

/// The source language a compiler identifier names: C# or nothing.
pub fn infer_language(compiler: &str) -> (r: Option<&'static str>)
    ensures
        r.is_some() == csharp_tag(compiler@),
        r matches Some(x) ==> x@ == "C#"@,
{
    let t = crate::text::trim(compiler);
    let lowered = ascii_lower(t);
    let l = lowered.as_str();
    let ghost lv = lower_seq(trimmed(compiler@));
    let n = l.unicode_len();
    if n == 0 {
        return None;
    }
    if crate::text::starts_with(l, "cs") {
        proof {
            reveal_strlit("cs");
        }
        if n == 2 || !char_is_alpha(l.get_char(2)) {
            return Some("C#");
        }
    }
    proof {
        reveal_strlit("csharp");
    }
    let mut i: usize = 0;
    while i < n
        invariant
            l@ == lv,
            lv == lower_seq(trimmed(compiler@)),
            n == lv.len(),
            i <= n,
            "csharp"@.len() == 6,
            forall|j: int| 0 <= j < i ==> !word_at(lv, "csharp"@, j),
        decreases n - i,
    {
        if crate::text::matches_at(l, "csharp", i) {
            let before_ok = i == 0 || !char_is_alnum(l.get_char(i - 1));
            let after_ok = i + 6 == n || !char_is_alnum(l.get_char(i + 6));
            if before_ok && after_ok {
                proof {
                    assert(word_at(lv, "csharp"@, i as int));
                    assert(lv.len() > 0);
                    assert(csharp_word(lv));
                }
                return Some("C#");
            }
        }
        i = i + 1;
    }
    proof {
        assert forall|j: int| !word_at(lv, "csharp"@, j) by {
            if word_at(lv, "csharp"@, j) {
                assert(0 <= j < n);
            }
        }
    }
    None
}

/// The source language a source reference names: C# or nothing.
pub fn infer_language_from_source(source: &str) -> (r: Option<&'static str>)
    ensures
        r.is_some() == csharp_source(source@),
        r matches Some(x) ==> x@ == "C#"@,
{
    let lowered = ascii_lower(source);
    let l = lowered.as_str();
    let ghost lv = lower_seq(source@);
    let n = l.unicode_len();
    let mut i: usize = 0;
    while i < n && l.get_char(i) != '?' && l.get_char(i) != '#'
        invariant
            l@ == lv,
            n == lv.len(),
            i <= n,
            forall|j: int| 0 <= j < i ==> lv[j] != '?' && lv[j] != '#',
        decreases n - i,
    {
        i = i + 1;
    }
    proof {
        assert(is_cut(lv, i as int));
    }
    let head = l.substring_char(0, i);
    proof {
        assert(head@ =~= lv.take(i as int));
    }
    let found = crate::text::ends_with(head, ".cs") || crate::text::ends_with(head, ".csproj");
    proof {
        assert forall|k: int| #[trigger] is_cut(lv, k) implies k == i by {
            if k < i {
                assert(lv[k] != '?' && lv[k] != '#');
            } else if k > i {
                assert(lv[i as int] != '?' && lv[i as int] != '#');
            }
        }
    }
    if found {
        Some("C#")
    } else {
        None
    }
}


/// The upper-case form of a string, as `str::to_uppercase` computes it.
pub uninterp spec fn unicode_upper(s: Seq<char>) -> Seq<char>;

/// Upper-case a string (`str::to_uppercase`, full Unicode case mapping); its
/// result is named by `unicode_upper` of the argument, and is empty exactly
/// when the argument is (every character maps to one or more characters).
#[verifier::external_body]
fn to_uppercase(s: &str) -> (r: String)
    ensures
        r@ == unicode_upper(s@),
        r@.len() == 0 <==> s@.len() == 0,
{
    s.to_uppercase()
}

/// A declared standard as reported: trimmed and upper-cased.
pub open spec fn std_name(s: Seq<char>) -> Seq<char> {
    unicode_upper(trimmed(s))
}

/// The non-empty declared standards, in manifest order.
pub open spec fn std_list(ss: Seq<String>) -> Seq<Seq<char>>
    decreases ss.len(),
{
    if ss.len() == 0 {
        Seq::empty()
    } else {
        let r = std_list(ss.drop_last());
        let n = std_name(ss.last()@);
        if n.len() > 0 {
            r.push(n)
        } else {
            r
        }
    }
}

/// Some event is named `Transfer`, ignoring ASCII case.
pub open spec fn has_transfer_event(m: ContractManifest) -> bool {
    exists|i: int| 0 <= i < m.abi.events@.len() && lower_seq((#[trigger] m.abi.events@[i]).name@) == lower_seq("Transfer"@)
}

/// Some method is named `transfer`, ignoring ASCII case.
pub open spec fn has_transfer_method(m: ContractManifest) -> bool {
    exists|i: int| 0 <= i < m.abi.methods@.len() && lower_seq((#[trigger] m.abi.methods@[i]).name@) == lower_seq("transfer"@)
}

/// Some permission covers every contract or every method.
pub open spec fn has_wildcard_permission(m: ContractManifest) -> bool {
    exists|i: int| 0 <= i < m.permissions@.len() && ((#[trigger] m.permissions@[i]).contract is Wildcard || m.permissions@[i].methods is Wildcard)
}

/// `x` when `b`, else nothing.
pub open spec fn one_if(b: bool, x: Seq<char>) -> Set<Seq<char>> {
    if b {
        set![x]
    } else {
        Set::empty()
    }
}

/// `e` when `b`, else nothing.
pub open spec fn ev_if(b: bool, e: EvidenceView) -> Seq<EvidenceView> {
    if b {
        seq![e]
    } else {
        Seq::empty()
    }
}

/// The patterns a manifest declares: `NEP-` standards, events, token
/// transfers, call permissions and wildcard permissions.
pub open spec fn manifest_patterns(m: ContractManifest) -> Set<Seq<char>> {
    Set::new(|p: Seq<char>| std_list(m.supported_standards@).contains(p) && is_prefix("NEP-"@, p))
        + one_if(m.abi.events@.len() > 0, "events"@)
        + one_if(has_transfer_event(m) && has_transfer_method(m), "token_transfers"@)
        + one_if(m.permissions@.len() > 0, "call_permissions"@)
        + one_if(has_wildcard_permission(m), "wildcard_permissions"@)
}

/// The evidence a manifest gives, in the order it is found.
pub open spec fn manifest_evs(m: ContractManifest) -> Seq<EvidenceView> {
    std_list(m.supported_standards@).map_values(|s: Seq<char>| ev("manifest.supportedstandards"@, s))
        + ev_if(m.abi.events@.len() > 0, ev("manifest.abi.events"@, dec(m.abi.events@.len())))
        + ev_if(has_transfer_event(m), ev("manifest.abi.events"@, "Transfer"@))
        + ev_if(has_transfer_event(m) && has_transfer_method(m), ev("manifest.abi.methods"@, "transfer + Transfer"@))
        + ev_if(m.permissions@.len() > 0, ev("manifest.permissions"@, dec(m.permissions@.len())))
        + ev_if(has_wildcard_permission(m), ev("manifest.permissions"@, "wildcard"@))
}

/// The native contract and its spelling of the method that a token calls,
/// when the contract has that method.
pub open spec fn token_hint(t: MethodToken) -> Option<(Seq<char>, Seq<char>)> {
    match native_index(t.hash@) {
        Some(i) => match first_match(native_methods(i), t.method@) {
            Some(c) => Some((native_name(i), c)),
            None => None,
        },
        None => None,
    }
}

/// `Contract::Method`.
pub open spec fn token_label(c: Seq<char>, m: Seq<char>) -> Seq<char> {
    c + "::"@ + m
}

/// The evidence of native calls of tokens, in token order.
pub open spec fn token_evs(ts: Seq<MethodToken>) -> Seq<EvidenceView>
    decreases ts.len(),
{
    if ts.len() == 0 {
        Seq::empty()
    } else {
        token_evs(ts.drop_last()) + match token_hint(ts.last()) {
            Some((c, m)) => seq![ev("nef.method_tokens.native"@, token_label(c, m))] + native_evs(native_pats(c, m), token_label(c, m)),
            None => Seq::empty(),
        }
    }
}

/// The patterns of native calls of tokens.
pub open spec fn token_patterns(ts: Seq<MethodToken>) -> Set<Seq<char>>
    decreases ts.len(),
{
    if ts.len() == 0 {
        Set::empty()
    } else {
        token_patterns(ts.drop_last()) + match token_hint(ts.last()) {
            Some((c, m)) => set!["native_contract_calls"@] + native_pats(c, m).to_set(),
            None => Set::empty(),
        }
    }
}

/// The interop name a `SYSCALL` instruction invokes, when known.
pub open spec fn syscall_name_of(ins: InstructionView) -> Option<Seq<char>> {
    if ins.opcode == OpCode::SYSCALL {
        match ins.operand {
            Some(OperandView::SyscallHash(h)) => interop_name(h),
            _ => None,
        }
    } else {
        None
    }
}

/// The syscall names invoked, each once, in order of first invocation.
pub open spec fn syscall_names(iv: Seq<InstructionView>) -> Seq<Seq<char>>
    decreases iv.len(),
{
    if iv.len() == 0 {
        Seq::empty()
    } else {
        let r = syscall_names(iv.drop_last());
        match syscall_name_of(iv.last()) {
            Some(n) => if r.contains(n) {
                r
            } else {
                r.push(n)
            },
            None => r,
        }
    }
}

/// The patterns of a list of syscall names.
pub open spec fn names_patterns(ns: Seq<Seq<char>>) -> Set<Seq<char>>
    decreases ns.len(),
{
    if ns.len() == 0 {
        Set::empty()
    } else {
        names_patterns(ns.drop_last()) + syscall_patterns(ns.last())
    }
}

/// The evidence of a list of syscall names.
pub open spec fn names_evs(ns: Seq<Seq<char>>) -> Seq<EvidenceView>
    decreases ns.len(),
{
    if ns.len() == 0 {
        Seq::empty()
    } else {
        names_evs(ns.drop_last()) + syscall_evs(ns.last())
    }
}

/// An instruction calls out of the contract: `CALLA`, `CALLT`, or the
/// `System.Contract.Call` syscall.
pub open spec fn is_external_call(ins: InstructionView) -> bool {
    ins.opcode == OpCode::CALLA || ins.opcode == OpCode::CALLT || match ins.operand {
        Some(OperandView::SyscallHash(h)) => interop_name(h) == Some("System.Contract.Call"@),
        _ => false,
    }
}

/// Jump opcodes.
pub open spec fn is_jump_op(op: OpCode) -> bool {
    op.spec_is_jump()
}

/// A jump goes backwards.
pub open spec fn is_backward_jump(ins: InstructionView) -> bool {
    is_jump_op(ins.opcode) && match ins.operand {
        Some(OperandView::JumpTarget8(d)) => d < 0,
        Some(OperandView::JumpTarget32(d)) => d < 0,
        Some(OperandView::JumpTarget(d)) => d < 0,
        _ => false,
    }
}

/// Whether some instruction satisfies a predicate.
pub open spec fn any_instr(iv: Seq<InstructionView>, p: spec_fn(InstructionView) -> bool) -> bool {
    exists|i: int| 0 <= i < iv.len() && p(#[trigger] iv[i])
}

/// The manifest's share of the patterns.
pub open spec fn opt_manifest_patterns(m: Option<&ContractManifest>) -> Set<Seq<char>> {
    match m {
        Some(m) => manifest_patterns(*m),
        None => Set::empty(),
    }
}

/// The manifest's share of the evidence.
pub open spec fn opt_manifest_evs(m: Option<&ContractManifest>) -> Seq<EvidenceView> {
    match m {
        Some(m) => manifest_evs(*m),
        None => Seq::empty(),
    }
}

/// The declared standards.
pub open spec fn standards_of(m: Option<&ContractManifest>) -> Seq<Seq<char>> {
    match m {
        Some(m) => std_list(m.supported_standards@),
        None => Seq::empty(),
    }
}

/// Every pattern identified.
pub open spec fn pattern_set(nef: NefFile, iv: Seq<InstructionView>, m: Option<&ContractManifest>) -> Set<Seq<char>> {
    opt_manifest_patterns(m)
        + one_if(nef.method_tokens@.len() > 0, "method_tokens"@)
        + token_patterns(nef.method_tokens@)
        + one_if(any_instr(iv, |ins: InstructionView| is_external_call(ins)), "external_calls"@)
        + names_patterns(syscall_names(iv))
        + one_if(any_instr(iv, |ins: InstructionView| is_backward_jump(ins)), "loops"@)
}

/// All evidence, in the order it is found.
pub open spec fn raw_evidence(nef: NefFile, iv: Seq<InstructionView>, m: Option<&ContractManifest>) -> Seq<EvidenceView> {
    opt_manifest_evs(m)
        + ev_if(nef.method_tokens@.len() > 0, ev("nef.method_tokens"@, dec(nef.method_tokens@.len())))
        + token_evs(nef.method_tokens@)
        + ev_if(any_instr(iv, |ins: InstructionView| is_external_call(ins)), ev("bytecode.calls"@, "CALLA/CALLT/Contract.Call"@))
        + names_evs(syscall_names(iv))
        + ev_if(any_instr(iv, |ins: InstructionView| is_backward_jump(ins)), ev("bytecode.control_flow"@, "backward jump"@))
        + ev_if(trimmed(nef.header.compiler@).len() > 0, ev("nef.header.compiler"@, nef.header.compiler@))
        + ev_if(trimmed(nef.header.source@).len() > 0, ev("nef.header.source"@, nef.header.source@))
}

/// A jump whose displacement is negative, in its short, long or resolved form, makes the
/// identified patterns contain `loops` and the evidence contain the backward-jump entry,
/// whatever else the contract holds.
pub proof fn lemma_backward_jump_is_loop(nef: NefFile, iv: Seq<InstructionView>, m: Option<&ContractManifest>, i: int)
    requires
        0 <= i < iv.len(),
        iv[i].opcode.spec_is_jump(),
        (iv[i].operand matches Some(OperandView::JumpTarget8(d)) && d < 0)
            || (iv[i].operand matches Some(OperandView::JumpTarget32(d)) && d < 0)
            || (iv[i].operand matches Some(OperandView::JumpTarget(d)) && d < 0),
    ensures
        pattern_set(nef, iv, m).contains("loops"@),
        raw_evidence(nef, iv, m).contains(ev("bytecode.control_flow"@, "backward jump"@)),
{
    let p = |ins: InstructionView| is_backward_jump(ins);
    assert(p(iv[i]));
    assert(any_instr(iv, p));
    assert(one_if(true, "loops"@).contains("loops"@));
    let e = ev("bytecode.control_flow"@, "backward jump"@);
    let front = opt_manifest_evs(m)
        + ev_if(nef.method_tokens@.len() > 0, ev("nef.method_tokens"@, dec(nef.method_tokens@.len())))
        + token_evs(nef.method_tokens@)
        + ev_if(any_instr(iv, |ins: InstructionView| is_external_call(ins)), ev("bytecode.calls"@, "CALLA/CALLT/Contract.Call"@))
        + names_evs(syscall_names(iv));
    let back1 = ev_if(trimmed(nef.header.compiler@).len() > 0, ev("nef.header.compiler"@, nef.header.compiler@));
    let back2 = ev_if(trimmed(nef.header.source@).len() > 0, ev("nef.header.source"@, nef.header.source@));
    assert(raw_evidence(nef, iv, m) == front + seq![e] + back1 + back2);
    assert((front + seq![e] + back1 + back2)[front.len() as int] == e);
}

/// A `CALLA` or `CALLT` instruction makes the identified patterns contain `external_calls`,
/// whatever else the contract holds.
pub proof fn lemma_call_is_external(nef: NefFile, iv: Seq<InstructionView>, m: Option<&ContractManifest>, i: int)
    requires
        0 <= i < iv.len(),
        iv[i].opcode == OpCode::CALLA || iv[i].opcode == OpCode::CALLT,
    ensures
        pattern_set(nef, iv, m).contains("external_calls"@),
{
    let p = |ins: InstructionView| is_external_call(ins);
    assert(p(iv[i]));
    assert(any_instr(iv, p));
    assert(one_if(true, "external_calls"@).contains("external_calls"@));
}

/// The compiler identifies C#.
pub open spec fn compiler_is_csharp(nef: NefFile) -> bool {
    trimmed(nef.header.compiler@).len() > 0 && csharp_tag(nef.header.compiler@)
}

/// Overall confidence: high for declared standards; medium for a C#
/// compiler, a NEP-17 or NEP-11 pattern, or two pieces of evidence with some
/// pattern; low for any evidence; unknown otherwise.
pub open spec fn confidence_of(nef: NefFile, iv: Seq<InstructionView>, m: Option<&ContractManifest>) -> PatternConfidence {
    let ps = pattern_set(nef, iv, m);
    let n = raw_evidence(nef, iv, m).len();
    if standards_of(m).len() > 0 {
        PatternConfidence::High
    } else if compiler_is_csharp(nef) || ps.contains("NEP-17"@) || ps.contains("NEP-11"@) || (n >= 2 && ps != Set::<Seq<char>>::empty()) {
        PatternConfidence::Medium
    } else if n > 0 {
        PatternConfidence::Low
    } else {
        PatternConfidence::Unknown
    }
}


/// A count as decimal text.
fn count_text(n: usize) -> (r: String)
    ensures
        r@ == dec(n as nat),
{
    let mut s = String::new();
    push_decimal(&mut s, n as u64);
    proof {
        assert(s@ =~= dec(n as nat));
    }
    s
}

/// Record a pattern and its evidence when `b` holds.
fn add_if(
    b: bool,
    pattern: &str,
    source: &str,
    value: String,
    patterns: &mut Vec<String>,
    evidence: &mut Vec<PatternEvidence>,
)
    requires
        strictly_sorted(str_views(old(patterns)@)),
    ensures
        strictly_sorted(str_views(final(patterns)@)),
        str_views(final(patterns)@).to_set() == str_views(old(patterns)@).to_set() + one_if(b, pattern@),
        ev_views(final(evidence)@) == ev_views(old(evidence)@) + ev_if(b, ev(source@, value@)),
{
    if b {
        insert_name(patterns, String::from_str(pattern));
        push_ev(evidence, source, value);
    }
    proof {
        assert(str_views(final(patterns)@).to_set() =~= str_views(old(patterns)@).to_set() + one_if(b, pattern@));
        assert(ev_views(final(evidence)@) =~= ev_views(old(evidence)@) + ev_if(b, ev(source@, value@)));
    }
}

/// The standards, patterns and evidence a manifest gives; whether it declares
/// a standard.
fn manifest_part(
    m: &ContractManifest,
    standards: &mut Vec<String>,
    patterns: &mut Vec<String>,
    evidence: &mut Vec<PatternEvidence>,
) -> (strong: bool)
    requires
        strictly_sorted(str_views(old(standards)@)),
        strictly_sorted(str_views(old(patterns)@)),
    ensures
        strictly_sorted(str_views(final(standards)@)),
        strictly_sorted(str_views(final(patterns)@)),
        str_views(final(standards)@).to_set() == str_views(old(standards)@).to_set() + std_list(m.supported_standards@).to_set(),
        str_views(final(patterns)@).to_set() == str_views(old(patterns)@).to_set() + manifest_patterns(*m),
        ev_views(final(evidence)@) == ev_views(old(evidence)@) + manifest_evs(*m),
        strong == (std_list(m.supported_standards@).len() > 0),
        strong == exists|j: int| 0 <= j < m.supported_standards@.len() && trimmed((#[trigger] m.supported_standards@[j])@).len() > 0,
{
    let ghost s0 = str_views(standards@).to_set();
    let ghost p0 = str_views(patterns@).to_set();
    let ghost e0 = ev_views(evidence@);
    let ghost ss = m.supported_standards@;
    let mut strong = false;
    let mut i: usize = 0;
    proof {
        assert(ss.take(0) =~= Seq::<String>::empty());
        assert(str_views(standards@).to_set() =~= s0 + std_list(ss.take(0)).to_set());
        assert(str_views(patterns@).to_set() =~= p0 + Set::new(|p: Seq<char>| std_list(ss.take(0)).contains(p) && is_prefix("NEP-"@, p)));
        assert(ev_views(evidence@) =~= e0 + std_list(ss.take(0)).map_values(|s: Seq<char>| ev("manifest.supportedstandards"@, s)));
    }
    while i < m.supported_standards.len()
        invariant
            ss == m.supported_standards@,
            i <= ss.len(),
            strictly_sorted(str_views(standards@)),
            strictly_sorted(str_views(patterns@)),
            str_views(standards@).to_set() == s0 + std_list(ss.take(i as int)).to_set(),
            str_views(patterns@).to_set() == p0 + Set::new(|p: Seq<char>| std_list(ss.take(i as int)).contains(p) && is_prefix("NEP-"@, p)),
            ev_views(evidence@) == e0 + std_list(ss.take(i as int)).map_values(|s: Seq<char>| ev("manifest.supportedstandards"@, s)),
            strong == (std_list(ss.take(i as int)).len() > 0),
            strong == exists|j: int| 0 <= j < i && trimmed((#[trigger] ss[j])@).len() > 0,
        decreases ss.len() - i,
    {
        let ghost l0 = std_list(ss.take(i as int));
        proof {
            assert(ss.take(i + 1).drop_last() =~= ss.take(i as int));
            assert(ss.take(i + 1).last() == ss[i as int]);
        }
        let trimmed_std = crate::text::trim(m.supported_standards[i].as_str());
        let standard = to_uppercase(trimmed_std);
        let ghost before = strong;
        proof {
            assert(trimmed_std@ == trimmed(ss[i as int]@));
        }
        if standard.as_str().unicode_len() > 0 {
            let ghost n = standard@;
            let ghost pre_p = str_views(patterns@).to_set();
            insert_name(standards, standard.clone());
            strong = true;
            let is_nep = crate::text::starts_with(standard.as_str(), "NEP-");
            if is_nep {
                insert_name(patterns, standard.clone());
            }
            push_ev(evidence, "manifest.supportedstandards", standard);
            proof {
                let l1 = l0.push(n);
                assert(std_list(ss.take(i + 1)) == l1);
                lemma_push_contains_seq(l0, n);
                assert(str_views(standards@).to_set() =~= s0 + l1.to_set());
                assert(str_views(patterns@).to_set() =~= p0 + Set::new(|p: Seq<char>| l1.contains(p) && is_prefix("NEP-"@, p)));
                assert(l1.map_values(|s: Seq<char>| ev("manifest.supportedstandards"@, s))
                    =~= l0.map_values(|s: Seq<char>| ev("manifest.supportedstandards"@, s)).push(ev("manifest.supportedstandards"@, n)));
            }
        } else {
            proof {
                assert(std_list(ss.take(i + 1)) == l0);
            }
        }
        proof {
            if before {
                let j = choose|j: int| 0 <= j < i && trimmed((#[trigger] ss[j])@).len() > 0;
                assert(0 <= j < i + 1 && trimmed(ss[j]@).len() > 0);
            }
            if trimmed(ss[i as int]@).len() > 0 {
                assert(0 <= i < i + 1 && trimmed(ss[i as int]@).len() > 0);
            }
        }
        i = i + 1;
    }
    proof {
        assert(ss.take(i as int) =~= ss);
    }
    let ghost sl = std_list(ss);
    let ghost e1 = ev_views(evidence@);
    let ghost p1 = str_views(patterns@).to_set();
    // events
    let n_events = m.abi.events.len();
    add_if(n_events > 0, "events", "manifest.abi.events", count_text(n_events), patterns, evidence);
    let mut transfer_event = false;
    let mut k: usize = 0;
    while k < m.abi.events.len()
        invariant
            k <= m.abi.events@.len(),
            transfer_event == exists|j: int| 0 <= j < k && lower_seq((#[trigger] m.abi.events@[j]).name@) == lower_seq("Transfer"@),
        decreases m.abi.events.len() - k,
    {
        if eq_ignore_ascii_case(m.abi.events[k].name.as_str(), "Transfer") {
            transfer_event = true;
        }
        k = k + 1;
    }
    let mut transfer_method = false;
    let mut k: usize = 0;
    while k < m.abi.methods.len()
        invariant
            k <= m.abi.methods@.len(),
            transfer_method == exists|j: int| 0 <= j < k && lower_seq((#[trigger] m.abi.methods@[j]).name@) == lower_seq("transfer"@),
        decreases m.abi.methods.len() - k,
    {
        if eq_ignore_ascii_case(m.abi.methods[k].name.as_str(), "transfer") {
            transfer_method = true;
        }
        k = k + 1;
    }
    if transfer_event {
        push_ev(evidence, "manifest.abi.events", String::from_str("Transfer"));
    }
    let ghost e2 = ev_views(evidence@);
    add_if(transfer_event && transfer_method, "token_transfers", "manifest.abi.methods", String::from_str("transfer + Transfer"), patterns, evidence);
    let n_perms = m.permissions.len();
    add_if(n_perms > 0, "call_permissions", "manifest.permissions", count_text(n_perms), patterns, evidence);
    let mut wildcard = false;
    let mut k: usize = 0;
    while k < m.permissions.len()
        invariant
            k <= m.permissions@.len(),
            wildcard == exists|j: int| 0 <= j < k && ((#[trigger] m.permissions@[j]).contract is Wildcard || m.permissions@[j].methods is Wildcard),
        decreases m.permissions.len() - k,
    {
        let c = matches!(m.permissions[k].contract, ManifestPermissionContract::Wildcard(_));
        let w = matches!(m.permissions[k].methods, ManifestPermissionMethods::Wildcard(_));
        if c || w {
            wildcard = true;
        }
        k = k + 1;
    }
    add_if(wildcard, "wildcard_permissions", "manifest.permissions", String::from_str("wildcard"), patterns, evidence);
    proof {
        assert(e2 =~= e1 + ev_if(m.abi.events@.len() > 0, ev("manifest.abi.events"@, dec(m.abi.events@.len())))
            + ev_if(has_transfer_event(*m), ev("manifest.abi.events"@, "Transfer"@)));
        assert(ev_views(evidence@) =~= e0 + manifest_evs(*m));
        assert(str_views(patterns@).to_set() =~= p0 + manifest_patterns(*m));
    }
    strong
}


/// The patterns and evidence of the method tokens.
fn token_part(nef: &NefFile, patterns: &mut Vec<String>, evidence: &mut Vec<PatternEvidence>)
    requires
        strictly_sorted(str_views(old(patterns)@)),
    ensures
        strictly_sorted(str_views(final(patterns)@)),
        str_views(final(patterns)@).to_set() == str_views(old(patterns)@).to_set() + one_if(nef.method_tokens@.len() > 0, "method_tokens"@)
            + token_patterns(nef.method_tokens@),
        ev_views(final(evidence)@) == ev_views(old(evidence)@) + ev_if(nef.method_tokens@.len() > 0, ev("nef.method_tokens"@, dec(nef.method_tokens@.len())))
            + token_evs(nef.method_tokens@),
{
    let n = nef.method_tokens.len();
    add_if(n > 0, "method_tokens", "nef.method_tokens", count_text(n), patterns, evidence);
    let ghost p1 = str_views(patterns@).to_set();
    let ghost e1 = ev_views(evidence@);
    let ghost ts = nef.method_tokens@;
    let mut i: usize = 0;
    proof {
        assert(ts.take(0) =~= Seq::<MethodToken>::empty());
        assert(str_views(patterns@).to_set() =~= p1 + token_patterns(ts.take(0)));
        assert(ev_views(evidence@) =~= e1 + token_evs(ts.take(0)));
    }
    while i < n
        invariant
            ts == nef.method_tokens@,
            n == ts.len(),
            i <= n,
            strictly_sorted(str_views(patterns@)),
            str_views(patterns@).to_set() == p1 + token_patterns(ts.take(i as int)),
            ev_views(evidence@) == e1 + token_evs(ts.take(i as int)),
        decreases n - i,
    {
        let token = &nef.method_tokens[i];
        proof {
            assert(ts.take(i + 1).drop_last() =~= ts.take(i as int));
            assert(ts.take(i + 1).last() == *token);
        }
        let ghost pb = str_views(patterns@).to_set();
        let ghost eb = ev_views(evidence@);
        match describe_method_token(&token.hash, token.method.as_str()) {
            Some(hint) => {
                if hint.has_exact_method() {
                    let canonical = hint.canonical_method.unwrap();
                    let label = hint.formatted_label(token.method.as_str());
                    let ghost c = hint.contract@;
                    let ghost m = canonical@;
                    insert_name(patterns, String::from_str("native_contract_calls"));
                    push_ev(evidence, "nef.method_tokens.native", label.clone());
                    infer_native_patterns(hint.contract, canonical, label.as_str(), patterns, evidence);
                    proof {
                        assert(token_hint(*token) == Some((c, m)));
                        assert(label@ == token_label(c, m));
                        assert(str_views(patterns@).to_set() =~= pb + (set!["native_contract_calls"@] + native_pats(c, m).to_set()));
                        assert(ev_views(evidence@) =~= eb + (seq![ev("nef.method_tokens.native"@, token_label(c, m))] + native_evs(native_pats(c, m), token_label(c, m))));
                    }
                } else {
                    proof {
                        assert(token_hint(*token).is_none());
                        assert(pb + Set::<Seq<char>>::empty() =~= pb);
                        assert(eb + Seq::<EvidenceView>::empty() =~= eb);
                    }
                }
            },
            None => {
                proof {
                    assert(token_hint(*token).is_none());
                    assert(pb + Set::<Seq<char>>::empty() =~= pb);
                    assert(eb + Seq::<EvidenceView>::empty() =~= eb);
                }
            },
        }
        proof {
            assert(str_views(patterns@).to_set() =~= p1 + token_patterns(ts.take(i + 1)));
            assert(ev_views(evidence@) =~= e1 + token_evs(ts.take(i + 1)));
        }
        i = i + 1;
    }
    proof {
        assert(ts.take(n as int) =~= ts);
    }
}

/// The interop name a `SYSCALL` instruction invokes, when known.
fn syscall_name(ins: &Instruction) -> (r: Option<&'static str>)
    ensures
        match r {
            Some(s) => syscall_name_of(ins@) == Some(s@),
            None => syscall_name_of(ins@).is_none(),
        },
{
    if ins.opcode == OpCode::SYSCALL {
        match &ins.operand {
            Some(Operand::SyscallHash(h)) => lookup(*h),
            _ => None,
        }
    } else {
        None
    }
}

fn contains_name(v: &Vec<&'static str>, x: &str) -> (r: bool)
    ensures
        r == v@.map_values(|s: &str| s@).contains(x@),
{
    let ghost vs = v@.map_values(|s: &str| s@);
    let mut i: usize = 0;
    while i < v.len()
        invariant
            i <= v@.len(),
            vs == v@.map_values(|s: &str| s@),
            forall|j: int| 0 <= j < i ==> vs[j] != x@,
        decreases v.len() - i,
    {
        if str_eq(v[i], x) {
            proof {
                assert(vs[i as int] == x@);
            }
            return true;
        }
        i = i + 1;
    }
    false
}

/// The patterns and evidence of the syscalls the code invokes.
fn syscall_part(instructions: &[Instruction], patterns: &mut Vec<String>, evidence: &mut Vec<PatternEvidence>)
    requires
        strictly_sorted(str_views(old(patterns)@)),
    ensures
        strictly_sorted(str_views(final(patterns)@)),
        str_views(final(patterns)@).to_set() == str_views(old(patterns)@).to_set() + names_patterns(syscall_names(instrs_view(instructions@))),
        ev_views(final(evidence)@) == ev_views(old(evidence)@) + names_evs(syscall_names(instrs_view(instructions@))),
{
    let ghost iv = instrs_view(instructions@);
    let mut names: Vec<&'static str> = Vec::new();
    let mut i: usize = 0;
    proof {
        assert(iv.take(0) =~= Seq::<InstructionView>::empty());
        assert(names@.map_values(|s: &str| s@) =~= syscall_names(iv.take(0)));
    }
    while i < instructions.len()
        invariant
            iv == instrs_view(instructions@),
            i <= instructions@.len(),
            names@.map_values(|s: &str| s@) == syscall_names(iv.take(i as int)),
        decreases instructions.len() - i,
    {
        proof {
            assert(iv.take(i + 1).drop_last() =~= iv.take(i as int));
            assert(iv.take(i + 1).last() == instructions@[i as int]@);
        }
        if let Some(n) = syscall_name(&instructions[i]) {
            if !contains_name(&names, n) {
                names.push(n);
                proof {
                    assert(names@.map_values(|s: &str| s@) =~= syscall_names(iv.take(i as int)).push(n@));
                }
            }
        }
        i = i + 1;
    }
    proof {
        assert(iv.take(i as int) =~= iv);
    }
    let ghost ns = syscall_names(iv);
    let ghost p0 = str_views(patterns@).to_set();
    let ghost e0 = ev_views(evidence@);
    let mut k: usize = 0;
    proof {
        assert(ns.take(0) =~= Seq::<Seq<char>>::empty());
        assert(str_views(patterns@).to_set() =~= p0 + names_patterns(ns.take(0)));
        assert(ev_views(evidence@) =~= e0 + names_evs(ns.take(0)));
    }
    while k < names.len()
        invariant
            names@.map_values(|s: &str| s@) == ns,
            k <= ns.len(),
            strictly_sorted(str_views(patterns@)),
            str_views(patterns@).to_set() == p0 + names_patterns(ns.take(k as int)),
            ev_views(evidence@) == e0 + names_evs(ns.take(k as int)),
        decreases names.len() - k,
    {
        proof {
            assert(ns.take(k + 1).drop_last() =~= ns.take(k as int));
            assert(ns.take(k + 1).last() == names@[k as int]@);
        }
        infer_syscall_patterns(names[k], patterns, evidence);
        proof {
            assert(str_views(patterns@).to_set() =~= p0 + names_patterns(ns.take(k + 1)));
            assert(ev_views(evidence@) =~= e0 + names_evs(ns.take(k + 1)));
        }
        k = k + 1;
    }
    proof {
        assert(ns.take(k as int) =~= ns);
    }
}

fn is_external_call_exec(ins: &Instruction) -> (r: bool)
    ensures
        r == is_external_call(ins@),
{
    if ins.opcode == OpCode::CALLA || ins.opcode == OpCode::CALLT {
        return true;
    }
    match &ins.operand {
        Some(Operand::SyscallHash(h)) => match lookup(*h) {
            Some(n) => str_eq(n, "System.Contract.Call"),
            None => false,
        },
        _ => false,
    }
}

fn is_backward_jump_exec(ins: &Instruction) -> (r: bool)
    ensures
        r == is_backward_jump(ins@),
{
    if !ins.opcode.is_jump() {
        return false;
    }
    match &ins.operand {
        Some(Operand::JumpTarget8(d)) => *d < 0,
        Some(Operand::JumpTarget32(d)) => *d < 0,
        Some(Operand::JumpTarget(d)) => *d < 0,
        _ => false,
    }
}

fn any_external_call(instructions: &[Instruction]) -> (r: bool)
    ensures
        r == any_instr(instrs_view(instructions@), |ins: InstructionView| is_external_call(ins)),
{
    let ghost iv = instrs_view(instructions@);
    let mut i: usize = 0;
    while i < instructions.len()
        invariant
            iv == instrs_view(instructions@),
            i <= instructions@.len(),
            forall|j: int| 0 <= j < i ==> !is_external_call(#[trigger] iv[j]),
        decreases instructions.len() - i,
    {
        if is_external_call_exec(&instructions[i]) {
            proof {
                assert(iv[i as int] == instructions@[i as int]@);
            }
            return true;
        }
        i = i + 1;
    }
    false
}

fn any_backward_jump(instructions: &[Instruction]) -> (r: bool)
    ensures
        r == any_instr(instrs_view(instructions@), |ins: InstructionView| is_backward_jump(ins)),
{
    let ghost iv = instrs_view(instructions@);
    let mut i: usize = 0;
    while i < instructions.len()
        invariant
            iv == instrs_view(instructions@),
            i <= instructions@.len(),
            forall|j: int| 0 <= j < i ==> !is_backward_jump(#[trigger] iv[j]),
        decreases instructions.len() - i,
    {
        if is_backward_jump_exec(&instructions[i]) {
            proof {
                assert(iv[i as int] == instructions@[i as int]@);
            }
            return true;
        }
        i = i + 1;
    }
    false
}


fn has_name(v: &Vec<String>, x: &str) -> (r: bool)
    ensures
        r == str_views(v@).contains(x@),
{
    let mut i: usize = 0;
    while i < v.len()
        invariant
            i <= v@.len(),
            forall|j: int| 0 <= j < i ==> str_views(v@)[j] != x@,
        decreases v.len() - i,
    {
        if str_eq(v[i].as_str(), x) {
            proof {
                assert(str_views(v@)[i as int] == x@);
            }
            return true;
        }
        i = i + 1;
    }
    false
}

/// Identify declared standards, behaviour patterns and a C# source hint.
///
/// The manifest's standards are authoritative; its events and permissions,
/// the method tokens (and calls of native contracts they make), calls out of
/// the contract, the syscalls invoked and backward jumps add patterns. Every
/// signal is kept as evidence, sorted by source and value.
pub fn identify_patterns(nef: &NefFile, instructions: &[Instruction], manifest: Option<&ContractManifest>) -> (info: PatternInfo)
    ensures
        strictly_sorted(str_views(info.standards@)),
        str_views(info.standards@).to_set() == standards_of(manifest).to_set(),
        strictly_sorted(str_views(info.patterns@)),
        str_views(info.patterns@).to_set() == pattern_set(*nef, instrs_view(instructions@), manifest),
        ev_sorted(ev_views(info.evidence@)),
        ev_views(info.evidence@).to_multiset() == raw_evidence(*nef, instrs_view(instructions@), manifest).to_multiset(),
        match info.compiler {
            Some(c) => trimmed(nef.header.compiler@).len() > 0 && c@ == nef.header.compiler@,
            None => trimmed(nef.header.compiler@).len() == 0,
        },
        info.language.is_some() == (compiler_is_csharp(*nef) || csharp_source(nef.header.source@)),
        info.language matches Some(l) ==> l@ == "C#"@,
        info.confidence == confidence_of(*nef, instrs_view(instructions@), manifest),
        (info.confidence == PatternConfidence::High) <==> (manifest matches Some(m) && exists|j: int|
            0 <= j < m.supported_standards@.len() && trimmed((#[trigger] m.supported_standards@[j])@).len() > 0),
{
    let ghost iv = instrs_view(instructions@);
    let mut standards: Vec<String> = Vec::new();
    let mut patterns: Vec<String> = Vec::new();
    let mut evidence: Vec<PatternEvidence> = Vec::new();
    let mut strong = false;
    proof {
        assert(str_views(standards@).to_set() =~= Set::<Seq<char>>::empty());
        assert(str_views(patterns@).to_set() =~= Set::<Seq<char>>::empty());
        assert(ev_views(evidence@) =~= Seq::<EvidenceView>::empty());
    }
    match manifest {
        Some(m) => {
            strong = manifest_part(m, &mut standards, &mut patterns, &mut evidence);
        },
        None => {},
    }
    let ghost pm = str_views(patterns@).to_set();
    let ghost em = ev_views(evidence@);
    proof {
        assert(pm =~= opt_manifest_patterns(manifest));
        assert(em =~= opt_manifest_evs(manifest));
        assert(str_views(standards@).to_set() =~= standards_of(manifest).to_set());
    }
    token_part(nef, &mut patterns, &mut evidence);
    let external = any_external_call(instructions);
    add_if(external, "external_calls", "bytecode.calls", String::from_str("CALLA/CALLT/Contract.Call"), &mut patterns, &mut evidence);
    syscall_part(instructions, &mut patterns, &mut evidence);
    let backward = any_backward_jump(instructions);
    add_if(backward, "loops", "bytecode.control_flow", String::from_str("backward jump"), &mut patterns, &mut evidence);
    let has_compiler = crate::text::trim(nef.header.compiler.as_str()).unicode_len() > 0;
    let ghost eb = ev_views(evidence@);
    if has_compiler {
        push_ev(&mut evidence, "nef.header.compiler", nef.header.compiler.clone());
    }
    let has_source = crate::text::trim(nef.header.source.as_str()).unicode_len() > 0;
    if has_source {
        push_ev(&mut evidence, "nef.header.source", nef.header.source.clone());
    }
    proof {
        assert(ev_views(evidence@) =~= eb + ev_if(has_compiler, ev("nef.header.compiler"@, nef.header.compiler@))
            + ev_if(has_source, ev("nef.header.source"@, nef.header.source@)));
        assert(str_views(patterns@).to_set() =~= pattern_set(*nef, iv, manifest));
        assert(ev_views(evidence@) =~= raw_evidence(*nef, iv, manifest));
    }
    let compiler = if has_compiler { Some(nef.header.compiler.clone()) } else { None };
    let compiler_csharp = if has_compiler { infer_language(nef.header.compiler.as_str()).is_some() } else { false };
    let language = if compiler_csharp {
        Some(String::from_str("C#"))
    } else {
        match infer_language_from_source(nef.header.source.as_str()) {
            Some(l) => Some(String::from_str(l)),
            None => None,
        }
    };
    let confidence = if strong {
        PatternConfidence::High
    } else if compiler_csharp || has_name(&patterns, "NEP-17") || has_name(&patterns, "NEP-11") || (evidence.len() >= 2
        && patterns.len() > 0) {
        PatternConfidence::Medium
    } else if evidence.len() > 0 {
        PatternConfidence::Low
    } else {
        PatternConfidence::Unknown
    };
    proof {
        let ps = pattern_set(*nef, iv, manifest);
        assert(ps == str_views(patterns@).to_set());
        if patterns@.len() > 0 {
            assert(ps.contains(str_views(patterns@)[0]));
        } else {
            assert(str_views(patterns@) =~= Seq::<Seq<char>>::empty());
            assert(ps =~= Set::<Seq<char>>::empty());
        }
        assert(ps.contains("NEP-17"@) == str_views(patterns@).contains("NEP-17"@));
        assert(ps.contains("NEP-11"@) == str_views(patterns@).contains("NEP-11"@));
    }
    let sorted = sort_evidence(evidence);
    PatternInfo { standards, patterns, language, compiler, confidence, evidence: sorted }
}

} // verus!
