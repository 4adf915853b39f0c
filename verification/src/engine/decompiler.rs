//! The decompilation engine: manifest type parsing, effect classification,
//! security and stack-depth assessment, and pass statistics.
use vstd::prelude::*;

use crate::analysis::effects::{Effect, KeyPattern};
use crate::analysis::types::{PrimitiveType, SideEffect, StructType, Type, TypeView};
use crate::common::config::{DecompilerConfig, DecompilerConfigView};
use crate::common::errors::AnalysisError;
use crate::common::types::{BlockId, ContractId, Literal, UnaryOperator, Variable};
use crate::engine::ir::{Expression, IRFunction, Terminator};
use crate::engine::syscalls::{SyscallDatabase, SyscallDatabaseView};
use crate::text::{is_prefix, lemma_trimmed_len, starts_with, str_eq, trim, trimmed};

verus! {

/// Analysis statistics for performance monitoring.
#[derive(Debug, Clone, Copy, PartialEq, Eq, Structural)]
pub struct AnalysisStatistics {
    /// Total analysis time.
    pub total_time_ms: u64,
    /// Type inference time.
    pub type_inference_time_ms: u64,
    /// CFG analysis time.
    pub cfg_analysis_time_ms: u64,
    /// Effect analysis time.
    pub effect_analysis_time_ms: u64,
    /// Optimization time.
    pub optimization_time_ms: u64,
    /// Number of passes applied.
    pub passes_applied: u32,
    /// Optimization iterations.
    pub optimization_iterations: u32,
    /// Dead code blocks removed.
    pub dead_blocks_removed: u32,
    /// Constants propagated.
    pub constants_propagated: u32,
    /// Copies eliminated.
    pub copies_eliminated: u32,
}

/// Statistics with every count zero.
pub open spec fn zero_statistics() -> AnalysisStatistics {
    AnalysisStatistics {
        total_time_ms: 0,
        type_inference_time_ms: 0,
        cfg_analysis_time_ms: 0,
        effect_analysis_time_ms: 0,
        optimization_time_ms: 0,
        passes_applied: 0,
        optimization_iterations: 0,
        dead_blocks_removed: 0,
        constants_propagated: 0,
        copies_eliminated: 0,
    }
}

impl Default for AnalysisStatistics {
    fn default() -> (r: AnalysisStatistics)
        ensures
            r == zero_statistics(),
    {
        AnalysisStatistics {
            total_time_ms: 0,
            type_inference_time_ms: 0,
            cfg_analysis_time_ms: 0,
            effect_analysis_time_ms: 0,
            optimization_time_ms: 0,
            passes_applied: 0,
            optimization_iterations: 0,
            dead_blocks_removed: 0,
            constants_propagated: 0,
            copies_eliminated: 0,
        }
    }
}

/// Optimization level.
#[derive(Debug, Clone, Copy, PartialEq, Eq, Structural)]
pub enum OptimizationLevel {
    /// No optimizations.
    Disabled,
    /// Basic optimizations (dead code elimination).
    Basic,
    /// All passes.
    Aggressive,
}

/// Type analysis results.
#[derive(Debug)]
pub struct TypeAnalysisResults {
    /// Variable types, by name.
    pub variable_types: Vec<(String, Type)>,
    /// Function signatures, by name.
    pub function_types: Vec<(String, Type)>,
    /// Storage key types, by key.
    pub storage_types: Vec<(String, Type)>,
    /// Type errors found.
    pub type_errors: Vec<String>,
}

/// Effect analysis results.
#[derive(Debug)]
pub struct EffectAnalysisResults {
    /// Effects per block.
    pub block_effects: Vec<(BlockId, Vec<Effect>)>,
    /// Function effect summary.
    pub function_effects: Vec<Effect>,
    /// Storage access patterns, by pattern key.
    pub storage_patterns: Vec<(String, KeyPattern)>,
    /// Gas cost estimation.
    pub estimated_gas_cost: Option<u64>,
    /// Security risk assessment.
    pub security_risks: Vec<SecurityRisk>,
}

/// Security risk assessment.
#[derive(Debug)]
pub struct SecurityRisk {
    /// Risk type.
    pub risk_type: RiskType,
    /// Risk severity (1-10).
    pub severity: u32,
    /// Description.
    pub description: String,
    /// Affected blocks.
    pub affected_blocks: Vec<BlockId>,
    /// Mitigation suggestion.
    pub mitigation: Option<String>,
}

/// Security risk types.
#[derive(Debug, Clone, Copy, PartialEq, Eq, Structural)]
pub enum RiskType {
    UnrestrictedStorageAccess,
    ReentrancyRisk,
    IntegerOverflowRisk,
    UnvalidatedExternalCalls,
    GasLimitIssues,
    AccessControlBypass,
}

/// Constant propagation record.
#[derive(Debug)]
pub struct ConstantPropagation {
    pub block_id: BlockId,
    pub variable: String,
    pub value: Literal,
    pub uses_replaced: u32,
}

/// Copy elimination record.
#[derive(Debug)]
pub struct CopyElimination {
    pub block_id: BlockId,
    pub source: String,
    pub target: String,
    pub uses_replaced: u32,
}

/// Subexpression elimination record.
#[derive(Debug)]
pub struct SubexpressionElimination {
    pub block_id: BlockId,
    pub expression: String,
    pub result_variable: String,
    pub occurrences_eliminated: u32,
}

/// Loop optimization types.
#[derive(Debug)]
pub enum LoopOptimizationType {
    /// Loop invariant code motion.
    InvariantCodeMotion { moved_operations: Vec<String> },
    /// Loop unrolling.
    LoopUnrolling { unroll_factor: u32 },
    /// Strength reduction.
    StrengthReduction { reductions: Vec<String> },
}

/// A non-fatal analysis finding.
#[derive(Debug)]
pub struct AnalysisWarning {
    pub warning_type: WarningType,
    pub message: String,
    pub affected_blocks: Vec<BlockId>,
    /// Severity (1-5).
    pub severity: u32,
}

/// Analysis warning types.
#[derive(Debug, Clone, Copy, PartialEq, Eq, Structural)]
pub enum WarningType {
    TypeInferenceUncertainty,
    OptimizationOpportunity,
    ComplexControlFlow,
    PerformanceConcern,
    CodeQualityIssue,
}

/// Loop analysis result.
#[derive(Debug)]
pub struct LoopAnalysis {
    pub header: BlockId,
    pub body_size: usize,
    pub is_performance_critical: bool,
    pub has_nested_loops: bool,
    pub estimated_iterations: Option<u64>,
    pub invariant_operations: Vec<String>,
}

/// The decompilation engine: configuration, syscalls, and pass settings.
pub struct DecompilerEngine {
    config: DecompilerConfig,
    syscall_db: SyscallDatabase,
    stats: AnalysisStatistics,
    /// Advanced control-flow analysis of aggressive optimization.
    advanced_analysis: bool,
    /// Loop detection of aggressive optimization.
    loop_detection: bool,
}

impl DecompilerEngine {
    /// The configuration.
    pub closed spec fn config_view(&self) -> DecompilerConfigView {
        self.config@
    }

    /// The syscall database.
    pub closed spec fn db_view(&self) -> SyscallDatabaseView {
        self.syscall_db@
    }

    /// The statistics.
    pub closed spec fn stats_view(&self) -> AnalysisStatistics {
        self.stats
    }

    /// Whether aggressive optimization's advanced control-flow analysis and loop
    /// detection are on.
    pub closed spec fn aggressive_view(&self) -> (bool, bool) {
        (self.advanced_analysis, self.loop_detection)
    }

    /// An engine with the configuration's custom syscalls added to the built-in
    /// ones and zero statistics.
    pub fn new(config: &DecompilerConfig) -> (r: Self)
        ensures
            r.config_view() == config@,
            r.db_view() == crate::engine::syscalls::db_add_all(
                crate::engine::syscalls::builtin_db(),
                config@.custom_syscalls.map_values(
                    |p: (Seq<char>, crate::common::config::SyscallDefinitionView)| p.1,
                ),
            ),
            r.stats_view() == zero_statistics(),
            r.aggressive_view() == (false, false),
    {
        let mut syscall_db = SyscallDatabase::new();
        let ghost ds = config@.custom_syscalls.map_values(
            |p: (Seq<char>, crate::common::config::SyscallDefinitionView)| p.1,
        );
        let customs = &config.syscalls.custom_syscalls;
        let mut i: usize = 0;
        while i < customs.len()
            invariant
                i <= customs@.len(),
                ds == config@.custom_syscalls.map_values(
                    |p: (Seq<char>, crate::common::config::SyscallDefinitionView)| p.1,
                ),
                customs == &config.syscalls.custom_syscalls,
                syscall_db@ == crate::engine::syscalls::db_add_all(
                    crate::engine::syscalls::builtin_db(),
                    ds.take(i as int),
                ),
            decreases customs@.len() - i,
        {
            proof {
                crate::engine::syscalls::lemma_db_add_all_step(crate::engine::syscalls::builtin_db(), ds, i as int);
                assert(ds[i as int] == customs@[i as int].1@);
            }
            let _ = syscall_db.add_syscall_definition(customs[i].1.clone_definition());
            i = i + 1;
        }
        proof {
            assert(ds.take(customs@.len() as int) =~= ds);
        }
        DecompilerEngine {
            config: config.clone_config(),
            syscall_db,
            stats: AnalysisStatistics::default(),
            advanced_analysis: false,
            loop_detection: false,
        }
    }

    /// An engine for an optimization level: aggressive optimization turns on
    /// advanced control-flow analysis and loop detection.
    pub fn with_optimization_level(config: &DecompilerConfig, opt_level: OptimizationLevel) -> (r: Self)
        ensures
            r.config_view() == config@,
            r.db_view() == crate::engine::syscalls::db_add_all(
                crate::engine::syscalls::builtin_db(),
                config@.custom_syscalls.map_values(
                    |p: (Seq<char>, crate::common::config::SyscallDefinitionView)| p.1,
                ),
            ),
            r.stats_view() == zero_statistics(),
            r.aggressive_view() == (if opt_level == OptimizationLevel::Aggressive { (true, true) } else { (false, false) }),
    {
        let mut engine = Self::new(config);
        match opt_level {
            OptimizationLevel::Disabled => {},
            OptimizationLevel::Basic => {},
            OptimizationLevel::Aggressive => {
                engine.advanced_analysis = true;
                engine.loop_detection = true;
            },
        }
        engine
    }

    /// The analysis statistics.
    pub fn get_statistics(&self) -> (r: &AnalysisStatistics)
        ensures
            *r == self.stats_view(),
    {
        &self.stats
    }

    /// Reset the analysis statistics to zero.
    pub fn reset_statistics(&mut self)
        ensures
            final(self).stats_view() == zero_statistics(),
            final(self).config_view() == old(self).config_view(),
            final(self).db_view() == old(self).db_view(),
            final(self).aggressive_view() == old(self).aggressive_view(),
    {
        self.stats = AnalysisStatistics::default();
    }

    /// Whether an optimization pass is enabled.
    pub fn optimization_enabled(&self) -> (r: bool)
        ensures
            r == self.config_view().analysis.enable_dead_code_elimination,
    {
        self.config.analysis.enable_dead_code_elimination
    }

    /// The number of enabled analysis passes.
    pub fn count_applied_passes(&self) -> (r: u32)
        ensures
            r == (if self.config_view().analysis.enable_type_inference { 1int } else { 0 }) + (if self.config_view().analysis.enable_cfg_analysis {
                1int
            } else {
                0
            }) + (if self.config_view().analysis.enable_effect_analysis { 1int } else { 0 }) + (if self.config_view().analysis.enable_loop_detection {
                1int
            } else {
                0
            }) + (if self.config_view().analysis.enable_dead_code_elimination { 1int } else { 0 }),
    {
        let mut count: u32 = 0;
        if self.config.analysis.enable_type_inference {
            count = count + 1;
        }
        if self.config.analysis.enable_cfg_analysis {
            count = count + 1;
        }
        if self.config.analysis.enable_effect_analysis {
            count = count + 1;
        }
        if self.config.analysis.enable_loop_detection {
            count = count + 1;
        }
        if self.config.analysis.enable_dead_code_elimination {
            count = count + 1;
        }
        count
    }
}


/// `i` is the first position of `c` in `s`.
pub open spec fn is_first(s: Seq<char>, c: char, i: int) -> bool {
    0 <= i < s.len() && s[i] == c && forall|j: int| 0 <= j < i ==> s[j] != c
}

/// `i` is the last position of `c` in `s`.
pub open spec fn is_last(s: Seq<char>, c: char, i: int) -> bool {
    0 <= i < s.len() && s[i] == c && forall|j: int| i < j < s.len() ==> s[j] != c
}

/// The first position of `c` in `s`.
pub open spec fn first_index(s: Seq<char>, c: char) -> Option<int> {
    if exists|i: int| is_first(s, c, i) { Some(choose|i: int| is_first(s, c, i)) } else { None }
}

/// The last position of `c` in `s`.
pub open spec fn last_index(s: Seq<char>, c: char) -> Option<int> {
    if exists|i: int| is_last(s, c, i) { Some(choose|i: int| is_last(s, c, i)) } else { None }
}

/// Nesting depth of `<` `>` brackets before position `i`.
pub open spec fn depth_at(s: Seq<char>, i: int) -> int
    decreases i,
{
    if i <= 0 {
        0
    } else {
        depth_at(s, i - 1) + if s[i - 1] == '<' {
            1int
        } else if s[i - 1] == '>' {
            -1int
        } else {
            0int
        }
    }
}

/// A comma outside any brackets.
pub open spec fn top_level_comma_at(s: Seq<char>, i: int) -> bool {
    0 <= i < s.len() && s[i] == ',' && depth_at(s, i) == 0
}

/// `i` is the first comma outside any brackets.
pub open spec fn is_first_top_comma(s: Seq<char>, i: int) -> bool {
    top_level_comma_at(s, i) && forall|j: int| 0 <= j < i ==> !top_level_comma_at(s, j)
}

/// The first comma of `s` outside any brackets.
pub open spec fn top_comma(s: Seq<char>) -> Option<int> {
    if exists|i: int| is_first_top_comma(s, i) { Some(choose|i: int| is_first_top_comma(s, i)) } else { None }
}

/// The type a Neo N3 manifest type name denotes, after trimming whitespace:
/// primitive names, `String` as `ByteString`, `Any`, `Void`, a `?` suffix for
/// nullable, `Array<..>` and `Map<.., ..>` (untyped when malformed), `Buffer`,
/// `Struct`, `InteropInterface`; the empty name is unknown and any other name is
/// user-defined.
pub open spec fn neo_type(s: Seq<char>) -> TypeView
    decreases s.len(), 1int,
{
    let t = trimmed(s);
    if t == "Boolean"@ {
        TypeView::Primitive(PrimitiveType::Boolean)
    } else if t == "Integer"@ {
        TypeView::Primitive(PrimitiveType::Integer)
    } else if t == "ByteString"@ || t == "String"@ {
        TypeView::Primitive(PrimitiveType::ByteString)
    } else if t == "Hash160"@ {
        TypeView::Primitive(PrimitiveType::Hash160)
    } else if t == "Hash256"@ {
        TypeView::Primitive(PrimitiveType::Hash256)
    } else if t == "PublicKey"@ {
        TypeView::Primitive(PrimitiveType::PublicKey)
    } else if t == "Signature"@ {
        TypeView::Primitive(PrimitiveType::Signature)
    } else if t == "ECPoint"@ {
        TypeView::Primitive(PrimitiveType::ECPoint)
    } else if t == "Any"@ {
        TypeView::Any
    } else if t == "Void"@ {
        TypeView::Void
    } else if t == "Null"@ {
        TypeView::Primitive(PrimitiveType::Null)
    } else if t.len() > 0 && t.last() == '?' {
        proof {
            lemma_trimmed_len(s);
        }
        TypeView::Nullable(Box::new(neo_type(t.drop_last())))
    } else if is_prefix("Array"@, t) {
        proof {
            lemma_trimmed_len(s);
        }
        array_of(t)
    } else if is_prefix("Map"@, t) {
        proof {
            lemma_trimmed_len(s);
        }
        map_of(t)
    } else if t == "Buffer"@ {
        TypeView::Buffer
    } else if t == "Struct"@ {
        TypeView::Struct { name: None, fields: Seq::empty(), is_packed: false }
    } else if t == "InteropInterface"@ {
        TypeView::InteropInterface("Unknown"@)
    } else if t.len() == 0 {
        TypeView::Unknown
    } else {
        TypeView::UserDefined(t)
    }
}

/// The array type `Array<element>`, or an untyped array when the brackets are missing.
pub open spec fn array_of(t: Seq<char>) -> TypeView
    decreases t.len(), 0int,
{
    let a = first_index(t, '<');
    let b = last_index(t, '>');
    if a is Some && b is Some && a->Some_0 < b->Some_0 {
        TypeView::Array(Box::new(neo_type(t.subrange(a->Some_0 + 1, b->Some_0))))
    } else {
        TypeView::Array(Box::new(TypeView::Unknown))
    }
}

/// The map type `Map<key, value>`, split at the first comma outside brackets, or
/// an untyped map when that fails.
pub open spec fn map_of(t: Seq<char>) -> TypeView
    decreases t.len(), 0int,
{
    let a = first_index(t, '<');
    let b = last_index(t, '>');
    if a is Some && b is Some && a->Some_0 < b->Some_0 {
        let inner = t.subrange(a->Some_0 + 1, b->Some_0);
        match top_comma(inner) {
            Some(c) => {
                proof {
                    lemma_trimmed_len(inner.take(c));
                    lemma_trimmed_len(inner.skip(c + 1));
                }
                TypeView::Mapping {
                    key: Box::new(neo_type(trimmed(inner.take(c)))),
                    value: Box::new(neo_type(trimmed(inner.skip(c + 1)))),
                }
            },
            None => TypeView::Mapping { key: Box::new(TypeView::Unknown), value: Box::new(TypeView::Unknown) },
        }
    } else {
        TypeView::Mapping { key: Box::new(TypeView::Unknown), value: Box::new(TypeView::Unknown) }
    }
}

/// The first position of a character.
fn find_char(s: &str, c: char) -> (r: Option<usize>)
    ensures
        match r {
            Some(i) => first_index(s@, c) == Some(i as int),
            None => first_index(s@, c) is None,
        },
{
    let n = s.unicode_len();
    let mut i: usize = 0;
    while i < n
        invariant
            n == s@.len(),
            i <= n,
            forall|j: int| 0 <= j < i ==> s@[j] != c,
        decreases n - i,
    {
        if s.get_char(i) == c {
            proof {
                assert(is_first(s@, c, i as int));
                let k = choose|k: int| is_first(s@, c, k);
                assert(k == i) by {
                    if k < i {
                    } else if k > i {
                        assert(s@[i as int] != c);
                    }
                }
            }
            return Some(i);
        }
        i = i + 1;
    }
    proof {
        assert(!exists|k: int| is_first(s@, c, k));
    }
    None
}

/// The last position of a character.
fn rfind_char(s: &str, c: char) -> (r: Option<usize>)
    ensures
        match r {
            Some(i) => last_index(s@, c) == Some(i as int),
            None => last_index(s@, c) is None,
        },
{
    let n = s.unicode_len();
    let mut i: usize = n;
    while i > 0
        invariant
            n == s@.len(),
            i <= n,
            forall|j: int| i <= j < n ==> s@[j] != c,
        decreases i,
    {
        if s.get_char(i - 1) == c {
            proof {
                assert(is_last(s@, c, i - 1));
                let k = choose|k: int| is_last(s@, c, k);
                assert(k == i - 1) by {
                    if k < i - 1 {
                        assert(s@[i - 1] != c);
                    }
                }
            }
            return Some(i - 1);
        }
        i = i - 1;
    }
    proof {
        assert(!exists|k: int| is_last(s@, c, k));
    }
    None
}

/// The number of UTF-8 bytes that encode `c`.
pub open spec fn utf8_width(c: char) -> nat {
    if (c as u32) < 0x80 {
        1
    } else if (c as u32) < 0x800 {
        2
    } else if (c as u32) < 0x10000 {
        3
    } else {
        4
    }
}

/// The number of UTF-8 bytes that encode `s`.
pub open spec fn utf8_len(s: Seq<char>) -> nat
    decreases s.len(),
{
    if s.len() == 0 {
        0
    } else {
        utf8_len(s.drop_last()) + utf8_width(s.last())
    }
}

/// A prefix takes no more bytes than a longer one.
proof fn lemma_utf8_len_prefix(s: Seq<char>, i: int, j: int)
    requires
        0 <= i <= j <= s.len(),
    ensures
        utf8_len(s.take(i)) <= utf8_len(s.take(j)),
    decreases j - i,
{
    if i < j {
        lemma_utf8_len_prefix(s, i, j - 1);
        assert(s.take(j).drop_last() =~= s.take(j - 1));
    }
}

impl DecompilerEngine {
    /// The byte index of the first comma outside `<` `>` brackets.
    pub fn find_top_level_comma(&self, s: &str) -> (r: Option<usize>)
        requires
            utf8_len(s@) <= usize::MAX,
        ensures
            match top_comma(s@) {
                Some(i) => r == Some(utf8_len(s@.take(i)) as usize),
                None => r is None,
            },
    {
        let n = s.unicode_len();
        let mut depth: i128 = 0;
        let mut bytes: usize = 0;
        let mut i: usize = 0;
        while i < n
            invariant
                n == s@.len(),
                i <= n,
                depth == depth_at(s@, i as int),
                -(i as int) <= depth <= i as int,
                forall|j: int| 0 <= j < i ==> !top_level_comma_at(s@, j),
                bytes == utf8_len(s@.take(i as int)),
                utf8_len(s@) <= usize::MAX,
            decreases n - i,
        {
            let c = s.get_char(i);
            if c == '<' {
                depth = depth + 1;
            } else if c == '>' {
                depth = depth - 1;
            } else if c == ',' && depth == 0 {
                proof {
                    assert(is_first_top_comma(s@, i as int));
                    let k = choose|k: int| is_first_top_comma(s@, k);
                    assert(k == i) by {
                        if k > i {
                            assert(top_level_comma_at(s@, i as int));
                        }
                    }
                }
                return Some(bytes);
            }
            let code = c as u32;
            let w: usize = if code < 0x80 {
                1
            } else if code < 0x800 {
                2
            } else if code < 0x10000 {
                3
            } else {
                4
            };
            proof {
                assert(s@.take(i + 1).drop_last() =~= s@.take(i as int));
                lemma_utf8_len_prefix(s@, i + 1, n as int);
                assert(s@.take(n as int) =~= s@);
            }
            bytes = bytes + w;
            i = i + 1;
        }
        proof {
            assert(!exists|k: int| is_first_top_comma(s@, k));
        }
        None
    }

    /// The character position of the first comma outside `<` `>` brackets.
    fn top_comma_position(&self, s: &str) -> (r: Option<usize>)
        ensures
            match r {
                Some(i) => top_comma(s@) == Some(i as int),
                None => top_comma(s@) is None,
            },
    {
        let n = s.unicode_len();
        let mut depth: i128 = 0;
        let mut i: usize = 0;
        while i < n
            invariant
                n == s@.len(),
                i <= n,
                depth == depth_at(s@, i as int),
                -(i as int) <= depth <= i as int,
                forall|j: int| 0 <= j < i ==> !top_level_comma_at(s@, j),
            decreases n - i,
        {
            let c = s.get_char(i);
            if c == '<' {
                depth = depth + 1;
            } else if c == '>' {
                depth = depth - 1;
            } else if c == ',' && depth == 0 {
                proof {
                    assert(is_first_top_comma(s@, i as int));
                    let k = choose|k: int| is_first_top_comma(s@, k);
                    assert(k == i) by {
                        if k > i {
                            assert(top_level_comma_at(s@, i as int));
                        }
                    }
                }
                return Some(i);
            }
            i = i + 1;
        }
        proof {
            assert(!exists|k: int| is_first_top_comma(s@, k));
        }
        None
    }

    /// Parse a Neo N3 manifest type name.
    pub fn parse_neo_type(&self, type_string: &str) -> (r: Result<Type, AnalysisError>)
        ensures
            r matches Ok(t) && t@ == neo_type(type_string@),
        decreases type_string@.len(), 1int,
    {
        let t = trim(type_string);
        proof {
            lemma_trimmed_len(type_string@);
        }
        if str_eq(t, "Boolean") {
            return Ok(Type::Primitive(PrimitiveType::Boolean));
        }
        if str_eq(t, "Integer") {
            return Ok(Type::Primitive(PrimitiveType::Integer));
        }
        if str_eq(t, "ByteString") || str_eq(t, "String") {
            return Ok(Type::Primitive(PrimitiveType::ByteString));
        }
        if str_eq(t, "Hash160") {
            return Ok(Type::Primitive(PrimitiveType::Hash160));
        }
        if str_eq(t, "Hash256") {
            return Ok(Type::Primitive(PrimitiveType::Hash256));
        }
        if str_eq(t, "PublicKey") {
            return Ok(Type::Primitive(PrimitiveType::PublicKey));
        }
        if str_eq(t, "Signature") {
            return Ok(Type::Primitive(PrimitiveType::Signature));
        }
        if str_eq(t, "ECPoint") {
            return Ok(Type::Primitive(PrimitiveType::ECPoint));
        }
        if str_eq(t, "Any") {
            return Ok(Type::Any);
        }
        if str_eq(t, "Void") {
            return Ok(Type::Void);
        }
        if str_eq(t, "Null") {
            return Ok(Type::Primitive(PrimitiveType::Null));
        }
        let n = t.unicode_len();
        if n > 0 && t.get_char(n - 1) == '?' {
            let inner = t.substring_char(0, n - 1);
            proof {
                assert(inner@ =~= t@.drop_last());
            }
            let parsed = match self.parse_neo_type(inner) {
                Ok(ty) => ty,
                Err(e) => return Err(e),
            };
            return Ok(Type::Nullable(Box::new(parsed)));
        }
        if starts_with(t, "Array") {
            return self.parse_array_type(t);
        }
        if starts_with(t, "Map") {
            return self.parse_map_type(t);
        }
        if str_eq(t, "Buffer") {
            return Ok(Type::Buffer);
        }
        if str_eq(t, "Struct") {
            let fields: Vec<crate::analysis::types::FieldType> = Vec::new();
            proof {
                assert(crate::analysis::types::fields_view(fields@) =~= Seq::empty());
            }
            return Ok(Type::Struct(StructType { name: None, fields, is_packed: false }));
        }
        if str_eq(t, "InteropInterface") {
            return Ok(Type::InteropInterface(String::from_str("Unknown")));
        }
        if n == 0 {
            Ok(Type::Unknown)
        } else {
            Ok(Type::UserDefined(t.to_string()))
        }
    }

    /// Parse `Array<element>`; without brackets, an untyped array.
    pub fn parse_array_type(&self, type_str: &str) -> (r: Result<Type, AnalysisError>)
        ensures
            r matches Ok(t) && t@ == array_of(type_str@),
        decreases type_str@.len(), 0int,
    {
        proof {
            reveal_with_fuel(crate::analysis::types::type_view, 2);
        }
        if let Some(start) = find_char(type_str, '<') {
            if let Some(end) = rfind_char(type_str, '>') {
                if start < end {
                    proof {
                        let a = choose|i: int| is_first(type_str@, '<', i);
                        let b = choose|i: int| is_last(type_str@, '>', i);
                        assert(is_first(type_str@, '<', a));
                        assert(is_last(type_str@, '>', b));
                    }
                    let element_type_str = type_str.substring_char(start + 1, end);
                    let element_type = match self.parse_neo_type(element_type_str) {
                        Ok(ty) => ty,
                        Err(e) => return Err(e),
                    };
                    return Ok(Type::Array(Box::new(element_type)));
                }
            }
        }
        Ok(Type::Array(Box::new(Type::Unknown)))
    }

    /// Parse `Map<key, value>`; when that fails, an untyped map.
    pub fn parse_map_type(&self, type_str: &str) -> (r: Result<Type, AnalysisError>)
        ensures
            r matches Ok(t) && t@ == map_of(type_str@),
        decreases type_str@.len(), 0int,
    {
        proof {
            reveal_with_fuel(crate::analysis::types::type_view, 2);
        }
        if let Some(start) = find_char(type_str, '<') {
            if let Some(end) = rfind_char(type_str, '>') {
                if start < end {
                    proof {
                        let a = choose|i: int| is_first(type_str@, '<', i);
                        let b = choose|i: int| is_last(type_str@, '>', i);
                        assert(is_first(type_str@, '<', a));
                        assert(is_last(type_str@, '>', b));
                    }
                    let inner = type_str.substring_char(start + 1, end);
                    if let Some(comma_pos) = self.top_comma_position(inner) {
                        proof {
                            let c = choose|i: int| is_first_top_comma(inner@, i);
                            assert(is_first_top_comma(inner@, c));
                            lemma_trimmed_len(inner@.take(c));
                            lemma_trimmed_len(inner@.skip(c + 1));
                        }
                        let key_type_str = trim(inner.substring_char(0, comma_pos));
                        let value_type_str = trim(inner.substring_char(comma_pos + 1, inner.unicode_len()));
                        proof {
                            assert(inner@.subrange(0, comma_pos as int) =~= inner@.take(comma_pos as int));
                            assert(inner@.subrange(comma_pos + 1, inner@.len() as int) =~= inner@.skip(comma_pos + 1));
                        }
                        let key_type = match self.parse_neo_type(key_type_str) {
                            Ok(ty) => ty,
                            Err(e) => return Err(e),
                        };
                        let value_type = match self.parse_neo_type(value_type_str) {
                            Ok(ty) => ty,
                            Err(e) => return Err(e),
                        };
                        return Ok(Type::Mapping { key: Box::new(key_type), value: Box::new(value_type) });
                    }
                }
            }
        }
        Ok(Type::Mapping { key: Box::new(Type::Unknown), value: Box::new(Type::Unknown) })
    }
}



/// `hex::FromHexError`, the error of hexadecimal decoding.
#[verifier::external_type_specification]
#[verifier::external_body]
pub struct ExFromHexError(hex::FromHexError);

/// A hexadecimal digit, either case.
pub open spec fn is_hex_char(c: char) -> bool {
    ('0' <= c <= '9') || ('a' <= c <= 'f') || ('A' <= c <= 'F')
}

/// The value of a hexadecimal digit.
pub open spec fn hex_value(c: char) -> int {
    if '0' <= c <= '9' {
        c as int - '0' as int
    } else if 'a' <= c <= 'f' {
        c as int - 'a' as int + 10
    } else {
        c as int - 'A' as int + 10
    }
}

/// Text that decodes as hexadecimal: an even number of hexadecimal digits.
pub open spec fn is_hex_text(s: Seq<char>) -> bool {
    s.len() % 2 == 0 && forall|i: int| 0 <= i < s.len() ==> is_hex_char(#[trigger] s[i])
}

/// The bytes that hexadecimal text denotes, two digits each, high digit first.
pub open spec fn hex_bytes(s: Seq<char>) -> Seq<u8> {
    Seq::new((s.len() / 2) as nat, |i: int| (hex_value(s[2 * i]) * 16 + hex_value(s[2 * i + 1])) as u8)
}

/// `hex::decode` on the bytes of a string: `Ok` exactly for an even number of
/// hexadecimal digits (either case), each pair giving one byte, high digit first.
#[verifier::external_body]
fn hex_decode(s: &str) -> (r: Result<Vec<u8>, hex::FromHexError>)
    ensures
        r is Ok <==> is_hex_text(s@),
        r matches Ok(b) ==> b@ == hex_bytes(s@),
{
    hex::decode(s)
}

/// The type of a literal.
pub open spec fn literal_type_view(l: Literal) -> TypeView {
    match l {
        Literal::Boolean(_) => TypeView::Primitive(PrimitiveType::Boolean),
        Literal::Integer(_) => TypeView::Primitive(PrimitiveType::Integer),
        Literal::BigInteger(_) => TypeView::Primitive(PrimitiveType::Integer),
        Literal::String(_) => TypeView::Primitive(PrimitiveType::ByteString),
        Literal::ByteArray(_) => TypeView::Primitive(PrimitiveType::ByteString),
        Literal::Hash160(_) => TypeView::Primitive(PrimitiveType::Hash160),
        Literal::Hash256(_) => TypeView::Primitive(PrimitiveType::Hash256),
        Literal::Null => TypeView::Primitive(PrimitiveType::Null),
    }
}

/// The result type of a unary operator applied to an operand of the given type.
pub open spec fn unary_result_view(op: UnaryOperator, operand: TypeView) -> TypeView {
    match op {
        UnaryOperator::Not => TypeView::Primitive(PrimitiveType::Boolean),
        UnaryOperator::BoolNot => TypeView::Primitive(PrimitiveType::Boolean),
        UnaryOperator::Sign => TypeView::Primitive(PrimitiveType::Integer),
        _ => operand,
    }
}

/// Gas units an effect is estimated to cost.
pub open spec fn effect_gas(e: Effect) -> int {
    match e {
        Effect::StorageRead { .. } => 200,
        Effect::StorageWrite { .. } => 5000,
        Effect::ContractCall { .. } => 1000,
        Effect::EventEmit { .. } => 375,
        Effect::GasConsumption { amount } => amount as int,
        _ => 10,
    }
}

/// Estimated gas of a list of effects.
pub open spec fn effects_gas(es: Seq<Effect>) -> int
    decreases es.len(),
{
    if es.len() == 0 { 0 } else { effects_gas(es.drop_last()) + effect_gas(es.last()) }
}

/// Number of storage writes among effects.
pub open spec fn storage_writes(es: Seq<Effect>) -> int
    decreases es.len(),
{
    if es.len() == 0 {
        0
    } else {
        storage_writes(es.drop_last()) + if es.last() is StorageWrite { 1int } else { 0int }
    }
}

/// Total of the explicit gas consumption effects.
pub open spec fn consumed_gas(es: Seq<Effect>) -> int
    decreases es.len(),
{
    if es.len() == 0 {
        0
    } else {
        consumed_gas(es.drop_last()) + match es.last() {
            Effect::GasConsumption { amount } => amount as int,
            _ => 0,
        }
    }
}

/// The kinds of risk assessed from a function's effects, in order: many storage
/// writes, storage writes with external calls, high gas consumption.
pub open spec fn assessed_risks(es: Seq<Effect>) -> Seq<RiskType> {
    (if storage_writes(es) > 5 { seq![RiskType::UnrestrictedStorageAccess] } else { seq![] }) + (if (exists|i: int|
        0 <= i < es.len() && #[trigger] es[i] is ContractCall) && storage_writes(es) > 0 {
        seq![RiskType::ReentrancyRisk]
    } else {
        seq![]
    }) + (if consumed_gas(es) > 100000 { seq![RiskType::GasLimitIssues] } else { seq![] })
}

/// Stack height change an operation is estimated to cause.
pub open spec fn stack_change(op: crate::engine::ir::Operation) -> int {
    match op {
        crate::engine::ir::Operation::Syscall { arguments, .. } => arguments@.len() as int,
        crate::engine::ir::Operation::ContractCall { arguments, .. } => arguments@.len() as int + 3,
        crate::engine::ir::Operation::Stack { operation, .. } => match operation {
            crate::engine::ir::StackOp::Push => 1,
            crate::engine::ir::StackOp::Pop => -1,
            crate::engine::ir::StackOp::Dup => 1,
            crate::engine::ir::StackOp::Drop => -1,
            crate::engine::ir::StackOp::Pick => 1,
            crate::engine::ir::StackOp::Size => 1,
            _ => 0,
        },
        _ => 0,
    }
}

/// Height after an operation: growth adds, shrinking stops at zero.
pub open spec fn next_height(h: int, op: crate::engine::ir::Operation) -> int {
    let c = stack_change(op);
    if c > 0 { h + c } else if c < 0 { if h + c < 0 { 0 } else { h + c } } else { h }
}

/// Largest height reached over a block's operations from height `h`, with `m` the
/// largest so far.
pub open spec fn block_peak(ops: Seq<crate::engine::ir::Operation>, h: int, m: int) -> int
    decreases ops.len(),
{
    if ops.len() == 0 {
        m
    } else {
        let h2 = next_height(h, ops[0]);
        block_peak(ops.drop_first(), h2, if stack_change(ops[0]) > 0 && h2 > m { h2 } else { m })
    }
}

/// Largest estimated stack height over blocks, each starting empty.
pub open spec fn function_peak(bs: Seq<crate::engine::ir::IRBlock>, m: int) -> int
    decreases bs.len(),
{
    if bs.len() == 0 { m } else { function_peak(bs.drop_first(), block_peak(bs[0].operations@, 0, m)) }
}

impl DecompilerEngine {
    /// The type of a literal value.
    pub fn literal_type(&self, literal: &Literal) -> (r: Type)
        ensures
            r@ == literal_type_view(*literal),
    {
        match literal {
            Literal::Boolean(_) => Type::Primitive(PrimitiveType::Boolean),
            Literal::Integer(_) => Type::Primitive(PrimitiveType::Integer),
            Literal::BigInteger(_) => Type::Primitive(PrimitiveType::Integer),
            Literal::String(_) => Type::Primitive(PrimitiveType::ByteString),
            Literal::ByteArray(_) => Type::Primitive(PrimitiveType::ByteString),
            Literal::Hash160(_) => Type::Primitive(PrimitiveType::Hash160),
            Literal::Hash256(_) => Type::Primitive(PrimitiveType::Hash256),
            Literal::Null => Type::Primitive(PrimitiveType::Null),
        }
    }

    /// The name of a variable.
    pub fn variable_name(&self, var: &Variable) -> (r: Result<String, AnalysisError>)
        ensures
            r matches Ok(s) && s@ == var.name@,
    {
        Ok(var.name.clone())
    }

    /// The result type of a unary operator: boolean for logical negation,
    /// integer for sign, the operand's type otherwise.
    pub fn infer_unary_result_type(&self, operator: &UnaryOperator, operand_type: &Type) -> (r: Type)
        ensures
            r@ == unary_result_view(*operator, operand_type@),
    {
        match operator {
            UnaryOperator::Not => Type::Primitive(PrimitiveType::Boolean),
            UnaryOperator::Negate => crate::analysis::types::clone_type(operand_type),
            UnaryOperator::BitwiseNot => crate::analysis::types::clone_type(operand_type),
            UnaryOperator::BoolNot => Type::Primitive(PrimitiveType::Boolean),
            UnaryOperator::Abs => crate::analysis::types::clone_type(operand_type),
            UnaryOperator::Sign => Type::Primitive(PrimitiveType::Integer),
            UnaryOperator::Sqrt => crate::analysis::types::clone_type(operand_type),
        }
    }

    /// The hash of a syscall known by name.
    pub fn get_syscall_hash(&self, name: &str) -> (r: Option<u32>)
        ensures
            match r {
                Some(h) => self.db_view().by_name.contains_key(name@) && self.db_view().by_hash.contains_key(
                    self.db_view().by_name[name@],
                ) && h == self.db_view().by_hash[self.db_view().by_name[name@]].hash
                    && self.db_view().by_hash[self.db_view().by_name[name@]].name == name@,
                None => !self.db_view().by_name.contains_key(name@) || !self.db_view().by_hash.contains_key(
                    self.db_view().by_name[name@],
                ) || self.db_view().by_hash[self.db_view().by_name[name@]].name != name@,
            },
    {
        match self.syscall_db.get_by_name(name) {
            Some(def) => Some(def.hash),
            None => None,
        }
    }

    /// The effect a syscall's declared side effect stands for; storage keys are
    /// unknown, a contract call is named after the syscall with method `call`,
    /// an event is a `Notification`.
    pub fn convert_side_effect_to_effect(&self, side_effect: &SideEffect, syscall_name: &str) -> (r: Effect)
        ensures
            match *side_effect {
                SideEffect::Pure => r is Pure,
                SideEffect::StorageRead => r matches Effect::StorageRead { key_pattern: KeyPattern::Dynamic },
                SideEffect::StorageWrite => r matches Effect::StorageWrite { key_pattern: KeyPattern::Dynamic },
                SideEffect::ContractCall => r matches Effect::ContractCall { contract: ContractId::Name(n), method, effects }
                    && n@ == syscall_name@ && method@ == "call"@ && effects@.len() == 0,
                SideEffect::EventEmit => r matches Effect::EventEmit { event_name } && event_name@ == "Notification"@,
                SideEffect::StateChange => r is StateChange,
            },
    {
        match side_effect {
            SideEffect::Pure => Effect::Pure,
            SideEffect::StorageRead => Effect::StorageRead { key_pattern: KeyPattern::Dynamic },
            SideEffect::StorageWrite => Effect::StorageWrite { key_pattern: KeyPattern::Dynamic },
            SideEffect::ContractCall => Effect::ContractCall {
                contract: ContractId::Name(syscall_name.to_string()),
                method: String::from_str("call"),
                effects: Vec::new(),
            },
            SideEffect::EventEmit => Effect::EventEmit { event_name: String::from_str("Notification") },
            SideEffect::StateChange => Effect::StateChange,
        }
    }

    /// Effects of a terminator: an abort reads system state, others are pure.
    pub fn analyze_terminator_effects(&self, terminator: &Terminator) -> (r: Result<Vec<Effect>, AnalysisError>)
        ensures
            r matches Ok(v) && v@.len() == 1 && (if terminator is Abort {
                v@[0] is SystemStateRead
            } else {
                v@[0] is Pure
            }),
    {
        let mut v: Vec<Effect> = Vec::new();
        match terminator {
            Terminator::Abort(_) => v.push(Effect::SystemStateRead),
            _ => v.push(Effect::Pure),
        }
        Ok(v)
    }

    /// The storage key pattern of a key expression: a string or byte literal is an
    /// exact key, a string literal plus something is a prefix, anything else is a wildcard.
    pub fn extract_key_pattern(&self, key_expr: &Expression) -> (r: Result<KeyPattern, AnalysisError>)
        ensures
            match *key_expr {
                Expression::Literal(Literal::String(s)) => r matches Ok(KeyPattern::Exact(b)) && b@
                    == vstd::utf8::encode_utf8(s@),
                Expression::Literal(Literal::ByteArray(bytes)) => r matches Ok(KeyPattern::Exact(b)) && b@ == bytes@,
                Expression::BinaryOp { op: crate::common::types::BinaryOperator::Add, left, .. } => match *left {
                    Expression::Literal(Literal::String(p)) => r matches Ok(KeyPattern::Prefix(b)) && b@
                        == vstd::utf8::encode_utf8(p@),
                    _ => r matches Ok(KeyPattern::Wildcard),
                },
                _ => r matches Ok(KeyPattern::Wildcard),
            },
    {
        match key_expr {
            Expression::Literal(Literal::String(s)) => Ok(KeyPattern::Exact(vstd::slice::slice_to_vec(s.as_str().as_bytes()))),
            Expression::Literal(Literal::ByteArray(bytes)) => Ok(KeyPattern::Exact(crate::common::types::clone_bytes(bytes))),
            Expression::BinaryOp { op: crate::common::types::BinaryOperator::Add, left, .. } => {
                match &**left {
                    Expression::Literal(Literal::String(prefix)) => Ok(
                        KeyPattern::Prefix(vstd::slice::slice_to_vec(prefix.as_str().as_bytes())),
                    ),
                    _ => Ok(KeyPattern::Wildcard),
                }
            },
            _ => Ok(KeyPattern::Wildcard),
        }
    }

    /// The contract a call targets: a 20-byte literal, or 40 hexadecimal digits
    /// optionally after `0x`; other expressions give the zero hash.
    pub fn extract_contract_id(&self, contract_expr: &Expression) -> (r: Result<ContractId, AnalysisError>)
        ensures
            match *contract_expr {
                Expression::Literal(Literal::ByteArray(bytes)) => if bytes@.len() == 20 {
                    r matches Ok(ContractId::Hash(h)) && h@ == bytes@
                } else {
                    r == Err::<ContractId, AnalysisError>(
                        AnalysisError::InvalidContractHash { expected_length: 20, actual_length: bytes@.len() as usize },
                    )
                },
                Expression::Literal(Literal::String(hash_str)) => {
                    let bytes = hash_str@;
                    let n = vstd::utf8::encode_utf8(bytes).len();
                    let digits = if crate::text::is_prefix("0x"@, bytes) { bytes.skip(2) } else { bytes };
                    if n == 40 || (n == 42 && crate::text::is_prefix("0x"@, bytes)) {
                        if is_hex_text(digits) && hex_bytes(digits).len() == 20 {
                            r matches Ok(ContractId::Hash(h)) && h@ == hex_bytes(digits)
                        } else if is_hex_text(digits) {
                            r == Err::<ContractId, AnalysisError>(
                                AnalysisError::InvalidContractHash { expected_length: 20, actual_length: hex_bytes(digits).len() as usize },
                            )
                        } else {
                            r == Err::<ContractId, AnalysisError>(
                                AnalysisError::InvalidContractHash { expected_length: 20, actual_length: n as usize },
                            )
                        }
                    } else {
                        r == Err::<ContractId, AnalysisError>(
                            AnalysisError::InvalidContractHash { expected_length: 40, actual_length: n as usize },
                        )
                    }
                },
                _ => r matches Ok(ContractId::Hash(h)) && h@ == Seq::new(20, |i: int| 0u8),
            },
    {
        match contract_expr {
            Expression::Literal(Literal::ByteArray(bytes)) => {
                if bytes.len() == 20 {
                    Ok(ContractId::Hash(crate::common::types::clone_bytes(bytes)))
                } else {
                    Err(AnalysisError::InvalidContractHash { expected_length: 20, actual_length: bytes.len() })
                }
            },
            Expression::Literal(Literal::String(hash_str)) => {
                let text = hash_str.as_str();
                let byte_len = text.as_bytes().len();
                let has_prefix = starts_with(text, "0x");
                proof {
                    reveal_strlit("0x");
                }
                if byte_len == 40 || (byte_len == 42 && has_prefix) {
                    let hex_part = if has_prefix { text.substring_char(2, text.unicode_len()) } else { text };
                    proof {
                        if has_prefix {
                            assert(hex_part@ =~= text@.skip(2));
                        }
                    }
                    match hex_decode(hex_part) {
                        Ok(bytes) => {
                            if bytes.len() == 20 {
                                Ok(ContractId::Hash(bytes))
                            } else {
                                Err(AnalysisError::InvalidContractHash { expected_length: 20, actual_length: bytes.len() })
                            }
                        },
                        Err(_) => Err(AnalysisError::InvalidContractHash { expected_length: 20, actual_length: byte_len }),
                    }
                } else {
                    Err(AnalysisError::InvalidContractHash { expected_length: 40, actual_length: byte_len })
                }
            },
            _ => {
                let mut zeros: Vec<u8> = Vec::new();
                let mut i: usize = 0;
                while i < 20
                    invariant
                        i <= 20,
                        zeros@ == Seq::new(i as nat, |k: int| 0u8),
                    decreases 20 - i,
                {
                    zeros.push(0u8);
                    i = i + 1;
                    assert(zeros@ =~= Seq::new(i as nat, |k: int| 0u8));
                }
                Ok(ContractId::Hash(zeros))
            },
        }
    }

    /// Estimated gas of a block's effects: 200 per read, 5000 per write, 1000 per
    /// call, 375 per event, the amount of explicit consumption, 10 otherwise.
    pub fn estimate_block_gas_cost(&self, effects: &Vec<Effect>) -> (r: u64)
        requires
            effects_gas(effects@) <= u64::MAX,
        ensures
            r == effects_gas(effects@),
    {
        let mut total: u64 = 0;
        let mut i: usize = 0;
        while i < effects.len()
            invariant
                i <= effects@.len(),
                effects_gas(effects@) <= u64::MAX,
                total == effects_gas(effects@.take(i as int)),
            decreases effects@.len() - i,
        {
            proof {
                assert(effects@.take(i + 1).drop_last() =~= effects@.take(i as int));
                lemma_effects_gas_prefix(effects@, i + 1);
            }
            let cost: u64 = match &effects[i] {
                Effect::StorageRead { .. } => 200,
                Effect::StorageWrite { .. } => 5000,
                Effect::ContractCall { .. } => 1000,
                Effect::EventEmit { .. } => 375,
                Effect::GasConsumption { amount } => *amount,
                _ => 10,
            };
            total = total + cost;
            i = i + 1;
        }
        assert(effects@.take(i as int) =~= effects@);
        total
    }
}

/// The gas of a prefix is at most the gas of the whole.
proof fn lemma_effects_gas_prefix(es: Seq<Effect>, k: int)
    requires
        0 <= k <= es.len(),
    ensures
        effects_gas(es.take(k)) <= effects_gas(es),
    decreases es.len() - k,
{
    if k < es.len() {
        lemma_effects_gas_prefix(es, k + 1);
        assert(es.take(k + 1).drop_last() =~= es.take(k));
    } else {
        assert(es.take(k) =~= es);
    }
}



/// Block ids of per-block effect lists, in order.
pub open spec fn effect_blocks(bs: Seq<(BlockId, Vec<Effect>)>) -> Seq<BlockId> {
    bs.map_values(|p: (BlockId, Vec<Effect>)| p.0)
}

/// The assessment of one risk kind: severity, description, affected blocks and mitigation.
pub open spec fn risk_details(t: RiskType, es: Seq<Effect>, blocks: Seq<BlockId>) -> (u32, Seq<char>, Seq<BlockId>, Seq<char>) {
    match t {
        RiskType::UnrestrictedStorageAccess => (
            6,
            "Function performs many storage writes, consider access controls"@,
            blocks,
            "Add proper access control checks before storage operations"@,
        ),
        RiskType::ReentrancyRisk => (
            8,
            "Function makes external calls and modifies storage, potential reentrancy"@,
            seq![],
            "Use checks-effects-interactions pattern or reentrancy guards"@,
        ),
        _ => (
            5,
            "High gas consumption estimated: "@ + crate::text::dec(consumed_gas(es) as nat) + " gas units"@,
            seq![],
            "Consider optimizing expensive operations or splitting into multiple transactions"@,
        ),
    }
}

/// A risk record matches the assessment of its kind.
pub open spec fn risk_matches(r: SecurityRisk, es: Seq<Effect>, blocks: Seq<BlockId>) -> bool {
    let (severity, description, affected, mitigation) = risk_details(r.risk_type, es, blocks);
    &&& r.severity == severity
    &&& r.description@ == description
    &&& r.affected_blocks@ == affected
    &&& r.mitigation matches Some(m) && m@ == mitigation
}

/// Whether a block's operations hold a notification syscall and a storage read.
pub open spec fn has_op(bs: Seq<crate::engine::ir::IRBlock>, p: spec_fn(crate::engine::ir::Operation) -> bool) -> bool {
    exists|i: int, j: int| 0 <= i < bs.len() && 0 <= j < bs[i].operations@.len() && p(#[trigger] bs[i].operations@[j])
}

/// The names of the syscalls a list of operations makes, in order.
pub open spec fn ops_syscall_names(ops: Seq<crate::engine::ir::Operation>) -> Seq<Seq<char>>
    decreases ops.len(),
{
    if ops.len() == 0 {
        Seq::empty()
    } else {
        let r = ops_syscall_names(ops.drop_last());
        match ops.last() {
            crate::engine::ir::Operation::Syscall { name, .. } => r.push(name@),
            _ => r,
        }
    }
}

/// The names of the syscalls the blocks make, block by block.
pub open spec fn syscall_names(bs: Seq<crate::engine::ir::IRBlock>) -> Seq<Seq<char>>
    decreases bs.len(),
{
    if bs.len() == 0 {
        Seq::empty()
    } else {
        syscall_names(bs.drop_last()) + ops_syscall_names(bs.last().operations@)
    }
}

/// The position of `n` in a tally, if it is there.
pub open spec fn tally_pos(t: Seq<(Seq<char>, nat)>, n: Seq<char>) -> Option<int>
    decreases t.len(),
{
    if t.len() == 0 {
        None
    } else if t.last().0 == n {
        Some(t.len() - 1)
    } else {
        tally_pos(t.drop_last(), n)
    }
}

/// Each distinct name with the number of its occurrences, in order of first
/// occurrence.
pub open spec fn tally(names: Seq<Seq<char>>) -> Seq<(Seq<char>, nat)>
    decreases names.len(),
{
    if names.len() == 0 {
        Seq::empty()
    } else {
        let t = tally(names.drop_last());
        let n = names.last();
        match tally_pos(t, n) {
            Some(p) => t.update(p, (n, t[p].1 + 1)),
            None => t.push((n, 1nat)),
        }
    }
}

/// The syscalls made more than ten times, with their counts.
pub open spec fn frequent_syscalls(bs: Seq<crate::engine::ir::IRBlock>) -> Seq<(Seq<char>, nat)> {
    frequent_of(tally(syscall_names(bs)))
}

/// The entries of a tally counted more than ten times.
pub open spec fn frequent_of(t: Seq<(Seq<char>, nat)>) -> Seq<(Seq<char>, nat)> {
    t.filter(|e: (Seq<char>, nat)| e.1 > 10)
}

proof fn lemma_frequent_push(t: Seq<(Seq<char>, nat)>, x: (Seq<char>, nat))
    ensures
        frequent_of(t.push(x)) == if x.1 > 10 {
            frequent_of(t).push(x)
        } else {
            frequent_of(t)
        },
{
    reveal(Seq::filter);
    assert(t.push(x).drop_last() =~= t);
}

proof fn lemma_frequent_empty()
    ensures
        frequent_of(Seq::<(Seq<char>, nat)>::empty()) == Seq::<(Seq<char>, nat)>::empty(),
{
    reveal(Seq::filter);
}

/// The message of a frequent-syscall warning.
pub open spec fn frequent_message(e: (Seq<char>, nat)) -> Seq<char> {
    "Frequent syscall usage: "@ + e.0 + " called "@ + crate::text::dec(e.1) + " times"@
}

/// Model of a warning: its kind, message, affected blocks and severity.
pub open spec fn warning_view(w: AnalysisWarning) -> (WarningType, Seq<char>, Seq<BlockId>, u32) {
    (w.warning_type, w.message@, w.affected_blocks@, w.severity)
}

/// Models of warnings, in order.
pub open spec fn warnings_view(ws: Seq<AnalysisWarning>) -> Seq<(WarningType, Seq<char>, Seq<BlockId>, u32)> {
    ws.map_values(|w: AnalysisWarning| warning_view(w))
}

/// The stack-depth warning for a peak depth: one when it exceeds a thousand.
pub open spec fn depth_warnings(peak: int) -> Seq<(WarningType, Seq<char>, Seq<BlockId>, u32)> {
    if peak > 1000 {
        seq![(WarningType::PerformanceConcern, "High stack depth detected: "@ + crate::text::dec(peak as nat), Seq::<BlockId>::empty(), 3u32)]
    } else {
        Seq::empty()
    }
}

/// One warning per frequently used syscall, in order.
pub open spec fn syscall_warnings(f: Seq<(Seq<char>, nat)>) -> Seq<(WarningType, Seq<char>, Seq<BlockId>, u32)> {
    f.map_values(|e: (Seq<char>, nat)| (WarningType::PerformanceConcern, frequent_message(e), Seq::<BlockId>::empty(), 2u32))
}

/// The token-transfer warning: one when the function both notifies and reads storage.
pub open spec fn pattern_warnings(bs: Seq<crate::engine::ir::IRBlock>) -> Seq<(WarningType, Seq<char>, Seq<BlockId>, u32)> {
    if has_op(bs, |op: crate::engine::ir::Operation| is_notify(op)) && has_op(bs, |op: crate::engine::ir::Operation| is_storage_get(op)) {
        seq![(WarningType::CodeQualityIssue, "Function appears to implement token transfer pattern"@, Seq::<BlockId>::empty(), 1u32)]
    } else {
        Seq::empty()
    }
}


proof fn lemma_tally_pos(t: Seq<(Seq<char>, nat)>, n: Seq<char>)
    ensures
        match tally_pos(t, n) {
            Some(p) => 0 <= p < t.len() && t[p].0 == n,
            None => forall|i: int| 0 <= i < t.len() ==> (#[trigger] t[i]).0 != n,
        },
    decreases t.len(),
{
    if t.len() > 0 {
        let d = t.drop_last();
        lemma_tally_pos(d, n);
        if t.last().0 != n {
            match tally_pos(d, n) {
                Some(p) => {
                    assert(t[p] == d[p]);
                },
                None => {
                    assert forall|i: int| 0 <= i < t.len() implies (#[trigger] t[i]).0 != n by {
                        if i < t.len() - 1 {
                            assert(t[i] == d[i]);
                        }
                    }
                },
            }
        }
    }
}

/// The first entry of a tally with a name is where `tally_pos` finds it.
proof fn lemma_first_match(t: Seq<(Seq<char>, nat)>, n: Seq<char>, p: int)
    requires
        0 <= p < t.len(),
        t[p].0 == n,
        forall|j: int| 0 <= j < p ==> t[j].0 != n,
        forall|i: int, j: int| 0 <= i < j < t.len() ==> t[i].0 != t[j].0,
    ensures
        tally_pos(t, n) == Some(p),
    decreases t.len(),
{
    if p < t.len() - 1 {
        lemma_first_match(t.drop_last(), n, p);
    }
}

/// The names of a tally are distinct.
proof fn lemma_tally_distinct(names: Seq<Seq<char>>)
    ensures
        forall|i: int, j: int| 0 <= i < j < tally(names).len() ==> (#[trigger] tally(names)[i]).0 != (#[trigger] tally(names)[j]).0,
    decreases names.len(),
{
    if names.len() > 0 {
        lemma_tally_distinct(names.drop_last());
        lemma_tally_pos(tally(names.drop_last()), names.last());
    }
}

proof fn lemma_tally_bounded(names: Seq<Seq<char>>)
    ensures
        forall|i: int| 0 <= i < tally(names).len() ==> (#[trigger] tally(names)[i]).1 <= names.len(),
    decreases names.len(),
{
    if names.len() > 0 {
        lemma_tally_bounded(names.drop_last());
        lemma_tally_pos(tally(names.drop_last()), names.last());
    }
}

/// The constant assignments of a block's operations: the block, the variable
/// and the literal, in order.
pub open spec fn ops_constants(id: BlockId, ops: Seq<crate::engine::ir::Operation>) -> Seq<(BlockId, Seq<char>, crate::common::types::LiteralView)>
    decreases ops.len(),
{
    if ops.len() == 0 {
        Seq::empty()
    } else {
        let r = ops_constants(id, ops.drop_last());
        match ops.last() {
            crate::engine::ir::Operation::Assign { target, source: Expression::Literal(l) } => r.push((id, target.name@, l@)),
            _ => r,
        }
    }
}

/// The constant assignments of the blocks, block by block.
pub open spec fn constant_assignments(bs: Seq<crate::engine::ir::IRBlock>) -> Seq<(BlockId, Seq<char>, crate::common::types::LiteralView)>
    decreases bs.len(),
{
    if bs.len() == 0 {
        Seq::empty()
    } else {
        constant_assignments(bs.drop_last()) + ops_constants(bs.last().id, bs.last().operations@)
    }
}

/// The copy assignments of a block's operations: the block, the source
/// variable and the target variable, in order.
pub open spec fn ops_copies(id: BlockId, ops: Seq<crate::engine::ir::Operation>) -> Seq<(BlockId, Seq<char>, Seq<char>)>
    decreases ops.len(),
{
    if ops.len() == 0 {
        Seq::empty()
    } else {
        let r = ops_copies(id, ops.drop_last());
        match ops.last() {
            crate::engine::ir::Operation::Assign { target, source: Expression::Variable(v) } => r.push((id, v.name@, target.name@)),
            _ => r,
        }
    }
}

/// The copy assignments of the blocks, block by block.
pub open spec fn copy_assignments(bs: Seq<crate::engine::ir::IRBlock>) -> Seq<(BlockId, Seq<char>, Seq<char>)>
    decreases bs.len(),
{
    if bs.len() == 0 {
        Seq::empty()
    } else {
        copy_assignments(bs.drop_last()) + ops_copies(bs.last().id, bs.last().operations@)
    }
}

/// A key pattern as a value.
pub enum PatternModel {
    Exact(Seq<u8>),
    Prefix(Seq<u8>),
    Wildcard,
    Parameterized(Seq<char>),
    Dynamic,
}

/// The value of a key pattern.
pub open spec fn pattern_model(p: KeyPattern) -> PatternModel {
    match p {
        KeyPattern::Exact(b) => PatternModel::Exact(b@),
        KeyPattern::Prefix(b) => PatternModel::Prefix(b@),
        KeyPattern::Wildcard => PatternModel::Wildcard,
        KeyPattern::Parameterized(s) => PatternModel::Parameterized(s@),
        KeyPattern::Dynamic => PatternModel::Dynamic,
    }
}

/// The name a storage key pattern is recorded under.
pub open spec fn pattern_key(p: PatternModel) -> Seq<char> {
    match p {
        PatternModel::Exact(b) => "exact:"@ + crate::text::hex_list(b),
        PatternModel::Prefix(b) => "prefix:"@ + crate::text::hex_list(b),
        PatternModel::Wildcard => "wildcard"@,
        PatternModel::Parameterized(s) => "param:"@ + s,
        PatternModel::Dynamic => "dynamic"@,
    }
}

/// The key patterns of the storage reads and writes among the effects, in order.
pub open spec fn storage_patterns(es: Seq<Effect>) -> Seq<PatternModel>
    decreases es.len(),
{
    if es.len() == 0 {
        Seq::empty()
    } else {
        let r = storage_patterns(es.drop_last());
        match es.last() {
            Effect::StorageRead { key_pattern } => r.push(pattern_model(key_pattern)),
            Effect::StorageWrite { key_pattern } => r.push(pattern_model(key_pattern)),
            _ => r,
        }
    }
}

/// The position of the entry named `k`, if any.
pub open spec fn entry_pos(t: Seq<(Seq<char>, PatternModel)>, k: Seq<char>) -> Option<int>
    decreases t.len(),
{
    if t.len() == 0 {
        None
    } else if t.last().0 == k {
        Some(t.len() - 1)
    } else {
        entry_pos(t.drop_last(), k)
    }
}

/// Each pattern under its name, in order of first occurrence; a later pattern
/// under a recorded name replaces the earlier one.
pub open spec fn pattern_entries(ps: Seq<PatternModel>) -> Seq<(Seq<char>, PatternModel)>
    decreases ps.len(),
{
    if ps.len() == 0 {
        Seq::empty()
    } else {
        let t = pattern_entries(ps.drop_last());
        let p = ps.last();
        let k = pattern_key(p);
        match entry_pos(t, k) {
            Some(i) => t.update(i, (k, p)),
            None => t.push((k, p)),
        }
    }
}

proof fn lemma_entry_pos(t: Seq<(Seq<char>, PatternModel)>, k: Seq<char>)
    ensures
        match entry_pos(t, k) {
            Some(p) => 0 <= p < t.len() && t[p].0 == k,
            None => forall|i: int| 0 <= i < t.len() ==> (#[trigger] t[i]).0 != k,
        },
    decreases t.len(),
{
    if t.len() > 0 {
        let d = t.drop_last();
        lemma_entry_pos(d, k);
        if t.last().0 != k {
            match entry_pos(d, k) {
                Some(p) => {
                    assert(t[p] == d[p]);
                },
                None => {
                    assert forall|i: int| 0 <= i < t.len() implies (#[trigger] t[i]).0 != k by {
                        if i < t.len() - 1 {
                            assert(t[i] == d[i]);
                        }
                    }
                },
            }
        }
    }
}

proof fn lemma_entries_distinct(ps: Seq<PatternModel>)
    ensures
        forall|i: int, j: int|
            0 <= i < j < pattern_entries(ps).len() ==> (#[trigger] pattern_entries(ps)[i]).0 != (#[trigger] pattern_entries(ps)[j]).0,
    decreases ps.len(),
{
    if ps.len() > 0 {
        lemma_entries_distinct(ps.drop_last());
        lemma_entry_pos(pattern_entries(ps.drop_last()), pattern_key(ps.last()));
    }
}

proof fn lemma_entry_first_match(t: Seq<(Seq<char>, PatternModel)>, k: Seq<char>, p: int)
    requires
        0 <= p < t.len(),
        t[p].0 == k,
        forall|i: int, j: int| 0 <= i < j < t.len() ==> t[i].0 != t[j].0,
    ensures
        entry_pos(t, k) == Some(p),
    decreases t.len(),
{
    if p < t.len() - 1 {
        lemma_entry_first_match(t.drop_last(), k, p);
    }
}

/// A `System.Runtime.Notify` syscall.
pub open spec fn is_notify(op: crate::engine::ir::Operation) -> bool {
    op matches crate::engine::ir::Operation::Syscall { name, .. } && name@ == "System.Runtime.Notify"@
}

/// A storage read.
pub open spec fn is_storage_get(op: crate::engine::ir::Operation) -> bool {
    op matches crate::engine::ir::Operation::Storage { operation: crate::common::types::StorageOp::Get, .. }
}

impl DecompilerEngine {
    /// Security risks of a function's effects: many storage writes, storage
    /// writes together with external calls, and high gas consumption.
    pub fn assess_security_risks(
        &self,
        function_effects: &Vec<Effect>,
        block_effects: &Vec<(BlockId, Vec<Effect>)>,
    ) -> (r: Result<Vec<SecurityRisk>, AnalysisError>)
        requires
            consumed_gas(function_effects@) <= u64::MAX,
        ensures
            r matches Ok(v) && v@.map_values(|x: SecurityRisk| x.risk_type) == assessed_risks(function_effects@)
                && forall|i: int| 0 <= i < v@.len() ==> risk_matches(
                #[trigger] v@[i],
                function_effects@,
                effect_blocks(block_effects@),
            ),
    {
        let es = function_effects;
        let mut writes: usize = 0;
        let mut has_contract_calls = false;
        let mut total_gas: u64 = 0;
        let mut i: usize = 0;
        while i < es.len()
            invariant
                i <= es@.len(),
                consumed_gas(es@) <= u64::MAX,
                writes == storage_writes(es@.take(i as int)),
                writes <= i,
                total_gas == consumed_gas(es@.take(i as int)),
                has_contract_calls == exists|k: int| 0 <= k < i && #[trigger] es@[k] is ContractCall,
            decreases es@.len() - i,
        {
            proof {
                assert(es@.take(i + 1).drop_last() =~= es@.take(i as int));
                lemma_consumed_prefix(es@, i + 1);
            }
            match &es[i] {
                Effect::StorageWrite { .. } => {
                    writes = writes + 1;
                },
                Effect::ContractCall { .. } => {
                    has_contract_calls = true;
                },
                Effect::GasConsumption { amount } => {
                    total_gas = total_gas + *amount;
                },
                _ => {},
            }
            i = i + 1;
        }
        proof {
            assert(es@.take(i as int) =~= es@);
        }
        let mut risks: Vec<SecurityRisk> = Vec::new();
        if writes > 5 {
            let mut affected: Vec<BlockId> = Vec::new();
            let mut k: usize = 0;
            while k < block_effects.len()
                invariant
                    k <= block_effects@.len(),
                    affected@ == effect_blocks(block_effects@).take(k as int),
                decreases block_effects@.len() - k,
            {
                affected.push(block_effects[k].0);
                k = k + 1;
                assert(affected@ =~= effect_blocks(block_effects@).take(k as int));
            }
            assert(affected@ =~= effect_blocks(block_effects@));
            risks.push(SecurityRisk {
                risk_type: RiskType::UnrestrictedStorageAccess,
                severity: 6,
                description: String::from_str("Function performs many storage writes, consider access controls"),
                affected_blocks: affected,
                mitigation: Some(String::from_str("Add proper access control checks before storage operations")),
            });
        }
        if has_contract_calls && writes > 0 {
            risks.push(SecurityRisk {
                risk_type: RiskType::ReentrancyRisk,
                severity: 8,
                description: String::from_str(
                    "Function makes external calls and modifies storage, potential reentrancy",
                ),
                affected_blocks: Vec::new(),
                mitigation: Some(String::from_str("Use checks-effects-interactions pattern or reentrancy guards")),
            });
        }
        if total_gas > 100000 {
            let mut description = String::from_str("High gas consumption estimated: ");
            crate::text::push_decimal(&mut description, total_gas);
            description.append(" gas units");
            risks.push(SecurityRisk {
                risk_type: RiskType::GasLimitIssues,
                severity: 5,
                description,
                affected_blocks: Vec::new(),
                mitigation: Some(
                    String::from_str(
                        "Consider optimizing expensive operations or splitting into multiple transactions",
                    ),
                ),
            });
        }
        proof {
            assert(risks@.map_values(|x: SecurityRisk| x.risk_type) =~= assessed_risks(es@));
        }
        Ok(risks)
    }

    /// The largest estimated stack height over the function's blocks, each block
    /// starting empty: calls and pushes grow it, pops and drops shrink it down to zero.
    pub fn analyze_stack_depth(&self, ir_function: &IRFunction) -> (r: Result<u32, AnalysisError>)
        requires
            function_peak(ir_function.blocks@, 0) <= u32::MAX,
            forall|i: int, j: int| 0 <= i < ir_function.blocks@.len() && 0 <= j < ir_function.blocks@[i].operations@.len()
                ==> stack_change(#[trigger] ir_function.blocks@[i].operations@[j]) <= i32::MAX,
        ensures
            r == Ok::<u32, AnalysisError>(function_peak(ir_function.blocks@, 0) as u32),
    {
        let blocks = &ir_function.blocks;
        let mut max_depth: u32 = 0;
        let mut b: usize = 0;
        assert(blocks@.skip(0) =~= blocks@);
        while b < blocks.len()
            invariant
                b <= blocks@.len(),
                blocks == &ir_function.blocks,
                function_peak(blocks@, 0) <= u32::MAX,
                forall|i: int, j: int| 0 <= i < blocks@.len() && 0 <= j < blocks@[i].operations@.len()
                    ==> stack_change(#[trigger] blocks@[i].operations@[j]) <= i32::MAX,
                function_peak(blocks@, 0) == function_peak(blocks@.skip(b as int), max_depth as int),
            decreases blocks@.len() - b,
        {
            let ops = &blocks[b].operations;
            let ghost rest = blocks@.skip(b as int);
            proof {
                assert(rest[0] == blocks@[b as int]);
                assert(rest.drop_first() =~= blocks@.skip(b + 1));
                lemma_function_peak_ge(rest.drop_first(), block_peak(ops@, 0, max_depth as int));
            }
            let ghost m0 = max_depth as int;
            let mut depth: u32 = 0;
            let mut k: usize = 0;
            proof {
                assert(ops@.skip(0) =~= ops@);
                lemma_function_peak_ge(rest.drop_first(), block_peak(ops@, 0, m0));
            }
            while k < ops.len()
                invariant
                    k <= ops@.len(),
                    ops == &blocks@[b as int].operations,
                    b < blocks@.len(),
                    forall|i: int, j: int| 0 <= i < blocks@.len() && 0 <= j < blocks@[i].operations@.len()
                        ==> stack_change(#[trigger] blocks@[i].operations@[j]) <= i32::MAX,
                    block_peak(ops@, 0, m0) == block_peak(ops@.skip(k as int), depth as int, max_depth as int),
                    function_peak(blocks@, 0) == function_peak(blocks@.skip(b + 1), block_peak(ops@, 0, m0)),
                    function_peak(blocks@, 0) <= u32::MAX,
                    blocks == &ir_function.blocks,
                    block_peak(ops@.skip(k as int), depth as int, max_depth as int) <= u32::MAX,
                    depth <= max_depth,
                decreases ops@.len() - k,
            {
                proof {
                    let rs = ops@.skip(k as int);
                    assert(rs[0] == ops@[k as int]);
                    assert(rs.drop_first() =~= ops@.skip(k + 1));
                    assert(stack_change(ops@[k as int]) <= i32::MAX);
                    let h2 = next_height(depth as int, ops@[k as int]);
                    lemma_block_peak_ge(rs.drop_first(), h2, if stack_change(ops@[k as int]) > 0 && h2 > max_depth { h2 } else { max_depth as int });
                }
                let change: i64 = match &ops[k] {
                    crate::engine::ir::Operation::Syscall { arguments, .. } => arguments.len() as i64,
                    crate::engine::ir::Operation::ContractCall { arguments, .. } => arguments.len() as i64 + 3,
                    crate::engine::ir::Operation::Stack { operation, .. } => match operation {
                        crate::engine::ir::StackOp::Push => 1,
                        crate::engine::ir::StackOp::Pop => -1,
                        crate::engine::ir::StackOp::Dup => 1,
                        crate::engine::ir::StackOp::Swap => 0,
                        crate::engine::ir::StackOp::Drop => -1,
                        crate::engine::ir::StackOp::Pick => 1,
                        crate::engine::ir::StackOp::Roll => 0,
                        crate::engine::ir::StackOp::Reverse => 0,
                        crate::engine::ir::StackOp::Size => 1,
                        crate::engine::ir::StackOp::Clear => 0,
                    },
                    _ => 0,
                };
                if change > 0 {
                    depth = depth + change as u32;
                    if depth > max_depth {
                        max_depth = depth;
                    }
                } else if change < 0 {
                    if depth as i64 + change < 0 {
                        depth = 0;
                    } else {
                        depth = (depth as i64 + change) as u32;
                    }
                }
                k = k + 1;
            }
            proof {
                assert(ops@.skip(k as int) =~= Seq::<crate::engine::ir::Operation>::empty());
            }
            b = b + 1;
        }
        proof {
            assert(blocks@.skip(b as int) =~= Seq::<crate::engine::ir::IRBlock>::empty());
        }
        Ok(max_depth)
    }

    /// One record per constant assignment, block by block, with no uses
    /// replaced; the function is left as it is.
    pub fn apply_constant_propagation(&self, ir_function: &mut IRFunction) -> (r: Result<Vec<ConstantPropagation>, AnalysisError>)
        ensures
            *final(ir_function) == *old(ir_function),
            r matches Ok(v) && {
                let s = constant_assignments(old(ir_function).blocks@);
                &&& v@.len() == s.len()
                &&& forall|k: int|
                    0 <= k < s.len() ==> (#[trigger] v@[k]).block_id == s[k].0 && v@[k].variable@ == s[k].1
                        && v@[k].value@ == s[k].2 && v@[k].uses_replaced == 0
            },
    {
        let blocks = &ir_function.blocks;
        let mut out: Vec<ConstantPropagation> = Vec::new();
        let mut b: usize = 0;
        proof {
            assert(blocks@.take(0) =~= Seq::<crate::engine::ir::IRBlock>::empty());
        }
        while b < blocks.len()
            invariant
                b <= blocks@.len(),
                ({
                    let s = constant_assignments(blocks@.take(b as int));
                    &&& out@.len() == s.len()
                    &&& forall|k: int|
                        0 <= k < s.len() ==> (#[trigger] out@[k]).block_id == s[k].0 && out@[k].variable@ == s[k].1
                            && out@[k].value@ == s[k].2 && out@[k].uses_replaced == 0
                }),
            decreases blocks@.len() - b,
        {
            let block = &blocks[b];
            let ops = &block.operations;
            let ghost before = constant_assignments(blocks@.take(b as int));
            let mut k: usize = 0;
            proof {
                assert(ops@.take(0) =~= Seq::<crate::engine::ir::Operation>::empty());
                assert(before + ops_constants(block.id, ops@.take(0)) =~= before);
            }
            while k < ops.len()
                invariant
                    k <= ops@.len(),
                    b < blocks@.len(),
                    block == &blocks@[b as int],
                    ops == &block.operations,
                    ({
                        let s = before + ops_constants(block.id, ops@.take(k as int));
                        &&& out@.len() == s.len()
                        &&& forall|j: int|
                            0 <= j < s.len() ==> (#[trigger] out@[j]).block_id == s[j].0 && out@[j].variable@ == s[j].1
                                && out@[j].value@ == s[j].2 && out@[j].uses_replaced == 0
                    }),
                decreases ops@.len() - k,
            {
                proof {
                    assert(ops@.take(k + 1).drop_last() =~= ops@.take(k as int));
                    assert(ops@.take(k + 1).last() == ops@[k as int]);
                }
                match &ops[k] {
                    crate::engine::ir::Operation::Assign { target, source: Expression::Literal(literal) } => {
                        let ghost pre = out@;
                        out.push(
                            ConstantPropagation {
                                block_id: block.id,
                                variable: target.name.clone(),
                                value: literal.clone_literal(),
                                uses_replaced: 0,
                            },
                        );
                        proof {
                            let s = before + ops_constants(block.id, ops@.take(k + 1));
                            assert(s =~= (before + ops_constants(block.id, ops@.take(k as int))).push(
                                (block.id, target.name@, literal@),
                            ));
                            assert forall|j: int| 0 <= j < s.len() implies (#[trigger] out@[j]).block_id == s[j].0
                                && out@[j].variable@ == s[j].1 && out@[j].value@ == s[j].2 && out@[j].uses_replaced == 0 by {
                                if j < pre.len() {
                                    assert(out@[j] == pre[j]);
                                }
                            }
                        }
                    },
                    _ => {},
                }
                k = k + 1;
            }
            proof {
                assert(ops@.take(k as int) =~= ops@);
                assert(blocks@.take(b + 1).drop_last() =~= blocks@.take(b as int));
                assert(blocks@.take(b + 1).last() == blocks@[b as int]);
            }
            b = b + 1;
        }
        proof {
            assert(blocks@.take(b as int) =~= blocks@);
        }
        Ok(out)
    }

    /// One record per copy assignment, block by block, with no uses
    /// replaced; the function is left as it is.
    pub fn apply_copy_propagation(&self, ir_function: &mut IRFunction) -> (r: Result<Vec<CopyElimination>, AnalysisError>)
        ensures
            *final(ir_function) == *old(ir_function),
            r matches Ok(v) && {
                let s = copy_assignments(old(ir_function).blocks@);
                &&& v@.len() == s.len()
                &&& forall|k: int|
                    0 <= k < s.len() ==> (#[trigger] v@[k]).block_id == s[k].0 && v@[k].source@ == s[k].1
                        && v@[k].target@ == s[k].2 && v@[k].uses_replaced == 0
            },
    {
        let blocks = &ir_function.blocks;
        let mut out: Vec<CopyElimination> = Vec::new();
        let mut b: usize = 0;
        proof {
            assert(blocks@.take(0) =~= Seq::<crate::engine::ir::IRBlock>::empty());
        }
        while b < blocks.len()
            invariant
                b <= blocks@.len(),
                ({
                    let s = copy_assignments(blocks@.take(b as int));
                    &&& out@.len() == s.len()
                    &&& forall|k: int|
                        0 <= k < s.len() ==> (#[trigger] out@[k]).block_id == s[k].0 && out@[k].source@ == s[k].1
                            && out@[k].target@ == s[k].2 && out@[k].uses_replaced == 0
                }),
            decreases blocks@.len() - b,
        {
            let block = &blocks[b];
            let ops = &block.operations;
            let ghost before = copy_assignments(blocks@.take(b as int));
            let mut k: usize = 0;
            proof {
                assert(ops@.take(0) =~= Seq::<crate::engine::ir::Operation>::empty());
                assert(before + ops_copies(block.id, ops@.take(0)) =~= before);
            }
            while k < ops.len()
                invariant
                    k <= ops@.len(),
                    b < blocks@.len(),
                    block == &blocks@[b as int],
                    ops == &block.operations,
                    ({
                        let s = before + ops_copies(block.id, ops@.take(k as int));
                        &&& out@.len() == s.len()
                        &&& forall|j: int|
                            0 <= j < s.len() ==> (#[trigger] out@[j]).block_id == s[j].0 && out@[j].source@ == s[j].1
                                && out@[j].target@ == s[j].2 && out@[j].uses_replaced == 0
                    }),
                decreases ops@.len() - k,
            {
                proof {
                    assert(ops@.take(k + 1).drop_last() =~= ops@.take(k as int));
                    assert(ops@.take(k + 1).last() == ops@[k as int]);
                }
                match &ops[k] {
                    crate::engine::ir::Operation::Assign { target, source: Expression::Variable(source_var) } => {
                        let ghost pre = out@;
                        out.push(
                            CopyElimination {
                                block_id: block.id,
                                source: source_var.name.clone(),
                                target: target.name.clone(),
                                uses_replaced: 0,
                            },
                        );
                        proof {
                            let s = before + ops_copies(block.id, ops@.take(k + 1));
                            assert(s =~= (before + ops_copies(block.id, ops@.take(k as int))).push(
                                (block.id, source_var.name@, target.name@),
                            ));
                            assert forall|j: int| 0 <= j < s.len() implies (#[trigger] out@[j]).block_id == s[j].0
                                && out@[j].source@ == s[j].1 && out@[j].target@ == s[j].2 && out@[j].uses_replaced == 0 by {
                                if j < pre.len() {
                                    assert(out@[j] == pre[j]);
                                }
                            }
                        }
                    },
                    _ => {},
                }
                k = k + 1;
            }
            proof {
                assert(ops@.take(k as int) =~= ops@);
                assert(blocks@.take(b + 1).drop_last() =~= blocks@.take(b as int));
                assert(blocks@.take(b + 1).last() == blocks@[b as int]);
            }
            b = b + 1;
        }
        proof {
            assert(blocks@.take(b as int) =~= blocks@);
        }
        Ok(out)
    }

    /// A copy of a key pattern.
    fn copy_key_pattern(p: &KeyPattern) -> (r: KeyPattern)
        ensures
            pattern_model(r) == pattern_model(*p),
    {
        match p {
            KeyPattern::Exact(b) => KeyPattern::Exact(crate::common::types::clone_bytes(b)),
            KeyPattern::Prefix(b) => KeyPattern::Prefix(crate::common::types::clone_bytes(b)),
            KeyPattern::Wildcard => KeyPattern::Wildcard,
            KeyPattern::Parameterized(s) => KeyPattern::Parameterized(s.clone()),
            KeyPattern::Dynamic => KeyPattern::Dynamic,
        }
    }

    /// The name a key pattern is recorded under.
    fn key_of_pattern(p: &KeyPattern) -> (r: String)
        ensures
            r@ == pattern_key(pattern_model(*p)),
    {
        match p {
            KeyPattern::Exact(b) => {
                let mut s = String::from_str("exact:");
                crate::text::push_hex_list(&mut s, b);
                s
            },
            KeyPattern::Prefix(b) => {
                let mut s = String::from_str("prefix:");
                crate::text::push_hex_list(&mut s, b);
                s
            },
            KeyPattern::Wildcard => String::from_str("wildcard"),
            KeyPattern::Parameterized(param) => {
                let mut s = String::from_str("param:");
                s.append(param.as_str());
                s
            },
            KeyPattern::Dynamic => String::from_str("dynamic"),
        }
    }

    /// The key patterns of the storage reads and writes, each under its name
    /// (`exact:` or `prefix:` and the key bytes in hexadecimal, `wildcard`,
    /// `param:` and the parameter, or `dynamic`), once per name in order of
    /// first occurrence, a later pattern replacing an earlier one.
    pub fn analyze_storage_patterns(&self, effects: &[Effect]) -> (r: Vec<(String, KeyPattern)>)
        ensures
            r@.len() == pattern_entries(storage_patterns(effects@)).len(),
            forall|i: int|
                0 <= i < r@.len() ==> (#[trigger] r@[i]).0@ == pattern_entries(storage_patterns(effects@))[i].0
                    && pattern_model(r@[i].1) == pattern_entries(storage_patterns(effects@))[i].1,
    {
        let ghost all = storage_patterns(effects@);
        let mut out: Vec<(String, KeyPattern)> = Vec::new();
        let mut i: usize = 0;
        proof {
            assert(effects@.take(0) =~= Seq::<Effect>::empty());
        }
        while i < effects.len()
            invariant
                i <= effects@.len(),
                out@.len() == pattern_entries(storage_patterns(effects@.take(i as int))).len(),
                forall|j: int|
                    0 <= j < out@.len() ==> (#[trigger] out@[j]).0@ == pattern_entries(storage_patterns(effects@.take(i as int)))[j].0
                        && pattern_model(out@[j].1) == pattern_entries(storage_patterns(effects@.take(i as int)))[j].1,
            decreases effects@.len() - i,
        {
            let ghost ps = storage_patterns(effects@.take(i as int));
            let ghost t = pattern_entries(ps);
            proof {
                assert(effects@.take(i + 1).drop_last() =~= effects@.take(i as int));
                assert(effects@.take(i + 1).last() == effects@[i as int]);
            }
            let pattern: Option<&KeyPattern> = match &effects[i] {
                Effect::StorageRead { key_pattern } => Some(key_pattern),
                Effect::StorageWrite { key_pattern } => Some(key_pattern),
                _ => None,
            };
            match pattern {
                Some(kp) => {
                    let key = Self::key_of_pattern(kp);
                    proof {
                        assert(storage_patterns(effects@.take(i + 1)) == ps.push(pattern_model(*kp)));
                        lemma_entry_pos(t, key@);
                        lemma_entries_distinct(ps);
                    }
                    let mut p: usize = 0;
                    let mut found = false;
                    while p < out.len() && !found
                        invariant
                            p <= out@.len(),
                            found ==> p < out@.len() && out@[p as int].0@ == key@,
                            forall|j: int| 0 <= j < p ==> (#[trigger] out@[j]).0@ != key@,
                        decreases out@.len() - p + (if found { 0int } else { 1int }),
                    {
                        if str_eq(out[p].0.as_str(), key.as_str()) {
                            found = true;
                        } else {
                            p = p + 1;
                        }
                    }
                    let ghost pre = out@;
                    if found {
                        proof {
                            assert(out@[p as int].0@ == t[p as int].0);
                            lemma_entry_first_match(t, key@, p as int);
                            assert(ps.push(pattern_model(*kp)).drop_last() =~= ps);
                        }
                        out.set(p, (key, Self::copy_key_pattern(kp)));
                        proof {
                            let t2 = pattern_entries(storage_patterns(effects@.take(i + 1)));
                            assert(t2 == t.update(p as int, (pattern_key(pattern_model(*kp)), pattern_model(*kp))));
                            assert forall|j: int| 0 <= j < out@.len() implies (#[trigger] out@[j]).0@ == t2[j].0
                                && pattern_model(out@[j].1) == t2[j].1 by {
                                if j != p {
                                    assert(out@[j] == pre[j]);
                                }
                            }
                        }
                    } else {
                        out.push((key, Self::copy_key_pattern(kp)));
                        proof {
                            let t2 = pattern_entries(storage_patterns(effects@.take(i + 1)));
                            match entry_pos(t, key@) {
                                Some(q) => {
                                    assert(pre[q].0@ == t[q].0);
                                    assert(false);
                                },
                                None => {},
                            }
                            assert(ps.push(pattern_model(*kp)).drop_last() =~= ps);
                            assert(t2 == t.push((pattern_key(pattern_model(*kp)), pattern_model(*kp))));
                            assert forall|j: int| 0 <= j < out@.len() implies (#[trigger] out@[j]).0@ == t2[j].0
                                && pattern_model(out@[j].1) == t2[j].1 by {
                                if j < pre.len() {
                                    assert(out@[j] == pre[j]);
                                }
                            }
                        }
                    }
                },
                None => {
                    proof {
                        assert(storage_patterns(effects@.take(i + 1)) == ps);
                    }
                },
            }
            i = i + 1;
        }
        proof {
            assert(effects@.take(i as int) =~= effects@);
        }
        out
    }

    /// Whether an operation computes the same value on every pass through a
    /// loop: an assignment of a literal, or arithmetic on two literals.
    pub fn is_loop_invariant_operation(
        &self,
        operation: &crate::engine::ir::Operation,
        loop_body: &[BlockId],
        ir_function: &IRFunction,
    ) -> (r: bool)
        ensures
            r == (operation matches crate::engine::ir::Operation::Assign { source: Expression::Literal(_), .. }
                || operation matches crate::engine::ir::Operation::Arithmetic {
                left: Expression::Literal(_),
                right: Expression::Literal(_),
                ..
            }),
    {
        match operation {
            crate::engine::ir::Operation::Assign { source, .. } => match source {
                Expression::Literal(_) => true,
                _ => false,
            },
            crate::engine::ir::Operation::Arithmetic { left, right, .. } => match (left, right) {
                (Expression::Literal(_), Expression::Literal(_)) => true,
                _ => false,
            },
            _ => false,
        }
    }

    /// The names of the syscalls the function makes, block by block.
    fn collect_syscall_names(ir_function: &IRFunction) -> (r: Vec<String>)
        ensures
            r@.map_values(|s: String| s@) == syscall_names(ir_function.blocks@),
    {
        let blocks = &ir_function.blocks;
        let mut names: Vec<String> = Vec::new();
        let mut b: usize = 0;
        proof {
            assert(blocks@.take(0) =~= Seq::<crate::engine::ir::IRBlock>::empty());
            assert(names@.map_values(|s: String| s@) =~= Seq::<Seq<char>>::empty());
        }
        while b < blocks.len()
            invariant
                b <= blocks@.len(),
                names@.map_values(|s: String| s@) == syscall_names(blocks@.take(b as int)),
            decreases blocks@.len() - b,
        {
            let ops = &blocks[b].operations;
            let ghost before = names@.map_values(|s: String| s@);
            let mut k: usize = 0;
            proof {
                assert(ops@.take(0) =~= Seq::<crate::engine::ir::Operation>::empty());
                assert(before + ops_syscall_names(ops@.take(0)) =~= before);
            }
            while k < ops.len()
                invariant
                    k <= ops@.len(),
                    b < blocks@.len(),
                    ops == &blocks@[b as int].operations,
                    names@.map_values(|s: String| s@) == before + ops_syscall_names(ops@.take(k as int)),
                decreases ops@.len() - k,
            {
                proof {
                    assert(ops@.take(k + 1).drop_last() =~= ops@.take(k as int));
                    assert(ops@.take(k + 1).last() == ops@[k as int]);
                }
                match &ops[k] {
                    crate::engine::ir::Operation::Syscall { name, .. } => {
                        let ghost pre = names@;
                        names.push(name.clone());
                        proof {
                            assert(names@.map_values(|s: String| s@) =~= pre.map_values(|s: String| s@).push(name@));
                        }
                    },
                    _ => {},
                }
                k = k + 1;
            }
            proof {
                assert(ops@.take(k as int) =~= ops@);
                assert(blocks@.take(b + 1).drop_last() =~= blocks@.take(b as int));
                assert(blocks@.take(b + 1).last() == blocks@[b as int]);
            }
            b = b + 1;
        }
        proof {
            assert(blocks@.take(b as int) =~= blocks@);
        }
        names
    }

    /// Warn about each syscall the function makes more than ten times, in
    /// order of first use.
    pub fn analyze_syscall_usage(&self, ir_function: &IRFunction, warnings: &mut Vec<AnalysisWarning>) -> (r: Result<(), AnalysisError>)
        requires
            syscall_names(ir_function.blocks@).len() <= u32::MAX,
        ensures
            r is Ok,
            ({
                let f = frequent_syscalls(ir_function.blocks@);
                &&& final(warnings)@.len() == old(warnings)@.len() + f.len()
                &&& final(warnings)@.take(old(warnings)@.len() as int) == old(warnings)@
                &&& forall|k: int|
                    0 <= k < f.len() ==> {
                        let w = #[trigger] final(warnings)@[old(warnings)@.len() + k];
                        &&& w.warning_type == WarningType::PerformanceConcern
                        &&& w.message@ == frequent_message(f[k])
                        &&& w.affected_blocks@.len() == 0
                        &&& w.severity == 2
                    }
            }),
    {
        let names = Self::collect_syscall_names(ir_function);
        let ghost all = syscall_names(ir_function.blocks@);
        let mut counts: Vec<(String, u32)> = Vec::new();
        let mut i: usize = 0;
        proof {
            assert(all.take(0) =~= Seq::<Seq<char>>::empty());
            assert(counts@.map_values(|e: (String, u32)| (e.0@, e.1 as nat)) =~= Seq::<(Seq<char>, nat)>::empty());
        }
        while i < names.len()
            invariant
                names@.map_values(|s: String| s@) == all,
                all.len() <= u32::MAX,
                i <= names@.len(),
                counts@.map_values(|e: (String, u32)| (e.0@, e.1 as nat)) == tally(all.take(i as int)),
            decreases names@.len() - i,
        {
            let ghost t = tally(all.take(i as int));
            proof {
                assert(all.take(i + 1).drop_last() =~= all.take(i as int));
                assert(all.take(i + 1).last() == all[i as int]);
                assert(all[i as int] == names@[i as int]@);
                lemma_tally_pos(t, all[i as int]);
                lemma_tally_bounded(all.take(i as int));
                lemma_tally_distinct(all.take(i as int));
            }
            let name = &names[i];
            let mut p: usize = 0;
            let mut found = false;
            while p < counts.len() && !found
                invariant
                    p <= counts@.len(),
                    found ==> p < counts@.len() && counts@[p as int].0@ == name@,
                    forall|j: int| 0 <= j < p ==> (#[trigger] counts@[j]).0@ != name@,
                decreases counts@.len() - p + (if found { 0int } else { 1int }),
            {
                if str_eq(counts[p].0.as_str(), name.as_str()) {
                    found = true;
                } else {
                    p = p + 1;
                }
            }
            let ghost tv = counts@.map_values(|e: (String, u32)| (e.0@, e.1 as nat));
            if found {
                proof {
                    assert(tv[p as int].0 == name@);
                    assert(forall|j: int| 0 <= j < p ==> tv[j].0 != name@);
                    lemma_first_match(t, name@, p as int);
                }
                let c = counts[p].1;
                let (nm, _) = counts.remove(p);
                counts.insert(p, (nm, c + 1));
                proof {
                    assert(counts@.map_values(|e: (String, u32)| (e.0@, e.1 as nat)) =~= t.update(p as int, (name@, t[p as int].1 + 1)));
                }
            } else {
                counts.push((name.clone(), 1));
                proof {
                    assert(counts@.map_values(|e: (String, u32)| (e.0@, e.1 as nat)) =~= t.push((name@, 1nat)));
                }
            }
            i = i + 1;
        }
        proof {
            assert(all.take(i as int) =~= all);
        }
        let ghost f = frequent_syscalls(ir_function.blocks@);
        let ghost w0 = warnings@;
        let ghost tv = counts@.map_values(|e: (String, u32)| (e.0@, e.1 as nat));
        let mut q: usize = 0;
        proof {
            assert(tv.take(0) =~= Seq::<(Seq<char>, nat)>::empty());
            lemma_frequent_empty();
        }
        while q < counts.len()
            invariant
                tv == counts@.map_values(|e: (String, u32)| (e.0@, e.1 as nat)),
                tv == tally(all),
                f == frequent_of(tally(all)),
                q <= counts@.len(),
                warnings@.take(w0.len() as int) == w0,
                warnings@.len() == w0.len() + frequent_of(tv.take(q as int)).len(),
                forall|k: int|
                    0 <= k < frequent_of(tv.take(q as int)).len() ==> {
                        let w = #[trigger] warnings@[w0.len() + k];
                        &&& w.warning_type == WarningType::PerformanceConcern
                        &&& w.message@ == frequent_message(frequent_of(tv.take(q as int))[k])
                        &&& w.affected_blocks@.len() == 0
                        &&& w.severity == 2
                    },
            decreases counts@.len() - q,
        {
            let ghost fq = frequent_of(tv.take(q as int));
            proof {
                assert(tv.take(q + 1) =~= tv.take(q as int).push(tv[q as int]));
                lemma_frequent_push(tv.take(q as int), tv[q as int]);
            }
            if counts[q].1 > 10 {
                let mut message = String::from_str("Frequent syscall usage: ");
                message.append(counts[q].0.as_str());
                message.append(" called ");
                crate::text::push_decimal(&mut message, counts[q].1 as u64);
                message.append(" times");
                let ghost pre = warnings@;
                warnings.push(AnalysisWarning {
                    warning_type: WarningType::PerformanceConcern,
                    message,
                    affected_blocks: Vec::new(),
                    severity: 2,
                });
                proof {
                    let fq1 = frequent_of(tv.take(q + 1));
                    assert(fq1 == fq.push(tv[q as int]));
                    assert(warnings@.take(w0.len() as int) =~= pre.take(w0.len() as int));
                    assert forall|k: int| 0 <= k < fq1.len() implies {
                        let w = #[trigger] warnings@[w0.len() + k];
                        &&& w.warning_type == WarningType::PerformanceConcern
                        &&& w.message@ == frequent_message(fq1[k])
                        &&& w.affected_blocks@.len() == 0
                        &&& w.severity == 2
                    } by {
                        if k < fq.len() {
                            assert(warnings@[w0.len() + k] == pre[w0.len() + k]);
                        }
                    }
                }
            } else {
                proof {
                    assert(frequent_of(tv.take(q + 1)) == fq);
                }
            }
            q = q + 1;
        }
        proof {
            assert(tv.take(q as int) =~= tv);
        }
        Ok(())
    }

    /// The function's stack-depth, syscall-usage and token-pattern warnings:
    /// a warning when the estimated peak stack depth exceeds a thousand, then
    /// those of `analyze_syscall_usage` and `detect_neo_patterns`.
    pub fn apply_neo_specific_analysis(&self, ir_function: &IRFunction, warnings: &mut Vec<AnalysisWarning>) -> (r: Result<(), AnalysisError>)
        requires
            function_peak(ir_function.blocks@, 0) <= u32::MAX,
            forall|i: int, j: int| 0 <= i < ir_function.blocks@.len() && 0 <= j < ir_function.blocks@[i].operations@.len()
                ==> stack_change(#[trigger] ir_function.blocks@[i].operations@[j]) <= i32::MAX,
            syscall_names(ir_function.blocks@).len() <= u32::MAX,
        ensures
            r is Ok,
            warnings_view(final(warnings)@) == warnings_view(old(warnings)@) + depth_warnings(function_peak(ir_function.blocks@, 0))
                + syscall_warnings(frequent_syscalls(ir_function.blocks@)) + pattern_warnings(ir_function.blocks@),
    {
        let depth = match self.analyze_stack_depth(ir_function) {
            Ok(d) => d,
            Err(e) => {
                return Err(e);
            },
        };
        let ghost w0 = warnings@;
        proof {
            lemma_function_peak_ge(ir_function.blocks@, 0);
            assert(depth as int == function_peak(ir_function.blocks@, 0));
        }
        if depth > 1000 {
            let mut message = String::from_str("High stack depth detected: ");
            crate::text::push_decimal(&mut message, depth as u64);
            warnings.push(AnalysisWarning {
                warning_type: WarningType::PerformanceConcern,
                message,
                affected_blocks: Vec::new(),
                severity: 3,
            });
        }
        let ghost w1 = warnings@;
        proof {
            if depth > 1000 {
                assert(w1.last().affected_blocks@ =~= Seq::<BlockId>::empty());
                assert(warning_view(w1.last()) == depth_warnings(function_peak(ir_function.blocks@, 0))[0]);
                assert(w1.drop_last() =~= w0);
            }
            assert(warnings_view(w1) =~= warnings_view(w0) + depth_warnings(function_peak(ir_function.blocks@, 0)));
        }
        match self.analyze_syscall_usage(ir_function, warnings) {
            Ok(()) => {},
            Err(e) => {
                return Err(e);
            },
        }
        let ghost w2 = warnings@;
        proof {
            let f = frequent_syscalls(ir_function.blocks@);
            assert forall|k: int| 0 <= k < warnings_view(w2).len() implies #[trigger] warnings_view(w2)[k] == (warnings_view(w1)
                + syscall_warnings(f))[k] by {
                if k < w1.len() {
                    assert(w2[k] == w2.take(w1.len() as int)[k]);
                } else {
                    assert(w2[w1.len() + (k - w1.len())] == w2[k]);
                }
            }
            assert(warnings_view(w2) =~= warnings_view(w1) + syscall_warnings(f));
        }
        let r = self.detect_neo_patterns(ir_function, warnings);
        proof {
            if warnings@ != w2 {
                assert(warnings@.last().affected_blocks@ =~= Seq::<BlockId>::empty());
                assert(warnings@ == warnings@.drop_last().push(warnings@.last()));
                assert(warnings_view(warnings@) =~= warnings_view(w2) + pattern_warnings(ir_function.blocks@));
            } else {
                assert(warnings_view(warnings@) =~= warnings_view(w2) + pattern_warnings(ir_function.blocks@));
            }
        }
        r
    }

    /// Record a token-transfer finding when a function both notifies and reads storage.
    pub fn detect_neo_patterns(&self, ir_function: &IRFunction, warnings: &mut Vec<AnalysisWarning>) -> (r: Result<(), AnalysisError>)
        ensures
            r is Ok,
            has_op(ir_function.blocks@, |op: crate::engine::ir::Operation| is_notify(op)) && has_op(
                ir_function.blocks@,
                |op: crate::engine::ir::Operation| is_storage_get(op),
            ) ==> final(warnings)@.len() == old(warnings)@.len() + 1 && final(warnings)@.drop_last() == old(warnings)@
                && final(warnings)@.last().warning_type == WarningType::CodeQualityIssue
                && final(warnings)@.last().message@ == "Function appears to implement token transfer pattern"@
                && final(warnings)@.last().affected_blocks@.len() == 0 && final(warnings)@.last().severity == 1,
            !(has_op(ir_function.blocks@, |op: crate::engine::ir::Operation| is_notify(op)) && has_op(
                ir_function.blocks@,
                |op: crate::engine::ir::Operation| is_storage_get(op),
            )) ==> final(warnings)@ == old(warnings)@,
    {
        let blocks = &ir_function.blocks;
        let mut has_transfer_pattern = false;
        let mut has_balance_check = false;
        let mut b: usize = 0;
        while b < blocks.len()
            invariant
                b <= blocks@.len(),
                has_transfer_pattern == exists|i: int, j: int| 0 <= i < b && 0 <= j < blocks@[i].operations@.len()
                    && is_notify(#[trigger] blocks@[i].operations@[j]),
                has_balance_check == exists|i: int, j: int| 0 <= i < b && 0 <= j < blocks@[i].operations@.len()
                    && is_storage_get(#[trigger] blocks@[i].operations@[j]),
            decreases blocks@.len() - b,
        {
            let ops = &blocks[b].operations;
            let mut k: usize = 0;
            while k < ops.len()
                invariant
                    k <= ops@.len(),
                    b < blocks@.len(),
                    ops == &blocks@[b as int].operations,
                    has_transfer_pattern == ((exists|i: int, j: int| 0 <= i < b && 0 <= j < blocks@[i].operations@.len()
                        && is_notify(#[trigger] blocks@[i].operations@[j])) || (exists|j: int| 0 <= j < k && is_notify(
                        #[trigger] ops@[j],
                    ))),
                    has_balance_check == ((exists|i: int, j: int| 0 <= i < b && 0 <= j < blocks@[i].operations@.len()
                        && is_storage_get(#[trigger] blocks@[i].operations@[j])) || (exists|j: int| 0 <= j < k
                        && is_storage_get(#[trigger] ops@[j]))),
                decreases ops@.len() - k,
            {
                match &ops[k] {
                    crate::engine::ir::Operation::Syscall { name, .. } => {
                        if str_eq(name.as_str(), "System.Runtime.Notify") {
                            has_transfer_pattern = true;
                        }
                    },
                    crate::engine::ir::Operation::Storage { operation: crate::common::types::StorageOp::Get, .. } => {
                        has_balance_check = true;
                    },
                    _ => {},
                }
                k = k + 1;
            }
            proof {
                assert forall|i: int, j: int| 0 <= i < b + 1 && 0 <= j < blocks@[i].operations@.len() && is_notify(
                    #[trigger] blocks@[i].operations@[j],
                ) implies has_transfer_pattern by {
                    if i == b {
                        assert(ops@[j] == blocks@[i].operations@[j]);
                        assert(0 <= j < k && is_notify(ops@[j]));
                    } else {
                        assert(0 <= i < b && 0 <= j < blocks@[i].operations@.len() && is_notify(blocks@[i].operations@[j]));
                    }
                }
                assert forall|i: int, j: int| 0 <= i < b + 1 && 0 <= j < blocks@[i].operations@.len() && is_storage_get(
                    #[trigger] blocks@[i].operations@[j],
                ) implies has_balance_check by {
                    if i == b {
                        assert(ops@[j] == blocks@[i].operations@[j]);
                        assert(0 <= j < k && is_storage_get(ops@[j]));
                    } else {
                        assert(0 <= i < b && 0 <= j < blocks@[i].operations@.len() && is_storage_get(blocks@[i].operations@[j]));
                    }
                }
            }
            b = b + 1;
        }
        if has_transfer_pattern && has_balance_check {
            warnings.push(AnalysisWarning {
                warning_type: WarningType::CodeQualityIssue,
                message: String::from_str("Function appears to implement token transfer pattern"),
                affected_blocks: Vec::new(),
                severity: 1,
            });
        }
        Ok(())
    }
}

/// The consumed gas of a prefix is at most that of the whole.
proof fn lemma_consumed_prefix(es: Seq<Effect>, k: int)
    requires
        0 <= k <= es.len(),
    ensures
        consumed_gas(es.take(k)) <= consumed_gas(es),
    decreases es.len() - k,
{
    if k < es.len() {
        lemma_consumed_prefix(es, k + 1);
        assert(es.take(k + 1).drop_last() =~= es.take(k));
    } else {
        assert(es.take(k) =~= es);
    }
}

/// A block's peak is at least the running maximum and the running height.
proof fn lemma_block_peak_ge(ops: Seq<crate::engine::ir::Operation>, h: int, m: int)
    ensures
        block_peak(ops, h, m) >= m,
    decreases ops.len(),
{
    if ops.len() > 0 {
        let h2 = next_height(h, ops[0]);
        lemma_block_peak_ge(ops.drop_first(), h2, if stack_change(ops[0]) > 0 && h2 > m { h2 } else { m });
    }
}

/// The function's peak is at least the running maximum.
proof fn lemma_function_peak_ge(bs: Seq<crate::engine::ir::IRBlock>, m: int)
    ensures
        function_peak(bs, m) >= m,
    decreases bs.len(),
{
    if bs.len() > 0 {
        lemma_block_peak_ge(bs[0].operations@, 0, m);
        lemma_function_peak_ge(bs.drop_first(), block_peak(bs[0].operations@, 0, m));
    }
}


} // verus!
