//! Decompiler configuration and syscall definitions.
use vstd::prelude::*;

verus! {

/// A syscall as described by configuration: name, hash, signature and effects.
#[derive(Debug)]
pub struct SyscallDefinition {
    pub name: String,
    pub hash: u32,
    pub parameters: Vec<String>,
    pub return_type: Option<String>,
    pub effects: Vec<String>,
    pub gas_cost: Option<u64>,
    pub description: Option<String>,
}

/// Model of a syscall definition: strings as character sequences.
pub struct SyscallDefinitionView {
    pub name: Seq<char>,
    pub hash: u32,
    pub parameters: Seq<Seq<char>>,
    pub return_type: Option<Seq<char>>,
    pub effects: Seq<Seq<char>>,
    pub gas_cost: Option<u64>,
    pub description: Option<Seq<char>>,
}

/// The characters of an optional string.
pub open spec fn opt_str_view(s: Option<String>) -> Option<Seq<char>> {
    match s {
        Some(v) => Some(v@),
        None => None,
    }
}

/// The characters of each string of a list.
pub open spec fn strs_view(v: Seq<String>) -> Seq<Seq<char>> {
    v.map_values(|s: String| s@)
}

impl View for SyscallDefinition {
    type V = SyscallDefinitionView;

    open spec fn view(&self) -> SyscallDefinitionView {
        SyscallDefinitionView {
            name: self.name@,
            hash: self.hash,
            parameters: strs_view(self.parameters@),
            return_type: opt_str_view(self.return_type),
            effects: strs_view(self.effects@),
            gas_cost: self.gas_cost,
            description: opt_str_view(self.description),
        }
    }
}

/// Copy a list of strings.
pub fn clone_strings(v: &Vec<String>) -> (r: Vec<String>)
    ensures
        strs_view(r@) == strs_view(v@),
{
    let mut out: Vec<String> = Vec::new();
    let mut i: usize = 0;
    while i < v.len()
        invariant
            i <= v.len(),
            out@.len() == i,
            forall|j: int| 0 <= j < i ==> out@[j]@ == v@[j]@,
        decreases v.len() - i,
    {
        out.push(v[i].clone());
        i = i + 1;
    }
    assert(strs_view(out@) =~= strs_view(v@));
    out
}

/// Copy an optional string.
pub fn clone_opt_string(s: &Option<String>) -> (r: Option<String>)
    ensures
        opt_str_view(r) == opt_str_view(*s),
{
    match s {
        Some(v) => Some(v.clone()),
        None => None,
    }
}

impl SyscallDefinition {
    /// Copy this definition.
    pub fn clone_definition(&self) -> (r: SyscallDefinition)
        ensures
            r@ == self@,
    {
        SyscallDefinition {
            name: self.name.clone(),
            hash: self.hash,
            parameters: clone_strings(&self.parameters),
            return_type: clone_opt_string(&self.return_type),
            effects: clone_strings(&self.effects),
            gas_cost: self.gas_cost,
            description: clone_opt_string(&self.description),
        }
    }
}

/// Which analysis passes run.
#[derive(Debug, Clone, Copy, PartialEq, Eq, Structural)]
pub struct AnalysisConfig {
    pub enable_cfg_analysis: bool,
    pub enable_type_inference: bool,
    pub enable_effect_analysis: bool,
    pub enable_loop_detection: bool,
    pub enable_dead_code_elimination: bool,
}

/// Syscalls that configuration adds to the built-in ones, by name.
#[derive(Debug)]
pub struct SyscallConfig {
    pub custom_syscalls: Vec<(String, SyscallDefinition)>,
}

/// Decompiler configuration.
#[derive(Debug)]
pub struct DecompilerConfig {
    pub analysis: AnalysisConfig,
    pub syscalls: SyscallConfig,
}

/// Model of a configuration.
pub struct DecompilerConfigView {
    pub analysis: AnalysisConfig,
    pub custom_syscalls: Seq<(Seq<char>, SyscallDefinitionView)>,
}

impl View for DecompilerConfig {
    type V = DecompilerConfigView;

    open spec fn view(&self) -> DecompilerConfigView {
        DecompilerConfigView {
            analysis: self.analysis,
            custom_syscalls: self.syscalls.custom_syscalls@.map_values(
                |p: (String, SyscallDefinition)| (p.0@, p.1@),
            ),
        }
    }
}

impl DecompilerConfig {
    /// The default configuration: every pass enabled, no custom syscalls.
    pub fn default_config() -> (r: DecompilerConfig)
        ensures
            r@.analysis == (AnalysisConfig {
                enable_cfg_analysis: true,
                enable_type_inference: true,
                enable_effect_analysis: true,
                enable_loop_detection: true,
                enable_dead_code_elimination: true,
            }),
            r@.custom_syscalls.len() == 0,
    {
        DecompilerConfig {
            analysis: AnalysisConfig {
                enable_cfg_analysis: true,
                enable_type_inference: true,
                enable_effect_analysis: true,
                enable_loop_detection: true,
                enable_dead_code_elimination: true,
            },
            syscalls: SyscallConfig { custom_syscalls: Vec::new() },
        }
    }

    /// Copy this configuration.
    pub fn clone_config(&self) -> (r: DecompilerConfig)
        ensures
            r@ == self@,
    {
        let src = &self.syscalls.custom_syscalls;
        let mut out: Vec<(String, SyscallDefinition)> = Vec::new();
        let mut i: usize = 0;
        while i < src.len()
            invariant
                i <= src.len(),
                out@.len() == i,
                forall|j: int| 0 <= j < i ==> out@[j].0@ == src@[j].0@ && out@[j].1@ == src@[j].1@,
            decreases src.len() - i,
        {
            let entry = &src[i];
            out.push((entry.0.clone(), entry.1.clone_definition()));
            i = i + 1;
        }
        let r = DecompilerConfig {
            analysis: self.analysis,
            syscalls: SyscallConfig { custom_syscalls: out },
        };
        assert(r@.custom_syscalls =~= self@.custom_syscalls);
        r
    }
}

impl Default for DecompilerConfig {
    fn default() -> (r: DecompilerConfig)
        ensures
            r@.analysis == (AnalysisConfig {
                enable_cfg_analysis: true,
                enable_type_inference: true,
                enable_effect_analysis: true,
                enable_loop_detection: true,
                enable_dead_code_elimination: true,
            }),
            r@.custom_syscalls.len() == 0,
    {
        DecompilerConfig::default_config()
    }
}

impl Clone for DecompilerConfig {
    fn clone(&self) -> (r: DecompilerConfig)
        ensures
            r@ == self@,
    {
        self.clone_config()
    }
}

} // verus!
