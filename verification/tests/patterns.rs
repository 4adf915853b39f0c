use neo_decompiler::analysis::patterns::{identify_patterns, infer_language, infer_language_from_source, PatternConfidence};
use neo_decompiler::common::opcode::OpCode;
use neo_decompiler::common::types::{Instruction, Operand};
use neo_decompiler::contract::manifest::{
    ContractAbi, ContractManifest, ManifestEvent, ManifestMethod, ManifestParameter, ManifestPermission, ManifestPermissionContract,
    ManifestPermissionMethods,
};
use neo_decompiler::contract::nef::{MethodToken, NefFile, NefHeader};

fn nef(compiler: &str, source: &str) -> NefFile {
    NefFile {
        header: NefHeader { magic: *b"NEF3", compiler: compiler.to_string(), source: source.to_string() },
        method_tokens: Vec::new(),
        script: Vec::new(),
        checksum: 0,
    }
}

fn syscall(offset: u32, hash: u32) -> Instruction {
    Instruction { offset, opcode: OpCode::SYSCALL, operand: Some(Operand::SyscallHash(hash)), size: 5 }
}

fn token(hash: [u8; 20], method: &str) -> MethodToken {
    MethodToken { hash, method: method.to_string(), parameters_count: 0, has_return_value: false, call_flags: 0x0F }
}

fn manifest(standards: &[&str], methods: &[&str], events: &[&str], permissions: Vec<ManifestPermission>) -> ContractManifest {
    ContractManifest {
        name: "C".to_string(),
        supported_standards: standards.iter().map(|s| s.to_string()).collect(),
        abi: ContractAbi {
            methods: methods
                .iter()
                .map(|m| ManifestMethod {
                    name: m.to_string(),
                    parameters: Vec::new(),
                    return_type: "Any".to_string(),
                    offset: 0,
                    safe: false,
                })
                .collect(),
            events: events.iter().map(|e| ManifestEvent { name: e.to_string(), parameters: Vec::new() }).collect(),
        },
        permissions,
    }
}

#[test]
fn weak_metadata_does_not_claim_a_standard() {
    let info = identify_patterns(&nef("", "contract.py"), &[], None);
    assert!(info.standards.is_empty());
    assert_eq!(info.language, None);
    assert_eq!(info.confidence, PatternConfidence::Low);
    assert!(info.evidence.iter().any(|entry| entry.source == "nef.header.source"));
}

#[test]
fn csharp_source_paths_infer_only_the_supported_target() {
    for source in [r"C:\contracts\Token.cs", "/contracts/Token.csproj"] {
        let info = identify_patterns(&nef("", source), &[], None);
        assert_eq!(info.language.as_deref(), Some("C#"));
    }
}

#[test]
fn unsupported_source_metadata_is_not_claimed_as_a_renderer() {
    for (compiler, source) in [
        ("boa 1", "contract.py"),
        ("neo-go 1", "contract.go"),
        ("neo-rustc 1", "contract.rs"),
        ("neo-java-compiler 1", "contract.java"),
        ("neo-javascript-compiler 1", "contract.ts"),
        ("Neo.Compiler.Rust 1", "contract.rs"),
        ("Neo.Compiler.Java 1", "contract.java"),
    ] {
        let info = identify_patterns(&nef(compiler, source), &[], None);
        assert_eq!(info.language, None, "metadata {compiler:?} {source:?}");
    }
}

#[test]
fn short_csharp_compiler_tags_infer_language() {
    for compiler in ["cs", "cs__", "cs 3.7", "CSharp", "Neo.Compiler.CSharp 3"] {
        let info = identify_patterns(&nef(compiler, ""), &[], None);
        assert_eq!(info.language.as_deref(), Some("C#"), "compiler tag {compiler:?}");
    }
}

#[test]
fn compiler_tags_require_explicit_csharp_tokens() {
    for compiler in ["notcsharp", "CSharpX", "Neo.Compiler.CSharpX", "cscompiler"] {
        let info = identify_patterns(&nef(compiler, ""), &[], None);
        assert_eq!(info.language, None, "compiler tag {compiler:?}");
    }
}

#[test]
fn backward_jump_reports_loops_pattern() {
    let info = identify_patterns(
        &nef("", ""),
        &[Instruction { offset: 0, opcode: OpCode::JMP, operand: Some(Operand::JumpTarget8(-4)), size: 2 }],
        None,
    );
    assert!(info.patterns.iter().any(|pattern| pattern == "loops"));
    assert!(info
        .evidence
        .iter()
        .any(|entry| entry.source == "bytecode.control_flow" && entry.value == "backward jump"));
}

#[test]
fn crypto_syscalls_report_signature_and_multisig_patterns() {
    let info = identify_patterns(&nef("", ""), &[syscall(0, 0x3ADCD09E)], None);
    assert_eq!(info.patterns, vec!["multisig", "signature_verification"]);
    assert!(info
        .evidence
        .iter()
        .any(|entry| entry.source == "syscall" && entry.value == "System.Crypto.CheckMultisig"));
}

#[test]
fn check_witness_reports_authorization_pattern() {
    let info = identify_patterns(&nef("", ""), &[syscall(0, 0x8CEC27F8)], None);
    assert_eq!(info.patterns, vec!["authorization"]);
    assert!(info
        .evidence
        .iter()
        .any(|entry| entry.source == "syscall" && entry.value == "System.Runtime.CheckWitness"));
}

#[test]
fn caller_and_signer_syscalls_report_context_patterns() {
    let info = identify_patterns(&nef("", ""), &[syscall(0, 0x3C6E5339), syscall(5, 0x8B18F1AC)], None);
    assert_eq!(info.patterns, vec!["caller_context", "signer_introspection"]);
    assert!(info
        .evidence
        .iter()
        .any(|entry| entry.source == "syscall" && entry.value == "System.Runtime.GetCallingScriptHash"));
    assert!(info
        .evidence
        .iter()
        .any(|entry| entry.source == "syscall" && entry.value == "System.Runtime.CurrentSigners"));
}

#[test]
fn storage_runtime_and_account_syscalls_report_behavior_patterns() {
    let hashes = [
        0x31E8_5D92,
        0x0AE3_0C39,
        0xEDC5_582F,
        0x9AB8_30DF,
        0x9CED_089C,
        0xDC92_494C,
        0x09E9_336A,
        0xBC8C_5AC3,
    ];
    let instructions = hashes
        .iter()
        .enumerate()
        .map(|(index, hash)| syscall((index * 5) as u32, *hash))
        .collect::<Vec<_>>();
    let info = identify_patterns(&nef("", ""), &instructions, None);
    assert_eq!(
        info.patterns,
        vec![
            "account_creation",
            "gas_management",
            "iterator_usage",
            "runtime_context",
            "storage",
            "storage_deletes",
            "storage_iteration",
            "storage_reads",
            "storage_writes",
        ]
    );
    assert_eq!(info.evidence.iter().filter(|entry| entry.source == "syscall").count(), 12);
    assert!(info
        .evidence
        .iter()
        .any(|entry| entry.source == "syscall" && entry.value == "System.Storage.Local.Put"));
    assert!(info
        .evidence
        .iter()
        .any(|entry| entry.source == "syscall" && entry.value == "System.Runtime.GetAddressVersion"));
}

#[test]
fn method_tokens_and_calls_are_reported_without_standard_guesses() {
    let nef = NefFile { method_tokens: vec![token([0; 20], "transfer")], ..nef("", "") };
    let info = identify_patterns(
        &nef,
        &[Instruction { offset: 0, opcode: OpCode::CALLT, operand: Some(Operand::CallToken(0)), size: 3 }],
        None,
    );
    assert_eq!(info.patterns, vec!["external_calls", "method_tokens"]);
    assert!(info.standards.is_empty());
}

#[test]
fn native_oracle_method_tokens_report_oracle_behavior() {
    let nef = NefFile {
        method_tokens: vec![MethodToken {
            hash: [
                0x58, 0x87, 0x17, 0x11, 0x7E, 0x0A, 0xA8, 0x10, 0x72, 0xAF, 0xAB, 0x71, 0xD2, 0xDD, 0x89, 0xFE, 0x7C,
                0x4B, 0x92, 0xFE,
            ],
            method: "Request".to_string(),
            parameters_count: 0,
            has_return_value: true,
            call_flags: 0x0F,
        }],
        ..nef("", "")
    };
    let info = identify_patterns(&nef, &[], None);
    assert_eq!(info.patterns, vec!["method_tokens", "native_contract_calls", "oracle"]);
    assert!(info.evidence.iter().any(|entry| entry.value == "OracleContract::Request"));
}

#[test]
fn native_contract_management_update_reports_upgradeability() {
    let nef = NefFile {
        method_tokens: vec![token(
            [
                0xFD, 0xA3, 0xFA, 0x43, 0x46, 0xEA, 0x53, 0x2A, 0x25, 0x8F, 0xC4, 0x97, 0xDD, 0xAD, 0xDB, 0x64, 0x37,
                0xC9, 0xFD, 0xFF,
            ],
            "Update",
        )],
        ..nef("", "")
    };
    let info = identify_patterns(&nef, &[], None);
    assert_eq!(
        info.patterns,
        vec!["contract_lifecycle", "contract_management", "method_tokens", "native_contract_calls", "upgradeable"]
    );
}

#[test]
fn native_role_management_method_tokens_report_role_management() {
    let nef = NefFile {
        method_tokens: vec![token(
            [
                0xE2, 0x95, 0xE3, 0x91, 0x54, 0x4C, 0x17, 0x8A, 0xD9, 0x4F, 0x03, 0xEC, 0x4D, 0xCD, 0xFF, 0x78, 0x53,
                0x4E, 0xCF, 0x49,
            ],
            "DesignateAsRole",
        )],
        ..nef("", "")
    };
    let info = identify_patterns(&nef, &[], None);
    assert_eq!(info.patterns, vec!["method_tokens", "native_contract_calls", "role_management"]);
}

#[test]
fn native_policy_method_tokens_report_policy_management() {
    let nef = NefFile {
        method_tokens: vec![token(
            [
                0x7B, 0xC6, 0x81, 0xC0, 0xA1, 0xF7, 0x1D, 0x54, 0x34, 0x57, 0xB6, 0x8B, 0xBA, 0x8D, 0x5F, 0x9F, 0xDD,
                0x4E, 0x5E, 0xCC,
            ],
            "BlockAccount",
        )],
        ..nef("", "")
    };
    let info = identify_patterns(&nef, &[], None);
    assert!(info.patterns.contains(&"policy_management".to_string()));
}

#[test]
fn native_method_tokens_report_fine_grained_behavior_patterns() {
    let crypto = [
        0x1B, 0xF5, 0x75, 0xAB, 0x11, 0x89, 0x68, 0x84, 0x13, 0x61, 0x0A, 0x35, 0xA1, 0x28, 0x86, 0xCD, 0xE0, 0xB6, 0x6C,
        0x72,
    ];
    let stdlib = [
        0xC0, 0xEF, 0x39, 0xCE, 0xE0, 0xE4, 0xE9, 0x25, 0xC6, 0xC2, 0xA0, 0x6A, 0x79, 0xE1, 0x44, 0x0D, 0xD8, 0x6F, 0xCE,
        0xAC,
    ];
    let ledger = [
        0xBE, 0xF2, 0x04, 0x31, 0x40, 0x36, 0x2A, 0x77, 0xC1, 0x50, 0x99, 0xC7, 0xE6, 0x4C, 0x12, 0xF7, 0x00, 0xB6, 0x65,
        0xDA,
    ];
    let neo = [
        0xF5, 0x63, 0xEA, 0x40, 0xBC, 0x28, 0x3D, 0x4D, 0x0E, 0x05, 0xC4, 0x8E, 0xA3, 0x05, 0xB3, 0xF2, 0xA0, 0x73, 0x40,
        0xEF,
    ];
    let management = [
        0xFD, 0xA3, 0xFA, 0x43, 0x46, 0xEA, 0x53, 0x2A, 0x25, 0x8F, 0xC4, 0x97, 0xDD, 0xAD, 0xDB, 0x64, 0x37, 0xC9, 0xFD,
        0xFF,
    ];
    let cases = [
        (crypto, "Sha256", "cryptography"),
        (stdlib, "JsonSerialize", "serialization"),
        (stdlib, "StringSplit", "string_operations"),
        (ledger, "GetBlock", "blockchain_queries"),
        (neo, "Transfer", "native_token_calls"),
        (management, "Deploy", "contract_lifecycle"),
        (management, "GetContract", "contract_queries"),
    ];
    for (hash, method, pattern) in cases {
        let nef = NefFile { method_tokens: vec![token(hash, method)], ..nef("", "") };
        let info = identify_patterns(&nef, &[], None);
        assert!(
            info.patterns.iter().any(|candidate| candidate == pattern),
            "{method} should identify {pattern}: {:?}",
            info.patterns
        );
        assert!(info.evidence.iter().any(|entry| {
            entry.source == "nef.method_tokens.pattern" && entry.value.contains(pattern) && entry.value.contains(method)
        }));
    }
}

#[test]
fn declared_standards_are_trimmed_upper_cased_and_authoritative() {
    let m = manifest(&[" nep-17 ", ""], &["transfer"], &["Transfer"], Vec::new());
    let info = identify_patterns(&nef("Neo.Compiler.CSharp 3", ""), &[], Some(&m));
    assert_eq!(info.standards, vec!["NEP-17"]);
    assert_eq!(info.patterns, vec!["NEP-17", "events", "token_transfers"]);
    assert_eq!(info.language.as_deref(), Some("C#"));
    assert_eq!(info.confidence, PatternConfidence::High);
    assert!(info.evidence.iter().any(|entry| entry.source == "manifest.abi.methods" && entry.value == "transfer + Transfer"));
}

#[test]
fn wildcard_permissions_are_reported_as_behavior_evidence() {
    let permission = ManifestPermission {
        contract: ManifestPermissionContract::Wildcard("*".to_string()),
        methods: ManifestPermissionMethods::Wildcard("*".to_string()),
    };
    let m = manifest(&[], &[], &[], vec![permission]);
    let info = identify_patterns(&nef("", ""), &[], Some(&m));
    assert_eq!(info.patterns, vec!["call_permissions", "wildcard_permissions"]);
    assert_eq!(info.confidence, PatternConfidence::Medium);
}

#[test]
fn evidence_is_sorted_by_source_then_value() {
    let info = identify_patterns(&nef("cs", "x.cs"), &[syscall(0, 0x31E85D92), syscall(5, 0x8CEC27F8)], None);
    let keys: Vec<(String, String)> = info.evidence.iter().map(|e| (e.source.clone(), e.value.clone())).collect();
    let mut sorted = keys.clone();
    sorted.sort();
    assert_eq!(keys, sorted);
    assert_eq!(info.compiler.as_deref(), Some("cs"));
    assert_eq!(info.confidence, PatternConfidence::Medium);
}

#[test]
fn nothing_known_has_unknown_confidence() {
    let info = identify_patterns(&nef("  ", ""), &[], None);
    assert_eq!(info.confidence, PatternConfidence::Unknown);
    assert_eq!(info.compiler, None);
    assert!(info.evidence.is_empty());
}

#[test]
fn language_helpers() {
    assert_eq!(infer_language("Neo.Compiler.CSharp 3.6"), Some("C#"));
    assert_eq!(infer_language("neo-go"), None);
    assert_eq!(infer_language_from_source("https://x/Token.CS?ref=1"), Some("C#"));
    assert_eq!(infer_language_from_source("https://x/Token.py#cs"), None);
}

fn param(name: &str, kind: &str) -> ManifestParameter {
    ManifestParameter { name: name.to_string(), kind: kind.to_string() }
}

#[test]
fn manifest_standard_is_high_confidence() {
    let mut m = manifest(&["NEP-17"], &[], &[], Vec::new());
    m.name = "Token".to_string();
    let info = identify_patterns(&nef("Neo.Compiler.CSharp 3", ""), &[], Some(&m));
    assert_eq!(info.standards, vec!["NEP-17"]);
    assert_eq!(info.language.as_deref(), Some("C#"));
    assert_eq!(info.confidence, PatternConfidence::High);
    assert!(info.evidence.iter().any(|entry| entry.source == "nef.header.compiler"));
}

#[test]
fn events_manifest_reports_events_pattern_with_evidence() {
    let m = ContractManifest {
        name: "Events".to_string(),
        supported_standards: Vec::new(),
        abi: ContractAbi {
            methods: vec![ManifestMethod {
                name: "main".to_string(),
                parameters: Vec::new(),
                return_type: "Integer".to_string(),
                offset: 0,
                safe: false,
            }],
            events: vec![
                ManifestEvent {
                    name: "Transfer".to_string(),
                    parameters: vec![param("from", "Hash160"), param("to", "Hash160"), param("amount", "Integer")],
                },
                ManifestEvent { name: "Notify".to_string(), parameters: vec![param("value", "Any")] },
            ],
        },
        permissions: Vec::new(),
    };
    let info = identify_patterns(&nef("evnt", ""), &[], Some(&m));
    assert!(info.patterns.iter().any(|pattern| pattern == "events"));
    assert!(info.evidence.iter().any(|entry| entry.source == "manifest.abi.events" && entry.value == "2"));
    assert!(info.confidence == PatternConfidence::Medium || info.confidence == PatternConfidence::High);
}

#[test]
fn abi_events_are_reported_as_a_contract_pattern() {
    let m = manifest(&[], &[], &["Updated"], Vec::new());
    let info = identify_patterns(&nef("", ""), &[], Some(&m));
    assert_eq!(info.patterns, vec!["events"]);
    assert!(info.evidence.iter().any(|entry| entry.source == "manifest.abi.events" && entry.value == "1"));
}

#[test]
fn transfer_event_and_method_report_token_transfer_behavior() {
    let mut m = manifest(&[], &["transfer"], &["Transfer"], Vec::new());
    m.name = "Token".to_string();
    m.abi.methods[0].return_type = "Boolean".to_string();
    let info = identify_patterns(&nef("", ""), &[], Some(&m));
    assert_eq!(info.patterns, vec!["events", "token_transfers"]);
    assert!(info.evidence.iter().any(|entry| entry.source == "manifest.abi.methods" && entry.value == "transfer + Transfer"));
}
