use neo_decompiler::cfg::fidelity::{classify_opcode, Fidelity, FidelityReport, LoweringIssue, LoweringIssueKind, OpcodeFidelity};
use neo_decompiler::common::opcode::OpCode;

#[test]
fn all_known_opcodes_have_an_explicit_classification() {
    let known: Vec<OpCode> =
        (0u8..=255).map(OpCode::from_byte).filter(|op| !matches!(op, OpCode::UNKNOWN(_))).collect();
    assert!(!known.is_empty());
    for opcode in known {
        assert!(!matches!(opcode, OpCode::UNKNOWN(_)));
        let _classification = classify_opcode(opcode);
    }
    assert!(matches!(classify_opcode(OpCode::UNKNOWN(0xFF)), OpcodeFidelity::Incomplete(_)));
}

#[test]
fn type_operand_opcodes_are_exact_once_tags_are_preserved() {
    for opcode in [OpCode::CONVERT, OpCode::ISTYPE, OpCode::NEWARRAYT] {
        assert_eq!(classify_opcode(opcode), OpcodeFidelity::Exact, "{opcode:?} carries its operand type tag in structured IR");
    }
}

#[test]
fn dynamic_stack_opcodes_defer_fidelity_to_literal_resolution() {
    for opcode in [OpCode::PICK, OpCode::ROLL, OpCode::XDROP, OpCode::REVERSEN] {
        assert_eq!(
            classify_opcode(opcode),
            OpcodeFidelity::Exact,
            "{opcode:?} is validated against its resolved operand by the SSA builder"
        );
    }
}

#[test]
fn report_finish_sorts_and_deduplicates_by_diagnostic_identity() {
    let duplicate = |fidelity| LoweringIssue {
        offset: 7,
        opcode: OpCode::SYSCALL,
        kind: LoweringIssueKind::MissingProvenance,
        fidelity,
        detail: "low-level syscall wrapper".to_string(),
    };
    let mut report = FidelityReport::exact(3);
    report.issues = vec![
        duplicate(Fidelity::Conservative),
        LoweringIssue {
            offset: 2,
            opcode: OpCode::ASSERT,
            kind: LoweringIssueKind::UnsupportedOpcode,
            fidelity: Fidelity::Incomplete,
            detail: "assertion effect is not represented".to_string(),
        },
        duplicate(Fidelity::Incomplete),
    ];

    report.finish();

    assert_eq!(report.status, Fidelity::Incomplete);
    assert_eq!(report.issues.len(), 2);
    assert_eq!(report.issues[0].offset, 2);
    assert_eq!(report.issues[1].offset, 7);
    assert_eq!(report.issues[1].fidelity, Fidelity::Incomplete);
}

#[test]
fn aborts_and_syscalls_are_conservative() {
    assert_eq!(classify_opcode(OpCode::ABORT), OpcodeFidelity::Conservative);
    assert_eq!(classify_opcode(OpCode::SYSCALL), OpcodeFidelity::Conservative);
    assert_eq!(classify_opcode(OpCode::ADD), OpcodeFidelity::Exact);
}

#[test]
fn finish_orders_by_offset_opcode_kind_and_detail() {
    let issue = |offset, opcode, kind, fidelity, detail: &str| LoweringIssue { offset, opcode, kind, fidelity, detail: detail.to_string() };
    let mut report = FidelityReport::exact(5);
    report.issues = vec![
        issue(4, OpCode::ADD, LoweringIssueKind::LostStackValue, Fidelity::Conservative, "b"),
        issue(4, OpCode::ADD, LoweringIssueKind::LostStackValue, Fidelity::Conservative, "a"),
        issue(4, OpCode::ADD, LoweringIssueKind::UnsupportedControl, Fidelity::Exact, "z"),
        issue(1, OpCode::RET, LoweringIssueKind::BudgetExceeded, Fidelity::Conservative, "a"),
    ];
    report.finish();
    let order: Vec<(usize, &str)> = report.issues.iter().map(|i| (i.offset, i.detail.as_str())).collect();
    assert_eq!(order, vec![(1, "a"), (4, "z"), (4, "a"), (4, "b")]);
    assert_eq!(report.status, Fidelity::Conservative);
    assert_eq!(report.primary_issue().map(|i| i.offset), Some(1));

    let mut empty = FidelityReport::exact(0);
    empty.finish();
    assert_eq!(empty.status, Fidelity::Exact);
    assert!(empty.primary_issue().is_none());
}

#[test]
fn primary_issue_prefers_incomplete_issues() {
    let mut report = FidelityReport::exact(2);
    report.issues = vec![
        LoweringIssue { offset: 1, opcode: OpCode::NOP, kind: LoweringIssueKind::LostStackValue, fidelity: Fidelity::Conservative, detail: String::new() },
        LoweringIssue { offset: 3, opcode: OpCode::NOP, kind: LoweringIssueKind::LostStackValue, fidelity: Fidelity::Incomplete, detail: String::new() },
    ];
    assert_eq!(report.primary_issue().map(|i| i.offset), Some(3));
}
