use neo_decompiler::analysis::types::{PrimitiveType, Type};
use neo_decompiler::common::config::DecompilerConfig;
use neo_decompiler::engine::decompiler::{DecompilerEngine, OptimizationLevel};

#[test]
fn test_decompiler_engine_creation() {
    let config = DecompilerConfig::default();
    let engine = DecompilerEngine::new(&config);
    let _ = engine;
}

#[test]
fn test_parse_neo_type_primitives() {
    let config = DecompilerConfig::default();
    let engine = DecompilerEngine::new(&config);

    assert_eq!(engine.parse_neo_type("Boolean").unwrap(), Type::Primitive(PrimitiveType::Boolean));
    assert_eq!(engine.parse_neo_type("Integer").unwrap(), Type::Primitive(PrimitiveType::Integer));
    assert_eq!(engine.parse_neo_type("ByteString").unwrap(), Type::Primitive(PrimitiveType::ByteString));
    assert_eq!(engine.parse_neo_type("String").unwrap(), Type::Primitive(PrimitiveType::ByteString));
    assert_eq!(engine.parse_neo_type("Hash160").unwrap(), Type::Primitive(PrimitiveType::Hash160));
    assert_eq!(engine.parse_neo_type("Hash256").unwrap(), Type::Primitive(PrimitiveType::Hash256));
    assert_eq!(engine.parse_neo_type("PublicKey").unwrap(), Type::Primitive(PrimitiveType::PublicKey));
    assert_eq!(engine.parse_neo_type("Signature").unwrap(), Type::Primitive(PrimitiveType::Signature));
    assert_eq!(engine.parse_neo_type("ECPoint").unwrap(), Type::Primitive(PrimitiveType::ECPoint));

    assert_eq!(engine.parse_neo_type("Any").unwrap(), Type::Any);
    assert_eq!(engine.parse_neo_type("Void").unwrap(), Type::Void);
    assert_eq!(engine.parse_neo_type("Null").unwrap(), Type::Primitive(PrimitiveType::Null));

    assert_eq!(engine.parse_neo_type("Buffer").unwrap(), Type::Buffer);
    match engine.parse_neo_type("Array").unwrap() {
        Type::Array(elem) => assert_eq!(*elem, Type::Unknown),
        _ => panic!("Expected Array type"),
    }
    match engine.parse_neo_type("Map").unwrap() {
        Type::Mapping { key, value } => {
            assert_eq!(*key, Type::Unknown);
            assert_eq!(*value, Type::Unknown);
        }
        _ => panic!("Expected Map type"),
    }
}

#[test]
fn test_parse_neo_type_complex() {
    let config = DecompilerConfig::default();
    let engine = DecompilerEngine::new(&config);

    match engine.parse_neo_type("Array<Integer>").unwrap() {
        Type::Array(elem) => assert_eq!(*elem, Type::Primitive(PrimitiveType::Integer)),
        _ => panic!("Expected Array<Integer> type"),
    }
    match engine.parse_neo_type("Array<Hash160>").unwrap() {
        Type::Array(elem) => assert_eq!(*elem, Type::Primitive(PrimitiveType::Hash160)),
        _ => panic!("Expected Array<Hash160> type"),
    }
    match engine.parse_neo_type("Map<String, Integer>").unwrap() {
        Type::Mapping { key, value } => {
            assert_eq!(*key, Type::Primitive(PrimitiveType::ByteString));
            assert_eq!(*value, Type::Primitive(PrimitiveType::Integer));
        }
        _ => panic!("Expected Map<String, Integer> type"),
    }
    match engine.parse_neo_type("Map<Hash160, Boolean>").unwrap() {
        Type::Mapping { key, value } => {
            assert_eq!(*key, Type::Primitive(PrimitiveType::Hash160));
            assert_eq!(*value, Type::Primitive(PrimitiveType::Boolean));
        }
        _ => panic!("Expected Map<Hash160, Boolean> type"),
    }
    match engine.parse_neo_type("Integer?").unwrap() {
        Type::Nullable(inner) => assert_eq!(*inner, Type::Primitive(PrimitiveType::Integer)),
        _ => panic!("Expected nullable Integer type"),
    }
    match engine.parse_neo_type("Array<String>?").unwrap() {
        Type::Nullable(inner) => match *inner {
            Type::Array(elem) => assert_eq!(*elem, Type::Primitive(PrimitiveType::ByteString)),
            _ => panic!("Expected Array inside nullable"),
        },
        _ => panic!("Expected nullable Array type"),
    }
}

#[test]
fn test_parse_neo_type_custom_and_unknown() {
    let config = DecompilerConfig::default();
    let engine = DecompilerEngine::new(&config);

    match engine.parse_neo_type("CustomToken").unwrap() {
        Type::UserDefined(name) => assert_eq!(name, "CustomToken"),
        _ => panic!("Expected UserDefined type"),
    }
    assert_eq!(engine.parse_neo_type("").unwrap(), Type::Unknown);
    match engine.parse_neo_type("InteropInterface").unwrap() {
        Type::InteropInterface(name) => assert_eq!(name, "Unknown"),
        _ => panic!("Expected InteropInterface type"),
    }
}

#[test]
fn test_parse_neo_type_edge_cases() {
    let config = DecompilerConfig::default();
    let engine = DecompilerEngine::new(&config);

    assert_eq!(engine.parse_neo_type("  Boolean  ").unwrap(), Type::Primitive(PrimitiveType::Boolean));
    match engine.parse_neo_type("Array<").unwrap() {
        Type::Array(elem) => assert_eq!(*elem, Type::Unknown),
        _ => panic!("Expected fallback Array type"),
    }
    match engine.parse_neo_type("Map<String").unwrap() {
        Type::Mapping { key, value } => {
            assert_eq!(*key, Type::Unknown);
            assert_eq!(*value, Type::Unknown);
        }
        _ => panic!("Expected fallback Map type"),
    }
    match engine.parse_neo_type("Array<Map<String, Integer>>").unwrap() {
        Type::Array(elem) => match *elem {
            Type::Mapping { key, value } => {
                assert_eq!(*key, Type::Primitive(PrimitiveType::ByteString));
                assert_eq!(*value, Type::Primitive(PrimitiveType::Integer));
            }
            _ => panic!("Expected Map inside Array"),
        },
        _ => panic!("Expected Array<Map<...>> type"),
    }
}

#[test]
fn test_decompiler_with_optimization_levels() {
    let config = DecompilerConfig::default();
    let _engine_none = DecompilerEngine::with_optimization_level(&config, OptimizationLevel::Disabled);
    let _engine_basic = DecompilerEngine::with_optimization_level(&config, OptimizationLevel::Basic);
    let _engine_aggressive = DecompilerEngine::with_optimization_level(&config, OptimizationLevel::Aggressive);
}

#[test]
fn test_analysis_statistics() {
    let config = DecompilerConfig::default();
    let mut engine = DecompilerEngine::new(&config);

    let stats = engine.get_statistics();
    assert_eq!(stats.passes_applied, 0);
    assert_eq!(stats.total_time_ms, 0);

    engine.reset_statistics();
    let stats = engine.get_statistics();
    assert_eq!(stats.total_time_ms, 0);
}

use neo_decompiler::common::types::StorageOp;
use neo_decompiler::engine::decompiler::WarningType;
use neo_decompiler::engine::ir::{Expression, IRBlock, IRFunction, Operation, StackOp};
use neo_decompiler::common::types::Literal;

fn syscall_op(name: &str) -> Operation {
    Operation::Syscall { name: name.to_string(), arguments: Vec::new(), return_type: None, target: None }
}

#[test]
fn frequent_syscalls_are_reported_in_order_of_first_use() {
    let engine = DecompilerEngine::new(&DecompilerConfig::default());
    let mut function = IRFunction::new("f".to_string());
    let mut b0 = IRBlock::new(0);
    for _ in 0..6 {
        b0.add_operation(syscall_op("System.Storage.Get"));
        b0.add_operation(syscall_op("System.Runtime.Log"));
    }
    let mut b1 = IRBlock::new(1);
    for _ in 0..5 {
        b1.add_operation(syscall_op("System.Storage.Get"));
    }
    b1.add_operation(syscall_op("System.Runtime.Notify"));
    function.add_block(b0);
    function.add_block(b1);
    let mut warnings = Vec::new();
    assert!(engine.analyze_syscall_usage(&function, &mut warnings).is_ok());
    assert_eq!(warnings.len(), 1);
    assert_eq!(warnings[0].warning_type, WarningType::PerformanceConcern);
    assert_eq!(warnings[0].message, "Frequent syscall usage: System.Storage.Get called 11 times");
    assert_eq!(warnings[0].severity, 2);
    assert!(warnings[0].affected_blocks.is_empty());
}

#[test]
fn neo_specific_analysis_reports_deep_stacks_and_token_patterns() {
    let engine = DecompilerEngine::new(&DecompilerConfig::default());
    let mut function = IRFunction::new("f".to_string());
    let mut b0 = IRBlock::new(0);
    for _ in 0..1001 {
        b0.add_operation(Operation::Stack { operation: StackOp::Push, operands: Vec::new(), target: None });
    }
    b0.add_operation(syscall_op("System.Runtime.Notify"));
    b0.add_operation(Operation::Storage {
        operation: StorageOp::Get,
        key: Expression::Literal(Literal::Integer(1)),
        value: None,
        target: None,
    });
    function.add_block(b0);
    let mut warnings = Vec::new();
    assert!(engine.apply_neo_specific_analysis(&function, &mut warnings).is_ok());
    assert_eq!(warnings.len(), 2);
    assert_eq!(warnings[0].message, "High stack depth detected: 1001");
    assert_eq!(warnings[0].severity, 3);
    assert_eq!(warnings[1].warning_type, WarningType::CodeQualityIssue);
}

use neo_decompiler::common::types::{Variable, VariableType};

fn var(name: &str) -> Variable {
    Variable { name: name.to_string(), id: 0, var_type: VariableType::Local }
}

fn assignment_function() -> IRFunction {
    let mut function = IRFunction::new("f".to_string());
    let mut b0 = IRBlock::new(4);
    b0.add_operation(Operation::Assign { target: var("a"), source: Expression::Literal(Literal::Integer(7)) });
    b0.add_operation(Operation::Assign { target: var("b"), source: Expression::Variable(var("a")) });
    let mut b1 = IRBlock::new(9);
    b1.add_operation(Operation::Assign { target: var("c"), source: Expression::Literal(Literal::Boolean(true)) });
    function.add_block(b0);
    function.add_block(b1);
    function
}

#[test]
fn constant_assignments_are_recorded_block_by_block() {
    let engine = DecompilerEngine::new(&DecompilerConfig::default());
    let mut function = assignment_function();
    let records = engine.apply_constant_propagation(&mut function).unwrap();
    assert_eq!(records.len(), 2);
    assert_eq!((records[0].block_id, records[0].variable.as_str()), (4, "a"));
    assert_eq!(records[0].value, Literal::Integer(7));
    assert_eq!((records[1].block_id, records[1].variable.as_str()), (9, "c"));
    assert_eq!(records[1].uses_replaced, 0);
}

#[test]
fn copy_assignments_are_recorded_with_source_and_target() {
    let engine = DecompilerEngine::new(&DecompilerConfig::default());
    let mut function = assignment_function();
    let records = engine.apply_copy_propagation(&mut function).unwrap();
    assert_eq!(records.len(), 1);
    assert_eq!(records[0].block_id, 4);
    assert_eq!(records[0].source, "a");
    assert_eq!(records[0].target, "b");
}

use neo_decompiler::analysis::effects::{Effect, KeyPattern};

#[test]
fn storage_patterns_are_named_once_each() {
    let engine = DecompilerEngine::new(&DecompilerConfig::default());
    let effects = vec![
        Effect::StorageRead { key_pattern: KeyPattern::Exact(vec![1, 0xab]) },
        Effect::StorageWrite { key_pattern: KeyPattern::Wildcard },
        Effect::StorageRead { key_pattern: KeyPattern::Exact(vec![1, 0xab]) },
        Effect::Pure,
        Effect::StorageWrite { key_pattern: KeyPattern::Parameterized("owner".to_string()) },
        Effect::StorageRead { key_pattern: KeyPattern::Prefix(vec![]) },
        Effect::StorageRead { key_pattern: KeyPattern::Dynamic },
    ];
    let patterns = engine.analyze_storage_patterns(&effects);
    let keys: Vec<&str> = patterns.iter().map(|(k, _)| k.as_str()).collect();
    assert_eq!(keys, vec!["exact:[01, ab]", "wildcard", "param:owner", "prefix:[]", "dynamic"]);
    assert!(matches!(&patterns[0].1, KeyPattern::Exact(b) if b == &vec![1u8, 0xab]));
    assert!(matches!(&patterns[2].1, KeyPattern::Parameterized(p) if p == "owner"));
}

use neo_decompiler::common::types::BinaryOperator;

#[test]
fn literal_assignments_and_literal_arithmetic_are_loop_invariant() {
    let engine = DecompilerEngine::new(&DecompilerConfig::default());
    let function = assignment_function();
    let lit = Operation::Assign { target: var("a"), source: Expression::Literal(Literal::Integer(1)) };
    let copy = Operation::Assign { target: var("a"), source: Expression::Variable(var("b")) };
    let sum = Operation::Arithmetic {
        operator: BinaryOperator::Add,
        left: Expression::Literal(Literal::Integer(1)),
        right: Expression::Literal(Literal::Integer(2)),
        target: var("c"),
    };
    let mixed = Operation::Arithmetic {
        operator: BinaryOperator::Add,
        left: Expression::Literal(Literal::Integer(1)),
        right: Expression::Variable(var("b")),
        target: var("c"),
    };
    assert!(engine.is_loop_invariant_operation(&lit, &[4], &function));
    assert!(!engine.is_loop_invariant_operation(&copy, &[4], &function));
    assert!(engine.is_loop_invariant_operation(&sum, &[4], &function));
    assert!(!engine.is_loop_invariant_operation(&mixed, &[4], &function));
}

use neo_decompiler::common::errors::AnalysisError;
use neo_decompiler::common::types::ContractId;

#[test]
fn contract_hashes_in_hex_are_decoded() {
    let engine = DecompilerEngine::new(&DecompilerConfig::default());
    let text = "0x00112233445566778899aabbccddeeff0A1b2C3d";
    let id = engine.extract_contract_id(&Expression::Literal(Literal::String(text.to_string()))).unwrap();
    match id {
        ContractId::Hash(bytes) => {
            assert_eq!(bytes.len(), 20);
            assert_eq!(&bytes[..4], &[0x00, 0x11, 0x22, 0x33]);
            assert_eq!(&bytes[16..], &[0x0a, 0x1b, 0x2c, 0x3d]);
        },
        _ => panic!("expected a hash"),
    }
    let bad = "zz112233445566778899aabbccddeeff0a1b2c3d";
    let err = engine.extract_contract_id(&Expression::Literal(Literal::String(bad.to_string())));
    assert!(matches!(err, Err(AnalysisError::InvalidContractHash { expected_length: 20, actual_length: 40 })));
}

#[test]
fn top_level_comma_is_found_by_byte_index() {
    let engine = DecompilerEngine::new(&DecompilerConfig::default());
    assert_eq!(engine.find_top_level_comma("Map<a,b>,c"), Some(8));
    assert_eq!(engine.find_top_level_comma("é,x"), Some(2));
    assert_eq!(engine.find_top_level_comma("Array<a,b>"), None);
}
