use neo_decompiler::analysis::types::{SideEffect, Type};
use neo_decompiler::common::config::SyscallDefinition;
use neo_decompiler::engine::syscalls::SyscallDatabase;

#[test]
fn test_syscall_database_basic() {
    let db = SyscallDatabase::new();
    assert_eq!(db.resolve_name(0x925de831), "System.Storage.Get");
    assert_eq!(db.resolve_name(0xe63f1884), "System.Storage.Put");
    assert_eq!(db.get_arg_count(0x925de831), 2);
    assert_eq!(db.get_arg_count(0xe63f1884), 3);
    assert_eq!(db.returns_value(0x925de831), true);
    assert_eq!(db.returns_value(0xe63f1884), false);
}

#[test]
fn test_syscall_type_signatures() {
    let db = SyscallDatabase::new();
    let sig = db.get_signature(0x925de831).unwrap();
    assert_eq!(sig.name, "System.Storage.Get");
    assert_eq!(sig.parameters.len(), 2);
    assert!(!matches!(sig.return_type, Type::Void));
    assert!(sig.effects.contains(&SideEffect::StorageRead));
}

#[test]
fn test_unknown_syscalls() {
    let db = SyscallDatabase::new();
    assert_eq!(db.resolve_name(0xdeadbeef), "syscall_deadbeef");
    assert_eq!(db.get_arg_count(0xdeadbeef), 0);
    assert_eq!(db.returns_value(0xdeadbeef), false);
}

#[test]
fn a_definition_added_later_is_found_by_hash_and_name() {
    let mut db = SyscallDatabase::new();
    let def = SyscallDefinition {
        name: "Custom.Thing".to_string(),
        hash: 0x01020304,
        parameters: vec!["Integer".to_string()],
        return_type: Some("Boolean".to_string()),
        effects: vec![],
        gas_cost: Some(5),
        description: None,
    };
    assert!(db.add_syscall_definition(def).is_ok());
    assert_eq!(db.resolve_name(0x01020304), "Custom.Thing");
    assert_eq!(db.get_by_name("Custom.Thing").unwrap().hash, 0x01020304);
    assert_eq!(db.get_arg_count(0x01020304), 1);
    assert!(db.returns_value(0x01020304));
}

#[test]
fn a_name_replaced_under_its_hash_is_no_longer_found() {
    let mut db = SyscallDatabase::new();
    let first = SyscallDefinition {
        name: "Custom.A".to_string(),
        hash: 1,
        parameters: vec![],
        return_type: None,
        effects: vec![],
        gas_cost: None,
        description: None,
    };
    let second = SyscallDefinition {
        name: "Custom.B".to_string(),
        hash: 1,
        parameters: vec!["Integer".to_string()],
        return_type: None,
        effects: vec![],
        gas_cost: None,
        description: None,
    };
    assert!(db.add_syscall_definition(first).is_ok());
    assert!(db.add_syscall_definition(second).is_ok());
    assert!(db.get_by_name("Custom.A").is_none());
    let found = db.get_by_name("Custom.B").unwrap();
    assert_eq!(found.name, "Custom.B");
    assert_eq!(found.parameters.len(), 1);
    assert_eq!(db.resolve_name(1), "Custom.B");
}

#[test]
fn the_last_definition_for_a_hash_wins() {
    let def = |name: &str, params: usize| SyscallDefinition {
        name: name.to_string(),
        hash: 0x925de831,
        parameters: vec!["Integer".to_string(); params],
        return_type: None,
        effects: vec![],
        gas_cost: None,
        description: None,
    };
    let db = SyscallDatabase::from_definitions(vec![def("Custom.First", 1), def("Custom.Second", 3)]).unwrap();
    let found = db.get_by_hash(0x925de831).unwrap();
    assert_eq!(found.name, "Custom.Second");
    assert_eq!(found.parameters.len(), 3);
    assert_eq!(db.resolve_name(0xe63f1884), "System.Storage.Put");
}
