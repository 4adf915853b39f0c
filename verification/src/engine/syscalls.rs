//! Syscall signature database and resolution.
use vstd::prelude::*;

use crate::analysis::types::{
    types_view, PrimitiveType, SideEffect, SyscallSignature, SyscallSignatureView, Type, TypeView,
};
use crate::common::config::{strs_view, SyscallDefinition, SyscallDefinitionView};
use crate::common::errors::ConfigError;
use crate::text::{hex8, push_hex8, str_eq};

verus! {

/// The map an association list denotes: later entries win over earlier ones.
pub open spec fn assoc<K, V>(s: Seq<(K, V)>) -> Map<K, V>
    decreases s.len(),
{
    if s.len() == 0 {
        Map::empty()
    } else {
        assoc(s.drop_last()).insert(s.last().0, s.last().1)
    }
}

/// Entries from `i` on do not have key `k`: the map agrees with that of the prefix before `i` on `k`.
pub proof fn lemma_assoc_skip<K, V>(s: Seq<(K, V)>, i: int, k: K)
    requires
        0 <= i <= s.len(),
        forall|j: int| i <= j < s.len() ==> s[j].0 != k,
    ensures
        assoc(s).contains_key(k) == assoc(s.take(i)).contains_key(k),
        assoc(s).contains_key(k) ==> assoc(s)[k] == assoc(s.take(i))[k],
    decreases s.len() - i,
{
    if i < s.len() {
        assert(s.drop_last().take(i) =~= s.take(i));
        lemma_assoc_skip(s.drop_last(), i, k);
    } else {
        assert(s.take(i) =~= s);
    }
}

/// The last entry with a key decides the map's value there.
pub proof fn lemma_assoc_found<K, V>(s: Seq<(K, V)>, i: int)
    requires
        0 <= i < s.len(),
        forall|j: int| i < j < s.len() ==> s[j].0 != s[i].0,
    ensures
        assoc(s).contains_key(s[i].0),
        assoc(s)[s[i].0] == s[i].1,
{
    lemma_assoc_skip(s, i + 1, s[i].0);
    assert(s.take(i + 1).drop_last() =~= s.take(i));
}

/// No entry has key `k`: the map lacks it.
pub proof fn lemma_assoc_absent<K, V>(s: Seq<(K, V)>, k: K)
    requires
        forall|j: int| 0 <= j < s.len() ==> s[j].0 != k,
    ensures
        !assoc(s).contains_key(k),
{
    lemma_assoc_skip(s, 0, k);
    assert(s.take(0) =~= Seq::<(K, V)>::empty());
}

/// The keys of the map are the keys of the entries.
pub proof fn lemma_assoc_dom<K, V>(s: Seq<(K, V)>, k: K)
    ensures
        assoc(s).contains_key(k) <==> exists|j: int| 0 <= j < s.len() && s[j].0 == k,
    decreases s.len(),
{
    if s.len() > 0 {
        lemma_assoc_dom(s.drop_last(), k);
        if exists|j: int| 0 <= j < s.len() && s[j].0 == k {
            let j = choose|j: int| 0 <= j < s.len() && s[j].0 == k;
            if j < s.len() - 1 {
                assert(s.drop_last()[j] == s[j]);
            }
        }
        if exists|j: int| 0 <= j < s.drop_last().len() && s.drop_last()[j].0 == k {
            let j = choose|j: int| 0 <= j < s.drop_last().len() && s.drop_last()[j].0 == k;
            assert(s[j] == s.drop_last()[j]);
        }
    }
}

/// Definition entries keyed by hash.
pub open spec fn hash_entries(s: Seq<SyscallDefinition>) -> Seq<(u32, SyscallDefinitionView)> {
    s.map_values(|d: SyscallDefinition| (d.hash, d@))
}

/// Name entries keyed by name.
pub open spec fn name_entries(s: Seq<(String, u32)>) -> Seq<(Seq<char>, u32)> {
    s.map_values(|e: (String, u32)| (e.0@, e.1))
}

/// Signature entries keyed by hash.
pub open spec fn signature_entries(s: Seq<(u32, SyscallSignature)>) -> Seq<(u32, SyscallSignatureView)> {
    s.map_values(|e: (u32, SyscallSignature)| (e.0, e.1@))
}

/// The Neo type a signature type name stands for.
pub open spec fn type_of_name(s: Seq<char>) -> TypeView {
    if s == "Void"@ {
        TypeView::Void
    } else if s == "Boolean"@ {
        TypeView::Primitive(PrimitiveType::Boolean)
    } else if s == "Byte"@ || s == "Integer"@ || s == "UInteger"@ || s == "CallFlags"@ {
        TypeView::Primitive(PrimitiveType::Integer)
    } else if s == "String"@ {
        TypeView::Primitive(PrimitiveType::String)
    } else if s == "ByteArray"@ || s == "Hash160"@ || s == "Hash256"@ || s == "ECPoint"@ {
        TypeView::Primitive(PrimitiveType::ByteArray)
    } else if s == "Array"@ {
        TypeView::Array(Box::new(TypeView::Unknown))
    } else {
        TypeView::Unknown
    }
}

/// The side effect an effect name stands for; unknown names count as state changes.
pub open spec fn effect_of_name(s: Seq<char>) -> SideEffect {
    if s == "Pure"@ {
        SideEffect::Pure
    } else if s == "StorageRead"@ {
        SideEffect::StorageRead
    } else if s == "StorageWrite"@ {
        SideEffect::StorageWrite
    } else if s == "ContractCall"@ {
        SideEffect::ContractCall
    } else if s == "EventEmit"@ {
        SideEffect::EventEmit
    } else {
        SideEffect::StateChange
    }
}

/// The typed signature compiled from a definition.
pub open spec fn signature_of(d: SyscallDefinitionView) -> SyscallSignatureView {
    SyscallSignatureView {
        name: d.name,
        parameters: d.parameters.map_values(|p: Seq<char>| type_of_name(p)),
        return_type: match d.return_type {
            Some(r) => if r == "Void"@ { TypeView::Void } else { type_of_name(r) },
            None => TypeView::Void,
        },
        effects: d.effects.map_values(|e: Seq<char>| effect_of_name(e)),
    }
}

/// Model of the database: definitions and signatures by hash, hashes by name.
pub struct SyscallDatabaseView {
    pub by_hash: Map<u32, SyscallDefinitionView>,
    pub by_name: Map<Seq<char>, u32>,
    pub signatures: Map<u32, SyscallSignatureView>,
}

/// The database after adding one definition; an earlier entry with the same hash or name is replaced.
pub open spec fn db_add(v: SyscallDatabaseView, d: SyscallDefinitionView) -> SyscallDatabaseView {
    SyscallDatabaseView {
        by_hash: v.by_hash.insert(d.hash, d),
        by_name: v.by_name.insert(d.name, d.hash),
        signatures: v.signatures.insert(d.hash, signature_of(d)),
    }
}

/// The database after adding definitions in order.
pub open spec fn db_add_all(v: SyscallDatabaseView, ds: Seq<SyscallDefinitionView>) -> SyscallDatabaseView
    decreases ds.len(),
{
    if ds.len() == 0 {
        v
    } else {
        db_add(db_add_all(v, ds.drop_last()), ds.last())
    }
}

/// The empty database.
pub open spec fn db_empty() -> SyscallDatabaseView {
    SyscallDatabaseView { by_hash: Map::empty(), by_name: Map::empty(), signatures: Map::empty() }
}

/// The built-in Neo N3 syscalls.
pub open spec fn builtin_definitions() -> Seq<SyscallDefinitionView> {
    seq![
        SyscallDefinitionView {
            name: "System.Runtime.Platform"@,
            hash: 0x49de7d57,
            parameters: seq![],
            return_type: Some("String"@),
            effects: seq!["SystemStateRead"@],
            gas_cost: Some(250u64),
            description: Some("Gets the name of the current platform"@),
        },
        SyscallDefinitionView {
            name: "System.Runtime.GetTrigger"@,
            hash: 0x2d43a8aa,
            parameters: seq![],
            return_type: Some("Byte"@),
            effects: seq!["SystemStateRead"@],
            gas_cost: Some(250u64),
            description: Some("Gets the trigger type of the current execution"@),
        },
        SyscallDefinitionView {
            name: "System.Runtime.GetTime"@,
            hash: 0xf827ec8e,
            parameters: seq![],
            return_type: Some("UInteger"@),
            effects: seq!["SystemStateRead"@],
            gas_cost: Some(250u64),
            description: Some("Gets the timestamp of the current block"@),
        },
        SyscallDefinitionView {
            name: "System.Runtime.GetExecutingScriptHash"@,
            hash: 0x5d97c1b2,
            parameters: seq![],
            return_type: Some("Hash160"@),
            effects: seq!["Pure"@],
            gas_cost: Some(400u64),
            description: Some("Gets the script hash of the current contract"@),
        },
        SyscallDefinitionView {
            name: "System.Runtime.GetCallingScriptHash"@,
            hash: 0x91f9b23b,
            parameters: seq![],
            return_type: Some("Hash160"@),
            effects: seq!["Pure"@],
            gas_cost: Some(400u64),
            description: Some("Gets the script hash of the calling contract"@),
        },
        SyscallDefinitionView {
            name: "System.Runtime.GetEntryScriptHash"@,
            hash: 0x9e29b9a8,
            parameters: seq![],
            return_type: Some("Hash160"@),
            effects: seq!["Pure"@],
            gas_cost: Some(400u64),
            description: Some("Gets the script hash of the entry contract"@),
        },
        SyscallDefinitionView {
            name: "System.Storage.GetContext"@,
            hash: 0x9c7c9598,
            parameters: seq![],
            return_type: Some("StorageContext"@),
            effects: seq!["Pure"@],
            gas_cost: Some(400u64),
            description: Some("Gets the storage context of the current contract"@),
        },
        SyscallDefinitionView {
            name: "System.Storage.GetReadOnlyContext"@,
            hash: 0xe1c83c39,
            parameters: seq![],
            return_type: Some("StorageContext"@),
            effects: seq!["Pure"@],
            gas_cost: Some(400u64),
            description: Some("Gets the read-only storage context of the current contract"@),
        },
        SyscallDefinitionView {
            name: "System.Storage.Get"@,
            hash: 0x925de831,
            parameters: seq!["StorageContext"@, "ByteArray"@],
            return_type: Some("ByteArray"@),
            effects: seq!["StorageRead"@],
            gas_cost: Some(1000000u64),
            description: Some("Gets a value from storage"@),
        },
        SyscallDefinitionView {
            name: "System.Storage.Put"@,
            hash: 0xe63f1884,
            parameters: seq!["StorageContext"@, "ByteArray"@, "ByteArray"@],
            return_type: Some("Void"@),
            effects: seq!["StorageWrite"@],
            gas_cost: Some(0u64),
            description: Some("Puts a value into storage"@),
        },
        SyscallDefinitionView {
            name: "System.Storage.Delete"@,
            hash: 0x7ce2e494,
            parameters: seq!["StorageContext"@, "ByteArray"@],
            return_type: Some("Void"@),
            effects: seq!["StorageWrite"@],
            gas_cost: Some(1000000u64),
            description: Some("Deletes a value from storage"@),
        },
        SyscallDefinitionView {
            name: "System.Storage.Find"@,
            hash: 0xa09b1eef,
            parameters: seq!["StorageContext"@, "ByteArray"@, "Byte"@],
            return_type: Some("Iterator"@),
            effects: seq!["StorageRead"@],
            gas_cost: Some(1000000u64),
            description: Some("Finds storage entries with the given prefix"@),
        },
        SyscallDefinitionView {
            name: "System.Contract.Call"@,
            hash: 0x627d5b52,
            parameters: seq!["Hash160"@, "String"@, "Array"@, "CallFlags"@],
            return_type: Some("Any"@),
            effects: seq!["ContractCall"@],
            gas_cost: Some(0u64),
            description: Some("Calls another contract"@),
        },
        SyscallDefinitionView {
            name: "System.Contract.CallEx"@,
            hash: 0x14e12327,
            parameters: seq!["Hash160"@, "String"@, "Array"@, "CallFlags"@],
            return_type: Some("Any"@),
            effects: seq!["ContractCall"@],
            gas_cost: Some(0u64),
            description: Some("Calls another contract with extended functionality"@),
        },
        SyscallDefinitionView {
            name: "System.Crypto.CheckSig"@,
            hash: 0x82958f5a,
            parameters: seq!["ByteArray"@, "ECPoint"@],
            return_type: Some("Boolean"@),
            effects: seq!["Pure"@],
            gas_cost: Some(1000000u64),
            description: Some("Verifies a signature"@),
        },
        SyscallDefinitionView {
            name: "System.Crypto.CheckMultisig"@,
            hash: 0xf60652e8,
            parameters: seq!["Array"@, "Array"@],
            return_type: Some("Boolean"@),
            effects: seq!["Pure"@],
            gas_cost: Some(0u64),
            description: Some("Verifies multiple signatures"@),
        },
        SyscallDefinitionView {
            name: "System.Iterator.Next"@,
            hash: 0x7e6a2bb7,
            parameters: seq!["Iterator"@],
            return_type: Some("Boolean"@),
            effects: seq!["Pure"@],
            gas_cost: Some(1000000u64),
            description: Some("Moves to the next item in an iterator"@),
        },
        SyscallDefinitionView {
            name: "System.Iterator.Value"@,
            hash: 0x63b6c5ee,
            parameters: seq!["Iterator"@],
            return_type: Some("Array"@),
            effects: seq!["Pure"@],
            gas_cost: Some(400u64),
            description: Some("Gets the current value from an iterator"@),
        },
        SyscallDefinitionView {
            name: "System.Json.Serialize"@,
            hash: 0xa0ab5461,
            parameters: seq!["Any"@],
            return_type: Some("ByteArray"@),
            effects: seq!["Pure"@],
            gas_cost: Some(100000u64),
            description: Some("Serializes an object to JSON"@),
        },
        SyscallDefinitionView {
            name: "System.Json.Deserialize"@,
            hash: 0x7d4b2a25,
            parameters: seq!["ByteArray"@],
            return_type: Some("Any"@),
            effects: seq!["Pure"@],
            gas_cost: Some(500000u64),
            description: Some("Deserializes JSON to an object"@),
        },
    ]
}

/// The database that `SyscallDatabase::new` builds.
pub open spec fn builtin_db() -> SyscallDatabaseView {
    db_add_all(db_empty(), builtin_definitions())
}

/// Name of a syscall for display: its definition's name, or `syscall_` and eight hex digits.
pub open spec fn resolved_name(v: SyscallDatabaseView, hash: u32) -> Seq<char> {
    if v.by_hash.contains_key(hash) { v.by_hash[hash].name } else { "syscall_"@ + hex8(hash) }
}

/// Whether the syscall is known and declares a return type other than `Void`.
pub open spec fn spec_returns_value(v: SyscallDatabaseView, hash: u32) -> bool {
    v.by_hash.contains_key(hash) && match v.by_hash[hash].return_type {
        Some(r) => r != "Void"@,
        None => false,
    }
}

/// Comprehensive Neo N3 syscall database.
pub struct SyscallDatabase {
    /// Definitions, later entries replacing earlier ones with the same hash.
    syscalls_by_hash: Vec<SyscallDefinition>,
    /// Name to hash entries, later entries replacing earlier ones with the same name.
    syscalls_by_name: Vec<(String, u32)>,
    /// Compiled signatures, later entries replacing earlier ones with the same hash.
    type_signatures: Vec<(u32, SyscallSignature)>,
}

impl View for SyscallDatabase {
    type V = SyscallDatabaseView;

    closed spec fn view(&self) -> SyscallDatabaseView {
        SyscallDatabaseView {
            by_hash: assoc(hash_entries(self.syscalls_by_hash@)),
            by_name: assoc(name_entries(self.syscalls_by_name@)),
            signatures: assoc(signature_entries(self.type_signatures@)),
        }
    }
}

fn strings0() -> (r: Vec<String>)
    ensures
        strs_view(r@) == Seq::<Seq<char>>::empty(),
{
    let r: Vec<String> = Vec::new();
    assert(strs_view(r@) =~= Seq::<Seq<char>>::empty());
    r
}

fn strings1(a: &str) -> (r: Vec<String>)
    ensures
        strs_view(r@) == seq![a@],
{
    let mut r: Vec<String> = Vec::new();
    r.push(String::from_str(a));
    assert(strs_view(r@) =~= seq![a@]);
    r
}

fn strings2(a: &str, b: &str) -> (r: Vec<String>)
    ensures
        strs_view(r@) == seq![a@, b@],
{
    let mut r: Vec<String> = Vec::new();
    r.push(String::from_str(a));
    r.push(String::from_str(b));
    assert(strs_view(r@) =~= seq![a@, b@]);
    r
}

fn strings3(a: &str, b: &str, c: &str) -> (r: Vec<String>)
    ensures
        strs_view(r@) == seq![a@, b@, c@],
{
    let mut r: Vec<String> = Vec::new();
    r.push(String::from_str(a));
    r.push(String::from_str(b));
    r.push(String::from_str(c));
    assert(strs_view(r@) =~= seq![a@, b@, c@]);
    r
}

fn strings4(a: &str, b: &str, c: &str, d: &str) -> (r: Vec<String>)
    ensures
        strs_view(r@) == seq![a@, b@, c@, d@],
{
    let mut r: Vec<String> = Vec::new();
    r.push(String::from_str(a));
    r.push(String::from_str(b));
    r.push(String::from_str(c));
    r.push(String::from_str(d));
    assert(strs_view(r@) =~= seq![a@, b@, c@, d@]);
    r
}

fn definition(
    name: &str,
    hash: u32,
    parameters: Vec<String>,
    return_type: &str,
    effect: &str,
    gas_cost: u64,
    description: &str,
) -> (r: SyscallDefinition)
    ensures
        r@ == (SyscallDefinitionView {
            name: name@,
            hash,
            parameters: strs_view(parameters@),
            return_type: Some(return_type@),
            effects: seq![effect@],
            gas_cost: Some(gas_cost),
            description: Some(description@),
        }),
{
    SyscallDefinition {
        name: String::from_str(name),
        hash,
        parameters,
        return_type: Some(String::from_str(return_type)),
        effects: strings1(effect),
        gas_cost: Some(gas_cost),
        description: Some(String::from_str(description)),
    }
}

/// The built-in definitions, in table order.
fn builtin_definition_list() -> (r: Vec<SyscallDefinition>)
    ensures
        r@.map_values(|d: SyscallDefinition| d@) == builtin_definitions(),
{
    let mut defs: Vec<SyscallDefinition> = Vec::new();
        defs.push(definition("System.Runtime.Platform", 0x49de7d57, strings0(), "String", "SystemStateRead", 250, "Gets the name of the current platform"));
        defs.push(definition("System.Runtime.GetTrigger", 0x2d43a8aa, strings0(), "Byte", "SystemStateRead", 250, "Gets the trigger type of the current execution"));
        defs.push(definition("System.Runtime.GetTime", 0xf827ec8e, strings0(), "UInteger", "SystemStateRead", 250, "Gets the timestamp of the current block"));
        defs.push(definition("System.Runtime.GetExecutingScriptHash", 0x5d97c1b2, strings0(), "Hash160", "Pure", 400, "Gets the script hash of the current contract"));
        defs.push(definition("System.Runtime.GetCallingScriptHash", 0x91f9b23b, strings0(), "Hash160", "Pure", 400, "Gets the script hash of the calling contract"));
        defs.push(definition("System.Runtime.GetEntryScriptHash", 0x9e29b9a8, strings0(), "Hash160", "Pure", 400, "Gets the script hash of the entry contract"));
        defs.push(definition("System.Storage.GetContext", 0x9c7c9598, strings0(), "StorageContext", "Pure", 400, "Gets the storage context of the current contract"));
        defs.push(definition("System.Storage.GetReadOnlyContext", 0xe1c83c39, strings0(), "StorageContext", "Pure", 400, "Gets the read-only storage context of the current contract"));
        defs.push(definition("System.Storage.Get", 0x925de831, strings2("StorageContext", "ByteArray"), "ByteArray", "StorageRead", 1000000, "Gets a value from storage"));
        defs.push(definition("System.Storage.Put", 0xe63f1884, strings3("StorageContext", "ByteArray", "ByteArray"), "Void", "StorageWrite", 0, "Puts a value into storage"));
        defs.push(definition("System.Storage.Delete", 0x7ce2e494, strings2("StorageContext", "ByteArray"), "Void", "StorageWrite", 1000000, "Deletes a value from storage"));
        defs.push(definition("System.Storage.Find", 0xa09b1eef, strings3("StorageContext", "ByteArray", "Byte"), "Iterator", "StorageRead", 1000000, "Finds storage entries with the given prefix"));
        defs.push(definition("System.Contract.Call", 0x627d5b52, strings4("Hash160", "String", "Array", "CallFlags"), "Any", "ContractCall", 0, "Calls another contract"));
        defs.push(definition("System.Contract.CallEx", 0x14e12327, strings4("Hash160", "String", "Array", "CallFlags"), "Any", "ContractCall", 0, "Calls another contract with extended functionality"));
        defs.push(definition("System.Crypto.CheckSig", 0x82958f5a, strings2("ByteArray", "ECPoint"), "Boolean", "Pure", 1000000, "Verifies a signature"));
        defs.push(definition("System.Crypto.CheckMultisig", 0xf60652e8, strings2("Array", "Array"), "Boolean", "Pure", 0, "Verifies multiple signatures"));
        defs.push(definition("System.Iterator.Next", 0x7e6a2bb7, strings1("Iterator"), "Boolean", "Pure", 1000000, "Moves to the next item in an iterator"));
        defs.push(definition("System.Iterator.Value", 0x63b6c5ee, strings1("Iterator"), "Array", "Pure", 400, "Gets the current value from an iterator"));
        defs.push(definition("System.Json.Serialize", 0xa0ab5461, strings1("Any"), "ByteArray", "Pure", 100000, "Serializes an object to JSON"));
        defs.push(definition("System.Json.Deserialize", 0x7d4b2a25, strings1("ByteArray"), "Any", "Pure", 500000, "Deserializes JSON to an object"));
    assert(defs@.map_values(|d: SyscallDefinition| d@) =~= builtin_definitions());
    defs
}

/// Parse a signature type name.
fn parse_type_string(type_str: &str) -> (r: Type)
    ensures
        r@ == type_of_name(type_str@),
{
    reveal_with_fuel(crate::analysis::types::type_view, 2);
    if str_eq(type_str, "Void") {
        Type::Void
    } else if str_eq(type_str, "Boolean") {
        Type::Primitive(PrimitiveType::Boolean)
    } else if str_eq(type_str, "Byte") || str_eq(type_str, "Integer") || str_eq(type_str, "UInteger")
        || str_eq(type_str, "CallFlags") {
        Type::Primitive(PrimitiveType::Integer)
    } else if str_eq(type_str, "String") {
        Type::Primitive(PrimitiveType::String)
    } else if str_eq(type_str, "ByteArray") || str_eq(type_str, "Hash160") || str_eq(type_str, "Hash256")
        || str_eq(type_str, "ECPoint") {
        Type::Primitive(PrimitiveType::ByteArray)
    } else if str_eq(type_str, "Array") {
        Type::Array(Box::new(Type::Unknown))
    } else {
        Type::Unknown
    }
}

/// Parse an effect name; unknown names count as state changes.
fn parse_effect_string(effect_str: &str) -> (r: SideEffect)
    ensures
        r == effect_of_name(effect_str@),
{
    if str_eq(effect_str, "Pure") {
        SideEffect::Pure
    } else if str_eq(effect_str, "StorageRead") {
        SideEffect::StorageRead
    } else if str_eq(effect_str, "StorageWrite") {
        SideEffect::StorageWrite
    } else if str_eq(effect_str, "ContractCall") {
        SideEffect::ContractCall
    } else if str_eq(effect_str, "EventEmit") {
        SideEffect::EventEmit
    } else {
        SideEffect::StateChange
    }
}

/// Adding a list of definitions one more at a time.
pub proof fn lemma_db_add_all_step(v: SyscallDatabaseView, ds: Seq<SyscallDefinitionView>, i: int)
    requires
        0 <= i < ds.len(),
    ensures
        db_add_all(v, ds.take(i + 1)) == db_add(db_add_all(v, ds.take(i)), ds[i]),
{
    assert(ds.take(i + 1).drop_last() =~= ds.take(i));
}

/// Adding definitions in order, the last one with a given hash is the one
/// found under that hash; a hash that none of them has keeps what it had.
pub proof fn lemma_last_definition_wins(v: SyscallDatabaseView, ds: Seq<SyscallDefinitionView>, h: u32)
    ensures
        forall|i: int|
            0 <= i < ds.len() && (#[trigger] ds[i]).hash == h && (forall|j: int| i < j < ds.len() ==> ds[j].hash != h)
                ==> db_add_all(v, ds).by_hash.contains_key(h) && db_add_all(v, ds).by_hash[h] == ds[i],
        (forall|j: int| 0 <= j < ds.len() ==> ds[j].hash != h) ==> (db_add_all(v, ds).by_hash.contains_key(h)
            == v.by_hash.contains_key(h) && (v.by_hash.contains_key(h) ==> db_add_all(v, ds).by_hash[h] == v.by_hash[h])),
    decreases ds.len(),
{
    if ds.len() > 0 {
        let d = ds.drop_last();
        lemma_last_definition_wins(v, d, h);
        assert forall|i: int|
            0 <= i < ds.len() && (#[trigger] ds[i]).hash == h && (forall|j: int| i < j < ds.len() ==> ds[j].hash != h) implies db_add_all(
            v,
            ds,
        ).by_hash.contains_key(h) && db_add_all(v, ds).by_hash[h] == ds[i] by {
            if i < ds.len() - 1 {
                assert(ds[ds.len() - 1].hash != h);
                assert(d[i] == ds[i]);
                assert forall|j: int| i < j < d.len() implies d[j].hash != h by {
                    assert(d[j] == ds[j]);
                }
            }
        }
        if forall|j: int| 0 <= j < ds.len() ==> ds[j].hash != h {
            assert forall|j: int| 0 <= j < d.len() implies d[j].hash != h by {
                assert(d[j] == ds[j]);
            }
            assert(ds[ds.len() - 1].hash != h);
        }
    }
}

impl SyscallDatabase {
    /// A database holding the built-in Neo N3 syscalls.
    pub fn new() -> (r: Self)
        ensures
            r@ == builtin_db(),
    {
        let mut database = SyscallDatabase {
            syscalls_by_hash: Vec::new(),
            syscalls_by_name: Vec::new(),
            type_signatures: Vec::new(),
        };
        proof {
            assert(database@.by_hash =~= Map::empty());
            assert(database@.by_name =~= Map::empty());
            assert(database@.signatures =~= Map::empty());
        }
        database.load_builtin_syscalls();
        database
    }

    /// The built-in syscalls followed by the given definitions, each added in order.
    pub fn from_definitions(definitions: Vec<SyscallDefinition>) -> (r: Result<Self, ConfigError>)
        ensures
            r matches Ok(db) && db@ == db_add_all(
                builtin_db(),
                definitions@.map_values(|d: SyscallDefinition| d@),
            ),
            r matches Ok(db) && forall|i: int|
                0 <= i < definitions@.len() && (forall|j: int| i < j < definitions@.len() ==> definitions@[j].hash != (
                #[trigger] definitions@[i]).hash) ==> db@.by_hash.contains_key(definitions@[i].hash) && db@.by_hash[definitions@[i].hash]
                == definitions@[i]@,
            r matches Ok(db) && forall|h: u32|
                (forall|j: int| 0 <= j < definitions@.len() ==> definitions@[j].hash != h) ==> (#[trigger] db@.by_hash.contains_key(h)
                    == builtin_db().by_hash.contains_key(h) && (builtin_db().by_hash.contains_key(h) ==> db@.by_hash[h]
                    == builtin_db().by_hash[h])),
    {
        let ghost ds = definitions@.map_values(|d: SyscallDefinition| d@);
        let ghost defs = definitions@;
        let mut database = Self::new();
        database.add_all(definitions);
        proof {
            assert forall|i: int|
                0 <= i < defs.len() && (forall|j: int| i < j < defs.len() ==> defs[j].hash != (#[trigger] defs[i]).hash) implies database@.by_hash.contains_key(
                defs[i].hash,
            ) && database@.by_hash[defs[i].hash] == defs[i]@ by {
                lemma_last_definition_wins(builtin_db(), ds, defs[i].hash);
                assert(ds[i] == defs[i]@);
                assert forall|j: int| i < j < ds.len() implies ds[j].hash != defs[i].hash by {
                    assert(ds[j] == defs[j]@);
                }
            }
            assert forall|h: u32| (forall|j: int| 0 <= j < defs.len() ==> defs[j].hash != h) implies (#[trigger] database@.by_hash.contains_key(h)
                == builtin_db().by_hash.contains_key(h) && (builtin_db().by_hash.contains_key(h) ==> database@.by_hash[h]
                == builtin_db().by_hash[h])) by {
                lemma_last_definition_wins(builtin_db(), ds, h);
                assert forall|j: int| 0 <= j < ds.len() implies ds[j].hash != h by {
                    assert(ds[j] == defs[j]@);
                }
            }
        }
        Ok(database)
    }

    /// Add the built-in Neo N3 syscalls.
    fn load_builtin_syscalls(&mut self)
        ensures
            final(self)@ == db_add_all(old(self)@, builtin_definitions()),
    {
        self.add_all(builtin_definition_list());
    }

    /// Add definitions in order.
    fn add_all(&mut self, defs: Vec<SyscallDefinition>)
        ensures
            final(self)@ == db_add_all(old(self)@, defs@.map_values(|d: SyscallDefinition| d@)),
    {
        let ghost start = self@;
        let ghost ds = defs@.map_values(|d: SyscallDefinition| d@);
        let mut rest = defs;
        let mut i: usize = 0;
        let n = rest.len();
        while i < n
            invariant
                n == ds.len(),
                i <= n,
                rest@.len() == n - i,
                forall|j: int| 0 <= j < rest@.len() ==> rest@[j]@ == ds[i + j],
                self@ == db_add_all(start, ds.take(i as int)),
            decreases n - i,
        {
            let d = rest.remove(0);
            proof {
                lemma_db_add_all_step(start, ds, i as int);
            }
            let _ = self.add_syscall_definition(d);
            i = i + 1;
        }
        assert(ds.take(n as int) =~= ds);
    }

    /// Add a definition; an earlier one with the same hash or name is replaced.
    pub fn add_syscall_definition(&mut self, def: SyscallDefinition) -> (r: Result<(), ConfigError>)
        ensures
            r is Ok,
            final(self)@ == db_add(old(self)@, def@),
    {
        let ghost old_by_hash = self.syscalls_by_hash@;
        let ghost old_by_name = self.syscalls_by_name@;
        let ghost old_sigs = self.type_signatures@;
        let mut param_types: Vec<Type> = Vec::new();
        let mut i: usize = 0;
        while i < def.parameters.len()
            invariant
                i <= def.parameters.len(),
                types_view(param_types@) == strs_view(def.parameters@).take(i as int).map_values(
                    |p: Seq<char>| type_of_name(p),
                ),
            decreases def.parameters.len() - i,
        {
            let t = parse_type_string(def.parameters[i].as_str());
            proof {
                crate::analysis::types::lemma_types_view_push(param_types@, t);
                assert(strs_view(def.parameters@).take(i + 1).map_values(|p: Seq<char>| type_of_name(p))
                    =~= strs_view(def.parameters@).take(i as int).map_values(|p: Seq<char>| type_of_name(p)).push(t@));
            }
            param_types.push(t);
            i = i + 1;
        }
        assert(strs_view(def.parameters@).take(def.parameters.len() as int) =~= strs_view(def.parameters@));
        let return_type = match &def.return_type {
            Some(return_str) => {
                if str_eq(return_str.as_str(), "Void") {
                    Type::Void
                } else {
                    parse_type_string(return_str.as_str())
                }
            },
            None => Type::Void,
        };
        let mut effects: Vec<SideEffect> = Vec::new();
        let mut k: usize = 0;
        while k < def.effects.len()
            invariant
                k <= def.effects.len(),
                effects@ == strs_view(def.effects@).take(k as int).map_values(
                    |e: Seq<char>| effect_of_name(e),
                ),
            decreases def.effects.len() - k,
        {
            let e = parse_effect_string(def.effects[k].as_str());
            proof {
                assert(strs_view(def.effects@).take(k + 1).map_values(|e: Seq<char>| effect_of_name(e))
                    =~= strs_view(def.effects@).take(k as int).map_values(|e: Seq<char>| effect_of_name(e)).push(e));
            }
            effects.push(e);
            k = k + 1;
        }
        assert(strs_view(def.effects@).take(def.effects.len() as int) =~= strs_view(def.effects@));
        let signature = SyscallSignature {
            name: def.name.clone(),
            parameters: param_types,
            return_type,
            effects,
        };
        let hash = def.hash;
        let name = def.name.clone();
        let ghost dv = def@;
        self.syscalls_by_hash.push(def);
        self.syscalls_by_name.push((name, hash));
        self.type_signatures.push((hash, signature));
        proof {
            assert(self.syscalls_by_hash@.drop_last() =~= old_by_hash);
            assert(self.syscalls_by_name@.drop_last() =~= old_by_name);
            assert(self.type_signatures@.drop_last() =~= old_sigs);
            let sv = self.type_signatures@.last().1@;
            assert(signature_of(dv).parameters =~= sv.parameters);
            assert(signature_of(dv).effects =~= sv.effects);
            assert(signature_of(dv).name == sv.name);
            assert(signature_of(dv).return_type == sv.return_type);
            assert(signature_of(dv) == sv);
            let es = signature_entries(self.type_signatures@);
            assert(old_sigs == old(self).type_signatures@);
            assert(es.drop_last() == signature_entries(old_sigs));
            assert(es.last() == (dv.hash, sv));
            assert(assoc(es) == assoc(es.drop_last()).insert(dv.hash, sv));
            assert(assoc(es.drop_last()) == old(self)@.signatures);
            assert(self@.signatures =~= old(self)@.signatures.insert(dv.hash, signature_of(dv)));
            let eh = hash_entries(self.syscalls_by_hash@);
            assert(old_by_hash == old(self).syscalls_by_hash@);
            assert(eh.drop_last() == hash_entries(old_by_hash));
            assert(eh.last() == (dv.hash, dv));
            assert(assoc(eh) == assoc(eh.drop_last()).insert(dv.hash, dv));
            assert(self@.by_hash == old(self)@.by_hash.insert(dv.hash, dv));
            let en = name_entries(self.syscalls_by_name@);
            assert(old_by_name == old(self).syscalls_by_name@);
            assert(en.drop_last() == name_entries(old_by_name));
            assert(en.last() == (dv.name, dv.hash));
            assert(assoc(en) == assoc(en.drop_last()).insert(dv.name, dv.hash));
            assert(self@.by_name == old(self)@.by_name.insert(dv.name, dv.hash));
        }
        Ok(())
    }

    /// Index of the entry that decides the definition for `hash`, if any.
    fn find_by_hash(&self, hash: u32) -> (r: Option<usize>)
        ensures
            match r {
                Some(i) => i < self.syscalls_by_hash@.len() && self@.by_hash.contains_key(hash)
                    && self.syscalls_by_hash@[i as int]@ == self@.by_hash[hash]
                    && self.syscalls_by_hash@[i as int].hash == hash,
                None => !self@.by_hash.contains_key(hash),
            },
    {
        let ghost es = hash_entries(self.syscalls_by_hash@);
        let mut i = self.syscalls_by_hash.len();
        while i > 0
            invariant
                es == hash_entries(self.syscalls_by_hash@),
                i <= self.syscalls_by_hash@.len(),
                forall|j: int| i <= j < self.syscalls_by_hash@.len() ==> self.syscalls_by_hash@[j].hash != hash,
            decreases i,
        {
            i = i - 1;
            if self.syscalls_by_hash[i].hash == hash {
                proof {
                    lemma_assoc_found(es, i as int);
                }
                return Some(i);
            }
        }
        proof {
            lemma_assoc_absent(es, hash);
        }
        None
    }

    /// Look up a definition by hash.
    pub fn get_by_hash(&self, hash: u32) -> (r: Option<&SyscallDefinition>)
        ensures
            match r {
                Some(d) => self@.by_hash.contains_key(hash) && d@ == self@.by_hash[hash],
                None => !self@.by_hash.contains_key(hash),
            },
    {
        match self.find_by_hash(hash) {
            Some(i) => Some(&self.syscalls_by_hash[i]),
            None => None,
        }
    }

    /// Look up the hash registered for a name.
    fn find_hash_by_name(&self, name: &str) -> (r: Option<u32>)
        ensures
            match r {
                Some(h) => self@.by_name.contains_key(name@) && h == self@.by_name[name@],
                None => !self@.by_name.contains_key(name@),
            },
    {
        let ghost es = name_entries(self.syscalls_by_name@);
        let mut i = self.syscalls_by_name.len();
        while i > 0
            invariant
                es == name_entries(self.syscalls_by_name@),
                i <= self.syscalls_by_name@.len(),
                forall|j: int| i <= j < self.syscalls_by_name@.len() ==> self.syscalls_by_name@[j].0@ != name@,
            decreases i,
        {
            i = i - 1;
            if str_eq(self.syscalls_by_name[i].0.as_str(), name) {
                proof {
                    lemma_assoc_found(es, i as int);
                }
                return Some(self.syscalls_by_name[i].1);
            }
        }
        proof {
            lemma_assoc_absent(es, name@);
        }
        None
    }

    /// Look up a definition by name: the definition under the hash last
    /// registered for the name, when that definition still has the name (a
    /// later definition under the same hash with another name replaces it).
    pub fn get_by_name(&self, name: &str) -> (r: Option<&SyscallDefinition>)
        ensures
            match r {
                Some(d) => self@.by_name.contains_key(name@)
                    && self@.by_hash.contains_key(self@.by_name[name@])
                    && d@ == self@.by_hash[self@.by_name[name@]]
                    && d@.name == name@,
                None => !self@.by_name.contains_key(name@)
                    || !self@.by_hash.contains_key(self@.by_name[name@])
                    || self@.by_hash[self@.by_name[name@]].name != name@,
            },
    {
        match self.find_hash_by_name(name) {
            Some(h) => match self.get_by_hash(h) {
                Some(d) => {
                    if str_eq(d.name.as_str(), name) {
                        Some(d)
                    } else {
                        None
                    }
                },
                None => None,
            },
            None => None,
        }
    }

    /// Look up a compiled signature by hash.
    pub fn get_signature(&self, hash: u32) -> (r: Option<&SyscallSignature>)
        ensures
            match r {
                Some(sig) => self@.signatures.contains_key(hash) && sig@ == self@.signatures[hash],
                None => !self@.signatures.contains_key(hash),
            },
    {
        let ghost es = signature_entries(self.type_signatures@);
        let mut i = self.type_signatures.len();
        while i > 0
            invariant
                es == signature_entries(self.type_signatures@),
                i <= self.type_signatures@.len(),
                forall|j: int| i <= j < self.type_signatures@.len() ==> self.type_signatures@[j].0 != hash,
            decreases i,
        {
            i = i - 1;
            if self.type_signatures[i].0 == hash {
                proof {
                    lemma_assoc_found(es, i as int);
                }
                return Some(&self.type_signatures[i].1);
            }
        }
        proof {
            lemma_assoc_absent(es, hash);
        }
        None
    }

    /// Name of a syscall: its definition's name, or `syscall_` followed by eight hex digits.
    pub fn resolve_name(&self, hash: u32) -> (r: String)
        ensures
            r@ == resolved_name(self@, hash),
    {
        match self.get_by_hash(hash) {
            Some(def) => def.name.clone(),
            None => {
                let mut s = String::from_str("syscall_");
                push_hex8(&mut s, hash);
                s
            },
        }
    }

    /// Number of declared parameters, or 0 for an unknown syscall.
    pub fn get_arg_count(&self, hash: u32) -> (r: usize)
        ensures
            r == (if self@.by_hash.contains_key(hash) { self@.by_hash[hash].parameters.len() } else { 0 }),
    {
        match self.get_by_hash(hash) {
            Some(def) => def.parameters.len(),
            None => 0,
        }
    }

    /// Whether the syscall is known and returns something other than `Void`.
    pub fn returns_value(&self, hash: u32) -> (r: bool)
        ensures
            r == spec_returns_value(self@, hash),
    {
        match self.get_by_hash(hash) {
            Some(def) => match &def.return_type {
                Some(rt) => !str_eq(rt.as_str(), "Void"),
                None => false,
            },
            None => false,
        }
    }

    /// Effects of the syscall's signature, or none for an unknown syscall.
    pub fn get_effects(&self, hash: u32) -> (r: Vec<SideEffect>)
        ensures
            r@ == (if self@.signatures.contains_key(hash) { self@.signatures[hash].effects } else { Seq::empty() }),
    {
        match self.get_signature(hash) {
            Some(sig) => {
                let mut out: Vec<SideEffect> = Vec::new();
                let mut i: usize = 0;
                while i < sig.effects.len()
                    invariant
                        i <= sig.effects.len(),
                        out@ == sig.effects@.take(i as int),
                    decreases sig.effects.len() - i,
                {
                    out.push(sig.effects[i]);
                    i = i + 1;
                    assert(out@ =~= sig.effects@.take(i as int));
                }
                assert(sig.effects@.take(i as int) =~= sig.effects@);
                out
            },
            None => Vec::new(),
        }
    }

    /// Every known hash, once each.
    pub fn get_all_hashes(&self) -> (r: Vec<u32>)
        ensures
            r@.no_duplicates(),
            forall|h: u32| r@.contains(h) <==> self@.by_hash.contains_key(h),
    {
        let ghost es = hash_entries(self.syscalls_by_hash@);
        let mut out: Vec<u32> = Vec::new();
        let mut i: usize = 0;
        while i < self.syscalls_by_hash.len()
            invariant
                i <= self.syscalls_by_hash@.len(),
                out@.no_duplicates(),
                forall|h: u32| out@.contains(h) <==> exists|j: int| 0 <= j < i && self.syscalls_by_hash@[j].hash == h,
            decreases self.syscalls_by_hash.len() - i,
        {
            let h = self.syscalls_by_hash[i].hash;
            let ghost prev = out@;
            let mut seen = false;
            let mut k: usize = 0;
            while k < out.len()
                invariant
                    k <= out@.len(),
                    seen == exists|j: int| 0 <= j < k && out@[j] == h,
                decreases out.len() - k,
            {
                if out[k] == h {
                    seen = true;
                }
                k = k + 1;
            }
            if !seen {
                out.push(h);
            }
            proof {
                let sh = self.syscalls_by_hash@;
                if !seen {
                    assert(out@ =~= prev.push(h));
                } else {
                    assert(out@ == prev);
                }
                assert forall|g: u32| out@.contains(g) <==> exists|j: int| 0 <= j < i + 1 && sh[j].hash == g by {
                    if exists|j: int| 0 <= j < i + 1 && sh[j].hash == g {
                        let j = choose|j: int| 0 <= j < i + 1 && sh[j].hash == g;
                        if j < i {
                            assert(prev.contains(g));
                            let idx = choose|idx: int| 0 <= idx < prev.len() && prev[idx] == g;
                            assert(out@[idx] == g);
                        } else if seen {
                            let idx = choose|idx: int| 0 <= idx < prev.len() && prev[idx] == h;
                            assert(out@[idx] == g);
                        } else {
                            assert(out@[out@.len() - 1] == g);
                        }
                    }
                    if out@.contains(g) {
                        let idx = choose|idx: int| 0 <= idx < out@.len() && out@[idx] == g;
                        if !seen && idx == out@.len() - 1 {
                            assert(sh[i as int].hash == g);
                        } else {
                            assert(prev[idx] == g);
                            assert(prev.contains(g));
                        }
                    }
                }
            }
            i = i + 1;
        }
        proof {
            assert forall|h: u32| out@.contains(h) <==> self@.by_hash.contains_key(h) by {
                lemma_assoc_dom(es, h);
                if exists|j: int| 0 <= j < self.syscalls_by_hash@.len() && self.syscalls_by_hash@[j].hash == h {
                    let j = choose|j: int| 0 <= j < self.syscalls_by_hash@.len() && self.syscalls_by_hash@[j].hash == h;
                    assert(es[j].0 == h);
                }
                if exists|j: int| 0 <= j < es.len() && es[j].0 == h {
                    let j = choose|j: int| 0 <= j < es.len() && es[j].0 == h;
                    assert(self.syscalls_by_hash@[j].hash == h);
                }
            }
        }
        out
    }
}

} // verus!
