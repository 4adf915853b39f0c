//! Names of the interop services that `SYSCALL` invokes, by hash: the first
//! four bytes of the SHA-256 digest of the name, read little-endian.
use vstd::prelude::*;

verus! {

/// The name of the interop service with the given hash.
pub open spec fn interop_name(hash: u32) -> Option<Seq<char>> {
    match hash {
        0x525b7d62u32 => Some("System.Contract.Call"@),
        0x677bf71au32 => Some("System.Contract.CallNative"@),
        0x09e9336au32 => Some("System.Contract.CreateMultisigAccount"@),
        0x028799cfu32 => Some("System.Contract.CreateStandardAccount"@),
        0x813ada95u32 => Some("System.Contract.GetCallFlags"@),
        0x93bcdb2eu32 => Some("System.Contract.NativeOnPersist"@),
        0x165da144u32 => Some("System.Contract.NativePostPersist"@),
        0x3adcd09eu32 => Some("System.Crypto.CheckMultisig"@),
        0x27b3e756u32 => Some("System.Crypto.CheckSig"@),
        0x9ced089cu32 => Some("System.Iterator.Next"@),
        0x1dbf54f3u32 => Some("System.Iterator.Value"@),
        0xbc8c5ac3u32 => Some("System.Runtime.BurnGas"@),
        0x8cec27f8u32 => Some("System.Runtime.CheckWitness"@),
        0x8b18f1acu32 => Some("System.Runtime.CurrentSigners"@),
        0xced88814u32 => Some("System.Runtime.GasLeft"@),
        0xdc92494cu32 => Some("System.Runtime.GetAddressVersion"@),
        0x3c6e5339u32 => Some("System.Runtime.GetCallingScriptHash"@),
        0x38e2b4f9u32 => Some("System.Runtime.GetEntryScriptHash"@),
        0x74a8fedbu32 => Some("System.Runtime.GetExecutingScriptHash"@),
        0x43112784u32 => Some("System.Runtime.GetInvocationCounter"@),
        0xe0a0fbc5u32 => Some("System.Runtime.GetNetwork"@),
        0xf1354327u32 => Some("System.Runtime.GetNotifications"@),
        0x28a9de6bu32 => Some("System.Runtime.GetRandom"@),
        0x3008512du32 => Some("System.Runtime.GetScriptContainer"@),
        0x0388c3b7u32 => Some("System.Runtime.GetTime"@),
        0xa0387de9u32 => Some("System.Runtime.GetTrigger"@),
        0x8f800cb3u32 => Some("System.Runtime.LoadScript"@),
        0x9647e7cfu32 => Some("System.Runtime.Log"@),
        0x616f0195u32 => Some("System.Runtime.Notify"@),
        0xf6fc79b2u32 => Some("System.Runtime.Platform"@),
        0xe9bf4c76u32 => Some("System.Storage.AsReadOnly"@),
        0xedc5582fu32 => Some("System.Storage.Delete"@),
        0x9ab830dfu32 => Some("System.Storage.Find"@),
        0x31e85d92u32 => Some("System.Storage.Get"@),
        0xce67f69bu32 => Some("System.Storage.GetContext"@),
        0xe26bb4f6u32 => Some("System.Storage.GetReadOnlyContext"@),
        0x84183fe6u32 => Some("System.Storage.Put"@),
        0x94f55475u32 => Some("System.Storage.Local.Delete"@),
        0xf3527607u32 => Some("System.Storage.Local.Find"@),
        0xe85e8dd5u32 => Some("System.Storage.Local.Get"@),
        0x0ae30c39u32 => Some("System.Storage.Local.Put"@),
        _ => None,
    }
}

/// The name of the interop service with the given hash, if it is known.
pub fn lookup(hash: u32) -> (r: Option<&'static str>)
    ensures
        match r {
            Some(s) => interop_name(hash) == Some(s@),
            None => interop_name(hash).is_none(),
        },
{
    match hash {
        0x525b7d62u32 => Some("System.Contract.Call"),
        0x677bf71au32 => Some("System.Contract.CallNative"),
        0x09e9336au32 => Some("System.Contract.CreateMultisigAccount"),
        0x028799cfu32 => Some("System.Contract.CreateStandardAccount"),
        0x813ada95u32 => Some("System.Contract.GetCallFlags"),
        0x93bcdb2eu32 => Some("System.Contract.NativeOnPersist"),
        0x165da144u32 => Some("System.Contract.NativePostPersist"),
        0x3adcd09eu32 => Some("System.Crypto.CheckMultisig"),
        0x27b3e756u32 => Some("System.Crypto.CheckSig"),
        0x9ced089cu32 => Some("System.Iterator.Next"),
        0x1dbf54f3u32 => Some("System.Iterator.Value"),
        0xbc8c5ac3u32 => Some("System.Runtime.BurnGas"),
        0x8cec27f8u32 => Some("System.Runtime.CheckWitness"),
        0x8b18f1acu32 => Some("System.Runtime.CurrentSigners"),
        0xced88814u32 => Some("System.Runtime.GasLeft"),
        0xdc92494cu32 => Some("System.Runtime.GetAddressVersion"),
        0x3c6e5339u32 => Some("System.Runtime.GetCallingScriptHash"),
        0x38e2b4f9u32 => Some("System.Runtime.GetEntryScriptHash"),
        0x74a8fedbu32 => Some("System.Runtime.GetExecutingScriptHash"),
        0x43112784u32 => Some("System.Runtime.GetInvocationCounter"),
        0xe0a0fbc5u32 => Some("System.Runtime.GetNetwork"),
        0xf1354327u32 => Some("System.Runtime.GetNotifications"),
        0x28a9de6bu32 => Some("System.Runtime.GetRandom"),
        0x3008512du32 => Some("System.Runtime.GetScriptContainer"),
        0x0388c3b7u32 => Some("System.Runtime.GetTime"),
        0xa0387de9u32 => Some("System.Runtime.GetTrigger"),
        0x8f800cb3u32 => Some("System.Runtime.LoadScript"),
        0x9647e7cfu32 => Some("System.Runtime.Log"),
        0x616f0195u32 => Some("System.Runtime.Notify"),
        0xf6fc79b2u32 => Some("System.Runtime.Platform"),
        0xe9bf4c76u32 => Some("System.Storage.AsReadOnly"),
        0xedc5582fu32 => Some("System.Storage.Delete"),
        0x9ab830dfu32 => Some("System.Storage.Find"),
        0x31e85d92u32 => Some("System.Storage.Get"),
        0xce67f69bu32 => Some("System.Storage.GetContext"),
        0xe26bb4f6u32 => Some("System.Storage.GetReadOnlyContext"),
        0x84183fe6u32 => Some("System.Storage.Put"),
        0x94f55475u32 => Some("System.Storage.Local.Delete"),
        0xf3527607u32 => Some("System.Storage.Local.Find"),
        0xe85e8dd5u32 => Some("System.Storage.Local.Get"),
        0x0ae30c39u32 => Some("System.Storage.Local.Put"),
        _ => None,
    }
}


/// The arity of the interop service with the given hash: how many stack
/// items it takes and whether it leaves a result on the stack.
pub open spec fn interop_signature(hash: u32) -> Option<(u8, bool)> {
    match hash {
        0x525b7d62u32 => Some((4u8, true)),
        0x677bf71au32 => Some((1u8, false)),
        0x09e9336au32 => Some((2u8, true)),
        0x028799cfu32 => Some((1u8, true)),
        0x813ada95u32 => Some((0u8, true)),
        0x93bcdb2eu32 => Some((0u8, false)),
        0x165da144u32 => Some((0u8, false)),
        0x3adcd09eu32 => Some((2u8, true)),
        0x27b3e756u32 => Some((2u8, true)),
        0x9ced089cu32 => Some((1u8, true)),
        0x1dbf54f3u32 => Some((1u8, true)),
        0xbc8c5ac3u32 => Some((1u8, false)),
        0x8cec27f8u32 => Some((1u8, true)),
        0x8b18f1acu32 => Some((0u8, true)),
        0xced88814u32 => Some((0u8, true)),
        0xdc92494cu32 => Some((0u8, true)),
        0x3c6e5339u32 => Some((0u8, true)),
        0x38e2b4f9u32 => Some((0u8, true)),
        0x74a8fedbu32 => Some((0u8, true)),
        0x43112784u32 => Some((0u8, true)),
        0xe0a0fbc5u32 => Some((0u8, true)),
        0xf1354327u32 => Some((1u8, true)),
        0x28a9de6bu32 => Some((0u8, true)),
        0x3008512du32 => Some((0u8, true)),
        0x0388c3b7u32 => Some((0u8, true)),
        0xa0387de9u32 => Some((0u8, true)),
        0x8f800cb3u32 => Some((3u8, false)),
        0x9647e7cfu32 => Some((1u8, false)),
        0x616f0195u32 => Some((2u8, false)),
        0xf6fc79b2u32 => Some((0u8, true)),
        0xe9bf4c76u32 => Some((1u8, true)),
        0xedc5582fu32 => Some((2u8, false)),
        0x9ab830dfu32 => Some((3u8, true)),
        0x31e85d92u32 => Some((2u8, true)),
        0xce67f69bu32 => Some((0u8, true)),
        0xe26bb4f6u32 => Some((0u8, true)),
        0x84183fe6u32 => Some((3u8, false)),
        0x94f55475u32 => Some((1u8, false)),
        0xf3527607u32 => Some((2u8, true)),
        0xe85e8dd5u32 => Some((1u8, true)),
        0x0ae30c39u32 => Some((2u8, false)),
        _ => None,
    }
}

/// The arity of the interop service with the given hash, if it is known.
pub fn signature(hash: u32) -> (r: Option<(u8, bool)>)
    ensures
        r == interop_signature(hash),
{
    match hash {
        0x525b7d62u32 => Some((4u8, true)),
        0x677bf71au32 => Some((1u8, false)),
        0x09e9336au32 => Some((2u8, true)),
        0x028799cfu32 => Some((1u8, true)),
        0x813ada95u32 => Some((0u8, true)),
        0x93bcdb2eu32 => Some((0u8, false)),
        0x165da144u32 => Some((0u8, false)),
        0x3adcd09eu32 => Some((2u8, true)),
        0x27b3e756u32 => Some((2u8, true)),
        0x9ced089cu32 => Some((1u8, true)),
        0x1dbf54f3u32 => Some((1u8, true)),
        0xbc8c5ac3u32 => Some((1u8, false)),
        0x8cec27f8u32 => Some((1u8, true)),
        0x8b18f1acu32 => Some((0u8, true)),
        0xced88814u32 => Some((0u8, true)),
        0xdc92494cu32 => Some((0u8, true)),
        0x3c6e5339u32 => Some((0u8, true)),
        0x38e2b4f9u32 => Some((0u8, true)),
        0x74a8fedbu32 => Some((0u8, true)),
        0x43112784u32 => Some((0u8, true)),
        0xe0a0fbc5u32 => Some((0u8, true)),
        0xf1354327u32 => Some((1u8, true)),
        0x28a9de6bu32 => Some((0u8, true)),
        0x3008512du32 => Some((0u8, true)),
        0x0388c3b7u32 => Some((0u8, true)),
        0xa0387de9u32 => Some((0u8, true)),
        0x8f800cb3u32 => Some((3u8, false)),
        0x9647e7cfu32 => Some((1u8, false)),
        0x616f0195u32 => Some((2u8, false)),
        0xf6fc79b2u32 => Some((0u8, true)),
        0xe9bf4c76u32 => Some((1u8, true)),
        0xedc5582fu32 => Some((2u8, false)),
        0x9ab830dfu32 => Some((3u8, true)),
        0x31e85d92u32 => Some((2u8, true)),
        0xce67f69bu32 => Some((0u8, true)),
        0xe26bb4f6u32 => Some((0u8, true)),
        0x84183fe6u32 => Some((3u8, false)),
        0x94f55475u32 => Some((1u8, false)),
        0xf3527607u32 => Some((2u8, true)),
        0xe85e8dd5u32 => Some((1u8, true)),
        0x0ae30c39u32 => Some((2u8, false)),
        _ => None,
    }
}

} // verus!
