//! Native contracts by script hash, with their method names.
use vstd::prelude::*;

use crate::text::{lower_seq, to_lower_char};

verus! {

/// Number of native contracts in the table.
pub const NATIVE_COUNT: usize = 10;

/// The script hash of native contract `i`, little-endian as method tokens hold it.
pub open spec fn native_hash(i: int) -> Seq<u8> {
    if i == 0 {
        seq![0xFDu8, 0xA3u8, 0xFAu8, 0x43u8, 0x46u8, 0xEAu8, 0x53u8, 0x2Au8, 0x25u8, 0x8Fu8, 0xC4u8, 0x97u8, 0xDDu8, 0xADu8, 0xDBu8, 0x64u8, 0x37u8, 0xC9u8, 0xFDu8, 0xFFu8]
    } else if i == 1 {
        seq![0xC0u8, 0xEFu8, 0x39u8, 0xCEu8, 0xE0u8, 0xE4u8, 0xE9u8, 0x25u8, 0xC6u8, 0xC2u8, 0xA0u8, 0x6Au8, 0x79u8, 0xE1u8, 0x44u8, 0x0Du8, 0xD8u8, 0x6Fu8, 0xCEu8, 0xACu8]
    } else if i == 2 {
        seq![0x1Bu8, 0xF5u8, 0x75u8, 0xABu8, 0x11u8, 0x89u8, 0x68u8, 0x84u8, 0x13u8, 0x61u8, 0x0Au8, 0x35u8, 0xA1u8, 0x28u8, 0x86u8, 0xCDu8, 0xE0u8, 0xB6u8, 0x6Cu8, 0x72u8]
    } else if i == 3 {
        seq![0xBEu8, 0xF2u8, 0x04u8, 0x31u8, 0x40u8, 0x36u8, 0x2Au8, 0x77u8, 0xC1u8, 0x50u8, 0x99u8, 0xC7u8, 0xE6u8, 0x4Cu8, 0x12u8, 0xF7u8, 0x00u8, 0xB6u8, 0x65u8, 0xDAu8]
    } else if i == 4 {
        seq![0xF5u8, 0x63u8, 0xEAu8, 0x40u8, 0xBCu8, 0x28u8, 0x3Du8, 0x4Du8, 0x0Eu8, 0x05u8, 0xC4u8, 0x8Eu8, 0xA3u8, 0x05u8, 0xB3u8, 0xF2u8, 0xA0u8, 0x73u8, 0x40u8, 0xEFu8]
    } else if i == 5 {
        seq![0xCFu8, 0x76u8, 0xE2u8, 0x8Bu8, 0xD0u8, 0x06u8, 0x2Cu8, 0x4Au8, 0x47u8, 0x8Eu8, 0xE3u8, 0x55u8, 0x61u8, 0x01u8, 0x13u8, 0x19u8, 0xF3u8, 0xCFu8, 0xA4u8, 0xD2u8]
    } else if i == 6 {
        seq![0x7Bu8, 0xC6u8, 0x81u8, 0xC0u8, 0xA1u8, 0xF7u8, 0x1Du8, 0x54u8, 0x34u8, 0x57u8, 0xB6u8, 0x8Bu8, 0xBAu8, 0x8Du8, 0x5Fu8, 0x9Fu8, 0xDDu8, 0x4Eu8, 0x5Eu8, 0xCCu8]
    } else if i == 7 {
        seq![0xE2u8, 0x95u8, 0xE3u8, 0x91u8, 0x54u8, 0x4Cu8, 0x17u8, 0x8Au8, 0xD9u8, 0x4Fu8, 0x03u8, 0xECu8, 0x4Du8, 0xCDu8, 0xFFu8, 0x78u8, 0x53u8, 0x4Eu8, 0xCFu8, 0x49u8]
    } else if i == 8 {
        seq![0x58u8, 0x87u8, 0x17u8, 0x11u8, 0x7Eu8, 0x0Au8, 0xA8u8, 0x10u8, 0x72u8, 0xAFu8, 0xABu8, 0x71u8, 0xD2u8, 0xDDu8, 0x89u8, 0xFEu8, 0x7Cu8, 0x4Bu8, 0x92u8, 0xFEu8]
    } else if i == 9 {
        seq![0x3Bu8, 0xECu8, 0x35u8, 0x31u8, 0x11u8, 0x9Bu8, 0xBAu8, 0xD7u8, 0x6Du8, 0xD0u8, 0x44u8, 0x92u8, 0x0Bu8, 0x0Du8, 0xE6u8, 0xC3u8, 0x19u8, 0x4Fu8, 0xE1u8, 0xC1u8]
    } else {
        Seq::empty()
    }
}

/// The name of native contract `i`.
pub open spec fn native_name(i: int) -> Seq<char> {
    if i == 0 {
        "ContractManagement"@
    } else if i == 1 {
        "StdLib"@
    } else if i == 2 {
        "CryptoLib"@
    } else if i == 3 {
        "LedgerContract"@
    } else if i == 4 {
        "NeoToken"@
    } else if i == 5 {
        "GasToken"@
    } else if i == 6 {
        "PolicyContract"@
    } else if i == 7 {
        "RoleManagement"@
    } else if i == 8 {
        "OracleContract"@
    } else if i == 9 {
        "Notary"@
    } else {
        Seq::empty()
    }
}

/// The method names of native contract `i`.
pub open spec fn native_methods(i: int) -> Seq<Seq<char>> {
    if i == 0 {
        seq!["Deploy"@, "Destroy"@, "Update"@, "GetContract"@, "GetContractById"@, "GetContractHashes"@, "HasMethod"@, "IsContract"@, "GetMinimumDeploymentFee"@, "SetMinimumDeploymentFee"@]
    } else if i == 1 {
        seq!["Atoi"@, "Itoa"@, "Base58CheckDecode"@, "Base58CheckEncode"@, "Base58Decode"@, "Base58Encode"@, "Base64Decode"@, "Base64Encode"@, "Base64UrlDecode"@, "Base64UrlEncode"@, "Deserialize"@, "Serialize"@, "HexDecode"@, "HexEncode"@, "JsonDeserialize"@, "JsonSerialize"@, "MemoryCompare"@, "MemorySearch"@, "StringSplit"@, "StrLen"@]
    } else if i == 2 {
        seq!["Sha256"@, "Ripemd160"@, "Murmur32"@, "Keccak256"@, "VerifyWithECDsa"@, "VerifyWithEd25519"@, "Bls12381Add"@, "Bls12381Deserialize"@, "Bls12381Equal"@, "Bls12381Mul"@, "Bls12381Pairing"@, "Bls12381Serialize"@, "RecoverSecp256K1"@]
    } else if i == 3 {
        seq!["CurrentHash"@, "CurrentIndex"@, "GetBlock"@, "GetTransaction"@, "GetTransactionFromBlock"@, "GetTransactionHeight"@, "GetTransactionSigners"@, "GetTransactionVMState"@]
    } else if i == 4 {
        seq!["Symbol"@, "Decimals"@, "TotalSupply"@, "BalanceOf"@, "Transfer"@, "UnclaimedGas"@, "RegisterCandidate"@, "UnregisterCandidate"@, "Vote"@, "GetCandidates"@, "GetAllCandidates"@, "GetCandidateVote"@, "GetCommittee"@, "GetCommitteeAddress"@, "GetNextBlockValidators"@, "GetGasPerBlock"@, "SetGasPerBlock"@, "GetRegisterPrice"@, "SetRegisterPrice"@, "GetAccountState"@]
    } else if i == 5 {
        seq!["Symbol"@, "Decimals"@, "TotalSupply"@, "BalanceOf"@, "Transfer"@]
    } else if i == 6 {
        seq!["GetFeePerByte"@, "SetFeePerByte"@, "GetExecFeeFactor"@, "SetExecFeeFactor"@, "GetStoragePrice"@, "SetStoragePrice"@, "IsBlocked"@, "BlockAccount"@, "UnblockAccount"@, "GetAttributeFee"@, "SetAttributeFee"@]
    } else if i == 7 {
        seq!["GetDesignatedByRole"@, "DesignateAsRole"@]
    } else if i == 8 {
        seq!["Request"@, "GetPrice"@, "SetPrice"@, "Finish"@, "Verify"@]
    } else if i == 9 {
        seq!["BalanceOf"@, "ExpirationOf"@, "LockDepositUntil"@, "Withdraw"@, "GetMaxNotValidBeforeDelta"@, "SetMaxNotValidBeforeDelta"@, "Verify"@, "OnNEP17Payment"@]
    } else {
        Seq::empty()
    }
}

/// The first native contract at or after `i` with the given hash.
pub open spec fn find_native(hash: Seq<u8>, i: int) -> Option<int>
    decreases NATIVE_COUNT - i,
{
    if i < 0 || i >= NATIVE_COUNT {
        None
    } else if native_hash(i) == hash {
        Some(i)
    } else {
        find_native(hash, i + 1)
    }
}

/// The native contract with the given hash.
pub open spec fn native_index(hash: Seq<u8>) -> Option<int> {
    find_native(hash, 0)
}

/// The first name of `ms` equal to `m` ignoring ASCII case.
pub open spec fn first_match(ms: Seq<Seq<char>>, m: Seq<char>) -> Option<Seq<char>>
    decreases ms.len(),
{
    if ms.len() == 0 {
        None
    } else if lower_seq(ms[0]) == lower_seq(m) {
        Some(ms[0])
    } else {
        first_match(ms.drop_first(), m)
    }
}

fn hash_bytes(i: usize) -> (r: [u8; 20])
    requires
        i < NATIVE_COUNT,
    ensures
        r@ == native_hash(i as int),
{
    let r = match i {
        0 => [0xFDu8, 0xA3u8, 0xFAu8, 0x43u8, 0x46u8, 0xEAu8, 0x53u8, 0x2Au8, 0x25u8, 0x8Fu8, 0xC4u8, 0x97u8, 0xDDu8, 0xADu8, 0xDBu8, 0x64u8, 0x37u8, 0xC9u8, 0xFDu8, 0xFFu8],
        1 => [0xC0u8, 0xEFu8, 0x39u8, 0xCEu8, 0xE0u8, 0xE4u8, 0xE9u8, 0x25u8, 0xC6u8, 0xC2u8, 0xA0u8, 0x6Au8, 0x79u8, 0xE1u8, 0x44u8, 0x0Du8, 0xD8u8, 0x6Fu8, 0xCEu8, 0xACu8],
        2 => [0x1Bu8, 0xF5u8, 0x75u8, 0xABu8, 0x11u8, 0x89u8, 0x68u8, 0x84u8, 0x13u8, 0x61u8, 0x0Au8, 0x35u8, 0xA1u8, 0x28u8, 0x86u8, 0xCDu8, 0xE0u8, 0xB6u8, 0x6Cu8, 0x72u8],
        3 => [0xBEu8, 0xF2u8, 0x04u8, 0x31u8, 0x40u8, 0x36u8, 0x2Au8, 0x77u8, 0xC1u8, 0x50u8, 0x99u8, 0xC7u8, 0xE6u8, 0x4Cu8, 0x12u8, 0xF7u8, 0x00u8, 0xB6u8, 0x65u8, 0xDAu8],
        4 => [0xF5u8, 0x63u8, 0xEAu8, 0x40u8, 0xBCu8, 0x28u8, 0x3Du8, 0x4Du8, 0x0Eu8, 0x05u8, 0xC4u8, 0x8Eu8, 0xA3u8, 0x05u8, 0xB3u8, 0xF2u8, 0xA0u8, 0x73u8, 0x40u8, 0xEFu8],
        5 => [0xCFu8, 0x76u8, 0xE2u8, 0x8Bu8, 0xD0u8, 0x06u8, 0x2Cu8, 0x4Au8, 0x47u8, 0x8Eu8, 0xE3u8, 0x55u8, 0x61u8, 0x01u8, 0x13u8, 0x19u8, 0xF3u8, 0xCFu8, 0xA4u8, 0xD2u8],
        6 => [0x7Bu8, 0xC6u8, 0x81u8, 0xC0u8, 0xA1u8, 0xF7u8, 0x1Du8, 0x54u8, 0x34u8, 0x57u8, 0xB6u8, 0x8Bu8, 0xBAu8, 0x8Du8, 0x5Fu8, 0x9Fu8, 0xDDu8, 0x4Eu8, 0x5Eu8, 0xCCu8],
        7 => [0xE2u8, 0x95u8, 0xE3u8, 0x91u8, 0x54u8, 0x4Cu8, 0x17u8, 0x8Au8, 0xD9u8, 0x4Fu8, 0x03u8, 0xECu8, 0x4Du8, 0xCDu8, 0xFFu8, 0x78u8, 0x53u8, 0x4Eu8, 0xCFu8, 0x49u8],
        8 => [0x58u8, 0x87u8, 0x17u8, 0x11u8, 0x7Eu8, 0x0Au8, 0xA8u8, 0x10u8, 0x72u8, 0xAFu8, 0xABu8, 0x71u8, 0xD2u8, 0xDDu8, 0x89u8, 0xFEu8, 0x7Cu8, 0x4Bu8, 0x92u8, 0xFEu8],
        9 => [0x3Bu8, 0xECu8, 0x35u8, 0x31u8, 0x11u8, 0x9Bu8, 0xBAu8, 0xD7u8, 0x6Du8, 0xD0u8, 0x44u8, 0x92u8, 0x0Bu8, 0x0Du8, 0xE6u8, 0xC3u8, 0x19u8, 0x4Fu8, 0xE1u8, 0xC1u8],
        _ => [0u8; 20],
    };
    assert(r@ =~= native_hash(i as int));
    r
}

fn contract_name(i: usize) -> (r: &'static str)
    requires
        i < NATIVE_COUNT,
    ensures
        r@ == native_name(i as int),
{
    match i {
        0 => "ContractManagement",
        1 => "StdLib",
        2 => "CryptoLib",
        3 => "LedgerContract",
        4 => "NeoToken",
        5 => "GasToken",
        6 => "PolicyContract",
        7 => "RoleManagement",
        8 => "OracleContract",
        9 => "Notary",
        _ => "",
    }
}

fn method_names(i: usize) -> (r: Vec<&'static str>)
    requires
        i < NATIVE_COUNT,
    ensures
        r@.len() == native_methods(i as int).len(),
        forall|k: int| 0 <= k < r@.len() ==> (#[trigger] r@[k])@ == native_methods(i as int)[k],
{
    let r = match i {
        0 => vec!["Deploy", "Destroy", "Update", "GetContract", "GetContractById", "GetContractHashes", "HasMethod", "IsContract", "GetMinimumDeploymentFee", "SetMinimumDeploymentFee"],
        1 => vec!["Atoi", "Itoa", "Base58CheckDecode", "Base58CheckEncode", "Base58Decode", "Base58Encode", "Base64Decode", "Base64Encode", "Base64UrlDecode", "Base64UrlEncode", "Deserialize", "Serialize", "HexDecode", "HexEncode", "JsonDeserialize", "JsonSerialize", "MemoryCompare", "MemorySearch", "StringSplit", "StrLen"],
        2 => vec!["Sha256", "Ripemd160", "Murmur32", "Keccak256", "VerifyWithECDsa", "VerifyWithEd25519", "Bls12381Add", "Bls12381Deserialize", "Bls12381Equal", "Bls12381Mul", "Bls12381Pairing", "Bls12381Serialize", "RecoverSecp256K1"],
        3 => vec!["CurrentHash", "CurrentIndex", "GetBlock", "GetTransaction", "GetTransactionFromBlock", "GetTransactionHeight", "GetTransactionSigners", "GetTransactionVMState"],
        4 => vec!["Symbol", "Decimals", "TotalSupply", "BalanceOf", "Transfer", "UnclaimedGas", "RegisterCandidate", "UnregisterCandidate", "Vote", "GetCandidates", "GetAllCandidates", "GetCandidateVote", "GetCommittee", "GetCommitteeAddress", "GetNextBlockValidators", "GetGasPerBlock", "SetGasPerBlock", "GetRegisterPrice", "SetRegisterPrice", "GetAccountState"],
        5 => vec!["Symbol", "Decimals", "TotalSupply", "BalanceOf", "Transfer"],
        6 => vec!["GetFeePerByte", "SetFeePerByte", "GetExecFeeFactor", "SetExecFeeFactor", "GetStoragePrice", "SetStoragePrice", "IsBlocked", "BlockAccount", "UnblockAccount", "GetAttributeFee", "SetAttributeFee"],
        7 => vec!["GetDesignatedByRole", "DesignateAsRole"],
        8 => vec!["Request", "GetPrice", "SetPrice", "Finish", "Verify"],
        9 => vec!["BalanceOf", "ExpirationOf", "LockDepositUntil", "Withdraw", "GetMaxNotValidBeforeDelta", "SetMaxNotValidBeforeDelta", "Verify", "OnNEP17Payment"],
        _ => Vec::new(),
    };
    r
}

/// Whether two strings are equal ignoring ASCII case.
pub fn eq_ignore_ascii_case(a: &str, b: &str) -> (r: bool)
    ensures
        r == (lower_seq(a@) == lower_seq(b@)),
{
    let n = a.unicode_len();
    if n != b.unicode_len() {
        proof {
            assert(lower_seq(a@).len() != lower_seq(b@).len());
        }
        return false;
    }
    let mut i: usize = 0;
    while i < n
        invariant
            n == a@.len(),
            n == b@.len(),
            i <= n,
            forall|j: int| 0 <= j < i ==> lower_seq(a@)[j] == lower_seq(b@)[j],
        decreases n - i,
    {
        if to_lower_char(a.get_char(i)) != to_lower_char(b.get_char(i)) {
            proof {
                assert(lower_seq(a@)[i as int] != lower_seq(b@)[i as int]);
            }
            return false;
        }
        i = i + 1;
    }
    assert(lower_seq(a@) =~= lower_seq(b@));
    true
}

/// What a method token says about a native contract call.
#[derive(Debug, Clone, Copy)]
pub struct NativeMethodHint {
    /// Name of the native contract.
    pub contract: &'static str,
    /// The contract's own spelling of the called method, when it has one.
    pub canonical_method: Option<&'static str>,
}

/// The native contract a token's hash names, with the contract's own spelling
/// of the method when it has a method of that name ignoring ASCII case.
pub fn describe_method_token(hash: &[u8; 20], method: &str) -> (r: Option<NativeMethodHint>)
    ensures
        match native_index(hash@) {
            None => r.is_none(),
            Some(i) => r matches Some(h) && h.contract@ == native_name(i) && match first_match(native_methods(i), method@) {
                Some(m) => h.canonical_method matches Some(c) && c@ == m,
                None => h.canonical_method.is_none(),
            },
        },
{
    let mut i: usize = 0;
    while i < NATIVE_COUNT
        invariant
            i <= NATIVE_COUNT,
            native_index(hash@) == find_native(hash@, i as int),
        decreases NATIVE_COUNT - i,
    {
        let h = hash_bytes(i);
        let mut same = true;
        let mut k: usize = 0;
        while k < 20
            invariant
                k <= 20,
                h@.len() == 20,
                hash@.len() == 20,
                same == forall|j: int| 0 <= j < k ==> h@[j] == hash@[j],
            decreases 20 - k,
        {
            if h[k] != hash[k] {
                same = false;
            }
            k = k + 1;
        }
        if same {
            proof {
                assert(h@ =~= hash@);
                assert(find_native(hash@, i as int) == Some(i as int));
            }
            let methods = method_names(i);
            let mut m: usize = 0;
            let ghost ms = native_methods(i as int);
            proof {
                assert(ms.skip(0) =~= ms);
            }
            while m < methods.len()
                invariant
                    i < NATIVE_COUNT,
                    native_index(hash@) == Some(i as int),
                    ms == native_methods(i as int),
                    m <= methods@.len(),
                    methods@.len() == ms.len(),
                    forall|q: int| 0 <= q < methods@.len() ==> (#[trigger] methods@[q])@ == ms[q],
                    first_match(ms, method@) == first_match(ms.skip(m as int), method@),
                decreases methods.len() - m,
            {
                proof {
                    assert(ms.skip(m as int).drop_first() =~= ms.skip(m + 1));
                    assert(ms.skip(m as int)[0] == ms[m as int]);
                }
                if eq_ignore_ascii_case(methods[m], method) {
                    proof {
                        assert(first_match(ms.skip(m as int), method@) == Some(ms[m as int]));
                    }
                    return Some(NativeMethodHint { contract: contract_name(i), canonical_method: Some(methods[m]) });
                }
                m = m + 1;
            }
            proof {
                assert(ms.skip(m as int) =~= Seq::<Seq<char>>::empty());
            }
            return Some(NativeMethodHint { contract: contract_name(i), canonical_method: None });
        } else {
            proof {
                if h@ == hash@ {
                    assert(false);
                }
            }
        }
        i = i + 1;
    }
    None
}

impl NativeMethodHint {
    /// Whether the contract has the called method.
    pub fn has_exact_method(&self) -> (r: bool)
        ensures
            r == self.canonical_method.is_some(),
    {
        self.canonical_method.is_some()
    }

    /// `Contract::Method`, with the contract's spelling of the method when it
    /// has one, else the method as called.
    pub fn formatted_label(&self, method: &str) -> (r: String)
        ensures
            r@ == self.contract@ + "::"@ + match self.canonical_method {
                Some(c) => c@,
                None => method@,
            },
    {
        let mut s = String::from_str(self.contract);
        s.append("::");
        match self.canonical_method {
            Some(c) => s.append(c),
            None => s.append(method),
        }
        s
    }
}

} // verus!
