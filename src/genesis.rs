//! The parameters of the contracts deployed at genesis under a fixed salt.
use vstd::prelude::*;
use sha3::Digest;
use crate::ledger::InitalContract;

verus! {

/// What Keccak-256 yields for a byte string.
pub uninterp spec fn keccak256_of(data: Seq<u8>) -> Seq<u8>;

/// Relies on `sha3::Keccak256::digest`: a 32-byte digest that depends on the input alone.
#[verifier::external_body]
pub(crate) fn keccak256(data: &Vec<u8>) -> (r: Vec<u8>)
    ensures
        r@ == keccak256_of(data@),
        r@.len() == 32,
{
    sha3::Keccak256::digest(data.as_slice()).to_vec()
}

/// The value of one hex digit, either case.
pub open spec fn hex_val(c: u8) -> Option<u8> {
    if 48 <= c <= 57 {
        Some((c - 48) as u8)
    } else if 97 <= c <= 102 {
        Some((c - 87) as u8)
    } else if 65 <= c <= 70 {
        Some((c - 55) as u8)
    } else {
        None
    }
}

/// The bytes that pairs of hex digits stand for; `None` for an odd length or a
/// character that is no hex digit.
pub open spec fn hex_decoded(s: Seq<u8>) -> Option<Seq<u8>>
    decreases s.len(),
{
    if s.len() % 2 != 0 {
        None
    } else if s.len() == 0 {
        Some(Seq::empty())
    } else {
        match (hex_decoded(s.take(s.len() - 2)), hex_val(s[s.len() - 2]), hex_val(s[s.len() - 1])) {
            (Some(p), Some(hi), Some(lo)) => Some(p.push((hi * 16 + lo) as u8)),
            _ => None,
        }
    }
}

/// Relies on `hex::decode`: an error exactly for an odd length or a non-hex
/// character, else one byte per pair of digits, either case.
#[verifier::external_body]
fn hex_decode(s: &Vec<u8>) -> (r: Option<Vec<u8>>)
    ensures
        r is None <==> hex_decoded(s@) is None,
        r matches Some(b) ==> hex_decoded(s@) == Some(b@),
{
    hex::decode(s).ok()
}

/// ASCII whitespace: space, tab, line feed, vertical tab, form feed, carriage return.
pub open spec fn is_space(c: u8) -> bool {
    c == 32 || (9 <= c <= 13)
}

pub open spec fn trim_front(s: Seq<u8>) -> Seq<u8>
    decreases s.len(),
{
    if s.len() > 0 && is_space(s[0]) {
        trim_front(s.drop_first())
    } else {
        s
    }
}

pub open spec fn trim_back(s: Seq<u8>) -> Seq<u8>
    decreases s.len(),
{
    if s.len() > 0 && is_space(s.last()) {
        trim_back(s.drop_last())
    } else {
        s
    }
}

/// `s` without whitespace at either end.
pub open spec fn trimmed(s: Seq<u8>) -> Seq<u8> {
    trim_back(trim_front(s))
}

proof fn lemma_trim_front(s: Seq<u8>, a: int)
    requires
        0 <= a <= s.len(),
        forall|i: int| 0 <= i < a ==> is_space(s[i]),
        a < s.len() ==> !is_space(s[a]),
    ensures
        trim_front(s) == s.subrange(a, s.len() as int),
    decreases a,
{
    if a > 0 {
        assert forall|i: int| 0 <= i < a - 1 implies is_space(s.drop_first()[i]) by {
            assert(s.drop_first()[i] == s[i + 1]);
        }
        lemma_trim_front(s.drop_first(), a - 1);
        assert(s.drop_first().subrange(a - 1, s.len() - 1) =~= s.subrange(a, s.len() as int));
    } else {
        assert(s.subrange(0, s.len() as int) =~= s);
    }
}

proof fn lemma_trim_back(s: Seq<u8>, b: int)
    requires
        0 <= b <= s.len(),
        forall|i: int| b <= i < s.len() ==> is_space(s[i]),
        b > 0 ==> !is_space(s[b - 1]),
    ensures
        trim_back(s) == s.subrange(0, b),
    decreases s.len() - b,
{
    if b < s.len() {
        lemma_trim_back(s.drop_last(), b);
        assert(s.drop_last().subrange(0, b) =~= s.subrange(0, b));
    } else {
        assert(s.subrange(0, b) =~= s);
    }
}

/// `s` without ASCII whitespace at either end.
pub fn trim_ascii(s: &Vec<u8>) -> (r: Vec<u8>)
    ensures
        r@ == trimmed(s@),
{
    let n = s.len();
    let mut a: usize = 0;
    while a < n && (s[a] == 32 || (9 <= s[a] && s[a] <= 13))
        invariant
            n == s@.len(),
            a <= n,
            forall|i: int| 0 <= i < a ==> is_space(s@[i]),
        decreases n - a,
    {
        a += 1;
    }
    let mut b: usize = n;
    while b > a && (s[b - 1] == 32 || (9 <= s[b - 1] && s[b - 1] <= 13))
        invariant
            n == s@.len(),
            a <= b <= n,
            forall|i: int| b <= i < n ==> is_space(s@[i]),
        decreases b - a,
    {
        b -= 1;
    }
    proof {
        lemma_trim_front(s@, a as int);
        let f = s@.subrange(a as int, n as int);
        assert forall|i: int| (b - a) <= i < f.len() implies is_space(f[i]) by {
            assert(f[i] == s@[i + a]);
        }
        if b > a {
            assert(f[b - a - 1] == s@[b - 1]);
        }
        lemma_trim_back(f, (b - a) as int);
        assert(f.subrange(0, (b - a) as int) =~= s@.subrange(a as int, b as int));
    }
    let mut r: Vec<u8> = Vec::new();
    let mut k: usize = a;
    while k < b
        invariant
            a <= k <= b,
            b <= s@.len(),
            r@ == s@.subrange(a as int, k as int),
        decreases b - k,
    {
        r.push(s[k]);
        k += 1;
        assert(r@ =~= s@.subrange(a as int, k as int));
    }
    r
}

/// What the EVM is asked to deploy at genesis: code, caller, salt and code hash.
pub struct Create2Params {
    pub caller: Vec<u8>,
    pub salt: Vec<u8>,
    pub code_hash: Vec<u8>,
    pub bytecode: Vec<u8>,
}

/// Why a genesis contract could not be prepared.
#[derive(Clone, Copy, Debug, PartialEq, Eq, Structural)]
pub enum GenesisError {
    /// The bytecode text lacks its two-character prefix.
    ShortBytecode,
    /// The bytecode text is not hex after its prefix.
    InvalidHex,
}

/// The bytecode: the hex text after its two-character prefix, trimmed.
pub open spec fn code_of(text: Seq<u8>) -> Option<Seq<u8>> {
    hex_decoded(trimmed(text.subrange(2, text.len() as int)))
}

/// Decodes the contract's bytecode (hex after a two-character prefix such as
/// `0x`, surrounding whitespace ignored) and hashes salt and code with
/// Keccak-256, as a salted deployment needs them.
pub fn create2_params(contract: &InitalContract) -> (r: Result<Create2Params, GenesisError>)
    ensures
        contract.bytecode@.len() < 2 <==> r == Err::<Create2Params, GenesisError>(GenesisError::ShortBytecode),
        contract.bytecode@.len() >= 2 && code_of(contract.bytecode@) is None
            <==> r == Err::<Create2Params, GenesisError>(GenesisError::InvalidHex),
        r matches Ok(p) ==> code_of(contract.bytecode@) == Some(p.bytecode@)
            && p.caller@ == contract.from@
            && p.salt@ == keccak256_of(contract.salt@)
            && p.code_hash@ == keccak256_of(p.bytecode@),
{
    if contract.bytecode.len() < 2 {
        return Err(GenesisError::ShortBytecode);
    }
    let mut text: Vec<u8> = Vec::new();
    let mut i: usize = 2;
    while i < contract.bytecode.len()
        invariant
            2 <= i <= contract.bytecode@.len(),
            text@ == contract.bytecode@.subrange(2, i as int),
        decreases contract.bytecode.len() - i,
    {
        text.push(contract.bytecode[i]);
        i += 1;
        assert(text@ =~= contract.bytecode@.subrange(2, i as int));
    }
    let code_text = trim_ascii(&text);
    let bytecode = match hex_decode(&code_text) {
        Some(b) => b,
        None => {
            return Err(GenesisError::InvalidHex);
        },
    };
    let salt = keccak256(&contract.salt);
    let code_hash = keccak256(&bytecode);
    Ok(Create2Params { caller: crate::bytes::copy_bytes(&contract.from), salt, code_hash, bytecode })
}

} // verus!
