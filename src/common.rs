//! Hashing, address and hash formats, and block-number resolution.
use vstd::prelude::*;
use sha3::Digest;

verus! {

/// What SHA3-256 yields for a byte string.
pub uninterp spec fn sha3_256_of(data: Seq<u8>) -> Seq<u8>;

/// Relies on `sha3::Sha3_256::digest`: a 32-byte digest that depends on the input alone.
#[verifier::external_body]
pub(crate) fn sha3_256(data: &Vec<u8>) -> (r: Vec<u8>)
    ensures
        r@ == sha3_256_of(data@),
        r@.len() == 32,
{
    sha3::Sha3_256::digest(data.as_slice()).to_vec()
}

/// The pieces one after the other.
pub open spec fn concat_all(parts: Seq<Seq<u8>>) -> Seq<u8>
    decreases parts.len(),
{
    if parts.len() == 0 {
        Seq::empty()
    } else {
        concat_all(parts.drop_last()) + parts.last()
    }
}

pub open spec fn views_of(parts: Seq<Vec<u8>>) -> Seq<Seq<u8>> {
    parts.map_values(|p: Vec<u8>| p@)
}

/// The SHA3-256 digest of the pieces fed one after the other.
pub fn hash_sha3_256(contents: &Vec<Vec<u8>>) -> (r: Vec<u8>)
    ensures
        r@ == sha3_256_of(concat_all(views_of(contents@))),
        r@.len() == 32,
{
    let mut all: Vec<u8> = Vec::new();
    let mut i: usize = 0;
    while i < contents.len()
        invariant
            i <= contents@.len(),
            all@ == concat_all(views_of(contents@).take(i as int)),
        decreases contents.len() - i,
    {
        assert(views_of(contents@).take(i + 1).drop_last() =~= views_of(contents@).take(i as int));
        all = crate::bytes::concat_bytes(&all, &contents[i]);
        i += 1;
    }
    assert(views_of(contents@).take(contents@.len() as int) =~= views_of(contents@));
    sha3_256(&all)
}

/// `s` brought to exactly `n` bytes: its first `n` bytes, or zeros in front of it.
pub open spec fn fit_bytes(s: Seq<u8>, n: nat) -> Seq<u8> {
    if s.len() >= n {
        s.take(n as int)
    } else {
        Seq::new((n - s.len()) as nat, |i: int| 0u8) + s
    }
}

fn fit(s: &Vec<u8>, n: usize) -> (r: Vec<u8>)
    ensures
        r@ == fit_bytes(s@, n as nat),
{
    let mut r: Vec<u8> = Vec::new();
    if s.len() >= n {
        let mut i: usize = 0;
        while i < n
            invariant
                s@.len() >= n,
                i <= n,
                r@ == s@.take(i as int),
            decreases n - i,
        {
            r.push(s[i]);
            i += 1;
            assert(r@ =~= s@.take(i as int));
        }
    } else {
        let pad = n - s.len();
        let mut i: usize = 0;
        while i < pad
            invariant
                i <= pad,
                r@ == Seq::new(i as nat, |k: int| 0u8),
            decreases pad - i,
        {
            r.push(0u8);
            i += 1;
            assert(r@ =~= Seq::new(i as nat, |k: int| 0u8));
        }
        r = crate::bytes::concat_bytes(&r, s);
    }
    r
}

/// A consensus proposer address as a 20-byte EVM coinbase address.
pub fn tm_proposer_to_evm_format(addr: &Vec<u8>) -> (r: Vec<u8>)
    ensures
        r@ == fit_bytes(addr@, 20),
        r@.len() == 20,
{
    fit(addr, 20)
}

/// A block hash in the 32-byte form that the EVM reads.
pub fn block_hash_to_evm_format(hash: &Vec<u8>) -> (r: Vec<u8>)
    ensures
        r@ == fit_bytes(hash@, 32),
        r@.len() == 32,
{
    fit(hash, 32)
}

/// A block selector of the Web3 interface.
pub enum BlockNumber {
    Hash(Vec<u8>),
    Num(u64),
    Latest,
    Earliest,
    Pending,
}

impl BlockNumber {
    pub fn copy(&self) -> (r: BlockNumber)
        ensures
            forall|hashes: Seq<Seq<u8>>| height_of(Some(r), hashes) == height_of(Some(*self), hashes),
    {
        match self {
            BlockNumber::Hash(h) => BlockNumber::Hash(crate::bytes::copy_bytes(h)),
            BlockNumber::Num(n) => BlockNumber::Num(*n),
            BlockNumber::Latest => BlockNumber::Latest,
            BlockNumber::Earliest => BlockNumber::Earliest,
            BlockNumber::Pending => BlockNumber::Pending,
        }
    }
}

/// The index of the first element of `s` equal to `x`, or -1.
pub open spec fn first_index(s: Seq<Seq<u8>>, x: Seq<u8>) -> int
    decreases s.len(),
{
    if s.len() == 0 {
        -1
    } else if first_index(s.drop_last(), x) >= 0 {
        first_index(s.drop_last(), x)
    } else if s.last() == x {
        s.len() - 1
    } else {
        -1
    }
}

/// The height that a selector names, given the hashes of the committed blocks
/// (`hashes[i]` is the hash of block `i + 1`); 0 stands for "nothing".
pub open spec fn height_of(bn: Option<BlockNumber>, hashes: Seq<Seq<u8>>) -> int {
    match bn {
        Some(BlockNumber::Hash(h)) => first_index(hashes, h@) + 1,
        Some(BlockNumber::Num(n)) => n as int,
        Some(BlockNumber::Earliest) => 1,
        Some(BlockNumber::Pending) => 0,
        Some(BlockNumber::Latest) | None => hashes.len() as int,
    }
}

pub fn block_number_to_height(bn: Option<BlockNumber>, hashes: &Vec<Vec<u8>>) -> (r: u64)
    requires
        hashes@.len() <= u64::MAX,
    ensures
        r == height_of(bn, views_of(hashes@)),
{
    match bn {
        Some(BlockNumber::Hash(h)) => {
            let ghost hv = views_of(hashes@);
            let mut i: usize = 0;
            while i < hashes.len()
                invariant
                    hv == views_of(hashes@),
                    bn == Some(BlockNumber::Hash(h)),
                    i <= hashes@.len(),
                    first_index(hv.take(i as int), h@) == -1,
                decreases hashes.len() - i,
            {
                assert(hv.take(i + 1).drop_last() =~= hv.take(i as int));
                if crate::bytes::bytes_eq(&hashes[i], &h) {
                    assert(hv.take(i + 1).last() == h@);
                    assert(first_index(hv.take(i + 1), h@) == i as int);
                    proof {
                        lemma_first_index_prefix(hv, h@, i + 1);
                        assert(first_index(hv, h@) == i as int);
                    }
                    return (i + 1) as u64;
                }
                i += 1;
            }
            assert(hv.take(hashes@.len() as int) =~= hv);
            0
        },
        Some(BlockNumber::Num(n)) => n,
        Some(BlockNumber::Earliest) => 1,
        Some(BlockNumber::Pending) => 0,
        Some(BlockNumber::Latest) | None => hashes.len() as u64,
    }
}

/// A match found in a prefix is the first match of the whole sequence.
proof fn lemma_first_index_prefix(s: Seq<Seq<u8>>, x: Seq<u8>, k: int)
    requires
        0 <= k <= s.len(),
        first_index(s.take(k), x) >= 0,
    ensures
        first_index(s, x) == first_index(s.take(k), x),
    decreases s.len() - k,
{
    if k < s.len() {
        assert(s.take(k + 1).drop_last() =~= s.take(k));
        lemma_first_index_prefix(s, x, k + 1);
    } else {
        assert(s.take(k) =~= s);
    }
}

} // verus!
