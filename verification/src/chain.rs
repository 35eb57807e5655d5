//! The chain: an append-only, height-indexed sequence of blocks, with genesis
//! construction and acceptance validation. A candidate must link to the tip,
//! its merkle root must match a recomputation over its transactions, and it is
//! mined as part of acceptance; rejection leaves the chain unchanged.

use vstd::prelude::*;
use vstd::arithmetic::power2::pow2;
use vstd::string::StringExecFns;
use crate::DIFFICULTY_DEFAULT;
use crate::VERSION_INT;
use crate::block::Block;
use crate::block::BlockHeader;
use crate::block::Transaction;
use crate::block::block_preimage;
use crate::block::minable;
use crate::block::mined_ok;
use crate::block::nonce_meets;
use crate::block::with_nonce;
use crate::encoding::dec_digits;
use crate::hashing::sha256_hex_of;
use crate::hexnum::hex_val;
use crate::merkle::MerkleTree;
use crate::merkle::leaves_of;
use crate::merkle::merkle_root;
use crate::merkle::zeros64;
use crate::merkle::zeros64_string;

verus! {

/// Why a candidate block was rejected. The two mismatches carry the digest the
/// chain expected and the digest the candidate carried. `NonceExhausted`
/// reports a proof-of-work search that ran out of nonces; no ledger rule can
/// exclude it, though it does not arise at practical difficulties.
#[derive(Debug)]
pub enum ChainError {
    LinkageError { expected: String, found: String },
    CommitmentError { expected: String, found: String },
    NonceExhausted,
}

impl ChainError {
    /// A human-readable description naming the expected and found values.
    pub fn message(&self) -> (r: String)
        ensures
            match *self {
                ChainError::LinkageError { expected, found } => r@ == "Invalid previous hash. Expected: "@
                    + expected@ + ", Found: "@ + found@,
                ChainError::CommitmentError { expected, found } => r@
                    == "Invalid merkle hash. Expected: "@ + expected@ + ", Found: "@ + found@,
                ChainError::NonceExhausted => r@ == "Nonce space exhausted while mining"@,
            },
    {
        match self {
            ChainError::LinkageError { expected, found } => {
                let mut out = String::from_str("Invalid previous hash. Expected: ");
                out.append(expected.as_str());
                out.append(", Found: ");
                out.append(found.as_str());
                out
            },
            ChainError::CommitmentError { expected, found } => {
                let mut out = String::from_str("Invalid merkle hash. Expected: ");
                out.append(expected.as_str());
                out.append(", Found: ");
                out.append(found.as_str());
                out
            },
            ChainError::NonceExhausted => String::from_str("Nonce space exhausted while mining"),
        }
    }
}

/// The candidate's previous-hash claim matches the tip (vacuously true on an
/// empty chain).
pub open spec fn linkage_ok(blocks: Seq<Block>, b: Block) -> bool {
    blocks.len() == 0 || b.header.previous_hash@ == blocks.last().hash@
}

/// The candidate's declared merkle root matches a recomputation over its
/// transactions.
pub open spec fn commitment_ok(b: Block) -> bool {
    b.header.merkle@ == merkle_root(b.transactions@)
}

/// What acceptance appends: the candidate with only its nonce and hash
/// changed, now mined.
pub open spec fn appended_ok(candidate: Block, appended: Block) -> bool {
    &&& appended.id == candidate.id
    &&& appended.header.timestamp == candidate.header.timestamp
    &&& appended.header.version == candidate.header.version
    &&& appended.header.merkle == candidate.header.merkle
    &&& appended.header.difficulty_target == candidate.header.difficulty_target
    &&& appended.header.previous_hash == candidate.header.previous_hash
    &&& appended.transactions == candidate.transactions
    &&& candidate.header.nonce <= appended.header.nonce
    &&& mined_ok(appended)
}

/// Every block after the first carries its predecessor's hash as its
/// previous hash.
pub open spec fn chain_linked(blocks: Seq<Block>) -> bool {
    forall|i: int|
        1 <= i < blocks.len() ==> #[trigger] blocks[i].header.previous_hash@ == blocks[i
            - 1].hash@
}

/// Law: accepting a candidate keeps the chain linked. The hypotheses are
/// exactly what `add_block` ensures of a successful call: the candidate linked
/// to the tip and was appended with only its nonce and hash changed.
pub proof fn lemma_accepted_block_preserves_linkage(
    old_blocks: Seq<Block>,
    candidate: Block,
    new_blocks: Seq<Block>,
)
    requires
        chain_linked(old_blocks),
        linkage_ok(old_blocks, candidate),
        new_blocks.len() == old_blocks.len() + 1,
        new_blocks.drop_last() == old_blocks,
        appended_ok(candidate, new_blocks.last()),
    ensures
        chain_linked(new_blocks),
{
    assert(forall|i: int| 0 <= i < old_blocks.len() ==> new_blocks[i] == old_blocks[i]);
}

/// The canonical header encoding of the genesis block at a given nonce: id 0,
/// timestamp 0, the protocol version, the empty-list merkle root, the
/// bootstrap difficulty.
pub open spec fn genesis_preimage(nonce: u64) -> Seq<char> {
    dec_digits(0) + dec_digits(0) + dec_digits(VERSION_INT as nat) + zeros64() + dec_digits(
        DIFFICULTY_DEFAULT as nat,
    ) + dec_digits(nonce as nat)
}

/// Some nonce wins the genesis proof-of-work search.
pub open spec fn genesis_minable() -> bool {
    exists|n: u64|
        hex_val(sha256_hex_of(genesis_preimage(n))) < pow2((256 - DIFFICULTY_DEFAULT) as nat)
}

/// The fixed fields of the genesis block: height 0, timestamp 0 (deterministic
/// by design), empty transaction list, all-zero merkle root and previous hash,
/// bootstrap difficulty.
pub open spec fn is_genesis(b: Block) -> bool {
    &&& b.id == 0
    &&& b.header.timestamp == 0
    &&& b.header.version == VERSION_INT
    &&& b.header.merkle@ == zeros64()
    &&& b.header.difficulty_target == DIFFICULTY_DEFAULT
    &&& b.header.previous_hash@ == zeros64()
    &&& b.transactions@ == Seq::<Transaction>::empty()
}

/// The first block carrying a given height id, scanning from the front.
pub open spec fn spec_find_block(blocks: Seq<Block>, height: u64) -> Option<Block>
    decreases blocks.len(),
{
    if blocks.len() == 0 {
        Option::None
    } else if blocks[0].id == height {
        Option::Some(blocks[0])
    } else {
        spec_find_block(blocks.drop_first(), height)
    }
}

/// In a sequence whose blocks carry ids `base`, `base + 1`, ... in order, the
/// block found for a height is the one at its offset.
pub proof fn lemma_find_block_offset(blocks: Seq<Block>, base: u64, height: u64)
    requires
        forall|i: int| 0 <= i < blocks.len() ==> #[trigger] blocks[i].id == base + i,
        base + blocks.len() <= u64::MAX + 1,
    ensures
        base <= height < base + blocks.len() ==> spec_find_block(blocks, height) == Option::Some(
            blocks[height - base],
        ),
        !(base <= height < base + blocks.len()) ==> spec_find_block(blocks, height) is None,
    decreases blocks.len(),
{
    if blocks.len() > 0 && blocks[0].id != height {
        let rest = blocks.drop_first();
        assert(forall|i: int| 0 <= i < rest.len() ==> #[trigger] rest[i].id == (base + 1) + i);
        lemma_find_block_offset(rest, (base + 1) as u64, height);
    }
}

/// The ledger: blocks in order of acceptance, genesis first.
pub struct Chain {
    pub blocks: Vec<Block>,
}

impl Chain {
    /// Build a chain holding a freshly mined genesis block. The chain comes
    /// back empty only in the practically impossible case that no nonce at
    /// all wins the genesis search.
    pub fn new() -> (c: Chain)
        ensures
            c.blocks@.len() <= 1,
            genesis_minable() <==> c.blocks@.len() == 1,
            c.blocks@.len() == 1 ==> is_genesis(c.blocks@[0]) && mined_ok(c.blocks@[0]),
    {
        let mut chain = Chain { blocks: Vec::new() };
        let mut genesis_block = Block {
            id: 0,
            header: BlockHeader {
                timestamp: 0,
                version: 1,
                merkle: String::new(),
                difficulty_target: 1,
                nonce: 0,
                previous_hash: zeros64_string(),
            },
            transactions: Vec::new(),
            hash: String::new(),
        };
        let merkle_tree = MerkleTree::new(&genesis_block.transactions);
        genesis_block.header.merkle = merkle_tree.root_hash();
        proof {
            assert(leaves_of(Seq::<Transaction>::empty()) =~= Seq::<Seq<char>>::empty());
            assert(genesis_block.header.merkle@ == zeros64());
        }
        let ghost unmined = genesis_block;
        let found = genesis_block.mine();
        proof {
            assert forall|n: u64| block_preimage(with_nonce(unmined, n)) == genesis_preimage(n) by {
                assert(block_preimage(with_nonce(unmined, n)) =~= genesis_preimage(n));
            }
            if minable(unmined, 0) {
                let n = choose|n: u64| 0 <= n && nonce_meets(unmined, n);
                assert(hex_val(sha256_hex_of(genesis_preimage(n))) < pow2(
                    (256 - DIFFICULTY_DEFAULT) as nat,
                ));
                assert(genesis_minable());
            }
            if genesis_minable() {
                let n = choose|n: u64|
                    hex_val(sha256_hex_of(genesis_preimage(n))) < pow2(
                        (256 - DIFFICULTY_DEFAULT) as nat,
                    );
                assert(nonce_meets(unmined, n));
                assert(minable(unmined, 0));
            }
        }
        if found {
            chain.blocks.push(genesis_block);
        }
        chain
    }

    /// Accept a candidate: check linkage to the tip, check the merkle
    /// commitment, mine, append. A rejected candidate leaves the chain
    /// exactly as it was, and each error says which check failed, carrying
    /// the expected and found digests.
    pub fn add_block(&mut self, block: Block) -> (r: Result<(), ChainError>)
        requires
            block.header.difficulty_target < 256,
        ensures
            ({
                let linked = linkage_ok(old(self).blocks@, block);
                let committed = commitment_ok(block);
                let mined = minable(block, block.header.nonce);
                &&& !linked ==> {
                    &&& *final(self) == *old(self)
                    &&& (r matches Result::Err(ChainError::LinkageError { expected, found })
                        && expected@ == old(self).blocks@.last().hash@
                        && found@ == block.header.previous_hash@)
                }
                &&& linked && !committed ==> {
                    &&& *final(self) == *old(self)
                    &&& (r matches Result::Err(ChainError::CommitmentError { expected, found })
                        && expected@ == merkle_root(block.transactions@)
                        && found@ == block.header.merkle@)
                }
                &&& linked && committed && !mined ==> {
                    &&& *final(self) == *old(self)
                    &&& r matches Result::Err(ChainError::NonceExhausted)
                }
                &&& linked && committed && mined ==> {
                    &&& r is Ok
                    &&& final(self).blocks@.len() == old(self).blocks@.len() + 1
                    &&& final(self).blocks@.drop_last() == old(self).blocks@
                    &&& appended_ok(block, final(self).blocks@.last())
                }
            }),
    {
        let n = self.blocks.len();
        if n > 0 {
            if !(block.header.previous_hash == self.blocks[n - 1].hash) {
                return Result::Err(
                    ChainError::LinkageError {
                        expected: self.blocks[n - 1].hash.clone(),
                        found: block.header.previous_hash.clone(),
                    },
                );
            }
        }
        let merkle_tree = MerkleTree::new(&block.transactions);
        let root = merkle_tree.root_hash();
        if !(root == block.header.merkle) {
            return Result::Err(
                ChainError::CommitmentError { expected: root, found: block.header.merkle.clone() },
            );
        }
        let mut block = block;
        let found = block.mine();
        if !found {
            return Result::Err(ChainError::NonceExhausted);
        }
        self.blocks.push(block);
        proof {
            assert(self.blocks@.drop_last() =~= old(self).blocks@);
        }
        Result::Ok(())
    }

    /// Clear every block. No fresh genesis is mined: the chain stays
    /// structurally empty until a new one is constructed.
    pub fn drop_chain(&mut self)
        ensures
            final(self).blocks@ == Seq::<Block>::empty(),
    {
        self.blocks.clear();
    }

    /// The highest block, absent only when the chain has been dropped (or
    /// genesis mining failed).
    pub fn get_last_block(&self) -> (r: Option<&Block>)
        ensures
            match r {
                Option::Some(b) => self.blocks@.len() > 0 && *b == self.blocks@.last(),
                Option::None => self.blocks@.len() == 0,
            },
    {
        let n = self.blocks.len();
        if n == 0 {
            Option::None
        } else {
            Option::Some(&self.blocks[n - 1])
        }
    }

    /// The first block carrying the given height id, scanning from the
    /// front; absent when no block carries it.
    pub fn get_block_by_height(&self, height: u64) -> (r: Option<&Block>)
        ensures
            match r {
                Option::Some(b) => spec_find_block(self.blocks@, height) == Option::Some(*b),
                Option::None => spec_find_block(self.blocks@, height) is None,
            },
    {
        let mut i: usize = 0;
        proof {
            assert(self.blocks@.skip(0) =~= self.blocks@);
        }
        while i < self.blocks.len()
            invariant
                i <= self.blocks@.len(),
                spec_find_block(self.blocks@, height) == spec_find_block(
                    self.blocks@.skip(i as int),
                    height,
                ),
            decreases self.blocks@.len() - i,
        {
            if self.blocks[i].id == height {
                proof {
                    assert(self.blocks@.skip(i as int)[0] == self.blocks@[i as int]);
                }
                return Option::Some(&self.blocks[i]);
            }
            proof {
                assert(self.blocks@.skip(i as int).drop_first() =~= self.blocks@.skip(i + 1));
            }
            i = i + 1;
        }
        proof {
            assert(self.blocks@.skip(self.blocks@.len() as int).len() == 0);
        }
        Option::None
    }
}

} // verus!
