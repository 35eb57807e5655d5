//! Transactions, block headers and blocks: canonical encoding, construction
//! with reward injection, header digesting, and the proof-of-work search.

use vstd::prelude::*;
use vstd::arithmetic::power2::pow2;
use vstd::string::StringExecFns;
use crate::VERSION_INT;
use crate::encoding::dec_digits;
use crate::encoding::escape_json_str;
use crate::encoding::escape_string;
use crate::encoding::u64_to_dec;
use crate::hashing::sha256_hex;
use crate::hashing::sha256_hex_of;
use crate::hexnum::hex_val;
use crate::hexnum::is_hex_digit;
use crate::hexnum::meets_target;
use crate::merkle::MerkleTree;
use crate::merkle::merkle_root;
use crate::policy::calculate_block_reward;
use crate::policy::spec_reward;

verus! {

/// A transfer of `amount` scaled units to `to`; `from` is absent exactly for
/// the synthetic reward transaction of a block.
pub struct Transaction {
    pub from: Option<String>,
    pub to: String,
    pub amount: u64,
}

/// The canonical JSON text of a transaction: field-name keyed, fields in
/// declaration order, `from` rendered as `null` when absent, strings escaped
/// as in a JSON string literal, the amount in decimal.
pub open spec fn spec_tx_json(t: Transaction) -> Seq<char> {
    "{\"from\":"@ + (match t.from {
        Option::None => "null"@,
        Option::Some(f) => "\""@ + escape_string(f@) + "\""@,
    }) + ",\"to\":\""@ + escape_string(t.to@) + "\",\"amount\":"@ + dec_digits(t.amount as nat)
        + "}"@
}

/// Render a transaction's canonical JSON text.
pub fn tx_json(t: &Transaction) -> (r: String)
    ensures
        r@ == spec_tx_json(*t),
{
    let mut out = String::from_str("{\"from\":");
    match &t.from {
        Option::Some(f) => {
            out.append("\"");
            let e = escape_json_str(f.as_str());
            out.append(e.as_str());
            out.append("\"");
        },
        Option::None => {
            out.append("null");
        },
    }
    out.append(",\"to\":\"");
    let e = escape_json_str(t.to.as_str());
    out.append(e.as_str());
    out.append("\",\"amount\":");
    let a = u64_to_dec(t.amount);
    out.append(a.as_str());
    out.append("}");
    proof {
        assert(out@ =~= spec_tx_json(*t));
    }
    out
}

/// The header of a block. The timestamp is fixed at construction and never
/// refreshed during mining; only the nonce moves in the search.
pub struct BlockHeader {
    pub timestamp: u64,
    pub version: u64,
    pub merkle: String,
    pub difficulty_target: u64,
    pub nonce: u64,
    pub previous_hash: String,
}

/// One block of the ledger: height, header, committed transactions, and the
/// proof-of-work digest (empty until mined).
pub struct Block {
    pub id: u64,
    pub header: BlockHeader,
    pub transactions: Vec<Transaction>,
    pub hash: String,
}

/// The canonical header encoding that mining digests: the decimal texts of id,
/// timestamp and version, then the merkle root, then the decimal texts of
/// difficulty and nonce, concatenated with no separator. The previous hash is
/// not part of the digest.
pub open spec fn block_preimage(b: Block) -> Seq<char> {
    dec_digits(b.id as nat) + dec_digits(b.header.timestamp as nat) + dec_digits(
        b.header.version as nat,
    ) + b.header.merkle@ + dec_digits(b.header.difficulty_target as nat) + dec_digits(
        b.header.nonce as nat,
    )
}

/// The block `b` with its nonce replaced.
pub open spec fn with_nonce(b: Block, nonce: u64) -> Block {
    Block {
        header: BlockHeader { nonce, ..b.header },
        ..b
    }
}

/// Nonce `n` wins the search for block `b`: the digest of the header encoding
/// with that nonce falls below the difficulty threshold.
pub open spec fn nonce_meets(b: Block, n: u64) -> bool {
    hex_val(sha256_hex_of(block_preimage(with_nonce(b, n)))) < pow2(
        (256 - b.header.difficulty_target) as nat,
    )
}

/// Some nonce at or above `start` wins the search for block `b`.
pub open spec fn minable(b: Block, start: u64) -> bool {
    exists|n: u64| start <= n && nonce_meets(b, n)
}

/// The block's recorded hash is the digest of its own header encoding and,
/// read as a 256-bit unsigned integer, is at most `2^(256 - difficulty) - 1`.
pub open spec fn mined_ok(b: Block) -> bool {
    &&& b.header.difficulty_target < 256
    &&& b.hash@ == sha256_hex_of(block_preimage(b))
    &&& hex_val(b.hash@) < pow2((256 - b.header.difficulty_target) as nat)
}

/// The synthetic coinbase transaction injected into the block at height `id`.
pub open spec fn is_reward_tx(t: Transaction, id: u64) -> bool {
    &&& t.from is None
    &&& t.to@ == "miner_address"@
    &&& t.amount == spec_reward(id)
}

/// Law: a mined block's hash, read as a 256-bit unsigned integer, is at most
/// `2^(256 - difficulty_target) - 1`.
pub proof fn lemma_mined_hash_below_threshold(b: Block)
    requires
        mined_ok(b),
    ensures
        hex_val(b.hash@) <= pow2((256 - b.header.difficulty_target) as nat) - 1,
{
}

/// Relies on std::time::SystemTime::now and duration_since: the wall-clock
/// seconds since the Unix epoch, or 0 when the clock reads earlier than the
/// epoch. Nothing is assumed about the value.
#[verifier::external_body]
fn now_seconds() -> u64 {
    match std::time::SystemTime::now().duration_since(std::time::UNIX_EPOCH) {
        Ok(d) => d.as_secs(),
        Err(_) => 0,
    }
}

impl Block {
    /// Construct an unmined block: wall-clock timestamp, fixed version, nonce
    /// 0. For every non-genesis height the reward transaction is appended
    /// first, so the merkle root commits to it.
    pub fn new(id: u64, previous_hash: String, transactions: Vec<Transaction>, difficulty: u64) -> (b:
        Block)
        requires
            difficulty < 256,
        ensures
            b.id == id,
            b.header.version == VERSION_INT,
            b.header.difficulty_target == difficulty,
            b.header.nonce == 0,
            b.header.previous_hash == previous_hash,
            b.hash@ == Seq::<char>::empty(),
            b.header.merkle@ == merkle_root(b.transactions@),
            id == 0 ==> b.transactions@ == transactions@,
            id != 0 ==> b.transactions@.len() == transactions@.len() + 1
                && b.transactions@.drop_last() == transactions@ && is_reward_tx(
                b.transactions@.last(),
                id,
            ),
    {
        let mut block = Block {
            id,
            header: BlockHeader {
                timestamp: now_seconds(),
                version: VERSION_INT,
                merkle: String::new(),
                difficulty_target: difficulty,
                nonce: 0,
                previous_hash,
            },
            transactions,
            hash: String::new(),
        };
        if id != 0 {
            let block_reward = calculate_block_reward(id);
            block.transactions.push(
                Transaction {
                    from: Option::None,
                    to: String::from_str("miner_address"),
                    amount: block_reward,
                },
            );
            proof {
                assert(block.transactions@.drop_last() =~= transactions@);
            }
        }
        let merkle_tree = MerkleTree::new(&block.transactions);
        block.header.merkle = merkle_tree.root_hash();
        block
    }

    /// Digest the canonical header encoding.
    pub fn create_hash(&self) -> (h: String)
        ensures
            h@ == sha256_hex_of(block_preimage(*self)),
            h@.len() == 64,
            forall|i: int| 0 <= i < h@.len() ==> is_hex_digit(#[trigger] h@[i]),
    {
        let mut data = u64_to_dec(self.id);
        let t = u64_to_dec(self.header.timestamp);
        data.append(t.as_str());
        let v = u64_to_dec(self.header.version);
        data.append(v.as_str());
        data.append(self.header.merkle.as_str());
        let d = u64_to_dec(self.header.difficulty_target);
        data.append(d.as_str());
        let n = u64_to_dec(self.header.nonce);
        data.append(n.as_str());
        proof {
            assert(data@ =~= block_preimage(*self));
        }
        sha256_hex(data.as_str())
    }

    /// Search nonces upward from the current one until the header digest
    /// meets the difficulty target; record the digest on success. The lowest
    /// winning nonce is chosen. Fails only if no nonce in the remaining space
    /// wins, which a strict reading of the digest cannot rule out.
    pub fn mine(&mut self) -> (found: bool)
        requires
            old(self).header.difficulty_target < 256,
        ensures
            final(self).id == old(self).id,
            final(self).header.timestamp == old(self).header.timestamp,
            final(self).header.version == old(self).header.version,
            final(self).header.merkle == old(self).header.merkle,
            final(self).header.difficulty_target == old(self).header.difficulty_target,
            final(self).header.previous_hash == old(self).header.previous_hash,
            final(self).transactions == old(self).transactions,
            found == minable(*old(self), old(self).header.nonce),
            found ==> mined_ok(*final(self)) && old(self).header.nonce
                <= final(self).header.nonce && (forall|n: u64|
                old(self).header.nonce <= n < final(self).header.nonce ==> !nonce_meets(
                    *old(self),
                    n,
                )),
            !found ==> final(self).hash == old(self).hash && final(self).header.nonce == u64::MAX,
    {
        loop
            invariant
                self.id == old(self).id,
                self.header.timestamp == old(self).header.timestamp,
                self.header.version == old(self).header.version,
                self.header.merkle == old(self).header.merkle,
                self.header.difficulty_target == old(self).header.difficulty_target,
                self.header.previous_hash == old(self).header.previous_hash,
                self.transactions == old(self).transactions,
                self.hash == old(self).hash,
                self.header.difficulty_target < 256,
                old(self).header.nonce <= self.header.nonce,
                *self == with_nonce(*old(self), self.header.nonce),
                forall|n: u64|
                    old(self).header.nonce <= n < self.header.nonce ==> !nonce_meets(
                        *old(self),
                        n,
                    ),
            decreases u64::MAX - self.header.nonce,
        {
            let h = self.create_hash();
            if meets_target(h.as_str(), self.header.difficulty_target) {
                proof {
                    assert(with_nonce(*old(self), self.header.nonce) == *self);
                    assert(nonce_meets(*old(self), self.header.nonce));
                }
                self.hash = h;
                return true;
            }
            if self.header.nonce == u64::MAX {
                proof {
                    assert(forall|n: u64|
                        old(self).header.nonce <= n ==> !nonce_meets(*old(self), n));
                }
                return false;
            }
            self.header.nonce = self.header.nonce + 1;
        }
    }
}

} // verus!
