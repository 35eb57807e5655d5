//! The Merkle commitment over an ordered transaction list: leaves are digests
//! of each transaction's canonical JSON text; layers are reduced pairwise,
//! duplicating the last node of an odd layer, until one root remains. The root
//! of an empty list is 64 zero characters by definition.

use vstd::prelude::*;
use vstd::string::StringExecFns;
use crate::block::Transaction;
use crate::block::spec_tx_json;
use crate::block::tx_json;
use crate::hashing::sha256_hex;
use crate::hashing::sha256_hex_of;

verus! {

/// Sixty-four `'0'` characters: the root of an empty transaction list.
pub open spec fn zeros64() -> Seq<char> {
    Seq::new(64, |i: int| '0')
}

/// The digest of one transaction's canonical JSON text: a Merkle leaf.
pub open spec fn tx_leaf(t: Transaction) -> Seq<char> {
    sha256_hex_of(spec_tx_json(t))
}

/// The leaf layer for a transaction sequence, in order.
pub open spec fn leaves_of(txs: Seq<Transaction>) -> Seq<Seq<char>> {
    txs.map_values(|t: Transaction| tx_leaf(t))
}

/// An odd layer is padded by repeating its last node.
pub open spec fn pad_layer(l: Seq<Seq<char>>) -> Seq<Seq<char>> {
    if l.len() % 2 == 1 {
        l.push(l.last())
    } else {
        l
    }
}

/// Consecutive pairs hashed into parents: the digest of left digest
/// concatenated with right digest, no separator.
pub open spec fn combine_layer(l: Seq<Seq<char>>) -> Seq<Seq<char>> {
    Seq::new(l.len() / 2, |i: int| sha256_hex_of(l[2 * i] + l[2 * i + 1]))
}

/// The root a layer of digests reduces to.
pub open spec fn layer_root(l: Seq<Seq<char>>) -> Seq<char>
    decreases l.len(),
{
    if l.len() == 0 {
        zeros64()
    } else if l.len() == 1 {
        l[0]
    } else {
        layer_root(combine_layer(pad_layer(l)))
    }
}

/// The Merkle root of a transaction sequence; 64 zero characters for the
/// empty sequence.
pub open spec fn merkle_root(txs: Seq<Transaction>) -> Seq<char> {
    layer_root(leaves_of(txs))
}

/// Law: the root of the empty transaction sequence is exactly 64 zero
/// characters — a defined value, not a digest of anything.
pub proof fn lemma_merkle_empty()
    ensures
        merkle_root(Seq::<Transaction>::empty()) == zeros64(),
        zeros64().len() == 64,
{
    assert(leaves_of(Seq::<Transaction>::empty()) =~= Seq::<Seq<char>>::empty());
}

/// Law: the Merkle root is a function of the transaction sequence alone, so
/// recomputing it over the same sequence always yields the same digest.
pub proof fn lemma_merkle_deterministic(txs1: Seq<Transaction>, txs2: Seq<Transaction>)
    requires
        txs1 == txs2,
    ensures
        merkle_root(txs1) == merkle_root(txs2),
{
}

/// The digest sequences a vector of digest strings stands for.
pub open spec fn views_of(ns: Seq<String>) -> Seq<Seq<char>> {
    ns.map_values(|s: String| s@)
}

pub(crate) fn zeros64_string() -> (r: String)
    ensures
        r@ == zeros64(),
{
    let z = "0000000000000000000000000000000000000000000000000000000000000000";
    proof {
        reveal_strlit("0000000000000000000000000000000000000000000000000000000000000000");
        assert(z@ =~= zeros64());
    }
    String::from_str(z)
}

/// A Merkle tree reduced to its root.
pub struct MerkleTree {
    nodes: Vec<String>,
}

impl MerkleTree {
    /// A finished tree holds at least its root node.
    pub closed spec fn wf(&self) -> bool {
        self.nodes@.len() >= 1
    }

    /// The root digest the tree commits to.
    pub closed spec fn root_spec(&self) -> Seq<char> {
        self.nodes@[0]@
    }

    /// Build the tree over `transactions` and reduce it to its root.
    pub fn new(transactions: &Vec<Transaction>) -> (t: MerkleTree)
        ensures
            t.wf(),
            t.root_spec() == merkle_root(transactions@),
    {
        let mut nodes: Vec<String> = Vec::new();
        let mut idx: usize = 0;
        while idx < transactions.len()
            invariant
                idx <= transactions@.len(),
                nodes@.len() == idx,
                forall|j: int| 0 <= j < idx ==> nodes@[j]@ == leaves_of(transactions@)[j],
            decreases transactions@.len() - idx,
        {
            let j = tx_json(&transactions[idx]);
            nodes.push(sha256_hex(j.as_str()));
            idx = idx + 1;
        }
        proof {
            assert(views_of(nodes@) =~= leaves_of(transactions@));
        }
        while nodes.len() > 1
            invariant
                layer_root(views_of(nodes@)) == merkle_root(transactions@),
            decreases nodes@.len(),
        {
            let ghost entry = views_of(nodes@);
            if nodes.len() % 2 != 0 {
                let last = nodes[nodes.len() - 1].clone();
                nodes.push(last);
            }
            proof {
                assert(views_of(nodes@) =~= pad_layer(entry));
            }
            let ghost padded = views_of(nodes@);
            let mut parent_nodes: Vec<String> = Vec::new();
            let mut i: usize = 0;
            while i < nodes.len()
                invariant
                    views_of(nodes@) == padded,
                    padded.len() == nodes@.len(),
                    nodes@.len() % 2 == 0,
                    i % 2 == 0,
                    i <= nodes@.len(),
                    parent_nodes@.len() == i / 2,
                    forall|j: int|
                        0 <= j < i / 2 ==> parent_nodes@[j]@ == sha256_hex_of(
                            padded[2 * j] + padded[2 * j + 1],
                        ),
                decreases nodes@.len() - i,
            {
                let left = nodes[i].clone();
                let right = &nodes[i + 1];
                let combined = left.concat(right.as_str());
                parent_nodes.push(sha256_hex(combined.as_str()));
                i = i + 2;
            }
            proof {
                assert(views_of(parent_nodes@) =~= combine_layer(padded));
            }
            nodes = parent_nodes;
        }
        if nodes.len() == 0 {
            nodes.push(zeros64_string());
        }
        MerkleTree { nodes }
    }

    /// The root digest.
    pub fn root_hash(&self) -> (r: String)
        requires
            self.wf(),
        ensures
            r@ == self.root_spec(),
    {
        self.nodes[0].clone()
    }
}

} // verus!
