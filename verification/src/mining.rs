//! The proof-of-work search: the nonces are tried in order, each attempt
//! stamped with the time at which it is made, until the digest of the
//! candidate block satisfies the difficulty.

use crate::block::{
    block_digest, block_hash, fields_digest, fields_json, follows, Block, BlockView,
};
use crate::clock::unix_time;
use crate::hasher::{
    hash_json, hex_lower, lemma_difficulty_by_count, lemma_difficulty_is_hex_prefix,
    meets_difficulty, satisfies_difficulty, DIFFICULTY_PREFIX,
};
use vstd::prelude::*;

verus! {

/// The block that an attempt after `previous` proposes: the next id, the
/// hash of `previous`, the given data, nonce and timestamp, and the hash of
/// these.
pub open spec fn candidate(
    previous: BlockView,
    data: Seq<char>,
    nonce: nat,
    timestamp: int,
) -> BlockView {
    BlockView {
        id: previous.id + 1,
        hash: hex_lower(fields_digest(previous.id + 1, timestamp, previous.hash, data, nonce)),
        previous_hash: previous.hash,
        timestamp,
        data,
        nonce,
    }
}

/// Whether an attempt with `nonce` after `previous` missed the difficulty:
/// there is a timestamp with which the candidate's digest does not satisfy
/// it.
pub open spec fn attempt_failed(previous: BlockView, data: Seq<char>, nonce: nat) -> bool {
    exists|timestamp: int|
        !satisfies_difficulty(block_digest(#[trigger] candidate(previous, data, nonce, timestamp)))
}

/// Whether `block` is what the search after `previous` gives for `data`: it
/// is the candidate of its own nonce and timestamp, its digest satisfies
/// the difficulty, and at each smaller nonce an attempt failed.
pub open spec fn mined_after(block: BlockView, previous: BlockView, data: Seq<char>) -> bool {
    &&& block == candidate(previous, data, block.nonce, block.timestamp)
    &&& satisfies_difficulty(block_digest(block))
    &&& forall|nonce: nat| nonce < block.nonce ==> #[trigger] attempt_failed(previous, data, nonce)
}

/// Whether the search after `previous` for `data` found nothing: at every
/// nonce of the range an attempt failed.
pub open spec fn search_exhausted(previous: BlockView, data: Seq<char>) -> bool {
    forall|nonce: nat| nonce <= u64::MAX ==> #[trigger] attempt_failed(previous, data, nonce)
}

/// A candidate follows the block it was made after, and holds the data it
/// was made for.
pub proof fn lemma_candidate_follows(
    previous: BlockView,
    data: Seq<char>,
    nonce: nat,
    timestamp: int,
)
    ensures
        follows(candidate(previous, data, nonce, timestamp), previous),
        candidate(previous, data, nonce, timestamp).data == data,
{
}

/// The hash of a block whose digest satisfies the difficulty begins with
/// `DIFFICULTY_PREFIX`.
pub proof fn lemma_mined_hash_prefix(block: BlockView)
    requires
        block.hash == block_hash(block),
        satisfies_difficulty(block_digest(block)),
    ensures
        DIFFICULTY_PREFIX@.is_prefix_of(block.hash),
{
    lemma_difficulty_is_hex_prefix(block_digest(block));
}

impl Block {
    /// One attempt of the search after `self`: the candidate with `nonce`
    /// and `timestamp`, if its digest satisfies the difficulty.
    pub fn attempt(&self, data: &String, nonce: u64, timestamp: i64) -> (found: Option<Block>)
        requires
            self@.id < u64::MAX,
        ensures
            found is Some <==> satisfies_difficulty(
                block_digest(candidate(self@, data@, nonce as nat, timestamp as int)),
            ),
            found is Some ==> found->0@ == candidate(
                self@,
                data@,
                nonce as nat,
                timestamp as int,
            ),
    {
        let id: u64 = self.id + 1;
        let json = fields_json(id, timestamp, self.hash.as_str(), data.as_str(), nonce);
        let (hash, zero_bits) = hash_json(json);
        proof {
            lemma_difficulty_by_count(
                block_digest(candidate(self@, data@, nonce as nat, timestamp as int)),
                zero_bits as nat,
            );
        }
        if meets_difficulty(zero_bits) {
            Some(
                Block {
                    id,
                    hash,
                    previous_hash: self.hash.clone(),
                    timestamp,
                    data: data.clone(),
                    nonce,
                },
            )
        } else {
            None
        }
    }

    /// The proof-of-work search for the block that follows `self` and holds
    /// `data`: from nonce 0 upwards, each attempt stamped with the time at
    /// which it is made, until one succeeds. Nothing is found only when the
    /// attempts at all nonces have failed.
    pub fn mine_next(&self, data: String) -> (found: Option<Block>)
        requires
            self@.id < u64::MAX,
        ensures
            match found {
                Some(block) => mined_after(block@, self@, data@),
                None => search_exhausted(self@, data@),
            },
    {
        let mut nonce: u64 = 0;
        loop
            invariant
                self@.id < u64::MAX,
                forall|n: nat| n < nonce ==> #[trigger] attempt_failed(self@, data@, n),
            decreases u64::MAX - nonce,
        {
            let timestamp = unix_time();
            let found = self.attempt(&data, nonce, timestamp);
            if found.is_some() {
                return found;
            }
            assert(attempt_failed(self@, data@, nonce as nat)) by {
                let tried = candidate(self@, data@, nonce as nat, timestamp as int);
                assert(!satisfies_difficulty(block_digest(tried)));
            }
            if nonce == u64::MAX {
                return None;
            }
            nonce += 1;
        }
    }
}

} // verus!
