//! A block of the ledger, the hash over its fields, the genesis block, and
//! the rule by which one block follows another.

use crate::hasher::{digest, hex_lower, lemma_hex_lower_injective, sha256_digest};
use vstd::prelude::*;
use vstd::string::StringExecFns;
use vstd::utf8::encode_utf8;

verus! {

/// One entry of the ledger. `hash` is the digest of the five other fields;
/// the block that follows carries it as its `previous_hash`.
#[derive(Clone, Debug, PartialEq, Eq)]
pub struct Block {
    pub id: u64,
    pub hash: String,
    pub previous_hash: String,
    pub timestamp: i64,
    pub data: String,
    pub nonce: u64,
}

/// A block as the contracts see it.
pub struct BlockView {
    pub id: nat,
    pub hash: Seq<char>,
    pub previous_hash: Seq<char>,
    pub timestamp: int,
    pub data: Seq<char>,
    pub nonce: nat,
}

impl View for Block {
    type V = BlockView;

    open spec fn view(&self) -> BlockView {
        BlockView {
            id: self.id as nat,
            hash: self.hash@,
            previous_hash: self.previous_hash@,
            timestamp: self.timestamp as int,
            data: self.data@,
            nonce: self.nonce as nat,
        }
    }
}

/// The JSON text that stands for the hashed fields of a block: one object
/// with the members `id`, `timestamp`, `previous_hash`, `data` and `nonce`.
///
/// The function is not defined here: the `serde_json` crate writes the text.
pub uninterp spec fn block_json(
    id: nat,
    timestamp: int,
    previous_hash: Seq<char>,
    data: Seq<char>,
    nonce: nat,
) -> Seq<char>;

/// The SHA-256 digest of the hashed fields of a block: that of the UTF-8
/// bytes of their JSON text.
pub open spec fn fields_digest(
    id: nat,
    timestamp: int,
    previous_hash: Seq<char>,
    data: Seq<char>,
    nonce: nat,
) -> Seq<u8> {
    sha256_digest(encode_utf8(block_json(id, timestamp, previous_hash, data, nonce)))
}

/// The digest of a block: that of all its fields but `hash`.
pub open spec fn block_digest(block: BlockView) -> Seq<u8> {
    fields_digest(block.id, block.timestamp, block.previous_hash, block.data, block.nonce)
}

/// The hash that a block with these fields must carry: its digest in
/// hexadecimal.
pub open spec fn block_hash(block: BlockView) -> Seq<char> {
    hex_lower(block_digest(block))
}

/// Whether `block` may follow `previous`: it names the hash of `previous`,
/// carries the next id, and its own hash is that of its fields.
pub open spec fn follows(block: BlockView, previous: BlockView) -> bool {
    &&& block.previous_hash == previous.hash
    &&& block.id == previous.id + 1
    &&& block.hash == block_hash(block)
}

/// Two blocks that carry the same hash, each the hash of its own fields, have
/// the same digest: contents that differ pass under one hash only where
/// SHA-256 collides.
pub proof fn lemma_same_hash_same_digest(first: BlockView, second: BlockView)
    requires
        first.hash == block_hash(first),
        second.hash == block_hash(second),
        first.hash == second.hash,
    ensures
        block_digest(first) == block_digest(second),
{
    lemma_hex_lower_injective(block_digest(first), block_digest(second));
}

/// The label that the genesis block carries as its data and in place of a
/// previous hash.
pub const GENESIS_LABEL: &'static str = "GENESIS";

/// The hash of the genesis block: 64 zero digits.
pub open spec fn genesis_hash() -> Seq<char> {
    Seq::new(64, |i: int| '0')
}

/// Whether `block` is a genesis block: the first of a chain, with the fixed
/// hash and the label, whatever its timestamp.
pub open spec fn is_genesis(block: BlockView) -> bool {
    &&& block.id == 0
    &&& block.hash == genesis_hash()
    &&& block.previous_hash == GENESIS_LABEL@
    &&& block.data == GENESIS_LABEL@
    &&& block.nonce == 0
}

/// Builds a `serde_json::Value::Object` with the five members, each value
/// converted by `serde_json::Value::from`, and calls its `to_string`.
///
/// Trusted: the text is a function of the five values alone.
#[verifier::external_body]
pub(crate) fn fields_json(
    id: u64,
    timestamp: i64,
    previous_hash: &str,
    data: &str,
    nonce: u64,
) -> (text: String)
    ensures
        text@ == block_json(id as nat, timestamp as int, previous_hash@, data@, nonce as nat),
{
    let mut fields = serde_json::Map::new();
    fields.insert(String::from("id"), serde_json::Value::from(id));
    fields.insert(String::from("timestamp"), serde_json::Value::from(timestamp));
    fields.insert(String::from("previous_hash"), serde_json::Value::from(previous_hash));
    fields.insert(String::from("data"), serde_json::Value::from(data));
    fields.insert(String::from("nonce"), serde_json::Value::from(nonce));
    serde_json::Value::Object(fields).to_string()
}

impl Block {
    /// The genesis block, stamped with `timestamp`.
    pub fn genesis(timestamp: i64) -> (block: Block)
        ensures
            is_genesis(block@),
            block@.timestamp == timestamp,
    {
        let mut hash = String::new();
        let mut written: usize = 0;
        while written < 64
            invariant
                written <= 64,
                hash@ == Seq::new(written as nat, |i: int| '0'),
            decreases 64 - written,
        {
            proof {
                reveal_strlit("0");
            }
            hash.append("0");
            written += 1;
            assert(hash@ =~= Seq::new(written as nat, |i: int| '0'));
        }
        Block {
            id: 0,
            hash,
            previous_hash: GENESIS_LABEL.to_owned(),
            timestamp,
            data: GENESIS_LABEL.to_owned(),
            nonce: 0,
        }
    }

    /// Recomputes the hash of the block from its fields, leaving the stored
    /// `hash` aside.
    pub fn calculate_hash(&self) -> (hash: String)
        ensures
            hash@ == block_hash(self@),
            hash@.len() == 64,
    {
        let json = fields_json(
            self.id,
            self.timestamp,
            self.previous_hash.as_str(),
            self.data.as_str(),
            self.nonce,
        );
        digest(json.as_str().as_bytes())
    }

    /// Whether `self` may follow `previous`, given the hash recomputed from
    /// the fields of `self`.
    pub fn follows_with(&self, previous: &Block, recomputed_hash: &String) -> (ok: bool)
        ensures
            ok == (self@.previous_hash == previous@.hash && self@.id == previous@.id + 1
                && self@.hash == recomputed_hash@),
    {
        self.previous_hash == previous.hash && previous.id < u64::MAX && self.id == previous.id + 1
            && *recomputed_hash == self.hash
    }
}

} // verus!
