//! The chain: an append-only sequence of linked blocks and the buffer of
//! transactions that wait for the next block.

use crate::block::{block_digest, block_hash, follows, is_genesis, Block, BlockView};
use crate::clock::unix_time;
use crate::hasher::{satisfies_difficulty, DIFFICULTY_PREFIX};
use crate::mining::{
    lemma_candidate_follows, lemma_mined_hash_prefix, mined_after, search_exhausted,
};
use vstd::prelude::*;
use vstd::string::StringExecFns;

verus! {

/// Why a chain refused to grow.
#[derive(Clone, Copy, Debug, PartialEq, Eq, Structural)]
pub enum ChainError {
    /// The block does not follow the head of the chain.
    InvalidBlock,
    /// No nonce of the whole range gave a digest that satisfies the
    /// difficulty.
    NonceSpaceExhausted,
}

/// The ledger: the blocks appended so far and the transactions that wait for
/// the next block. The blocks are a valid chain at all times.
#[derive(Debug)]
pub struct Chain {
    blocks: Vec<Block>,
    transactions: Vec<&'static str>,
}

/// A chain as the contracts see it.
pub struct ChainView {
    pub blocks: Seq<BlockView>,
    pub pending: Seq<Seq<char>>,
}

impl View for Chain {
    type V = ChainView;

    closed spec fn view(&self) -> ChainView {
        ChainView { blocks: block_views(self.blocks@), pending: texts(self.transactions@) }
    }
}

/// Whether the block at `i` follows the one before it.
pub open spec fn link_holds(blocks: Seq<BlockView>, i: int) -> bool {
    follows(blocks[i], blocks[i - 1])
}

/// Whether `blocks` is a chain: it is empty, or it begins with a genesis
/// block and every later block follows the one before it.
pub open spec fn valid_chain(blocks: Seq<BlockView>) -> bool {
    &&& blocks.len() > 0 ==> is_genesis(blocks[0])
    &&& forall|i: int| 0 < i < blocks.len() ==> #[trigger] link_holds(blocks, i)
}

/// Whether every block of `blocks` after the first has a digest that
/// satisfies the difficulty.
pub open spec fn all_mined(blocks: Seq<BlockView>) -> bool {
    forall|i: int| 0 < i < blocks.len() ==> satisfies_difficulty(#[trigger] block_digest(blocks[i]))
}

/// The views of `blocks`, in order.
pub open spec fn block_views(blocks: Seq<Block>) -> Seq<BlockView> {
    blocks.map_values(|block: Block| block@)
}

/// The texts of `items`, in order.
pub open spec fn texts(items: Seq<&'static str>) -> Seq<Seq<char>> {
    items.map_values(|item: &'static str| item@)
}

/// `lines` with a line feed between each two neighbours.
pub open spec fn join_lines(lines: Seq<Seq<char>>) -> Seq<char>
    decreases lines.len(),
{
    if lines.len() == 0 {
        Seq::empty()
    } else if lines.len() == 1 {
        lines[0]
    } else {
        join_lines(lines.drop_last()) + seq!['\n'] + lines.last()
    }
}

/// One more line at the end of `lines` comes after a line feed, unless it is
/// the only line.
pub proof fn lemma_join_push(lines: Seq<Seq<char>>, line: Seq<char>)
    ensures
        join_lines(lines.push(line)) == if lines.len() == 0 {
            line
        } else {
            join_lines(lines) + seq!['\n'] + line
        },
{
    assert(lines.push(line).drop_last() =~= lines);
}

/// The transactions of `items` joined into the data of one block.
pub fn join_transactions(items: &Vec<&'static str>) -> (data: String)
    ensures
        data@ == join_lines(texts(items@)),
{
    let mut data = String::new();
    let mut index: usize = 0;
    while index < items.len()
        invariant
            index <= items@.len(),
            data@ == join_lines(texts(items@).take(index as int)),
        decreases items@.len() - index,
    {
        proof {
            let before = texts(items@).take(index as int);
            reveal_strlit("\n");
            lemma_join_push(before, items@[index as int]@);
            assert(texts(items@).take(index + 1) =~= before.push(items@[index as int]@));
        }
        if index > 0 {
            data.append("\n");
        }
        data.append(items[index]);
        index += 1;
    }
    assert(texts(items@).take(index as int) =~= texts(items@));
    data
}

/// In a chain each block after the first names the hash of the block before
/// it.
pub proof fn lemma_linkage(blocks: Seq<BlockView>, i: int)
    requires
        valid_chain(blocks),
        0 < i < blocks.len(),
    ensures
        blocks[i].previous_hash == blocks[i - 1].hash,
{
    assert(link_holds(blocks, i));
}

/// In a chain the first block has id 0 and each later block the id of the
/// block before it plus one, so that each block's id is its position.
pub proof fn lemma_sequence(blocks: Seq<BlockView>, i: int)
    requires
        valid_chain(blocks),
        0 <= i < blocks.len(),
    ensures
        blocks[0].id == 0,
        i > 0 ==> blocks[i].id == blocks[i - 1].id + 1,
        blocks[i].id == i,
    decreases i,
{
    if i > 0 {
        lemma_sequence(blocks, i - 1);
        assert(link_holds(blocks, i));
    }
}

/// In a chain the hash that each block after the first stores is the one
/// recomputed from its other fields.
pub proof fn lemma_hash_integrity(blocks: Seq<BlockView>, i: int)
    requires
        valid_chain(blocks),
        0 < i < blocks.len(),
    ensures
        blocks[i].hash == block_hash(blocks[i]),
{
    assert(link_holds(blocks, i));
}

/// A chain stays a chain when a block that follows its last block is put at
/// its end.
pub proof fn lemma_chain_grows(blocks: Seq<BlockView>, block: BlockView)
    requires
        valid_chain(blocks),
        blocks.len() > 0,
        follows(block, blocks.last()),
    ensures
        valid_chain(blocks.push(block)),
{
    let after = blocks.push(block);
    assert forall|i: int| 0 < i < after.len() implies #[trigger] link_holds(after, i) by {
        if i < after.len() - 1 {
            assert(link_holds(blocks, i));
        }
    }
}

/// Putting a block whose digest satisfies the difficulty at the end of
/// blocks that all do leaves blocks that all do.
pub proof fn lemma_all_mined_grows(blocks: Seq<BlockView>, block: BlockView)
    requires
        all_mined(blocks),
        satisfies_difficulty(block_digest(block)),
    ensures
        all_mined(blocks.push(block)),
{
}

/// In a chain whose blocks after the first were all mined, the hash of each
/// of them begins with `DIFFICULTY_PREFIX`.
pub proof fn lemma_mined_chain_prefix(blocks: Seq<BlockView>, i: int)
    requires
        valid_chain(blocks),
        all_mined(blocks),
        0 < i < blocks.len(),
    ensures
        satisfies_difficulty(block_digest(blocks[i])),
        DIFFICULTY_PREFIX@.is_prefix_of(blocks[i].hash),
{
    lemma_hash_integrity(blocks, i);
    lemma_mined_hash_prefix(blocks[i]);
}

impl Chain {
    /// What holds of every chain at every point: its blocks are a valid
    /// chain. A vector that grows is taken out of the chain first and put
    /// back once it has grown.
    #[verifier::type_invariant]
    spec fn well_formed(&self) -> bool {
        valid_chain(block_views(self.blocks@))
    }

    /// A chain with no block and no pending transaction.
    pub fn new() -> (chain: Chain)
        ensures
            chain@.blocks.len() == 0,
            chain@.pending.len() == 0,
            valid_chain(chain@.blocks),
            all_mined(chain@.blocks),
    {
        Chain { blocks: Vec::new(), transactions: Vec::new() }
    }

    /// Appends the genesis block, stamped with the current time, to a chain
    /// that has no block yet.
    pub fn genesis(&mut self)
        requires
            old(self)@.blocks.len() == 0,
        ensures
            final(self)@.blocks.len() == 1,
            is_genesis(final(self)@.blocks[0]),
            final(self)@.pending == old(self)@.pending,
            old(self)@.blocks.is_prefix_of(final(self)@.blocks),
            valid_chain(final(self)@.blocks),
            all_mined(final(self)@.blocks),
    {
        proof {
            use_type_invariant(&*self);
        }
        let block = Block::genesis(unix_time());
        let mut blocks: Vec<Block> = Vec::new();
        std::mem::swap(&mut blocks, &mut self.blocks);
        blocks.push(block);
        self.blocks = blocks;
    }

    /// Puts `tx` at the end of the pending transactions.
    pub fn add_transaction(&mut self, tx: &'static str)
        ensures
            final(self)@.pending == old(self)@.pending.push(tx@),
            final(self)@.blocks == old(self)@.blocks,
    {
        proof {
            use_type_invariant(&*self);
        }
        let mut transactions: Vec<&'static str> = Vec::new();
        std::mem::swap(&mut transactions, &mut self.transactions);
        transactions.push(tx);
        self.transactions = transactions;
        assert(final(self)@.pending =~= old(self)@.pending.push(tx@));
    }

    /// Whether `block` may follow `previous_block`: it names the hash of
    /// `previous_block`, carries the next id, and the hash recomputed from
    /// its fields is the one it stores.
    pub fn is_block_valid(&self, block: &Block, previous_block: &Block) -> (ok: bool)
        ensures
            ok == follows(block@, previous_block@),
    {
        let recomputed = block.calculate_hash();
        block.follows_with(previous_block, &recomputed)
    }

    /// Appends `block` if it follows the head of the chain, and refuses it
    /// otherwise, leaving the chain as it was.
    pub fn try_add_block(&mut self, block: Block) -> (result: Result<(), ChainError>)
        requires
            old(self)@.blocks.len() > 0,
        ensures
            result is Ok <==> follows(block@, old(self)@.blocks.last()),
            result is Ok ==> final(self)@.blocks == old(self)@.blocks.push(block@),
            result is Err ==> result == Err::<(), ChainError>(ChainError::InvalidBlock)
                && final(self)@.blocks == old(self)@.blocks,
            final(self)@.pending == old(self)@.pending,
            old(self)@.blocks.is_prefix_of(final(self)@.blocks),
            valid_chain(final(self)@.blocks),
    {
        proof {
            use_type_invariant(&*self);
        }
        let head = &self.blocks[self.blocks.len() - 1];
        if self.is_block_valid(&block, head) {
            let mut blocks: Vec<Block> = Vec::new();
            std::mem::swap(&mut blocks, &mut self.blocks);
            blocks.push(block);
            proof {
                assert(block_views(blocks@) =~= old(self)@.blocks.push(block@));
                lemma_chain_grows(old(self)@.blocks, block@);
            }
            self.blocks = blocks;
            Ok(())
        } else {
            Err(ChainError::InvalidBlock)
        }
    }

    /// Mines the pending transactions into a new block at the end of the
    /// chain and empties the buffer. The chain is left as it was only when
    /// the search finds no block; the buffer is emptied then too.
    pub fn mine_block(&mut self) -> (result: Result<(), ChainError>)
        requires
            old(self)@.blocks.len() > 0,
        ensures
            final(self)@.pending.len() == 0,
            match result {
                Ok(()) => {
                    &&& final(self)@.blocks.len() == old(self)@.blocks.len() + 1
                    &&& final(self)@.blocks.drop_last() == old(self)@.blocks
                    &&& mined_after(
                        final(self)@.blocks.last(),
                        old(self)@.blocks.last(),
                        join_lines(old(self)@.pending),
                    )
                    &&& follows(final(self)@.blocks.last(), old(self)@.blocks.last())
                    &&& DIFFICULTY_PREFIX@.is_prefix_of(final(self)@.blocks.last().hash)
                    &&& old(self)@.pending.len() == 0 ==> final(self)@.blocks.last().data.len() == 0
                },
                Err(error) => {
                    &&& error == ChainError::NonceSpaceExhausted
                    &&& final(self)@.blocks == old(self)@.blocks
                    &&& search_exhausted(old(self)@.blocks.last(), join_lines(old(self)@.pending))
                },
            },
            old(self)@.blocks.is_prefix_of(final(self)@.blocks),
            all_mined(old(self)@.blocks) ==> all_mined(final(self)@.blocks),
            valid_chain(final(self)@.blocks),
    {
        proof {
            use_type_invariant(&*self);
            lemma_sequence(old(self)@.blocks, old(self)@.blocks.len() - 1);
        }
        let data = join_transactions(&self.transactions);
        let head = &self.blocks[self.blocks.len() - 1];
        let found = head.mine_next(data);
        let result = match found {
            Some(block) => {
                proof {
                    lemma_candidate_follows(
                        head@,
                        data@,
                        block@.nonce,
                        block@.timestamp,
                    );
                    lemma_mined_hash_prefix(block@);
                }
                self.try_add_block(block)
            },
            None => Err(ChainError::NonceSpaceExhausted),
        };
        self.transactions = Vec::new();
        proof {
            assert(final(self)@.pending =~= Seq::<Seq<char>>::empty());
            if result is Ok {
                assert(final(self)@.blocks.drop_last() =~= old(self)@.blocks);
            }
        }
        result
    }

    /// The blocks of the chain, oldest first: always a valid chain.
    pub fn blocks(&self) -> (blocks: &Vec<Block>)
        ensures
            block_views(blocks@) == self@.blocks,
            valid_chain(self@.blocks),
    {
        proof {
            use_type_invariant(self);
        }
        &self.blocks
    }

    /// The transactions that wait for the next block, oldest first.
    pub fn pending(&self) -> (pending: &Vec<&'static str>)
        ensures
            texts(pending@) == self@.pending,
    {
        &self.transactions
    }
}

} // verus!
