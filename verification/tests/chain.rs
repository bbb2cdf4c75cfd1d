use blockchain::block::Block;
use blockchain::chain::{join_transactions, Chain, ChainError};
use blockchain::hasher::DIFFICULTY_PREFIX;

fn started() -> Chain {
    let mut chain = Chain::new();
    chain.genesis();
    chain
}

fn assert_linked(chain: &Chain) {
    let blocks = chain.blocks();
    if !blocks.is_empty() {
        assert_eq!(blocks[0].id, 0);
    }
    for i in 1..blocks.len() {
        assert_eq!(blocks[i].previous_hash, blocks[i - 1].hash);
        assert_eq!(blocks[i].id, blocks[i - 1].id + 1);
        assert_eq!(blocks[i].calculate_hash(), blocks[i].hash);
        assert!(blocks[i].hash.starts_with(DIFFICULTY_PREFIX));
        assert!(chain.is_block_valid(&blocks[i], &blocks[i - 1]));
    }
}

#[test]
fn new_chain_is_empty() {
    let chain = Chain::new();
    assert!(chain.blocks().is_empty());
    assert!(chain.pending().is_empty());
}

#[test]
fn genesis_appends_the_sentinel_block() {
    let chain = started();
    let blocks = chain.blocks();
    assert_eq!(blocks.len(), 1);
    assert_eq!(blocks[0].id, 0);
    assert_eq!(blocks[0].hash, "0".repeat(64));
    assert_eq!(blocks[0].previous_hash, "GENESIS");
    assert_eq!(blocks[0].data, "GENESIS");
    assert_eq!(blocks[0].nonce, 0);
    assert!(blocks[0].timestamp >= 0);
    assert!(chain.pending().is_empty());
}

#[test]
fn genesis_keeps_pending_transactions() {
    let mut chain = Chain::new();
    chain.add_transaction("early");
    chain.genesis();
    assert_eq!(chain.pending(), &vec!["early"]);
}

#[test]
fn add_transaction_appends_in_order_without_deduplication() {
    let mut chain = started();
    chain.add_transaction("a");
    chain.add_transaction("b");
    chain.add_transaction("a");
    chain.add_transaction("");
    assert_eq!(chain.pending(), &vec!["a", "b", "a", ""]);
    assert_eq!(chain.blocks().len(), 1);
}

#[test]
fn join_transactions_puts_line_feeds_between() {
    assert_eq!(join_transactions(&vec![]), "");
    assert_eq!(join_transactions(&vec!["tx1"]), "tx1");
    assert_eq!(join_transactions(&vec!["tx1", "tx2"]), "tx1\ntx2");
    assert_eq!(join_transactions(&vec!["", "", ""]), "\n\n");
    assert_eq!(join_transactions(&vec!["a\nb", "c"]), "a\nb\nc");
}

#[test]
fn mine_one_transaction_after_genesis() {
    let mut chain = started();
    chain.add_transaction("tx1");
    assert_eq!(chain.mine_block(), Ok(()));
    let blocks = chain.blocks();
    assert_eq!(blocks.len(), 2);
    assert_eq!(blocks[1].data, "tx1");
    assert_eq!(blocks[1].previous_hash, blocks[0].hash);
    assert_eq!(blocks[1].previous_hash, "0".repeat(64));
    assert_eq!(blocks[1].id, 1);
}

#[test]
fn mine_two_transactions_joins_them() {
    let mut chain = started();
    chain.add_transaction("tx1");
    chain.add_transaction("tx2");
    assert_eq!(chain.mine_block(), Ok(()));
    assert_eq!(chain.blocks()[1].data, "tx1\ntx2");
}

#[test]
fn mine_three_times_in_a_row() {
    let mut chain = started();
    for tx in ["first", "second", "third"] {
        chain.add_transaction(tx);
        assert_eq!(chain.mine_block(), Ok(()));
    }
    let blocks = chain.blocks();
    assert_eq!(blocks.len(), 4);
    let ids: Vec<u64> = blocks.iter().map(|block| block.id).collect();
    assert_eq!(ids, vec![0, 1, 2, 3]);
    for i in 1..blocks.len() {
        assert_eq!(blocks[i].previous_hash, blocks[i - 1].hash);
    }
    assert_eq!(blocks[1].data, "first");
    assert_eq!(blocks[2].data, "second");
    assert_eq!(blocks[3].data, "third");
    assert_linked(&chain);
}

#[test]
fn mined_chain_keeps_every_invariant() {
    let mut chain = started();
    chain.add_transaction("001: 10.23 -> 002");
    assert_eq!(chain.mine_block(), Ok(()));
    chain.add_transaction("003: 9.00 -> 001");
    chain.add_transaction("002: 2.19 -> 004");
    chain.add_transaction("005: 3.12 -> 004");
    assert_eq!(chain.mine_block(), Ok(()));
    assert_eq!(chain.mine_block(), Ok(()));
    assert_eq!(chain.blocks().len(), 4);
    assert_linked(&chain);
}

#[test]
fn mine_empties_the_buffer() {
    let mut chain = started();
    for tx in ["a", "b", "c", "d", "e"] {
        chain.add_transaction(tx);
    }
    assert_eq!(chain.pending().len(), 5);
    assert_eq!(chain.mine_block(), Ok(()));
    assert!(chain.pending().is_empty());
    assert_eq!(chain.mine_block(), Ok(()));
    assert!(chain.pending().is_empty());
    assert_eq!(chain.blocks()[1].data, "a\nb\nc\nd\ne");
    assert_eq!(chain.blocks()[2].data, "");
}

#[test]
fn mine_with_no_transaction_gives_a_valid_empty_block() {
    let mut chain = started();
    assert_eq!(chain.mine_block(), Ok(()));
    let blocks = chain.blocks();
    assert_eq!(blocks.len(), 2);
    assert_eq!(blocks[1].data, "");
    assert!(chain.is_block_valid(&blocks[1], &blocks[0]));
    assert_linked(&chain);
}

#[test]
fn tampered_data_fails_validation() {
    let mut chain = started();
    chain.add_transaction("tx1");
    assert_eq!(chain.mine_block(), Ok(()));
    let blocks = chain.blocks();
    assert!(chain.is_block_valid(&blocks[1], &blocks[0]));
    let mut tampered = blocks[1].clone();
    tampered.data = String::from("tx1 and more");
    assert_eq!(tampered.hash, blocks[1].hash);
    assert!(!chain.is_block_valid(&tampered, &blocks[0]));
}

#[test]
fn is_block_valid_checks_each_rule() {
    let chain = started();
    let previous = chain.blocks()[0].clone();
    let mut block = Block {
        id: 1,
        hash: String::new(),
        previous_hash: previous.hash.clone(),
        timestamp: 1_700_000_000,
        data: String::from("tx1"),
        nonce: 3,
    };
    block.hash = block.calculate_hash();
    assert!(chain.is_block_valid(&block, &previous));

    let mut wrong_link = block.clone();
    wrong_link.previous_hash = String::from("GENESIS");
    wrong_link.hash = wrong_link.calculate_hash();
    assert!(!chain.is_block_valid(&wrong_link, &previous));

    let mut wrong_id = block.clone();
    wrong_id.id = 2;
    wrong_id.hash = wrong_id.calculate_hash();
    assert!(!chain.is_block_valid(&wrong_id, &previous));

    let mut wrong_hash = block.clone();
    wrong_hash.hash = "0".repeat(64);
    assert!(!chain.is_block_valid(&wrong_hash, &previous));

    let mut wrong_nonce = block.clone();
    wrong_nonce.nonce = 4;
    assert!(!chain.is_block_valid(&wrong_nonce, &previous));

    let mut wrong_time = block.clone();
    wrong_time.timestamp = 1_700_000_001;
    assert!(!chain.is_block_valid(&wrong_time, &previous));
}

#[test]
fn try_add_block_appends_a_block_that_follows() {
    let mut chain = started();
    chain.add_transaction("waiting");
    let mut block = Block {
        id: 1,
        hash: String::new(),
        previous_hash: "0".repeat(64),
        timestamp: 12,
        data: String::from("by hand"),
        nonce: 0,
    };
    block.hash = block.calculate_hash();
    assert_eq!(chain.try_add_block(block.clone()), Ok(()));
    assert_eq!(chain.blocks().len(), 2);
    assert_eq!(chain.blocks()[1], block);
    assert_eq!(chain.pending(), &vec!["waiting"]);
}

#[test]
fn try_add_block_refuses_an_invalid_block_and_keeps_the_chain() {
    let mut chain = started();
    chain.add_transaction("tx1");
    assert_eq!(chain.mine_block(), Ok(()));
    chain.add_transaction("waiting");
    let before = chain.blocks().clone();

    let mut tampered = before[1].clone();
    tampered.id = 2;
    tampered.previous_hash = before[1].hash.clone();
    assert_eq!(chain.try_add_block(tampered), Err(ChainError::InvalidBlock));
    assert_eq!(chain.blocks(), &before);

    let repeated = before[1].clone();
    assert_eq!(chain.try_add_block(repeated), Err(ChainError::InvalidBlock));
    assert_eq!(chain.try_add_block(Block::genesis(0)), Err(ChainError::InvalidBlock));
    assert_eq!(chain.blocks(), &before);
    assert_eq!(chain.pending(), &vec!["waiting"]);
}

#[test]
fn mining_goes_on_after_a_block_added_by_hand() {
    let mut chain = started();
    let mut block = Block {
        id: 1,
        hash: String::new(),
        previous_hash: "0".repeat(64),
        timestamp: 12,
        data: String::from("by hand"),
        nonce: 0,
    };
    block.hash = block.calculate_hash();
    assert_eq!(chain.try_add_block(block.clone()), Ok(()));
    chain.add_transaction("next");
    assert_eq!(chain.mine_block(), Ok(()));
    let blocks = chain.blocks();
    assert_eq!(blocks.len(), 3);
    assert_eq!(blocks[2].id, 2);
    assert_eq!(blocks[2].previous_hash, block.hash);
    assert!(blocks[2].hash.starts_with("00"));
    assert!(chain.is_block_valid(&blocks[2], &blocks[1]));
}
