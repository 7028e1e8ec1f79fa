//! Round-trip, determinism, and malformed-input tests for blocks and block
//! headers.

use pchain_types::{
    Block, BlockHeader, Deserializable, ErrorKind, Event, Receipt, ReceiptStatusCode,
    Serializable, Transaction,
};
use pchain_types::block::BLOCKHEADER_BASESIZE;

fn next_rand(state: &mut u64) -> u64 {
    let mut x = *state;
    x ^= x << 13;
    x ^= x >> 7;
    x ^= x << 17;
    *state = x;
    x
}

fn random_bytes_dyn(state: &mut u64, n: usize) -> Vec<u8> {
    let mut res = Vec::with_capacity(n);
    for _ in 0..n {
        res.push((next_rand(state) >> 32) as u8);
    }
    res
}

fn random_arr32(state: &mut u64) -> [u8; 32] {
    let mut res = [0u8; 32];
    for i in 0..32 {
        res[i] = (next_rand(state) >> 32) as u8;
    }
    res
}

fn random_arr64(state: &mut u64) -> [u8; 64] {
    let mut res = [0u8; 64];
    for i in 0..64 {
        res[i] = (next_rand(state) >> 32) as u8;
    }
    res
}

fn random_size(state: &mut u64, min: usize, max: usize) -> usize {
    let span = max - min;
    min + if span > 0 { (next_rand(state) as usize) % span } else { 0 }
}

fn random_blockheader(state: &mut u64) -> BlockHeader {
    BlockHeader {
        blockchain_id: next_rand(state),
        block_version_number: next_rand(state),
        timestamp: next_rand(state) as u32,
        prev_block_hash: random_arr32(state),
        this_block_hash: random_arr32(state),
        txs_hash: random_arr32(state),
        state_hash: random_arr32(state),
        receipts_hash: random_arr32(state),
        proposer_public_key: random_arr32(state),
        signature: random_arr64(state),
    }
}

fn random_transaction(state: &mut u64, min_data_size: usize, max_data_size: usize) -> Transaction {
    let data_size = random_size(state, min_data_size, max_data_size);
    Transaction {
        from_address: random_arr32(state),
        to_address: random_arr32(state),
        value: next_rand(state),
        tip: next_rand(state),
        gas_limit: next_rand(state),
        gas_price: next_rand(state),
        data: random_bytes_dyn(state, data_size),
        n_txs_on_chain_from_address: next_rand(state),
        hash: random_arr32(state),
        signature: random_arr64(state),
    }
}

fn random_transactions(
    state: &mut u64,
    min_no_of_txs: usize,
    max_no_of_txs: usize,
    min_data_size: usize,
    max_data_size: usize,
) -> Vec<Transaction> {
    let no_of_txs = random_size(state, min_no_of_txs, max_no_of_txs);
    let mut ret = vec![];
    for _ in 0..no_of_txs {
        ret.push(random_transaction(state, min_data_size, max_data_size));
    }
    ret
}

fn random_event(state: &mut u64, min_data_size: usize, max_data_size: usize) -> Event {
    let topic_size = random_size(state, min_data_size, max_data_size);
    let value_size = random_size(state, min_data_size, max_data_size);
    Event {
        topic: random_bytes_dyn(state, topic_size),
        value: random_bytes_dyn(state, value_size),
    }
}

fn random_events(
    state: &mut u64,
    min_no_of_evts: usize,
    max_no_of_evts: usize,
    min_data_size: usize,
    max_data_size: usize,
) -> Vec<Event> {
    let no_of_evts = random_size(state, min_no_of_evts, max_no_of_evts);
    let mut ret = vec![];
    for _ in 0..no_of_evts {
        ret.push(random_event(state, min_data_size, max_data_size));
    }
    ret
}

fn random_receipt(
    state: &mut u64,
    min_no_of_evts: usize,
    max_no_of_evts: usize,
    min_data_size: usize,
    max_data_size: usize,
) -> Receipt {
    let value_data_size = random_size(state, min_data_size, max_data_size);
    Receipt {
        gas_consumed: next_rand(state),
        status_code: ReceiptStatusCode::Else,
        return_value: random_bytes_dyn(state, value_data_size),
        events: random_events(state, min_no_of_evts, max_no_of_evts, min_data_size, max_data_size),
    }
}

fn random_receipts(
    state: &mut u64,
    min_no_of_recps: usize,
    max_no_of_recps: usize,
    min_no_of_evts_per_recp: usize,
    max_no_of_evts_per_recp: usize,
    min_data_size: usize,
    max_data_size: usize,
) -> Vec<Receipt> {
    let no_of_recps = random_size(state, min_no_of_recps, max_no_of_recps);
    let mut ret = vec![];
    for _ in 0..no_of_recps {
        ret.push(random_receipt(
            state,
            min_no_of_evts_per_recp,
            max_no_of_evts_per_recp,
            min_data_size,
            max_data_size,
        ));
    }
    ret
}

fn assert_transaction(transaction: &Transaction, deserialized: &Transaction) {
    assert_eq!(transaction.from_address, deserialized.from_address);
    assert_eq!(transaction.to_address, deserialized.to_address);
    assert_eq!(transaction.value, deserialized.value);
    assert_eq!(transaction.tip, deserialized.tip);
    assert_eq!(transaction.gas_limit, deserialized.gas_limit);
    assert_eq!(transaction.gas_price, deserialized.gas_price);
    assert_eq!(transaction.data, deserialized.data);
    assert_eq!(
        transaction.n_txs_on_chain_from_address,
        deserialized.n_txs_on_chain_from_address
    );
    assert_eq!(transaction.hash, deserialized.hash);
    assert_eq!(transaction.signature, deserialized.signature);
}

fn assert_block(block: &Block, deserialized: &Block) {
    assert_eq!(block.header.blockchain_id, deserialized.header.blockchain_id);
    assert_eq!(block.header.block_version_number, deserialized.header.block_version_number);
    assert_eq!(block.header.timestamp, deserialized.header.timestamp);
    assert_eq!(block.header.prev_block_hash, deserialized.header.prev_block_hash);
    assert_eq!(block.header.this_block_hash, deserialized.header.this_block_hash);
    assert_eq!(block.header.txs_hash, deserialized.header.txs_hash);
    assert_eq!(block.header.state_hash, deserialized.header.state_hash);
    assert_eq!(block.header.receipts_hash, deserialized.header.receipts_hash);
    assert_eq!(block.header.proposer_public_key, deserialized.header.proposer_public_key);
    assert_eq!(block.header.signature, deserialized.header.signature);

    assert_eq!(block.transactions.len(), deserialized.transactions.len());
    assert_eq!(block.receipts.len(), deserialized.receipts.len());

    for (i, tx) in block.transactions.iter().enumerate() {
        let deserialized_tx = &deserialized.transactions[i];
        assert_transaction(tx, deserialized_tx);
    }

    for (i, recp) in block.receipts.iter().enumerate() {
        let deserialized_recp = &deserialized.receipts[i];
        assert_eq!(recp.gas_consumed, deserialized_recp.gas_consumed);
        assert_eq!(recp.status_code, deserialized_recp.status_code);
        assert_eq!(recp.return_value, deserialized_recp.return_value);
    }
}

#[test]
fn test_block() {
    let mut state: u64 = 19;
    let block = Block {
        header: random_blockheader(&mut state),
        transactions: random_transactions(&mut state, 1000, 1000, 0, 1024),
        receipts: random_receipts(&mut state, 10, 10, 500, 500, 0, 1024),
    };

    let serialized = Block::serialize(&block);
    println!("serialized size: {}", serialized.len());

    let deserialized = Block::deserialize(&serialized).unwrap();

    assert_block(&block, &deserialized)
}

#[test]
fn test_block_error() {
    let mut state: u64 = 19;
    // test empty vector
    let empty_serialized: Vec<u8> = vec![];
    assert_eq!(
        Block::deserialize(&empty_serialized).err().unwrap().kind(),
        ErrorKind::IncorrectLength
    );

    let block = Block {
        header: random_blockheader(&mut state),
        transactions: random_transactions(&mut state, 1, 1, 128, 128),
        receipts: random_receipts(&mut state, 1, 1, 1, 1, 128, 128),
    };

    let serialized = Block::serialize(&block);
    let serialized_only_header = serialized[..BLOCKHEADER_BASESIZE].to_vec();
    assert_eq!(
        Block::deserialize(&serialized_only_header).err().unwrap().kind(),
        ErrorKind::IncorrectLength
    );
    let serialized_missing_last_byte = serialized[..serialized.len() - 1].to_vec();
    assert_eq!(
        Block::deserialize(&serialized_missing_last_byte).err().unwrap().kind(),
        ErrorKind::IncorrectLength
    );
}

#[test]
fn test_block_should_be_deterministic() {
    let mut state: u64 = 23;
    let header_1 = random_blockheader(&mut state);
    let header_2 = header_1.clone();

    assert_eq!(header_1, header_2);
    assert_eq!(BlockHeader::serialize(&header_1), BlockHeader::serialize(&header_2));

    let transactions_1 = random_transactions(&mut state, 1000, 1000, 0, 1024);
    let transactions_2 = transactions_1.clone();

    assert_eq!(transactions_1, transactions_2);
    assert_eq!(
        Vec::<Transaction>::serialize(&transactions_1),
        Vec::<Transaction>::serialize(&transactions_2)
    );

    let receipts_1 = random_receipts(&mut state, 10, 10, 500, 500, 0, 1024);
    let receipts_2 = receipts_1.clone();

    assert_eq!(receipts_1, receipts_2);
    assert_eq!(Vec::<Receipt>::serialize(&receipts_1), Vec::<Receipt>::serialize(&receipts_2));

    let block_1 = Block { header: header_1, transactions: transactions_1, receipts: receipts_1 };
    let block_2 = Block { header: header_2, transactions: transactions_2, receipts: receipts_2 };

    assert_eq!(Block::serialize(&block_1), Block::serialize(&block_2));
}

#[test]
fn test_vec_blocks() {
    let mut state: u64 = 29;
    let mut blocks = vec![];
    for _ in 0..10 {
        blocks.push(Block {
            header: random_blockheader(&mut state),
            transactions: random_transactions(&mut state, 100, 100, 0, 1024),
            receipts: random_receipts(&mut state, 100, 100, 10, 10, 0, 1024),
        });
    }
    let serialized = Vec::<Block>::serialize(&blocks);

    let deserialized = Vec::<Block>::deserialize(&serialized).unwrap();

    assert_eq!(blocks.len(), deserialized.len());

    for (i, block) in blocks.iter().enumerate() {
        assert_block(block, &deserialized[i]);
    }
}

#[test]
fn test_blockheader() {
    let b = BlockHeader {
        blockchain_id: 1,
        block_version_number: 2,
        timestamp: 3,
        prev_block_hash: [1u8; 32],
        this_block_hash: [2u8; 32],
        txs_hash: [3u8; 32],
        state_hash: [4u8; 32],
        receipts_hash: [6u8; 32],
        proposer_public_key: [7u8; 32],
        signature: [8u8; 64],
    };
    let serialized = BlockHeader::serialize(&b);

    let deserialized = BlockHeader::deserialize(&serialized.as_slice()).unwrap();

    assert_eq!(b.blockchain_id, deserialized.blockchain_id);
    assert_eq!(b.block_version_number, deserialized.block_version_number);
    assert_eq!(b.timestamp, deserialized.timestamp);
    assert_eq!(b.prev_block_hash, deserialized.prev_block_hash);
    assert_eq!(b.this_block_hash, deserialized.this_block_hash);
    assert_eq!(b.txs_hash, deserialized.txs_hash);
    assert_eq!(b.state_hash, deserialized.state_hash);
    assert_eq!(b.receipts_hash, deserialized.receipts_hash);
    assert_eq!(b.proposer_public_key, deserialized.proposer_public_key);
    assert_eq!(b.signature, deserialized.signature);
}

#[test]
fn test_blockheader_error() {
    // test by removing one byte
    let b = BlockHeader {
        blockchain_id: 1,
        block_version_number: 2,
        timestamp: 3,
        prev_block_hash: [1u8; 32],
        this_block_hash: [2u8; 32],
        txs_hash: [3u8; 32],
        state_hash: [4u8; 32],
        receipts_hash: [6u8; 32],
        proposer_public_key: [7u8; 32],
        signature: [8u8; 64],
    };
    let serialized = BlockHeader::serialize(&b);
    let serialized = serialized[..(serialized.len() - 1)].to_vec();
    assert_eq!(
        BlockHeader::deserialize(&serialized).err().unwrap().kind(),
        ErrorKind::IncorrectLength
    );
}
