//! Round-trip and malformed-input tests for transactions, events, receipts,
//! and contract-deployment payloads.

use pchain_types::{
    Deserializable, ErrorKind, Event, Receipt, ReceiptStatusCode, Serializable, Transaction,
    TransactionDataContractDeployment,
};
use pchain_types::transaction::RECEIPT_STATUSCODE_OFFSET;

fn next_rand(state: &mut u64) -> u64 {
    let mut x = *state;
    x ^= x << 13;
    x ^= x >> 7;
    x ^= x << 17;
    *state = x;
    x
}

fn random_bytes_dyn(state: &mut u64, n: usize) -> Vec<u8> {
    let mut res = Vec::with_capacity(n);
    for _ in 0..n {
        res.push((next_rand(state) >> 32) as u8);
    }
    res
}

fn random_arr32(state: &mut u64) -> [u8; 32] {
    let mut res = [0u8; 32];
    for i in 0..32 {
        res[i] = (next_rand(state) >> 32) as u8;
    }
    res
}

fn random_arr64(state: &mut u64) -> [u8; 64] {
    let mut res = [0u8; 64];
    for i in 0..64 {
        res[i] = (next_rand(state) >> 32) as u8;
    }
    res
}

fn random_size(state: &mut u64, min: usize, max: usize) -> usize {
    let span = max - min;
    min + if span > 0 { (next_rand(state) as usize) % span } else { 0 }
}

fn random_transaction(state: &mut u64, min_data_size: usize, max_data_size: usize) -> Transaction {
    let data_size = random_size(state, min_data_size, max_data_size);
    Transaction {
        from_address: random_arr32(state),
        to_address: random_arr32(state),
        value: next_rand(state),
        tip: next_rand(state),
        gas_limit: next_rand(state),
        gas_price: next_rand(state),
        data: random_bytes_dyn(state, data_size),
        n_txs_on_chain_from_address: next_rand(state),
        hash: random_arr32(state),
        signature: random_arr64(state),
    }
}

fn random_transactions(
    state: &mut u64,
    min_no_of_txs: usize,
    max_no_of_txs: usize,
    min_data_size: usize,
    max_data_size: usize,
) -> Vec<Transaction> {
    let no_of_txs = random_size(state, min_no_of_txs, max_no_of_txs);
    let mut ret = vec![];
    for _ in 0..no_of_txs {
        ret.push(random_transaction(state, min_data_size, max_data_size));
    }
    ret
}

fn random_event(state: &mut u64, min_data_size: usize, max_data_size: usize) -> Event {
    let topic_data_size = random_size(state, min_data_size, max_data_size);
    let value_data_size = random_size(state, min_data_size, max_data_size);
    Event {
        topic: random_bytes_dyn(state, topic_data_size),
        value: random_bytes_dyn(state, value_data_size),
    }
}

fn random_events(
    state: &mut u64,
    min_no_of_evts: usize,
    max_no_of_evts: usize,
    min_data_size: usize,
    max_data_size: usize,
) -> Vec<Event> {
    let no_of_evts = random_size(state, min_no_of_evts, max_no_of_evts);
    let mut ret = vec![];
    for _ in 0..no_of_evts {
        ret.push(random_event(state, min_data_size, max_data_size));
    }
    ret
}

fn assert_transaction(transaction: &Transaction, deserialized: &Transaction) {
    assert_eq!(transaction.from_address, deserialized.from_address);
    assert_eq!(transaction.to_address, deserialized.to_address);
    assert_eq!(transaction.value, deserialized.value);
    assert_eq!(transaction.tip, deserialized.tip);
    assert_eq!(transaction.gas_limit, deserialized.gas_limit);
    assert_eq!(transaction.gas_price, deserialized.gas_price);
    assert_eq!(transaction.data, deserialized.data);
    assert_eq!(
        transaction.n_txs_on_chain_from_address,
        deserialized.n_txs_on_chain_from_address
    );
    assert_eq!(transaction.hash, deserialized.hash);
    assert_eq!(transaction.signature, deserialized.signature);
}

#[test]
fn test_transaction() {
    let tx = Transaction {
        from_address: [0u8; 32],
        to_address: [1u8; 32],
        value: 1,
        tip: 2,
        gas_limit: 3,
        gas_price: 4,
        data: vec![2u8; 100],
        n_txs_on_chain_from_address: 5,
        hash: [3u8; 32],
        signature: [4u8; 64],
    };
    let serialized = Transaction::serialize(&tx);

    let deserialized = Transaction::deserialize(&serialized.as_slice()).unwrap();

    assert_transaction(&tx, &deserialized);
}

#[test]
fn test_transaction_error() {
    // test empty vector
    let empty_serialized: Vec<u8> = vec![];
    assert_eq!(
        Transaction::deserialize(&empty_serialized).err().unwrap().kind(),
        ErrorKind::IncorrectLength
    );

    // test by removing one byte with empty data
    let tx = Transaction {
        from_address: [0u8; 32],
        to_address: [1u8; 32],
        value: 1,
        tip: 2,
        gas_limit: 3,
        gas_price: 4,
        data: vec![],
        n_txs_on_chain_from_address: 5,
        hash: [3u8; 32],
        signature: [4u8; 64],
    };
    let serialized = Transaction::serialize(&tx);
    let serialized = serialized[..(serialized.len() - 1)].to_vec();
    assert_eq!(
        Transaction::deserialize(&serialized).err().unwrap().kind(),
        ErrorKind::IncorrectLength
    );

    // test by removing one byte with data
    let tx = Transaction {
        from_address: [0u8; 32],
        to_address: [1u8; 32],
        value: 1,
        tip: 2,
        gas_limit: 3,
        gas_price: 4,
        data: vec![1u8; 100],
        n_txs_on_chain_from_address: 5,
        hash: [3u8; 32],
        signature: [4u8; 64],
    };
    let serialized = Transaction::serialize(&tx);
    let serialized = serialized[..(serialized.len() - 1)].to_vec();
    assert_eq!(
        Transaction::deserialize(&serialized).err().unwrap().kind(),
        ErrorKind::IncorrectLength
    );
}

#[test]
fn test_vec_transactions() {
    let mut state: u64 = 11;
    let transactions = random_transactions(&mut state, 100, 100, 0, 1024);

    let serialized = Vec::<Transaction>::serialize(&transactions);

    let deserialized = Vec::<Transaction>::deserialize(&serialized).unwrap();

    assert_eq!(transactions.len(), deserialized.len());

    for (i, tx) in transactions.iter().enumerate() {
        let deserialized_tx = &deserialized[i];
        assert_transaction(&tx, deserialized_tx);
    }
}

#[test]
fn test_transactiondatacontractdeployment() {
    let mut state: u64 = 13;
    let txdata = TransactionDataContractDeployment {
        contract_code: random_bytes_dyn(&mut state, 100_000),
        contract_init_arguments: random_bytes_dyn(&mut state, 10_24),
    };
    let serialized = TransactionDataContractDeployment::serialize(&txdata);
    let deserialzied = TransactionDataContractDeployment::deserialize(&serialized).unwrap();

    assert_eq!(txdata.contract_code, deserialzied.contract_code);
    assert_eq!(txdata.contract_init_arguments, deserialzied.contract_init_arguments);
}

#[test]
fn test_transactiondatacontractdeployment_error() {
    let mut state: u64 = 13;
    // test empty vector
    let empty_serialized: Vec<u8> = vec![];
    assert_eq!(
        TransactionDataContractDeployment::deserialize(&empty_serialized).err().unwrap().kind(),
        ErrorKind::IncorrectLength
    );

    // test by removing one byte
    let txdata = TransactionDataContractDeployment {
        contract_code: random_bytes_dyn(&mut state, 100_000),
        contract_init_arguments: random_bytes_dyn(&mut state, 10_24),
    };
    let serialized = TransactionDataContractDeployment::serialize(&txdata);
    let serialized = serialized[..serialized.len() - 1].to_vec();
    assert_eq!(
        TransactionDataContractDeployment::deserialize(&serialized).err().unwrap().kind(),
        ErrorKind::IncorrectLength
    );
}

#[test]
fn test_event() {
    let e = Event { topic: vec![10, 20, 30, 40, 50, 60], value: vec![6, 2, 3] };

    let serialized = Event::serialize(&e);

    let deserialized = Event::deserialize(&serialized.as_slice()).unwrap();

    assert_eq!(e.topic, deserialized.topic);
    assert_eq!(e.value, deserialized.value);
}

#[test]
fn test_event_error() {
    // test empty vector
    let empty_serialized: Vec<u8> = vec![];
    assert_eq!(
        Event::deserialize(&empty_serialized).err().unwrap().kind(),
        ErrorKind::IncorrectLength
    );

    // test by removing one byte
    let e = Event { topic: vec![10, 20, 30, 40, 50, 60], value: vec![6, 2, 3] };
    let serialized = Event::serialize(&e);
    let serialized = serialized[..serialized.len() - 1].to_vec();
    assert_eq!(
        Event::deserialize(&serialized).err().unwrap().kind(),
        ErrorKind::IncorrectLength
    );
}

#[test]
fn test_receipt() {
    let mut state: u64 = 17;
    let r = Receipt {
        gas_consumed: 102,
        status_code: ReceiptStatusCode::InternalRuntimeError,
        return_value: vec![],
        events: random_events(&mut state, 10, 10, 0, 1024),
    };

    let serialized = Receipt::serialize(&r);
    let deserialized = Receipt::deserialize(&serialized.as_slice()).unwrap();

    assert_eq!(r.status_code, deserialized.status_code);
    assert_eq!(r.return_value, deserialized.return_value);
    assert_eq!(r.events.len(), deserialized.events.len());
    for (i, evt) in r.events.iter().enumerate() {
        let deserialized_evt = &deserialized.events[i];
        assert_eq!(evt.topic, deserialized_evt.topic);
        assert_eq!(evt.value, deserialized_evt.value);
    }
}

#[test]
fn test_receipt_error() {
    let mut state: u64 = 17;
    // test empty vector
    let empty_serialized: Vec<u8> = vec![];
    assert_eq!(
        Receipt::deserialize(&empty_serialized).err().unwrap().kind(),
        ErrorKind::IncorrectLength
    );

    // test by removing one byte
    let r = Receipt {
        gas_consumed: 102,
        status_code: ReceiptStatusCode::InternalRuntimeError,
        return_value: vec![],
        events: random_events(&mut state, 10, 10, 0, 1024),
    };
    let mut serialized = Receipt::serialize(&r);
    let serialized_missing_last_byte = serialized[..serialized.len() - 1].to_vec();
    assert_eq!(
        Receipt::deserialize(&serialized_missing_last_byte).err().unwrap().kind(),
        ErrorKind::IncorrectLength
    );

    // test wrong receipt status code
    serialized[RECEIPT_STATUSCODE_OFFSET] = 255;
    assert_eq!(
        Receipt::deserialize(&serialized).err().unwrap().kind(),
        ErrorKind::ReceiptStatusCodeOutOfRange
    );
}
