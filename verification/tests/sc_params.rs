//! Round-trip and malformed-input tests for the execution-parameter bundles.

use pchain_types::{CallData, Deserializable, ErrorKind, ParamsFromBlockchain, ParamsFromTransaction, Serializable};

fn next_rand(state: &mut u64) -> u64 {
    let mut x = *state;
    x ^= x << 13;
    x ^= x >> 7;
    x ^= x << 17;
    *state = x;
    x
}

fn random_bytes_dyn(state: &mut u64, n: usize) -> Vec<u8> {
    let mut res = Vec::with_capacity(n);
    for _ in 0..n {
        res.push((next_rand(state) >> 32) as u8);
    }
    res
}

#[test]
fn test_paramsfromtransaction() {
    let tx_param = ParamsFromTransaction {
        from_address: [0u8; 32],
        to_address: [1u8; 32],
        value: 99,
        data: vec![2u8; 101],
        transaction_hash: [3u8; 32],
    };
    let serialized = ParamsFromTransaction::serialize(&tx_param);

    let deserialized = ParamsFromTransaction::deserialize(&serialized.as_slice()).unwrap();

    assert_eq!(tx_param.from_address, deserialized.from_address);
    assert_eq!(tx_param.to_address, deserialized.to_address);
    assert_eq!(tx_param.value, deserialized.value);
    assert_eq!(tx_param.data, deserialized.data);
    assert_eq!(tx_param.transaction_hash, deserialized.transaction_hash);
}

#[test]
fn test_paramsfromtransaction_error() {
    // test empty vector
    let empty_serialized: Vec<u8> = vec![];
    assert_eq!(
        ParamsFromTransaction::deserialize(&empty_serialized).err().unwrap().kind(),
        ErrorKind::IncorrectLength
    );

    // test by removing one byte with empty data
    let tx_param = ParamsFromTransaction {
        from_address: [0u8; 32],
        to_address: [1u8; 32],
        value: 99,
        data: vec![],
        transaction_hash: [3u8; 32],
    };
    let serialized = ParamsFromTransaction::serialize(&tx_param);
    let serialized = serialized[..serialized.len() - 1].to_vec();
    assert_eq!(
        ParamsFromTransaction::deserialize(&serialized).err().unwrap().kind(),
        ErrorKind::IncorrectLength
    );

    // test by removing one byte with data
    let tx_param = ParamsFromTransaction {
        from_address: [0u8; 32],
        to_address: [1u8; 32],
        value: 99,
        data: vec![2u8; 101],
        transaction_hash: [3u8; 32],
    };
    let serialized = ParamsFromTransaction::serialize(&tx_param);
    let serialized = serialized[..serialized.len() - 1].to_vec();
    assert_eq!(
        ParamsFromTransaction::deserialize(&serialized).err().unwrap().kind(),
        ErrorKind::IncorrectLength
    );
}

#[test]
fn test_paramsfromblockchain() {
    let bc_param = ParamsFromBlockchain {
        this_block_number: 123,
        prev_block_hash: [99u8; 32],
        timestamp: 111110,
        random_bytes: [255u8; 32],
    };

    let serialized = ParamsFromBlockchain::serialize(&bc_param);

    let deserialized = ParamsFromBlockchain::deserialize(&serialized.as_slice()).unwrap();

    assert_eq!(bc_param.this_block_number, deserialized.this_block_number);
    assert_eq!(bc_param.prev_block_hash, deserialized.prev_block_hash);
    assert_eq!(bc_param.timestamp, deserialized.timestamp);
    assert_eq!(bc_param.random_bytes, deserialized.random_bytes);
}

#[test]
fn test_paramsfromblockchain_error() {
    // test empty vector
    let empty_serialized: Vec<u8> = vec![];
    assert_eq!(
        ParamsFromBlockchain::deserialize(&empty_serialized).err().unwrap().kind(),
        ErrorKind::IncorrectLength
    );

    // test by removing one byte
    let bc_param = ParamsFromBlockchain {
        this_block_number: 123,
        prev_block_hash: [99u8; 32],
        timestamp: 111110,
        random_bytes: [255u8; 32],
    };
    let serialized = ParamsFromBlockchain::serialize(&bc_param);
    let serialized = serialized[..serialized.len() - 1].to_vec();
    assert_eq!(
        ParamsFromBlockchain::deserialize(&serialized).err().unwrap().kind(),
        ErrorKind::IncorrectLength
    );
}

#[test]
fn test_calldata() {
    let mut state: u64 = 7;
    let call_data = CallData {
        method_name: "call data".to_string(),
        arguments: random_bytes_dyn(&mut state, 34),
    };

    let serialized = CallData::serialize(&call_data);

    let deserialized = CallData::deserialize(&serialized.as_slice()).unwrap();

    assert_eq!(call_data.method_name, deserialized.method_name);
    assert_eq!(call_data.arguments, deserialized.arguments);
}

#[test]
fn test_calldata_error() {
    let mut state: u64 = 7;
    // test empty vector
    let empty_serialized: Vec<u8> = vec![];
    assert_eq!(
        CallData::deserialize(&empty_serialized).err().unwrap().kind(),
        ErrorKind::IncorrectLength
    );

    // test by removing one byte
    let call_data = CallData {
        method_name: "call data".to_string(),
        arguments: random_bytes_dyn(&mut state, 34),
    };
    let serialized = CallData::serialize(&call_data);
    let serialized_truncated = serialized[..serialized.len() - 1].to_vec();
    assert_eq!(
        CallData::deserialize(&serialized_truncated).err().unwrap().kind(),
        ErrorKind::IncorrectLength
    );

    // test for invalid utf8 bytes
    let mut serialized = CallData::serialize(&call_data);
    serialized[9] = 129;
    println!("{:?}", serialized);
    assert_eq!(
        CallData::deserialize(&serialized).err().unwrap().kind(),
        ErrorKind::StringParseError
    );
}
