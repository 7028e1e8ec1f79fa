//! Tests of the codec's stated properties: status-code totality, exact
//! encoded sizes, format-table consistency, empty variable fields, and the
//! binary-to-text encoding.

use pchain_types::{
    Base64URL, Block, BlockHeader, CallData, Deserializable, Error, ErrorKind, Event, Receipt,
    ReceiptStatusCode, Serializable, Transaction,
};
use pchain_types::block::{BLOCKHEADER_BASESIZE, BLOCK_SIZES_BASESIZE};
use pchain_types::proofs::{MERKLEPROOF_BASESIZE, STATEPROOFS_BASESIZE};
use pchain_types::sc_params::{
    CALLDATA_BASESIZE, PARAMS_FROM_BLOCKCHAIN_BASESIZE, PARAMS_FROM_TRANSACTION_BASESIZE,
};
use pchain_types::transaction::{
    EVENT_BASESIZE, RECEIPT_BASESIZE, TRANSACTION_BASESIZE,
    TRANSACTION_DATA_CONTRACT_DEPLOYMENT_BASESIZE,
};

fn all_status_codes() -> Vec<ReceiptStatusCode> {
    vec![
        ReceiptStatusCode::Success,
        ReceiptStatusCode::WrongNonce,
        ReceiptStatusCode::NotEnoughBalanceForGasLimit,
        ReceiptStatusCode::NotEnoughBalanceForTransfer,
        ReceiptStatusCode::PreExecutionGasExhausted,
        ReceiptStatusCode::DisallowedOpcode,
        ReceiptStatusCode::CannotCompile,
        ReceiptStatusCode::NoExportedContractMethod,
        ReceiptStatusCode::OtherDeployError,
        ReceiptStatusCode::ExecutionProperGasExhausted,
        ReceiptStatusCode::RuntimeError,
        ReceiptStatusCode::InternalExecutionProperGasExhaustion,
        ReceiptStatusCode::InternalRuntimeError,
        ReceiptStatusCode::InternalNotEnoughBalanceForTransfer,
        ReceiptStatusCode::Else,
    ]
}

#[test]
fn test_status_codes() {
    all_status_codes().iter().for_each(|c| {
        let code = c.clone();
        let byte: u8 = code.clone().into();
        let code_from_byte: ReceiptStatusCode = ReceiptStatusCode::try_from(byte).unwrap();
        assert_eq!(code, code_from_byte);
    });
}

#[test]
fn test_status_code_out_of_range() {
    assert_eq!(
        ReceiptStatusCode::try_from(255).err().unwrap().kind(),
        ErrorKind::ReceiptStatusCodeOutOfRange
    );
    // the defined bytes are exactly the fifteen reserved values
    let defined: Vec<u8> = all_status_codes().into_iter().map(|c| c.into()).collect();
    for b in 0..=255u8 {
        assert_eq!(ReceiptStatusCode::try_from(b).is_ok(), defined.contains(&b));
    }
}

#[test]
fn test_status_code_predicates() {
    assert!(ReceiptStatusCode::Success.is_success());
    assert!(!ReceiptStatusCode::WrongNonce.is_success());
    assert!(ReceiptStatusCode::Success.is_includable());
    assert!(ReceiptStatusCode::RuntimeError.is_includable());
    assert!(!ReceiptStatusCode::WrongNonce.is_includable());
    assert!(!ReceiptStatusCode::PreExecutionGasExhausted.is_includable());
    assert!(ReceiptStatusCode::WrongNonce.is_retryable());
    assert!(ReceiptStatusCode::NotEnoughBalanceForTransfer.is_retryable());
    assert!(!ReceiptStatusCode::Success.is_retryable());

    let receipt = Receipt {
        status_code: ReceiptStatusCode::NotEnoughBalanceForGasLimit,
        gas_consumed: 1,
        return_value: vec![],
        events: vec![],
    };
    assert!(!receipt.is_success());
    assert!(!receipt.is_includable());
    assert!(receipt.is_retryable());
}

#[test]
fn test_transaction_exact_size() {
    // a transaction with 100 bytes of data encodes to exactly 204 + 100 bytes
    let tx = Transaction {
        from_address: [9u8; 32],
        to_address: [8u8; 32],
        value: 7,
        tip: 6,
        gas_limit: 5,
        gas_price: 4,
        data: vec![3u8; 100],
        n_txs_on_chain_from_address: 2,
        hash: [1u8; 32],
        signature: [0u8; 64],
    };
    let serialized = Transaction::serialize(&tx);
    assert_eq!(serialized.len(), 304);
    assert_eq!(Transaction::size_of(&tx), 304);

    // truncating to 303 bytes fails with IncorrectLength
    let truncated = serialized[..303].to_vec();
    assert_eq!(
        Transaction::deserialize(&truncated).err().unwrap().kind(),
        ErrorKind::IncorrectLength
    );
}

#[test]
fn test_format_tables() {
    // each entity's base size is the sum of its fixed field sizes, laid out
    // contiguously and gap-free
    let blockheader_fields: Vec<usize> = vec![8, 8, 4, 32, 32, 32, 32, 32, 32, 64];
    assert_eq!(blockheader_fields.iter().sum::<usize>(), BLOCKHEADER_BASESIZE);
    let transaction_fields: Vec<usize> = vec![32, 32, 8, 8, 8, 8, 8, 32, 64, 4];
    assert_eq!(transaction_fields.iter().sum::<usize>(), TRANSACTION_BASESIZE);
    let receipt_fields: Vec<usize> = vec![1, 8, 4, 4];
    assert_eq!(receipt_fields.iter().sum::<usize>(), RECEIPT_BASESIZE);
    let event_fields: Vec<usize> = vec![4, 4];
    assert_eq!(event_fields.iter().sum::<usize>(), EVENT_BASESIZE);
    let deployment_fields: Vec<usize> = vec![4, 4];
    assert_eq!(
        deployment_fields.iter().sum::<usize>(),
        TRANSACTION_DATA_CONTRACT_DEPLOYMENT_BASESIZE
    );
    let merkleproof_fields: Vec<usize> = vec![32, 4, 4, 4, 4];
    assert_eq!(merkleproof_fields.iter().sum::<usize>(), MERKLEPROOF_BASESIZE);
    let stateproofs_fields: Vec<usize> = vec![32, 4, 4];
    assert_eq!(stateproofs_fields.iter().sum::<usize>(), STATEPROOFS_BASESIZE);
    let params_tx_fields: Vec<usize> = vec![32, 32, 8, 32, 4];
    assert_eq!(params_tx_fields.iter().sum::<usize>(), PARAMS_FROM_TRANSACTION_BASESIZE);
    let params_bc_fields: Vec<usize> = vec![8, 32, 4, 32];
    assert_eq!(params_bc_fields.iter().sum::<usize>(), PARAMS_FROM_BLOCKCHAIN_BASESIZE);
    let calldata_fields: Vec<usize> = vec![4, 4];
    assert_eq!(calldata_fields.iter().sum::<usize>(), CALLDATA_BASESIZE);
    assert_eq!(BLOCK_SIZES_BASESIZE, 8);

    // an entity with empty variable fields encodes to exactly its base size
    let header = BlockHeader {
        blockchain_id: 0,
        block_version_number: 0,
        timestamp: 0,
        prev_block_hash: [0u8; 32],
        this_block_hash: [0u8; 32],
        txs_hash: [0u8; 32],
        state_hash: [0u8; 32],
        receipts_hash: [0u8; 32],
        proposer_public_key: [0u8; 32],
        signature: [0u8; 64],
    };
    assert_eq!(BlockHeader::serialize(&header).len(), BLOCKHEADER_BASESIZE);
    let receipt = Receipt {
        status_code: ReceiptStatusCode::Success,
        gas_consumed: 0,
        return_value: vec![],
        events: vec![],
    };
    assert_eq!(Receipt::serialize(&receipt).len(), RECEIPT_BASESIZE);
    let event = Event { topic: vec![], value: vec![] };
    assert_eq!(Event::serialize(&event).len(), EVENT_BASESIZE);
    assert_eq!(Event::size_of(&event), EVENT_BASESIZE);
    let block = Block { header, transactions: vec![], receipts: vec![] };
    assert_eq!(
        Block::serialize(&block).len(),
        BLOCKHEADER_BASESIZE + BLOCK_SIZES_BASESIZE
    );
}

#[test]
fn test_empty_variable_fields_roundtrip() {
    // empty data, empty events, empty proof: all round-trip
    let tx = Transaction {
        from_address: [1u8; 32],
        to_address: [2u8; 32],
        value: 0,
        tip: 0,
        gas_limit: 0,
        gas_price: 0,
        data: vec![],
        n_txs_on_chain_from_address: 0,
        hash: [3u8; 32],
        signature: [4u8; 64],
    };
    assert_eq!(Transaction::deserialize(&Transaction::serialize(&tx)).unwrap(), tx);

    let receipt = Receipt {
        status_code: ReceiptStatusCode::Else,
        gas_consumed: 9,
        return_value: vec![],
        events: vec![],
    };
    assert_eq!(Receipt::deserialize(&Receipt::serialize(&receipt)).unwrap(), receipt);

    let call_data = CallData { method_name: String::new(), arguments: vec![] };
    let decoded = CallData::deserialize(&CallData::serialize(&call_data)).unwrap();
    assert_eq!(decoded.method_name, "");
    assert_eq!(decoded.arguments, Vec::<u8>::new());

    let block = Block {
        header: BlockHeader {
            blockchain_id: 1,
            block_version_number: 2,
            timestamp: 3,
            prev_block_hash: [1u8; 32],
            this_block_hash: [2u8; 32],
            txs_hash: [3u8; 32],
            state_hash: [4u8; 32],
            receipts_hash: [5u8; 32],
            proposer_public_key: [6u8; 32],
            signature: [7u8; 64],
        },
        transactions: vec![],
        receipts: vec![],
    };
    assert_eq!(Block::deserialize(&Block::serialize(&block)).unwrap(), block);
}

#[test]
fn test_error_kinds() {
    assert_eq!(Error::new(ErrorKind::IncorrectLength).kind(), ErrorKind::IncorrectLength);
    assert_eq!(
        Error::new(ErrorKind::ReceiptStatusCodeOutOfRange).kind(),
        ErrorKind::ReceiptStatusCodeOutOfRange
    );
    assert_eq!(Error::new(ErrorKind::StringParseError).kind(), ErrorKind::StringParseError);
}

#[test]
fn test_base64url() {
    // a known vector of the URL-safe, unpadded alphabet
    let encoded = Base64URL::encode(&[102u8, 111, 111, 98, 97, 114]);
    assert_eq!(encoded.as_string(), "Zm9vYmFy");

    // decoding inverts encoding, also on bytes outside ASCII
    let bytes = vec![255u8, 0, 254, 1, 253, 2];
    let text = Base64URL::encode(&bytes);
    let decoded = Base64URL::decode(text.as_string()).unwrap();
    assert_eq!(decoded, bytes);

    // no padding appears, and invalid text is rejected
    assert!(!encoded.as_string().contains('='));
    assert!(Base64URL::decode("not base64url!").is_err());
}
