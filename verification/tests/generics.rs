//! Round-trip tests for the generic composition layer: integers, raw byte
//! vectors, nested sequences, optional values, and tuples.

use pchain_types::{Deserializable, ErrorKind, MerkleProof, Serializable, StateProofs};

fn next_rand(state: &mut u64) -> u64 {
    let mut x = *state;
    x ^= x << 13;
    x ^= x >> 7;
    x ^= x << 17;
    *state = x;
    x
}

fn random_bytes_dyn(state: &mut u64, n: usize) -> Vec<u8> {
    let mut res = Vec::with_capacity(n);
    for _ in 0..n {
        res.push((next_rand(state) >> 32) as u8);
    }
    res
}

fn random_arr32(state: &mut u64) -> [u8; 32] {
    let mut res = [0u8; 32];
    for i in 0..32 {
        res[i] = (next_rand(state) >> 32) as u8;
    }
    res
}

#[test]
fn test_generics() {
    let mut state: u64 = 31;

    // u32
    let the_u32 = 1234_u32;
    let serialized = u32::serialize(&the_u32);
    let deserialized = u32::deserialize(&serialized).unwrap();
    assert_eq!(the_u32, deserialized);

    // u64
    let the_u64 = 1234123412341234_u64;
    let serialized = u64::serialize(&the_u64);
    let deserialized = u64::deserialize(&serialized).unwrap();
    assert_eq!(the_u64, deserialized);

    // Vec<u8>
    let vs = vec![];
    let serialized = Vec::<u8>::serialize(&vs);
    let deserialized = Vec::<u8>::deserialize(&serialized).unwrap();
    assert_eq!(vs, deserialized);

    let vs = random_bytes_dyn(&mut state, 1024);
    let serialized = Vec::<u8>::serialize(&vs);
    let deserialized = Vec::<u8>::deserialize(&serialized).unwrap();
    assert_eq!(vs, deserialized);

    // Vec<Vec<u8>>
    let vvs: Vec<Vec<u8>> = vec![vec![], vec![]];
    let serialized = Vec::<Vec<u8>>::serialize(&vvs);
    let deserialized = Vec::<Vec<u8>>::deserialize(&serialized).unwrap();
    vvs.into_iter().enumerate().for_each(|(i, s)| {
        assert_eq!(s, deserialized[i]);
    });

    let vvs = vec![random_bytes_dyn(&mut state, 1024), random_bytes_dyn(&mut state, 1024)];
    let serialized = Vec::<Vec<u8>>::serialize(&vvs);
    let deserialized = Vec::<Vec<u8>>::deserialize(&serialized).unwrap();
    vvs.into_iter().enumerate().for_each(|(i, s)| {
        assert_eq!(s, deserialized[i]);
    });

    // Option<Vec<u8>>
    let none_vs = None;
    let serialized = Option::<Vec<u8>>::serialize(&none_vs);
    let deserialized = Option::<Vec<u8>>::deserialize(&serialized).unwrap();
    assert_eq!(none_vs, deserialized);

    let some_vs = Some(random_bytes_dyn(&mut state, 1024));
    let serialized = Option::<Vec<u8>>::serialize(&some_vs);
    let deserialized = Option::<Vec<u8>>::deserialize(&serialized).unwrap();
    assert_eq!(some_vs, deserialized);

    // (Vec<u8>, Option<Vec<u8>>)
    let vs_none: (Vec<u8>, Option<Vec<u8>>) = (random_bytes_dyn(&mut state, 128), None);
    let serialized = <(Vec::<u8>, Option::<Vec::<u8>>)>::serialize(&vs_none);
    let deserialized = <(Vec::<u8>, Option::<Vec::<u8>>)>::deserialize(&serialized).unwrap();
    assert_eq!(vs_none, deserialized);

    let vs_some: (Vec<u8>, Option<Vec<u8>>) = (
        random_bytes_dyn(&mut state, 128),
        Some(random_bytes_dyn(&mut state, 256)),
    );
    let serialized = <(Vec::<u8>, Option::<Vec::<u8>>)>::serialize(&vs_some);
    let deserialized = <(Vec::<u8>, Option::<Vec::<u8>>)>::deserialize(&serialized).unwrap();
    assert_eq!(vs_some, deserialized);
}

#[test]
fn test_generics_tuple3() {
    let mut state: u64 = 37;
    let triple: (Vec<u8>, Vec<u8>, Option<Vec<u8>>) = (
        random_bytes_dyn(&mut state, 16),
        vec![],
        Some(random_bytes_dyn(&mut state, 64)),
    );
    let serialized = <(Vec<u8>, Vec<u8>, Option<Vec<u8>>)>::serialize(&triple);
    let deserialized = <(Vec<u8>, Vec<u8>, Option<Vec<u8>>)>::deserialize(&serialized).unwrap();
    assert_eq!(triple, deserialized);

    // a tuple decode is strict: one trailing byte is IncorrectLength
    let mut extended = <(Vec<u8>, Vec<u8>, Option<Vec<u8>>)>::serialize(&triple);
    extended.push(0);
    assert_eq!(
        <(Vec<u8>, Vec<u8>, Option<Vec<u8>>)>::deserialize(&extended).err().unwrap().kind(),
        ErrorKind::IncorrectLength
    );
}

#[test]
fn test_generics_errors() {
    // u32 and u64 decode exactly their width, nothing shorter or longer
    assert_eq!(u32::deserialize(&vec![1, 2, 3]).err().unwrap().kind(), ErrorKind::IncorrectLength);
    assert_eq!(
        u32::deserialize(&vec![1, 2, 3, 4, 5]).err().unwrap().kind(),
        ErrorKind::IncorrectLength
    );
    assert_eq!(
        u64::deserialize(&vec![1, 2, 3, 4, 5, 6, 7]).err().unwrap().kind(),
        ErrorKind::IncorrectLength
    );

    // an empty buffer has no option tag
    assert_eq!(
        Option::<Vec<u8>>::deserialize(&Vec::new()).err().unwrap().kind(),
        ErrorKind::IncorrectLength
    );

    // a sequence whose size table declares more than the data region holds
    let vs = vec![vec![1u8, 2, 3]];
    let serialized = Vec::<Vec<u8>>::serialize(&vs);
    let truncated = serialized[..serialized.len() - 1].to_vec();
    assert_eq!(
        Vec::<Vec<u8>>::deserialize(&truncated).err().unwrap().kind(),
        ErrorKind::IncorrectLength
    );

    // a tuple with a missing length prefix
    assert_eq!(
        <(Vec<u8>, Option<Vec<u8>>)>::deserialize(&vec![0u8; 7]).err().unwrap().kind(),
        ErrorKind::IncorrectLength
    );
}

#[test]
fn test_merkleproof() {
    let mut state: u64 = 41;
    let p = MerkleProof {
        root_hash: random_arr32(&mut state),
        total_leaves_count: 123,
        leaf_indices: vec![0, 4, 100],
        leaf_hashes: vec![
            random_arr32(&mut state),
            random_arr32(&mut state),
            random_arr32(&mut state),
        ],
        proof: random_bytes_dyn(&mut state, 128),
    };
    let serialized = MerkleProof::serialize(&p);
    let deserialized = MerkleProof::deserialize(&serialized).unwrap();

    assert_eq!(p.root_hash, deserialized.root_hash);
    assert_eq!(p.total_leaves_count, deserialized.total_leaves_count);
    assert_eq!(p.leaf_indices, deserialized.leaf_indices);
    assert_eq!(p.leaf_hashes.len(), deserialized.leaf_indices.len());
    for (i, h) in p.leaf_hashes.iter().enumerate() {
        assert_eq!(*h, deserialized.leaf_hashes[i]);
    }
    assert_eq!(p.proof, deserialized.proof);
}

#[test]
fn test_merkleproof_error() {
    let mut state: u64 = 41;
    // test empty vector
    let empty_serialized: Vec<u8> = vec![];
    assert_eq!(
        MerkleProof::deserialize(&empty_serialized).err().unwrap().kind(),
        ErrorKind::IncorrectLength
    );

    // test by removing one byte
    let p = MerkleProof {
        root_hash: random_arr32(&mut state),
        total_leaves_count: 123,
        leaf_indices: vec![0, 4, 100],
        leaf_hashes: vec![
            random_arr32(&mut state),
            random_arr32(&mut state),
            random_arr32(&mut state),
        ],
        proof: random_bytes_dyn(&mut state, 128),
    };
    let serialized = MerkleProof::serialize(&p);
    let serialized = serialized[..serialized.len() - 1].to_vec();
    assert_eq!(
        MerkleProof::deserialize(&serialized).err().unwrap().kind(),
        ErrorKind::IncorrectLength
    );
}

#[test]
fn test_stateproofs() {
    let mut state: u64 = 43;
    let spfs = StateProofs {
        root_hash: random_arr32(&mut state),
        items: vec![
            (random_bytes_dyn(&mut state, 21), Some(random_bytes_dyn(&mut state, 32))),
            (random_bytes_dyn(&mut state, 23), None),
            (random_bytes_dyn(&mut state, 24), Some(random_bytes_dyn(&mut state, 35))),
        ],
        proof: vec![
            random_bytes_dyn(&mut state, 56),
            random_bytes_dyn(&mut state, 57),
            random_bytes_dyn(&mut state, 58),
        ],
    };

    let serialized = StateProofs::serialize(&spfs);
    let deserialzied = StateProofs::deserialize(&serialized).unwrap();
    assert_eq!(spfs, deserialzied);
}

#[test]
fn test_stateproofs_error() {
    let mut state: u64 = 43;
    // test empty vector
    let empty_serialized: Vec<u8> = vec![];
    assert_eq!(
        StateProofs::deserialize(&empty_serialized).err().unwrap().kind(),
        ErrorKind::IncorrectLength
    );

    // test by removing one byte
    let spfs = StateProofs {
        root_hash: random_arr32(&mut state),
        items: vec![
            (random_bytes_dyn(&mut state, 21), Some(random_bytes_dyn(&mut state, 34))),
            (random_bytes_dyn(&mut state, 23), None),
            (random_bytes_dyn(&mut state, 24), Some(random_bytes_dyn(&mut state, 35))),
        ],
        proof: vec![
            random_bytes_dyn(&mut state, 56),
            random_bytes_dyn(&mut state, 57),
            random_bytes_dyn(&mut state, 58),
        ],
    };

    let serialized = StateProofs::serialize(&spfs);
    let serialized = serialized[..serialized.len() - 1].to_vec();
    assert_eq!(
        StateProofs::deserialize(&serialized).err().unwrap().kind(),
        ErrorKind::IncorrectLength
    );
}
