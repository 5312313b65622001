use adler32_checksum_rs::adler32::{Adler32, Adler32Builder, Adler32Result};
use adler32_checksum_rs::errors::RError;

const STANDARD_SEED: [u8; 8] = [0x00, 0x00, 0x00, 0x01, 0x00, 0x00, 0x00, 0x00];

/// The entries as pairs of sequence and checksum, sorted.
fn sorted_pairs(entries: &[Adler32Result]) -> Vec<(Vec<u8>, Vec<u8>)> {
    let mut pairs: Vec<(Vec<u8>, Vec<u8>)> = entries
        .iter()
        .map(|entry| (entry.get_hash().clone(), entry.get_result().as_ref().unwrap().clone()))
        .collect();
    pairs.sort();
    pairs
}

#[test]
fn batch_of_none_is_empty() {
    let out = Adler32Builder::new(Adler32::new(STANDARD_SEED)).finalize();
    assert!(out.is_empty());
}

#[test]
fn batch_of_one_equals_single_computation() {
    let engine = Adler32::new([3, 1, 4, 1, 5, 9, 2, 6]);
    for data in [b"".to_vec(), b"a".to_vec(), b"Wikipedia".to_vec(), vec![0xFF; 300]] {
        let single = engine.adler32_checksum(&data).unwrap();

        let mut builder = Adler32Builder::new(engine);
        builder.push(data.clone());
        let out = builder.finalize();

        assert_eq!(out.len(), 1);
        assert!(out[0].is_ok());
        assert_eq!(out[0].get_hash(), &data);
        assert_eq!(out[0].get_result().as_ref().unwrap(), &single);
    }
}

#[test]
fn batch_of_one_wikipedia() {
    let mut builder = Adler32Builder::new(Adler32::new(STANDARD_SEED));
    builder.push(b"Wikipedia".to_vec());
    let out = builder.finalize();
    assert_eq!(sorted_pairs(&out), vec![(b"Wikipedia".to_vec(), vec![0x11, 0xE6, 0x03, 0x98])]);
}

#[test]
fn order_of_submission_does_not_matter() {
    let engine = Adler32::new(STANDARD_SEED);
    let s1 = b"first sequence".to_vec();
    let s2 = b"second".to_vec();

    let mut forward = Adler32Builder::new(engine);
    forward.push(s1.clone());
    forward.push(s2.clone());
    let mut backward = Adler32Builder::new(engine);
    backward.push(s2.clone());
    backward.push(s1.clone());

    let forward = sorted_pairs(&forward.finalize());
    let backward = sorted_pairs(&backward.finalize());
    assert_eq!(forward, backward);
    assert_eq!(forward.len(), 2);
}

#[test]
fn every_submitted_sequence_gets_an_entry() {
    let engine = Adler32::new(STANDARD_SEED);
    let count: usize = 10_000;
    let data: Vec<Vec<u8>> =
        (0..count).map(|i| vec![(i % 256) as u8, (i / 256) as u8, 7]).collect();
    let out = Adler32Builder::new(engine).push_vec(data.clone()).finalize();
    assert_eq!(out.len(), count);

    let mut expected: Vec<(Vec<u8>, Vec<u8>)> =
        data.iter().map(|d| (d.clone(), engine.adler32_checksum(d).unwrap())).collect();
    expected.sort();
    assert_eq!(sorted_pairs(&out), expected);
}

#[test]
fn a_sequence_submitted_twice_gets_two_entries() {
    let engine = Adler32::new(STANDARD_SEED);
    let mut builder = Adler32Builder::new(engine);
    builder.push(b"abc".to_vec());
    builder.push(b"abc".to_vec());
    builder.push(b"a".to_vec());
    let out = sorted_pairs(&builder.finalize());
    assert_eq!(
        out,
        vec![
            (b"a".to_vec(), vec![0x00, 0x62, 0x00, 0x62]),
            (b"abc".to_vec(), vec![0x02, 0x4D, 0x01, 0x27]),
            (b"abc".to_vec(), vec![0x02, 0x4D, 0x01, 0x27]),
        ]
    );
}

#[test]
fn push_returns_the_builder_itself() {
    let mut builder = Adler32Builder::new(Adler32::new(STANDARD_SEED));
    let _same: &Adler32Builder = builder.push(b"abc".to_vec());
    builder.push(b"a".to_vec());
    assert_eq!(builder.finalize().len(), 2);
}

#[test]
fn push_vec_appends_every_sequence() {
    let engine = Adler32::new([0, 0, 0, 5, 0, 0, 0, 7]);
    let mut builder = Adler32Builder::new(engine);
    builder.push(vec![1, 2]);
    let builder = builder.push_vec(vec![vec![], vec![9]]).push_vec(Vec::new());
    let out = sorted_pairs(&builder.finalize());
    assert_eq!(
        out,
        vec![
            (vec![], engine.adler32_checksum(&[]).unwrap()),
            (vec![1, 2], vec![0x00, 0x15, 0x00, 0x08]),
            (vec![9], engine.adler32_checksum(&[9]).unwrap()),
        ]
    );
}

#[test]
fn all_entries_share_the_initial_state() {
    let seed: [u8; 8] = [0, 0, 0, 1, 0, 0, 0, 2];
    let engine = Adler32::new(seed);
    let data: Vec<Vec<u8>> = vec![b"x".to_vec(), b"xy".to_vec(), b"xyz".to_vec()];
    let out = Adler32Builder::new(engine).push_vec(data).finalize();
    for entry in &out {
        let alone = Adler32::new(seed).adler32_checksum(entry.get_hash()).unwrap();
        assert_eq!(entry.get_result().as_ref().unwrap(), &alone);
    }
}

#[test]
fn entry_with_a_checksum() {
    let entry = Adler32Result::new(vec![1, 2, 3], Ok(vec![0, 0, 0, 9]));
    assert!(entry.is_ok());
    assert_eq!(entry.get_hash(), &vec![1, 2, 3]);
    assert_eq!(entry.get_result().as_ref().unwrap(), &vec![0, 0, 0, 9]);
}

#[test]
fn entry_with_a_failure() {
    let entry = Adler32Result::new(vec![1, 2, 3], Err(RError::new("computation failed")));
    assert!(!entry.is_ok());
    assert_eq!(entry.get_hash(), &vec![1, 2, 3]);
    match entry.get_result() {
        Ok(_) => panic!("a failure was stored"),
        Err(e) => assert_eq!(e.description(), "computation failed"),
    }
}
