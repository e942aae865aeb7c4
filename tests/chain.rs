use tiny_blockchain::chain::DIFFICULTY;
use tiny_blockchain::{Blockchain, ChainError};

fn leading_zeros(s: &str) -> usize {
    s.chars().take_while(|&c| c == '0').count()
}

#[test]
fn genesis_shape() {
    let c = Blockchain::new().unwrap();
    let records = c.get_chain();
    assert_eq!(records.len(), 1);
    assert_eq!(records[0].id, 0);
    assert_eq!(records[0].payload, "First block");
    assert_eq!(records[0].previous_hash, "0".repeat(64));
    assert!(records[0].hash.starts_with("000"));
    assert!(c.is_chain_valid(3));
}

#[test]
fn append_links_to_last_record() {
    let mut c = Blockchain::new().unwrap();
    let prior = c.get_chain()[0].clone();
    c.add_block("next".to_string()).unwrap();
    let records = c.get_chain();
    assert_eq!(records.len(), 2);
    assert_eq!(records[1].previous_hash, prior.hash);
    assert_eq!(records[1].id, prior.id + 1);
    assert_eq!(records[1].payload, "next");
    assert!(records[1].hash.starts_with("000"));
    assert_eq!(records[1].hash, records[1].calculate_hash());
}

#[test]
fn built_chains_validate() {
    for appends in [0usize, 1, 10] {
        let mut c = Blockchain::new().unwrap();
        for k in 0..appends {
            c.add_block(format!("record {}", k)).unwrap();
        }
        assert_eq!(c.get_chain().len(), appends + 1);
        assert!(c.is_chain_valid(DIFFICULTY));
    }
}

#[test]
fn payload_tampering_is_detected() {
    for index in 0..3 {
        let mut c = Blockchain::new().unwrap();
        c.add_block("Second block".to_string()).unwrap();
        c.add_block("Third block".to_string()).unwrap();
        let mut record = c.get_chain()[index].clone();
        record.payload = "tampered".to_string();
        assert!(c.replace_record(index, record));
        assert!(!c.is_chain_valid(3));
    }
}

#[test]
fn link_break_is_detected() {
    for index in 1..3 {
        let mut c = Blockchain::new().unwrap();
        c.add_block("Second block".to_string()).unwrap();
        c.add_block("Third block".to_string()).unwrap();
        let mut record = c.get_chain()[index].clone();
        record.previous_hash = "ab".repeat(32);
        assert!(c.replace_record(index, record));
        assert!(!c.is_chain_valid(3));
    }
}

#[test]
fn difficulty_sensitivity() {
    let mut c = Blockchain::new().unwrap();
    c.add_block("Second block".to_string()).unwrap();
    for d in 0..=3 {
        assert!(c.is_chain_valid(d));
    }
    let least = c
        .get_chain()
        .iter()
        .map(|b| leading_zeros(&b.hash))
        .min()
        .unwrap();
    assert!(least >= 3);
    assert!(c.is_chain_valid(least));
    assert!(!c.is_chain_valid(least + 1));
    assert!(!c.is_chain_valid(65));
}

#[test]
fn three_record_scenario() {
    let mut c = Blockchain::new().unwrap();
    c.add_block("Second block".to_string()).unwrap();
    c.add_block("Third block".to_string()).unwrap();
    let records = c.get_chain();
    assert_eq!(records.len(), 3);
    for (i, b) in records.iter().enumerate() {
        assert_eq!(b.id, i as u64);
        assert!(b.hash.starts_with("000"));
    }
    assert!(c.is_chain_valid(3));
    let mut record = c.get_chain()[1].clone();
    record.payload = "tampered".to_string();
    assert!(c.replace_record(1, record));
    assert!(!c.is_chain_valid(3));
}

#[test]
fn reindexed_record_is_detected() {
    let mut c = Blockchain::new().unwrap();
    c.add_block("Second block".to_string()).unwrap();
    let mut record = c.get_chain()[1].clone();
    record.id = 5;
    record.nonce = 0;
    assert!(record.mine_block(3));
    assert!(c.replace_record(1, record));
    assert!(!c.is_chain_valid(3));
}

#[test]
fn unmined_record_fails_difficulty() {
    let mut c = Blockchain::new().unwrap();
    c.add_block("Second block".to_string()).unwrap();
    let mut record = c.get_chain()[1].clone();
    while leading_zeros(&record.hash) > 0 {
        record.nonce += 1;
        record.hash = record.calculate_hash();
    }
    assert!(c.replace_record(1, record));
    assert!(c.is_chain_valid(0));
    assert!(!c.is_chain_valid(1));
}

#[test]
fn bad_genesis_link_is_detected() {
    let mut c = Blockchain::new().unwrap();
    let mut record = c.get_chain()[0].clone();
    record.previous_hash = "1".repeat(64);
    record.hash = record.calculate_hash();
    assert!(c.replace_record(0, record));
    assert!(!c.is_chain_valid(0));
}

#[test]
fn append_after_largest_index_fails() {
    let mut c = Blockchain::new().unwrap();
    let mut record = c.get_chain()[0].clone();
    record.id = u64::MAX;
    assert!(c.replace_record(0, record));
    assert_eq!(c.add_block("x".to_string()), Err(ChainError::IndexExhausted));
    assert_eq!(c.get_chain().len(), 1);
}

#[test]
fn replace_out_of_range_is_refused() {
    let mut c = Blockchain::new().unwrap();
    let record = c.get_chain()[0].clone();
    assert!(!c.replace_record(1, record));
    assert_eq!(c.get_chain().len(), 1);
}
