use fedimint_core::encoding::Encodable;
use fedimint_server::db::DecodingError;
use fedimint_server::epoch::{EpochOutcome, SignedEpochOutcome};
use fedimint_server::ledger::AcceptedTransaction;
use fedimint_server::records::{
    accepted_from_bytes, accepted_to_bytes, client_config_signature_from_bytes,
    client_config_signature_to_bytes, last_epoch_from_bytes, last_epoch_to_bytes,
    reason_from_bytes, reason_to_bytes, signed_outcome_from_bytes, signed_outcome_to_bytes,
};
use fedimint_server::transaction::{Transaction, TransactionId};

fn sample() -> SignedEpochOutcome {
    SignedEpochOutcome {
        outcome: EpochOutcome {
            epoch_number: 300,
            previous_hash: Some([0xaa; 32]),
            accepted: vec![TransactionId([0x11; 32]), TransactionId([0x12; 32])],
            rejected: vec![TransactionId([0x22; 32])],
        },
        signature: [0x5a; 96],
    }
}

fn same(a: &SignedEpochOutcome, b: &SignedEpochOutcome) -> bool {
    a.signature == b.signature
        && a.outcome.epoch_number == b.outcome.epoch_number
        && a.outcome.previous_hash == b.outcome.previous_hash
        && a.outcome.accepted == b.outcome.accepted
        && a.outcome.rejected == b.outcome.rejected
}

#[test]
fn a_signed_outcome_is_its_canonical_bytes_and_signature() {
    let s = sample();
    let mut expected = s.outcome.canonical_bytes();
    expected.extend_from_slice(&[0x5a; 96]);
    assert_eq!(signed_outcome_to_bytes(&s), expected);
    assert_eq!(expected.len(), 3 + 33 + 1 + 64 + 1 + 32 + 96);
}

#[test]
fn a_signed_outcome_is_read_back() {
    let s = sample();
    let read = signed_outcome_from_bytes(&signed_outcome_to_bytes(&s)).unwrap();
    assert!(same(&read, &s));
    let first = SignedEpochOutcome {
        outcome: EpochOutcome { epoch_number: 0, previous_hash: None, accepted: vec![], rejected: vec![] },
        signature: [7; 96],
    };
    let read = signed_outcome_from_bytes(&signed_outcome_to_bytes(&first)).unwrap();
    assert!(same(&read, &first));
}

#[test]
fn a_cut_or_padded_signed_outcome_is_corrupt() {
    let bytes = signed_outcome_to_bytes(&sample());
    for cut in 0..bytes.len() {
        assert!(matches!(signed_outcome_from_bytes(&bytes[..cut]), Err(DecodingError::Malformed)));
    }
    let mut padded = bytes.clone();
    padded.push(0);
    assert!(matches!(signed_outcome_from_bytes(&padded), Err(DecodingError::Malformed)));
}

#[test]
fn a_signed_outcome_with_a_bad_field_is_corrupt() {
    let bytes = signed_outcome_to_bytes(&sample());
    let mut bad_flag = bytes.clone();
    bad_flag[3] = 2;
    assert!(matches!(signed_outcome_from_bytes(&bad_flag), Err(DecodingError::Malformed)));
    let mut bad_count = bytes.clone();
    bad_count[36] = 3;
    assert!(matches!(signed_outcome_from_bytes(&bad_count), Err(DecodingError::Malformed)));
    let mut long_number = vec![0xfd, 0x00, 0x01];
    long_number.extend_from_slice(&bytes[3..]);
    assert!(matches!(signed_outcome_from_bytes(&long_number), Err(DecodingError::Malformed)));
    let mut huge_count = vec![0x00, 0x00, 0xff];
    huge_count.extend_from_slice(&[0xff; 8]);
    huge_count.extend_from_slice(&[0; 97]);
    assert!(matches!(signed_outcome_from_bytes(&huge_count), Err(DecodingError::Malformed)));
}

#[test]
fn an_accepted_record_is_epoch_place_and_payload() {
    let record = AcceptedTransaction {
        transaction: Transaction::new(vec![9, 8, 7]),
        epoch: 5,
        position: 300,
    };
    assert_eq!(accepted_to_bytes(&record), vec![5, 0xfd, 0x01, 0x2c, 3, 9, 8, 7]);
}

#[test]
fn an_accepted_record_is_read_back_with_its_identifier() {
    let record = AcceptedTransaction {
        transaction: Transaction::new(b"payload".to_vec()),
        epoch: 70_000,
        position: 2,
    };
    let read = accepted_from_bytes(&accepted_to_bytes(&record)).unwrap();
    assert_eq!(read.epoch, 70_000);
    assert_eq!(read.position, 2);
    assert_eq!(read.transaction.payload(), &b"payload".to_vec());
    assert_eq!(read.transaction.id(), record.transaction.id());
    let empty = accepted_from_bytes(&[0, 0, 0]).unwrap();
    assert!(empty.transaction.payload().is_empty());
}

#[test]
fn an_accepted_record_of_the_wrong_length_is_corrupt() {
    assert!(matches!(accepted_from_bytes(&[]), Err(DecodingError::Malformed)));
    assert!(matches!(accepted_from_bytes(&[1, 2]), Err(DecodingError::Malformed)));
    assert!(matches!(accepted_from_bytes(&[1, 2, 3, 0, 0]), Err(DecodingError::Malformed)));
    assert!(matches!(accepted_from_bytes(&[1, 2, 2, 0, 0, 0]), Err(DecodingError::Malformed)));
    assert!(matches!(accepted_from_bytes(&[1, 0xfd, 0, 1, 0]), Err(DecodingError::Malformed)));
}

#[test]
fn the_last_epoch_pointer_is_one_number() {
    assert_eq!(last_epoch_to_bytes(9), vec![9]);
    assert_eq!(last_epoch_to_bytes(0x1_0000), vec![0xfe, 0, 1, 0, 0]);
    for n in [0u64, 0xfc, 0xfd, 0xffff_ffff, u64::MAX] {
        assert_eq!(last_epoch_from_bytes(&last_epoch_to_bytes(n)), Ok(n));
    }
    assert_eq!(last_epoch_from_bytes(&[]), Err(DecodingError::Malformed));
    assert_eq!(last_epoch_from_bytes(&[1, 2]), Err(DecodingError::Malformed));
    assert_eq!(last_epoch_from_bytes(&[0xfd, 0, 1]), Err(DecodingError::Malformed));
}

#[test]
fn the_client_config_signature_is_its_bytes() {
    let mut signature = [0u8; 96];
    for (i, b) in signature.iter_mut().enumerate() {
        *b = i as u8;
    }
    let bytes = client_config_signature_to_bytes(&signature);
    assert_eq!(bytes, signature.to_vec());
    assert_eq!(client_config_signature_from_bytes(&bytes), Ok(signature));
    assert_eq!(
        client_config_signature_from_bytes(&bytes[..95]),
        Err(DecodingError::WrongLength { expected: 96, found: 95 })
    );
    assert_eq!(
        client_config_signature_from_bytes(&[]),
        Err(DecodingError::WrongLength { expected: 96, found: 0 })
    );
}

#[test]
fn a_reason_is_its_length_and_text() {
    assert_eq!(reason_to_bytes(&String::from("no")), vec![2, b'n', b'o']);
    assert_eq!(reason_to_bytes(&String::new()), vec![0]);
    assert_eq!(reason_to_bytes(&String::from("é")), vec![2, 0xc3, 0xa9]);
    for text in ["", "unbalanced", "zu groß", "日本語"] {
        let reason = String::from(text);
        assert_eq!(reason_from_bytes(&reason_to_bytes(&reason)), Ok(reason));
    }
}

#[test]
fn a_reason_is_the_consensus_encoding_of_a_string() {
    for text in ["", "unbalanced", "zu groß"] {
        let reason = String::from(text);
        assert_eq!(reason_to_bytes(&reason), reason.consensus_encode_to_vec());
    }
}

#[test]
fn a_reason_that_is_no_text_is_corrupt() {
    assert_eq!(reason_from_bytes(&[]), Err(DecodingError::Malformed));
    assert_eq!(reason_from_bytes(&[2, b'a']), Err(DecodingError::Malformed));
    assert_eq!(reason_from_bytes(&[1, b'a', b'b']), Err(DecodingError::Malformed));
    assert_eq!(reason_from_bytes(&[1, 0xff]), Err(DecodingError::Malformed));
    assert_eq!(reason_from_bytes(&[2, 0xc3, 0x28]), Err(DecodingError::Malformed));
}
