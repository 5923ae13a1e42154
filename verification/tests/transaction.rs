use fedimint_server::transaction::{Transaction, TransactionId};

fn hex_of(bytes: &[u8]) -> String {
    let mut s = String::new();
    for b in bytes {
        s.push_str(&format!("{:02x}", b));
    }
    s
}

#[test]
fn id_is_the_sha256_of_the_payload() {
    let empty = Transaction::new(Vec::new());
    assert_eq!(
        hex_of(&empty.id().0),
        "e3b0c44298fc1c149afbf4c8996fb92427ae41e4649b934ca495991b7852b855"
    );
    let abc = Transaction::new(b"abc".to_vec());
    assert_eq!(
        hex_of(&abc.id().0),
        "ba7816bf8f01cfea414140de5dae2223b00361a396177a9cb410ff61f20015ad"
    );
}

#[test]
fn payload_is_kept_as_given() {
    let tx = Transaction::new(vec![1, 2, 3]);
    assert_eq!(tx.payload(), &vec![1, 2, 3]);
    let copy = tx.clone();
    assert_eq!(copy.payload(), &vec![1, 2, 3]);
    assert_eq!(copy.id(), tx.id());
}

#[test]
fn ids_are_ordered_byte_by_byte() {
    let mut low = [0u8; 32];
    let mut high = [0u8; 32];
    low[31] = 0xff;
    high[0] = 0x01;
    let low = TransactionId(low);
    let high = TransactionId(high);
    assert!(low.before(&high));
    assert!(!high.before(&low));
    assert!(!low.before(&low));
    assert!(low.same(&low));
    assert!(!low.same(&high));
}

#[test]
fn the_first_differing_byte_decides_the_order() {
    let mut a = [7u8; 32];
    let mut b = [7u8; 32];
    a[10] = 1;
    a[11] = 200;
    b[10] = 2;
    b[11] = 0;
    assert!(TransactionId(a).before(&TransactionId(b)));
    assert!(!TransactionId(b).before(&TransactionId(a)));
}
