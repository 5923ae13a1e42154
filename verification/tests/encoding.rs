use fedimint_core::encoding::Encodable;
use fedimint_server::encoding::{read_varint, write_varint};

fn varint_of(v: u64) -> Vec<u8> {
    let mut out = Vec::new();
    write_varint(v, &mut out);
    out
}

#[test]
fn small_values_take_one_byte() {
    assert_eq!(varint_of(0), vec![0x00]);
    assert_eq!(varint_of(1), vec![0x01]);
    assert_eq!(varint_of(0xfc), vec![0xfc]);
}

#[test]
fn larger_values_take_a_marker_and_big_endian_bytes() {
    assert_eq!(varint_of(0xfd), vec![0xfd, 0x00, 0xfd]);
    assert_eq!(varint_of(0x1234), vec![0xfd, 0x12, 0x34]);
    assert_eq!(varint_of(0xffff), vec![0xfd, 0xff, 0xff]);
    assert_eq!(varint_of(0x1_0000), vec![0xfe, 0x00, 0x01, 0x00, 0x00]);
    assert_eq!(varint_of(0xffff_ffff), vec![0xfe, 0xff, 0xff, 0xff, 0xff]);
    assert_eq!(
        varint_of(0x1_0000_0000),
        vec![0xff, 0x00, 0x00, 0x00, 0x01, 0x00, 0x00, 0x00, 0x00]
    );
    assert_eq!(
        varint_of(0x0102_0304_0506_0708),
        vec![0xff, 0x01, 0x02, 0x03, 0x04, 0x05, 0x06, 0x07, 0x08]
    );
    assert_eq!(varint_of(u64::MAX), vec![0xff; 9]);
}

#[test]
fn write_appends_to_what_is_there() {
    let mut out = vec![0xaa, 0xbb];
    write_varint(0x0100, &mut out);
    assert_eq!(out, vec![0xaa, 0xbb, 0xfd, 0x01, 0x00]);
}

#[test]
fn read_gives_the_value_and_the_next_position() {
    let data = vec![0x07, 0xfd, 0x12, 0x34, 0xfe, 0x00, 0x01, 0x00, 0x00, 0x09];
    assert_eq!(read_varint(&data, 0), Some((7, 1)));
    assert_eq!(read_varint(&data, 1), Some((0x1234, 4)));
    assert_eq!(read_varint(&data, 4), Some((0x1_0000, 9)));
    assert_eq!(read_varint(&data, 9), Some((9, 10)));
    assert_eq!(read_varint(&data, 10), None);
    assert_eq!(read_varint(&data, 11), None);
}

#[test]
fn read_refuses_a_longer_form_than_needed() {
    assert_eq!(read_varint(&[0xfd, 0x00, 0xfc], 0), None);
    assert_eq!(read_varint(&[0xfe, 0x00, 0x00, 0xff, 0xff], 0), None);
    assert_eq!(
        read_varint(&[0xff, 0x00, 0x00, 0x00, 0x00, 0xff, 0xff, 0xff, 0xff], 0),
        None
    );
}

#[test]
fn read_refuses_a_cut_off_encoding() {
    assert_eq!(read_varint(&[], 0), None);
    assert_eq!(read_varint(&[0xfd], 0), None);
    assert_eq!(read_varint(&[0xfd, 0x01], 0), None);
    assert_eq!(read_varint(&[0xfe, 0x01, 0x02, 0x03], 0), None);
    assert_eq!(read_varint(&[0xff, 1, 2, 3, 4, 5, 6, 7], 0), None);
}

#[test]
fn read_returns_what_write_wrote() {
    let values: [u64; 12] = [
        0,
        1,
        0xfc,
        0xfd,
        0xfe,
        0xff,
        0xffff,
        0x1_0000,
        0xffff_ffff,
        0x1_0000_0000,
        0x1234_5678_9abc_def0,
        u64::MAX,
    ];
    for v in values {
        let bytes = varint_of(v);
        assert_eq!(read_varint(&bytes, 0), Some((v, bytes.len())));
    }
}

#[test]
fn varint_is_the_consensus_encoding_of_numbers() {
    let values: [u64; 9] = [
        0,
        0xfc,
        0xfd,
        0xffff,
        0x1_0000,
        0xffff_ffff,
        0x1_0000_0000,
        0x0102_0304_0506_0708,
        u64::MAX,
    ];
    for v in values {
        assert_eq!(varint_of(v), v.consensus_encode_to_vec());
    }
    for p in [0u16, 3, 0xfc, 0xfd, 0xffff] {
        assert_eq!(varint_of(u64::from(p)), p.consensus_encode_to_vec());
    }
}
