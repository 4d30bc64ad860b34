use relay_gate::codec::{encode_head, i32_from_field, i32_to_field, i64_from_field, i64_to_field};
use relay_gate::packets::{
    client_data_packet, client_joined_packet, client_left_packet, close_notice, push_decimal,
    server_hello_ok, split_server_frame,
};

#[test]
fn encode_head_masks_first_two_bytes() {
    let mut v = vec![0x10u8, 0x20, 0x30];
    let r = encode_head(&mut v);
    assert_eq!(v, vec![0xdf, 0xef, 0x30]);
    assert_eq!(r, v);
}

#[test]
fn encode_head_twice_restores_header() {
    let mut v = vec![0x05u8, 0x00, 0x42, 0x43];
    encode_head(&mut v);
    let r = encode_head(&mut v);
    assert_eq!(r, vec![0x05, 0x00, 0x42, 0x43]);
}

#[test]
fn i64_field_is_little_endian_and_reads_back() {
    assert_eq!(i64_to_field(0x0102030405060708), vec![8, 7, 6, 5, 4, 3, 2, 1]);
    assert_eq!(i64_to_field(-1), vec![0xff; 8]);
    let f = i64_to_field(-123456789);
    assert_eq!(i64_from_field(&f, 0), -123456789);
}

#[test]
fn i32_field_is_little_endian_and_reads_back() {
    assert_eq!(i32_to_field(20003), vec![0x23, 0x4e, 0, 0]);
    let f = i32_to_field(-2);
    assert_eq!(f, vec![0xfe, 0xff, 0xff, 0xff]);
    assert_eq!(i32_from_field(&f, 0), -2);
}

#[test]
fn data_packet_layout() {
    let p = client_data_packet(5, &[1, 2, 3]);
    assert_eq!(
        p,
        vec![5, 0, 0, 0, 0, 0, 0, 0, 0x23, 0x4e, 0, 0, 5 ^ 0xcf, 0xcf, 1, 2, 3]
    );
}

#[test]
fn data_packet_length_keeps_low_sixteen_bits() {
    let msg = vec![7u8; 300];
    let p = client_data_packet(1, &msg);
    // 302 = 0x012e
    assert_eq!(p[12], 0x2e ^ 0xcf);
    assert_eq!(p[13], 0x01 ^ 0xcf);
    assert_eq!(p.len(), 314);
    let big = vec![0u8; 65536];
    let q = client_data_packet(1, &big);
    // 65538 = 0x1_0002: only 0x0002 is kept
    assert_eq!(q[12], 0x02 ^ 0xcf);
    assert_eq!(q[13], 0x00 ^ 0xcf);
}

#[test]
fn left_packet_layout() {
    assert_eq!(
        client_left_packet(7),
        vec![7, 0, 0, 0, 0, 0, 0, 0, 0x22, 0x4e, 0, 0]
    );
}

#[test]
fn joined_packet_layout() {
    let p = client_joined_packet(1, b"127.0.0.1", 8080);
    let mut want = vec![1, 0, 0, 0, 0, 0, 0, 0, 0x21, 0x4e, 0, 0];
    want.extend_from_slice(b"127.0.0.1:8080");
    assert_eq!(p, want);
}

#[test]
fn decimal_of_small_and_large_ports() {
    let mut v = Vec::new();
    push_decimal(&mut v, 0);
    assert_eq!(v, b"0".to_vec());
    let mut w = vec![b'x'];
    push_decimal(&mut w, 65535);
    assert_eq!(w, b"x65535".to_vec());
}

#[test]
fn server_frame_splits_into_client_and_payload() {
    let mut m = i64_to_field(42);
    m.extend_from_slice(&[9, 8, 7]);
    let (id, payload) = split_server_frame(&m);
    assert_eq!(id, 42);
    assert_eq!(payload, vec![9, 8, 7]);
    let (id, payload) = split_server_frame(&[0xff; 8]);
    assert_eq!(id, -1);
    assert!(payload.is_empty());
}

#[test]
fn close_notice_kinds() {
    assert!(close_notice(&[0, 0, 0, 0, 3 ^ 0xcf]));
    assert!(close_notice(&[0, 0, 0, 0, 14 ^ 0xcf, 1]));
    assert!(!close_notice(&[0, 0, 0, 0, 3]));
    assert!(!close_notice(&[0, 0, 0, 3 ^ 0xcf]));
    assert!(!close_notice(&[]));
}

#[test]
fn server_hello() {
    assert!(server_hello_ok(&[0x53, 0x97, 0x57, 0x13]));
    assert!(!server_hello_ok(&[0x13, 0x57, 0x97, 0x53]));
}
