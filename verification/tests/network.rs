use linux_programming::network::{
    address_line, alias_line, echo_payload, first_address, icmq_checksum, ping_step, PingAction,
    ICMP_ECHO, PING_TRIES,
};

#[test]
fn icmp_echo_type_is_eight() {
    assert_eq!(ICMP_ECHO, 8);
}

#[test]
fn checksum_complements_the_sum_of_every_word() {
    // 0x0800 + 0x0000 + 0x1234 + 0x5678 = 0x70ac
    let message = [8u8, 0, 0, 0, 0x12, 0x34, 0x56, 0x78];
    assert_eq!(icmq_checksum(&message), 0x8f53);
}

#[test]
fn checksum_counts_type_and_code() {
    assert_eq!(icmq_checksum(&[8, 0, 0, 0]), 0xf7ff);
    assert_eq!(icmq_checksum(&[0, 3, 0, 0]), 0xfffc);
}

#[test]
fn checksum_of_empty_and_short_messages() {
    assert_eq!(icmq_checksum(&[]), 0xffff);
    assert_eq!(icmq_checksum(&[8]), 0xf7ff);
    assert_eq!(icmq_checksum(&[8, 0]), 0xf7ff);
    assert_eq!(icmq_checksum(&[8, 0, 0xab]), 0x4cff);
}

#[test]
fn checksum_pads_an_odd_last_byte_with_zero() {
    let odd = [8u8, 0, 0, 0, 0x12, 0x34, 0xff];
    let padded = [8u8, 0, 0, 0, 0x12, 0x34, 0xff, 0];
    assert_eq!(icmq_checksum(&odd), icmq_checksum(&padded));
    assert_ne!(icmq_checksum(&odd), icmq_checksum(&odd[..6]));
}

#[test]
fn checksum_carries_until_the_sum_fits() {
    // 0x1fffe carries to 0xffff
    assert_eq!(icmq_checksum(&[0, 0, 0xff, 0xff, 0xff, 0xff]), 0);
    // 0x1ffff carries to 0x10000, and again to 0x0001
    assert_eq!(icmq_checksum(&[0, 0, 0xff, 0xff, 0xff, 0xff, 0x00, 0x01]), 0xfffe);
}

fn with_checksum(message: &[u8]) -> Vec<u8> {
    let c = icmq_checksum(message);
    let mut sent = message.to_vec();
    sent[2..4].copy_from_slice(&c.to_be_bytes());
    sent
}

#[test]
fn a_message_carrying_its_checksum_verifies_to_zero() {
    let sent = with_checksum(&[8u8, 0, 0, 0, 0x12, 0x34, 0x56, 0x78]);
    assert_eq!(sent[2..4], [0x8f, 0x53]);
    assert_eq!(icmq_checksum(&sent), 0);
    let sent = with_checksum(&[0u8, 0, 0, 0, 0xff, 0xff, 0xff, 0xff, 0x00, 0x01]);
    assert_eq!(icmq_checksum(&sent), 0);
    let sent = with_checksum(&[8u8, 0, 0, 0, 0x12, 0x34, 0xff]);
    assert_eq!(icmq_checksum(&sent), 0);
    let sent = with_checksum(&[0u8, 0, 0, 0]);
    assert_eq!(sent, vec![0, 0, 0xff, 0xff]);
    assert_eq!(icmq_checksum(&sent), 0);
}

#[test]
fn ping_retry_policy() {
    assert_eq!(PING_TRIES, 10);
    assert_eq!(ping_step(0, None), PingAction::Receive);
    assert_eq!(ping_step(9, None), PingAction::Receive);
    assert_eq!(ping_step(10, None), PingAction::GiveUp);
    assert_eq!(ping_step(3, Some(true)), PingAction::Succeed);
    assert_eq!(ping_step(3, Some(false)), PingAction::SendEcho);
}

#[test]
fn ping_without_replies_sends_ten_echoes() {
    let mut tries = 0;
    let mut sent = 0;
    loop {
        match ping_step(tries, None) {
            PingAction::Receive => {}
            PingAction::GiveUp => break,
            other => panic!("{:?}", other),
        }
        assert_eq!(ping_step(tries, Some(false)), PingAction::SendEcho);
        sent += 1;
        tries += 1;
    }
    assert_eq!(sent, 10);
}

#[test]
fn echo_payload_counts_up_from_the_digit_zero() {
    let msg = echo_payload(56);
    assert_eq!(msg.len(), 56);
    assert_eq!(msg[0], b'0');
    assert_eq!(msg[9], b'9');
    assert_eq!(msg[54], b'0' + 54);
    assert_eq!(msg[55], 0);
    assert_eq!(echo_payload(1), vec![0]);
}

#[test]
fn host_lines() {
    assert_eq!(
        alias_line("www.rust-lang.org.cdn", "www.rust-lang.org"),
        "www.rust-lang.org.cdn is an alias for www.rust-lang.org"
    );
    assert_eq!(
        address_line("localhost", [127, 0, 0, 1]),
        "localhost has address 127.0.0.1"
    );
    assert_eq!(
        address_line("h", [255, 10, 0, 199]),
        "h has address 255.10.0.199"
    );
}

#[test]
fn resolved_address_is_the_first_one() {
    assert_eq!(first_address(&[[1, 2, 3, 4], [5, 6, 7, 8]]), [1, 2, 3, 4]);
}
