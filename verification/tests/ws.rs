use dirwatch::ws::{generate_accept_key, websocket_frame};

#[test]
fn accept_key_matches_the_handshake_example() {
    assert_eq!(
        generate_accept_key("dGhlIHNhbXBsZSBub25jZQ=="),
        "s3pPLMBiTxaQ9kYGzzhZRbK+xOo="
    );
}

#[test]
fn short_messages_use_one_length_byte() {
    let f = websocket_frame(b"hi");
    assert_eq!(f, vec![0x81, 2, b'h', b'i']);
}

#[test]
fn medium_messages_use_two_length_bytes() {
    let msg = vec![b'x'; 300];
    let f = websocket_frame(&msg);
    assert_eq!(&f[..4], &[0x81, 126, 1, 44]);
    assert_eq!(f.len(), 4 + 300);
    assert_eq!(&f[4..], &msg[..]);
}

#[test]
fn boundary_length_125_stays_short() {
    let msg = vec![b'y'; 125];
    let f = websocket_frame(&msg);
    assert_eq!(&f[..2], &[0x81, 125]);
    assert_eq!(f.len(), 2 + 125);
}

#[test]
fn boundary_length_126_switches_form() {
    let msg = vec![b'z'; 126];
    let f = websocket_frame(&msg);
    assert_eq!(&f[..4], &[0x81, 126, 0, 126]);
}
