use dirwatch::encoding::{base64_encode, Sha1};

#[test]
fn base64_standard_vectors() {
    assert_eq!(base64_encode(b""), "");
    assert_eq!(base64_encode(b"f"), "Zg==");
    assert_eq!(base64_encode(b"fo"), "Zm8=");
    assert_eq!(base64_encode(b"foo"), "Zm9v");
    assert_eq!(base64_encode(b"foob"), "Zm9vYg==");
    assert_eq!(base64_encode(b"fooba"), "Zm9vYmE=");
    assert_eq!(base64_encode(b"foobar"), "Zm9vYmFy");
}

#[test]
fn base64_uses_full_alphabet() {
    assert_eq!(base64_encode(&[0xFB, 0xFF]), "+/8=");
    assert_eq!(base64_encode(&[0, 0, 0]), "AAAA");
}

fn hex(digest: &[u8; 20]) -> String {
    let mut s = String::new();
    for b in digest.iter() {
        s.push_str(&format!("{:02x}", b));
    }
    s
}

#[test]
fn sha1_empty_message() {
    assert_eq!(hex(&Sha1::hash(b"")), "da39a3ee5e6b4b0d3255bfef95601890afd80709");
}

#[test]
fn sha1_abc() {
    assert_eq!(hex(&Sha1::hash(b"abc")), "a9993e364706816aba3e25717850c26c9cd0d89d");
}

#[test]
fn sha1_longer_than_one_block() {
    assert_eq!(
        hex(&Sha1::hash(
            b"abcdbcdecdefdefgefghfghighijhijkijkljklmklmnlmnomnopnopq"
        )),
        "84983e441c3bd26ebaae4aa1f95129e5e54670f1"
    );
}

#[test]
fn sha1_exactly_64_bytes() {
    let msg = [b'a'; 64];
    assert_eq!(hex(&Sha1::hash(&msg)), "0098ba824b5c16427bd7a1122a5a442a25ec644d");
}

#[test]
fn sha1_incremental_updates_match_one_shot() {
    let mut h = Sha1::new();
    h.update(b"ab");
    h.update(b"c");
    assert_eq!(h.finalize(), Sha1::hash(b"abc"));

    let mut h2 = Sha1::new();
    h2.update(&[b'x'; 100]);
    h2.update(&[b'x'; 29]);
    let mut whole = Sha1::new();
    whole.update(&[b'x'; 129]);
    assert_eq!(h2.finalize(), whole.finalize());
}

#[test]
fn sha1_million_a() {
    let msg = vec![b'a'; 1000000];
    assert_eq!(hex(&Sha1::hash(&msg)), "34aa973cd4c4daa4f61eeb2bdbad27316534016f");
}
