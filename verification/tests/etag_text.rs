use md5::Digest;
use s3etag::{parse_hex_digest, ETag, ETagHasher, ETagHasherMulti, SoftwareMd5};

fn md5_bytes(data: &[u8]) -> [u8; 16] {
    let mut h = <md5::Md5 as Digest>::new();
    Digest::update(&mut h, data);
    Digest::finalize(h).into()
}

#[test]
fn render_simple_form_has_no_suffix() {
    let etag = ETag::from(md5_bytes(b"hello"));
    let text = etag.render();
    assert_eq!(text.len(), 32);
    assert!(!text.contains('-'));
    assert!(text.chars().all(|c| c.is_ascii_hexdigit() && !c.is_ascii_uppercase()));
}

#[test]
fn render_multipart_form_has_count_suffix() {
    let mut h = ETagHasherMulti::<SoftwareMd5>::new(2);
    h.update(b"ABCDEFGHIJKLMNOPQRSTUVWX");
    let etag = h.finalize();
    assert_eq!(etag.n_chunks(), Some(12));
    let text = etag.render();
    assert_eq!(&text[32..], "-12");
}

#[test]
fn render_parse_round_trip() {
    let mut h = ETagHasherMulti::<SoftwareMd5>::new(4);
    h.update(b"ABCDEFGHIJ");
    let etag = h.finalize();
    let text = etag.render();
    let parsed = parse_hex_digest(&text[..32]).expect("hex digest must parse");
    assert_eq!(parsed, etag.digest().to_vec());
}

#[test]
fn parse_hex_is_case_insensitive() {
    let lower = "d41d8cd98f00b204e9800998ecf8427e";
    let upper = "D41D8CD98F00B204E9800998ECF8427E";
    let mixed = "D41d8Cd98f00b204E9800998eCF8427e";
    let a = parse_hex_digest(lower).unwrap();
    let b = parse_hex_digest(upper).unwrap();
    let c = parse_hex_digest(mixed).unwrap();
    assert_eq!(a, b);
    assert_eq!(a, c);
    assert_eq!(a, md5_bytes(b"").to_vec());
}

#[test]
fn parse_hex_rejects_bad_length() {
    assert_eq!(parse_hex_digest(""), None);
    assert_eq!(parse_hex_digest("d41d8cd98f00b204e9800998ecf8427"), None);
    assert_eq!(parse_hex_digest("d41d8cd98f00b204e9800998ecf8427e0"), None);
    assert_eq!(parse_hex_digest("d41d8cd98f00b204e9800998ecf8427e-3"), None);
}

#[test]
fn parse_hex_rejects_non_hex() {
    assert_eq!(parse_hex_digest("g41d8cd98f00b204e9800998ecf8427e"), None);
    assert_eq!(parse_hex_digest("d41d8cd98f00b204e9800998ecf8427 "), None);
    assert_eq!(parse_hex_digest(&"é".repeat(32)), None);
}

#[test]
fn etag_from_digest() {
    let digest = [0x12u8; 16];
    let etag = ETag::from(digest);
    assert_eq!(etag.digest(), digest);
    assert_eq!(etag.n_chunks(), None);
    assert_eq!(etag.render(), "12121212121212121212121212121212");
}
