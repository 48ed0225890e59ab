use md5::Digest;
use s3etag::{ETagHasher, ETagHasherMulti, Md5Hasher, OpensslMd5, SoftwareMd5};

fn md5_bytes(data: &[u8]) -> [u8; 16] {
    let mut h = <md5::Md5 as Digest>::new();
    Digest::update(&mut h, data);
    Digest::finalize(h).into()
}

fn hex(bytes: &[u8]) -> String {
    let mut s = String::new();
    for b in bytes {
        s.push_str(&format!("{:02x}", b));
    }
    s
}

/// The ETag rule computed directly: hash each full part, then the trailing
/// partial part, and hash the concatenation — except that a stream that never
/// went past a single full part keeps its own digest.
fn expected_etag(data: &[u8], p: usize) -> (Vec<u8>, Option<usize>) {
    let k = data.len() / p;
    let r = data.len() % p;
    if k == 0 || (k == 1 && r == 0) {
        (md5_bytes(data).to_vec(), None)
    } else {
        let mut concat = Vec::new();
        for i in 0..k {
            concat.extend_from_slice(&md5_bytes(&data[i * p..(i + 1) * p]));
        }
        let n = if r > 0 {
            concat.extend_from_slice(&md5_bytes(&data[k * p..]));
            k + 1
        } else {
            k
        };
        (md5_bytes(&concat).to_vec(), Some(n))
    }
}

#[test]
fn empty_input_simple_form() {
    let h = ETagHasherMulti::<SoftwareMd5>::new(4);
    let etag = h.finalize();
    assert_eq!(etag.digest(), md5_bytes(b""));
    assert_eq!(etag.n_chunks(), None);
    assert_eq!(etag.render(), "d41d8cd98f00b204e9800998ecf8427e");
}

#[test]
fn below_one_part_simple_form() {
    let mut h = ETagHasherMulti::<SoftwareMd5>::new(4);
    h.update(b"AB");
    let etag = h.finalize();
    assert_eq!(etag.digest(), md5_bytes(b"AB"));
    assert_eq!(etag.n_chunks(), None);
}

#[test]
fn single_full_part_simple_form() {
    let mut h = ETagHasherMulti::<SoftwareMd5>::new(4);
    h.update(b"ABCD");
    let etag = h.finalize();
    // the digest of the part itself, not the digest of its digest
    assert_eq!(etag.digest(), md5_bytes(b"ABCD"));
    assert_ne!(etag.digest(), md5_bytes(&md5_bytes(b"ABCD")));
    assert_eq!(etag.n_chunks(), None);
    assert_eq!(etag.render(), hex(&md5_bytes(b"ABCD")));
}

#[test]
fn ten_bytes_three_parts() {
    let mut h = ETagHasherMulti::<SoftwareMd5>::new(4);
    h.update(b"ABCDEFGHIJ");
    let etag = h.finalize();
    let mut concat = Vec::new();
    concat.extend_from_slice(&md5_bytes(b"ABCD"));
    concat.extend_from_slice(&md5_bytes(b"EFGH"));
    concat.extend_from_slice(&md5_bytes(b"IJ"));
    let expected = md5_bytes(&concat);
    assert_eq!(etag.digest(), expected);
    assert_eq!(etag.n_chunks(), Some(3));
    let text = etag.render();
    assert_eq!(text, format!("{}-3", hex(&expected)));
    assert_eq!(text.len(), 34);
}

#[test]
fn exact_two_parts_multipart() {
    let mut h = ETagHasherMulti::<SoftwareMd5>::new(4);
    h.update(b"ABCDEFGH");
    let etag = h.finalize();
    let mut concat = Vec::new();
    concat.extend_from_slice(&md5_bytes(b"ABCD"));
    concat.extend_from_slice(&md5_bytes(b"EFGH"));
    assert_eq!(etag.digest(), md5_bytes(&concat));
    assert_eq!(etag.n_chunks(), Some(2));
}

#[test]
fn one_part_and_tail_multipart() {
    let mut h = ETagHasherMulti::<SoftwareMd5>::new(4);
    h.update(b"ABCDE");
    let etag = h.finalize();
    let mut concat = Vec::new();
    concat.extend_from_slice(&md5_bytes(b"ABCD"));
    concat.extend_from_slice(&md5_bytes(b"E"));
    assert_eq!(etag.digest(), md5_bytes(&concat));
    assert_eq!(etag.n_chunks(), Some(2));
}

#[test]
fn chunking_does_not_matter() {
    let data = b"ABCDEFGHIJ";
    let mut one_shot = ETagHasherMulti::<SoftwareMd5>::new(4);
    one_shot.update(data);
    let reference = one_shot.finalize().render();

    let mut split = ETagHasherMulti::<SoftwareMd5>::new(4);
    split.update(b"A");
    split.update(b"BCDEFGHIJ");
    assert_eq!(split.finalize().render(), reference);

    let mut split = ETagHasherMulti::<SoftwareMd5>::new(4);
    split.update(b"ABC");
    split.update(b"");
    split.update(b"DEF");
    split.update(b"GHIJ");
    assert_eq!(split.finalize().render(), reference);

    let mut split = ETagHasherMulti::<SoftwareMd5>::new(4);
    for b in data {
        split.update(&[*b]);
    }
    assert_eq!(split.finalize().render(), reference);
}

#[test]
fn engines_agree() {
    let data = b"The quick brown fox jumps over the lazy dog";
    let mut soft = ETagHasherMulti::<SoftwareMd5>::new(7);
    let mut native = ETagHasherMulti::<OpensslMd5>::new(7);
    soft.update(data);
    native.update(data);
    assert_eq!(soft.finalize().render(), native.finalize().render());

    let mut soft = <SoftwareMd5 as Md5Hasher>::new();
    let mut native = <OpensslMd5 as Md5Hasher>::new();
    Md5Hasher::update(&mut soft, data);
    Md5Hasher::update(&mut native, data);
    assert_eq!(Md5Hasher::finalize(soft), Md5Hasher::finalize(native));
}

#[test]
fn plain_engine_is_simple_etag() {
    // a whole-file hasher, as the below-threshold path of a driver uses it
    let data = b"below the threshold";
    let mut h = <SoftwareMd5 as Md5Hasher>::new();
    ETagHasher::update(&mut h, data);
    let etag = ETagHasher::finalize(h);
    assert_eq!(etag.digest(), md5_bytes(data));
    assert_eq!(etag.n_chunks(), None);

    // it agrees with the accumulator whenever the simple form applies, so
    // both sides of a size threshold give the same result
    let mut m = ETagHasherMulti::<SoftwareMd5>::new(data.len());
    m.update(data);
    assert_eq!(m.finalize().digest(), md5_bytes(data));
    let mut m = ETagHasherMulti::<SoftwareMd5>::new(1024);
    m.update(data);
    let via_accumulator = m.finalize();
    assert_eq!(via_accumulator.digest(), md5_bytes(data));
    assert_eq!(via_accumulator.n_chunks(), None);
}

#[test]
fn finalize_reset_resets() {
    let mut h = <SoftwareMd5 as Md5Hasher>::new();
    Md5Hasher::update(&mut h, b"abc");
    assert_eq!(Md5Hasher::finalize_reset(&mut h), md5_bytes(b"abc"));
    Md5Hasher::update(&mut h, b"xyz");
    assert_eq!(Md5Hasher::finalize(h), md5_bytes(b"xyz"));
}

#[test]
fn differential_against_model() {
    let data = b"ABCDEFGHIJKLMNOPQRST";
    for p in 1..=5usize {
        for len in 0..=data.len() {
            let input = &data[..len];
            let mut h = ETagHasherMulti::<SoftwareMd5>::new(p);
            h.update(input);
            let etag = h.finalize();
            let (digest, n) = expected_etag(input, p);
            assert_eq!(etag.digest().to_vec(), digest, "p={} len={}", p, len);
            assert_eq!(etag.n_chunks(), n, "p={} len={}", p, len);
        }
    }
}
