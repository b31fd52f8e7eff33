use bagr::digest::{hex_string, Hasher, MultiDigestWriter};
use bagr::DigestAlgorithm;

fn hex_of(alg: DigestAlgorithm, pieces: &[&[u8]]) -> String {
    let mut h = Hasher::new(alg);
    for p in pieces {
        h.update(p);
    }
    hex_string(&h.finalize())
}

#[test]
fn digests_of_known_inputs() {
    assert_eq!("98ea6e4f216f2fb4b69fff9b3a44842c38686ca685f3f55dc48c5d3fb1107be4", hex_of(DigestAlgorithm::Sha256, &[b"hi\n"]));
    assert_eq!("d41d8cd98f00b204e9800998ecf8427e", hex_of(DigestAlgorithm::Md5, &[]));
    assert_eq!("a9993e364706816aba3e25717850c26c9cd0d89d", hex_of(DigestAlgorithm::Sha1, &[b"a", b"bc"]));
    assert_eq!(
        "ddaf35a193617abacc417349ae20413112e6fa4e89a97ea20a9eeee64b55d39a2192992a274fc1a836ba3c23a3feebbd454d4423643ce80e2a9ac94fa54ca49f",
        hex_of(DigestAlgorithm::Sha512, &[b"ab", b"", b"c"])
    );
    assert_eq!("bddd813c634239723171ef3fee98579b94964e3bb1cb3e427262c8c068d52319", hex_of(DigestAlgorithm::Blake2b256, &[b"abc"]));
    assert_eq!(
        "ba80a53f981c4d0d6a2797b69f12f6e94c212f14685ac4b74b12bb6fdbffa2d17d87c5392aab792dc252d5de4533cc9518d38aa8dbf1925ab92386edd4009923",
        hex_of(DigestAlgorithm::Blake2b512, &[b"abc"])
    );
}

#[test]
fn multi_digest_sink_feeds_every_algorithm() {
    let mut w = MultiDigestWriter::new(&[DigestAlgorithm::Sha256, DigestAlgorithm::Sha1]);
    w.update(b"a");
    w.update(b"bc");
    let out = w.finalize_hex();
    assert_eq!(
        vec![
            (DigestAlgorithm::Sha256, "ba7816bf8f01cfea414140de5dae2223b00361a396177a9cb410ff61f20015ad".to_string()),
            (DigestAlgorithm::Sha1, "a9993e364706816aba3e25717850c26c9cd0d89d".to_string()),
        ],
        out
    );
}

#[test]
fn hex_is_lowercase_two_digits_per_byte() {
    assert_eq!("00ff0aa9", hex_string(&vec![0x00, 0xff, 0x0a, 0xa9]));
    assert_eq!("", hex_string(&Vec::new()));
}
