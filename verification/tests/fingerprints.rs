use nvproton::fingerprint::Fingerprinter;

#[test]
fn digest_of_nothing() {
    let fp = Fingerprinter::new();
    assert_eq!(
        fp.finish(),
        "e3b0c44298fc1c149afbf4c8996fb92427ae41e4649b934ca495991b7852b855"
    );
}

#[test]
fn digest_of_known_bytes() {
    let mut fp = Fingerprinter::new();
    fp.add_chunk(b"abc");
    assert_eq!(
        fp.finish(),
        "ba7816bf8f01cfea414140de5dae2223b00361a396177a9cb410ff61f20015ad"
    );
}

#[test]
fn chunking_does_not_change_the_digest() {
    let mut whole = Fingerprinter::new();
    whole.add_chunk(b"streamed in chunks");
    let mut parts = Fingerprinter::new();
    parts.add_chunk(b"streamed ");
    parts.add_chunk(b"in ");
    parts.add_chunk(b"chunks");
    assert_eq!(whole.finish(), parts.finish());
}
