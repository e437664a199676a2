use gguf_switchboard::checksum::{verify_downloaded_file, FileChecksum};
use gguf_switchboard::errors::RuntimeError;

const ABC: &str = "ba7816bf8f01cfea414140de5dae2223b00361a396177a9cb410ff61f20015ad";

#[test]
fn pieces_hash_like_the_whole() {
    let mut c = FileChecksum::new();
    c.feed(b"a");
    c.feed(b"");
    c.feed(b"bc");
    assert_eq!(c.hex(), ABC);
}

#[test]
fn downloads_are_checked_by_size_then_checksum() {
    let fed = |data: &[u8]| {
        let mut c = FileChecksum::new();
        c.feed(data);
        c
    };
    assert!(verify_downloaded_file(3, 3, Some(ABC), fed(b"abc")).is_ok());
    assert!(verify_downloaded_file(3, 3, Some(&ABC.to_uppercase()), fed(b"abc")).is_ok());
    assert!(verify_downloaded_file(3, 3, None, FileChecksum::new()).is_ok());
    match verify_downloaded_file(4, 3, Some(ABC), fed(b"abcd")) {
        Err(RuntimeError::ConfigError(m)) => assert_eq!(m, "Downloaded file size mismatch: expected 3 bytes, got 4"),
        other => panic!("expected a size mismatch, got {other:?}"),
    }
    match verify_downloaded_file(3, 3, Some(ABC), fed(b"abd")) {
        Err(RuntimeError::ConfigError(m)) => assert!(m.starts_with("Downloaded file SHA-256 mismatch: expected ba7816bf")),
        other => panic!("expected a checksum mismatch, got {other:?}"),
    }
}
