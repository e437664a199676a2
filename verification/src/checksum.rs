//! SHA-256 over a byte stream fed in pieces, as a download is checked
//! against the checksum the Hub publishes for it.
use vstd::prelude::*;
use sha2::Digest;
use crate::errors::RuntimeError;
use crate::hf_download::{download_check, verify_download};

verus! {

/// A SHA-256 computation in progress (`sha2::Sha256`).
#[verifier::external_body]
pub struct Sha256Stream {
    hasher: sha2::Sha256,
}

/// The bytes fed to a computation so far, in order.
pub uninterp spec fn fed_bytes(s: Sha256Stream) -> Seq<u8>;

/// The SHA-256 digest of a byte string written as lowercase hexadecimal
/// (`format!("{:x}", Sha256::digest(data))`).
pub uninterp spec fn sha256_hex(data: Seq<u8>) -> Seq<char>;

impl Sha256Stream {
    /// `Sha256::new`: a computation that has been fed nothing.
    #[verifier::external_body]
    fn new() -> (r: Sha256Stream)
        ensures
            fed_bytes(r) == Seq::<u8>::empty(),
    {
        Sha256Stream { hasher: sha2::Sha256::new() }
    }

    /// `Digest::update`: feed the next piece of the stream.
    #[verifier::external_body]
    fn update(&mut self, chunk: &[u8])
        ensures
            fed_bytes(*final(self)) == fed_bytes(*old(self)) + chunk@,
    {
        self.hasher.update(chunk);
    }

    /// `Digest::finalize`, written as lowercase hexadecimal: the digest of
    /// everything fed, 32 bytes as 64 hex digits.
    #[verifier::external_body]
    fn finish_hex(self) -> (r: String)
        ensures
            r@ == sha256_hex(fed_bytes(self)),
            r@.len() == 64,
    {
        format!("{:x}", self.hasher.finalize())
    }
}

/// The SHA-256 of a file being read, fed piece by piece in file order.
pub struct FileChecksum {
    stream: Sha256Stream,
}

impl View for FileChecksum {
    type V = Seq<u8>;

    closed spec fn view(&self) -> Seq<u8> {
        fed_bytes(self.stream)
    }
}

impl FileChecksum {
    pub fn new() -> (r: FileChecksum)
        ensures
            r@ == Seq::<u8>::empty(),
    {
        FileChecksum { stream: Sha256Stream::new() }
    }

    /// Feed the next piece read from the file.
    pub fn feed(&mut self, chunk: &[u8])
        ensures
            final(self)@ == old(self)@ + chunk@,
    {
        self.stream.update(chunk);
    }

    /// The digest of everything fed, as lowercase hexadecimal.
    pub fn hex(self) -> (r: String)
        ensures
            r@ == sha256_hex(self@),
    {
        self.stream.finish_hex()
    }
}

/// Check a downloaded file of `actual_size` bytes whose content was fed to
/// `checksum`: against the expected size, then against the expected
/// SHA-256 when the Hub published one.
pub fn verify_downloaded_file(actual_size: u64, expected_size: u64, expected_sha: Option<&str>, checksum: FileChecksum) -> (r: Result<(), RuntimeError>)
    ensures
        match download_check(actual_size, expected_size, match expected_sha { Some(e) => Some(e@), None => None }, sha256_hex(checksum@)) {
            None => r is Ok,
            Some(m) => r matches Err(RuntimeError::ConfigError(s)) && s@ == m,
        },
{
    let actual = checksum.hex();
    verify_download(actual_size, expected_size, expected_sha, actual.as_str())
}

} // verus!
