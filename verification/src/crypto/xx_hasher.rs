//! The fingerprint of a file: the xxHash64 of its bytes under the seed `0`.

use crate::crypto::xxhash64::{xxh64, xxhash64};
use vstd::prelude::*;

verus! {

/// The error of std's I/O, carried through unread.
#[verifier::external_type_specification]
#[verifier::external_body]
pub struct ExIoError(std::io::Error);

/// Why a file has no fingerprint.
#[derive(Debug)]
pub enum CryptoError {
    /// The file could not be opened or read.
    IOError { source: std::io::Error },
}

/// The fingerprint of content: its xxHash64 under the seed `0`.
pub open spec fn fingerprint(bytes: Seq<u8>) -> u64 {
    xxh64(bytes, 0)
}

/// The fingerprint of the bytes `inp`.
pub fn hash_byte_vec(inp: Vec<u8>) -> (hash: u64)
    ensures
        hash == fingerprint(inp@),
{
    xxhash64(inp.as_slice(), 0)
}

/// The fingerprint of the file at `path`, from what reading it whole gave.
///
/// The fingerprint is that of the bytes read: neither the name of the file
/// nor its place plays a part. A failed read is handed on as the error.
pub fn hash_path(path: &str, read: Result<Vec<u8>, std::io::Error>) -> (r: Result<u64, CryptoError>)
    ensures
        match read {
            Ok(bytes) => r == Ok::<u64, CryptoError>(fingerprint(bytes@)),
            Err(e) => r == Err::<u64, CryptoError>(CryptoError::IOError { source: e }),
        },
{
    match read {
        Ok(bytes) => Ok(hash_byte_vec(bytes)),
        Err(e) => Err(CryptoError::IOError { source: e }),
    }
}

} // verus!
