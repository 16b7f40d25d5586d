//! Random bytes from the operating system.

use vstd::prelude::*;
use crate::error::AuthError;

verus! {

/// The error type of the `getrandom` crate, carried through unopened.
#[verifier::external_type_specification]
#[verifier::external_body]
pub struct ExEntropyError(getrandom::Error);

/// Calls `getrandom::getrandom` on a fresh buffer of `len` bytes. On success
/// the buffer comes back whole; its content is whatever the system gave, so
/// nothing is claimed about it. A failure of the source is handed on as it is.
#[verifier::external_body]
fn os_random(len: usize) -> (r: Result<Vec<u8>, getrandom::Error>)
    ensures
        r matches Ok(bytes) ==> bytes@.len() == len,
{
    let mut buf = vec![0u8; len];
    match getrandom::getrandom(&mut buf) {
        Ok(()) => Ok(buf),
        Err(e) => Err(e),
    }
}

/// Draws `len` random bytes. A failing source is reported as
/// `StorageError`; no other error comes out.
pub fn random_bytes(len: usize) -> (r: Result<Vec<u8>, AuthError>)
    ensures
        match r {
            Ok(bytes) => bytes@.len() == len,
            Err(e) => e == AuthError::StorageError,
        },
{
    match os_random(len) {
        Ok(bytes) => Ok(bytes),
        Err(_) => Err(AuthError::StorageError),
    }
}

} // verus!
