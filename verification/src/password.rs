//! Salted password hashes and their verification.
//!
//! A stored hash carries everything that checking a password against it needs:
//! the number of rounds, the salt and the derived key. The key derivation is
//! PBKDF2 with HMAC-SHA-256; the comparison of keys looks at every byte
//! whatever the outcome.

use vstd::prelude::*;
use vstd::slice::*;
use vstd::utf8::encode_utf8;
use crate::entropy::random_bytes;
use crate::error::AuthError;

verus! {

/// Bytes of salt drawn for each new hash.
pub const SALT_LEN: usize = 16;

/// Bytes of derived key in a hash.
pub const KEY_LEN: usize = 32;

/// Rounds of key derivation where the caller does not choose.
pub const DEFAULT_ROUNDS: u32 = 600_000;

/// The key that PBKDF2-HMAC-SHA-256 derives from a password, a salt and a
/// number of rounds, 32 bytes long.
pub uninterp spec fn derived_key(password: Seq<u8>, salt: Seq<u8>, rounds: u32) -> Seq<u8>;

/// Calls `pbkdf2::pbkdf2_hmac_array` with SHA-256 and an output of 32 bytes.
/// The result depends on the three arguments alone and is named
/// `derived_key`; the call accepts every password, salt and round count.
#[verifier::external_body]
fn derive_key(password: &[u8], salt: &[u8], rounds: u32) -> (key: Vec<u8>)
    ensures
        key@ == derived_key(password@, salt@, rounds),
        key@.len() == KEY_LEN,
{
    pbkdf2::pbkdf2_hmac_array::<sha2::Sha256, 32>(password, salt, rounds).to_vec()
}

/// What a stored hash is: rounds, salt and derived key.
pub struct PasswordHashView {
    pub rounds: u32,
    pub salt: Seq<u8>,
    pub key: Seq<u8>,
}

impl PasswordHashView {
    /// Whether deriving a key from `plaintext` with this hash's salt and
    /// rounds gives this hash's key.
    pub open spec fn matches(self, plaintext: Seq<char>) -> bool {
        derived_key(encode_utf8(plaintext), self.salt, self.rounds) == self.key
    }
}

/// The hash of `plaintext` under a given salt and round count.
pub open spec fn hash_of(plaintext: Seq<char>, salt: Seq<u8>, rounds: u32) -> PasswordHashView {
    PasswordHashView { rounds, salt, key: derived_key(encode_utf8(plaintext), salt, rounds) }
}

/// A salted one-way digest of a password, self-contained.
#[derive(Debug, PartialEq, Eq)]
pub struct PasswordHash {
    rounds: u32,
    salt: Vec<u8>,
    key: Vec<u8>,
}

impl View for PasswordHash {
    type V = PasswordHashView;

    closed spec fn view(&self) -> PasswordHashView {
        PasswordHashView { rounds: self.rounds, salt: self.salt@, key: self.key@ }
    }
}

impl Clone for PasswordHash {
    fn clone(&self) -> (copy: PasswordHash)
        ensures
            copy@ == self@,
    {
        PasswordHash { rounds: self.rounds, salt: self.salt.clone(), key: self.key.clone() }
    }
}

impl PasswordHash {
    /// A hash put together from its stored parts.
    pub fn from_parts(rounds: u32, salt: Vec<u8>, key: Vec<u8>) -> (hash: PasswordHash)
        ensures
            hash@ == (PasswordHashView { rounds, salt: salt@, key: key@ }),
    {
        PasswordHash { rounds, salt, key }
    }

    /// The rounds that the key was derived with.
    pub fn rounds(&self) -> (rounds: u32)
        ensures
            rounds == self@.rounds,
    {
        self.rounds
    }

    /// The salt that the key was derived with.
    pub fn salt(&self) -> (salt: &[u8])
        ensures
            salt@ == self@.salt,
    {
        self.salt.as_slice()
    }

    /// The derived key.
    pub fn key(&self) -> (key: &[u8])
        ensures
            key@ == self@.key,
    {
        self.key.as_slice()
    }
}

/// Compares two byte strings without stopping at the first difference: the
/// work done depends on their lengths alone.
pub fn constant_time_eq(a: &[u8], b: &[u8]) -> (same: bool)
    ensures
        same == (a@ == b@),
{
    if a.len() != b.len() {
        return false;
    }
    let n: usize = a.len();
    let mut diff: u8 = 0;
    let mut i: usize = 0;
    assert(a@.take(0) =~= b@.take(0));
    while i < n
        invariant
            i <= n,
            n == a@.len(),
            n == b@.len(),
            (diff == 0) == (a@.take(i as int) == b@.take(i as int)),
        decreases n - i,
    {
        let x: u8 = a[i];
        let y: u8 = b[i];
        let ghost before = diff;
        diff = diff | (x ^ y);
        proof {
            assert((diff == 0) == (before == 0 && x == y)) by (bit_vector)
                requires
                    diff == before | (x ^ y),
            ;
            let a0 = a@.take(i as int);
            let b0 = b@.take(i as int);
            let a1 = a@.take(i + 1);
            let b1 = b@.take(i + 1);
            assert(a1 =~= a0.push(x));
            assert(b1 =~= b0.push(y));
            if a1 == b1 {
                assert(a1.drop_last() =~= a0);
                assert(b1.drop_last() =~= b0);
                assert(a1.last() == x);
                assert(b1.last() == y);
            }
        }
        i += 1;
    }
    assert(a@.take(n as int) =~= a@);
    assert(b@.take(n as int) =~= b@);
    diff == 0
}

/// The configured key derivation.
#[derive(Clone, Copy, Debug, PartialEq, Eq)]
pub struct PasswordHasher {
    rounds: u32,
}

impl PasswordHasher {
    /// The rounds that this hasher spends on each new hash.
    pub closed spec fn spec_rounds(self) -> u32 {
        self.rounds
    }

    /// A hasher with the given number of rounds; zero rounds is a
    /// misconfiguration and gives `None`.
    pub fn new(rounds: u32) -> (r: Option<PasswordHasher>)
        ensures
            rounds == 0 ==> r is None,
            rounds > 0 ==> r is Some && r->0.spec_rounds() == rounds,
    {
        if rounds == 0 {
            None
        } else {
            Some(PasswordHasher { rounds })
        }
    }

    /// The rounds that this hasher spends on each new hash.
    pub fn rounds(&self) -> (rounds: u32)
        ensures
            rounds == self.spec_rounds(),
    {
        self.rounds
    }

    /// Checks `plaintext` against a stored hash, with the rounds and the salt
    /// that the hash carries.
    pub fn verify(&self, plaintext: &str, stored: &PasswordHash) -> (ok: bool)
        ensures
            ok == stored@.matches(plaintext@),
    {
        verify(plaintext, stored)
    }

    /// Hashes `plaintext` under the given salt.
    pub fn hash_with_salt(&self, plaintext: &str, salt: &[u8]) -> (h: PasswordHash)
        ensures
            h@ == hash_of(plaintext@, salt@, self.spec_rounds()),
    {
        let key = derive_key(plaintext.as_bytes(), salt, self.rounds);
        PasswordHash { rounds: self.rounds, salt: slice_to_vec(salt), key }
    }

    /// Hashes `plaintext` under a salt drawn for this call. Whatever salt was
    /// drawn, the hash matches `plaintext`; where none could be drawn the
    /// operation fails with `StorageError`.
    pub fn hash(&self, plaintext: &str) -> (r: Result<PasswordHash, AuthError>)
        ensures
            match r {
                Ok(h) => h@.salt.len() == SALT_LEN && h@ == hash_of(
                    plaintext@,
                    h@.salt,
                    self.spec_rounds(),
                ),
                Err(e) => e == AuthError::StorageError,
            },
    {
        match random_bytes(SALT_LEN) {
            Ok(salt) => Ok(self.hash_with_salt(plaintext, salt.as_slice())),
            Err(e) => Err(e),
        }
    }
}

impl Default for PasswordHasher {
    /// A hasher with `DEFAULT_ROUNDS` rounds.
    fn default() -> (hasher: PasswordHasher)
        ensures
            hasher.spec_rounds() == DEFAULT_ROUNDS,
    {
        PasswordHasher { rounds: DEFAULT_ROUNDS }
    }
}

/// Checks `plaintext` against a stored hash.
pub fn verify(plaintext: &str, stored: &PasswordHash) -> (ok: bool)
    ensures
        ok == stored@.matches(plaintext@),
{
    let key = derive_key(plaintext.as_bytes(), stored.salt.as_slice(), stored.rounds);
    constant_time_eq(key.as_slice(), stored.key.as_slice())
}

/// A password verifies against its own hash, whatever the salt and the rounds.
pub proof fn lemma_own_hash_matches(plaintext: Seq<char>, salt: Seq<u8>, rounds: u32)
    ensures
        hash_of(plaintext, salt, rounds).matches(plaintext),
{
}

/// A password whose derived key differs from that of the hashed password does
/// not verify.
pub proof fn lemma_other_key_rejected(
    hashed: Seq<char>,
    tried: Seq<char>,
    salt: Seq<u8>,
    rounds: u32,
)
    requires
        derived_key(encode_utf8(tried), salt, rounds) != derived_key(
            encode_utf8(hashed),
            salt,
            rounds,
        ),
    ensures
        !hash_of(hashed, salt, rounds).matches(tried),
{
}

} // verus!
