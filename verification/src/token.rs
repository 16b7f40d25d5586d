//! The text of a session token.
//!
//! A token is written in small hexadecimal digits: sixteen digits for the
//! serial number under which the store issued it, then two digits for each
//! byte of its secret. The serial makes every token differ from all that were
//! issued before; the secret makes it unguessable.

use vstd::prelude::*;

verus! {

/// Digits that the serial takes at the head of a token.
pub const SERIAL_DIGITS: usize = 16;

/// Bytes of secret in a token that the store draws itself.
pub const SECRET_LEN: usize = 32;

/// The digit for a value below sixteen.
pub open spec fn hex_digit(n: u8) -> char {
    if n < 10 {
        (n + 48) as char
    } else {
        (n + 87) as char
    }
}

/// The `k`-th group of four bits of `serial`, the highest first.
pub open spec fn nibble(serial: u64, k: int) -> u8 {
    ((serial >> ((60 - 4 * k) as u64)) & 0xf) as u8
}

/// The sixteen digits of a serial number.
pub open spec fn serial_text(serial: u64) -> Seq<char> {
    Seq::new(SERIAL_DIGITS as nat, |k: int| hex_digit(nibble(serial, k)))
}

/// Two digits for each byte, the high half first.
pub open spec fn secret_text(secret: Seq<u8>) -> Seq<char> {
    Seq::new(
        2 * secret.len(),
        |i: int|
            hex_digit(
                if i % 2 == 0 {
                    secret[i / 2] >> 4
                } else {
                    secret[i / 2] & 0xf
                },
            ),
    )
}

/// The text of the token with the given serial and secret.
pub open spec fn token_text(serial: u64, secret: Seq<u8>) -> Seq<char> {
    serial_text(serial) + secret_text(secret)
}

/// Whether `token` starts with the digits of `serial`.
pub open spec fn has_serial(token: Seq<char>, serial: u64) -> bool {
    token.len() >= SERIAL_DIGITS && token.take(SERIAL_DIGITS as int) == serial_text(serial)
}

/// Whether `token` carries a serial below `bound`: it was issued before the
/// store's counter reached `bound`.
pub open spec fn issued_before(token: Seq<char>, bound: u64) -> bool {
    exists|serial: u64| serial < bound && #[trigger] has_serial(token, serial)
}

fn hex_char(n: u8) -> (c: char)
    requires
        n < 16,
    ensures
        c == hex_digit(n),
{
    if n < 10 {
        (n + 48) as char
    } else {
        (n + 87) as char
    }
}

proof fn lemma_same_nibble(a: u64, b: u64, k: int, shift: u64)
    requires
        0 <= k < 16,
        shift == 60 - 4 * k,
        nibble(a, k) == nibble(b, k),
    ensures
        ((a >> shift) & 0xf) == ((b >> shift) & 0xf),
{
    assert(((a >> shift) & 0xf) < 16) by (bit_vector);
    assert(((b >> shift) & 0xf) < 16) by (bit_vector);
}

/// Serial numbers with the same sixteen digits are the same number.
pub proof fn lemma_serial_text_injective(a: u64, b: u64)
    requires
        serial_text(a) == serial_text(b),
    ensures
        a == b,
{
    assert forall|k: int| 0 <= k < 16 implies nibble(a, k) == nibble(b, k) by {
        assert(serial_text(a)[k] == hex_digit(nibble(a, k)));
    }
    lemma_same_nibble(a, b, 0, 60);
    lemma_same_nibble(a, b, 1, 56);
    lemma_same_nibble(a, b, 2, 52);
    lemma_same_nibble(a, b, 3, 48);
    lemma_same_nibble(a, b, 4, 44);
    lemma_same_nibble(a, b, 5, 40);
    lemma_same_nibble(a, b, 6, 36);
    lemma_same_nibble(a, b, 7, 32);
    lemma_same_nibble(a, b, 8, 28);
    lemma_same_nibble(a, b, 9, 24);
    lemma_same_nibble(a, b, 10, 20);
    lemma_same_nibble(a, b, 11, 16);
    lemma_same_nibble(a, b, 12, 12);
    lemma_same_nibble(a, b, 13, 8);
    lemma_same_nibble(a, b, 14, 4);
    lemma_same_nibble(a, b, 15, 0);
    assert(a == b) by (bit_vector)
        requires
            ((a >> 60) & 0xf) == ((b >> 60) & 0xf),
            ((a >> 56) & 0xf) == ((b >> 56) & 0xf),
            ((a >> 52) & 0xf) == ((b >> 52) & 0xf),
            ((a >> 48) & 0xf) == ((b >> 48) & 0xf),
            ((a >> 44) & 0xf) == ((b >> 44) & 0xf),
            ((a >> 40) & 0xf) == ((b >> 40) & 0xf),
            ((a >> 36) & 0xf) == ((b >> 36) & 0xf),
            ((a >> 32) & 0xf) == ((b >> 32) & 0xf),
            ((a >> 28) & 0xf) == ((b >> 28) & 0xf),
            ((a >> 24) & 0xf) == ((b >> 24) & 0xf),
            ((a >> 20) & 0xf) == ((b >> 20) & 0xf),
            ((a >> 16) & 0xf) == ((b >> 16) & 0xf),
            ((a >> 12) & 0xf) == ((b >> 12) & 0xf),
            ((a >> 8) & 0xf) == ((b >> 8) & 0xf),
            ((a >> 4) & 0xf) == ((b >> 4) & 0xf),
            ((a >> 0) & 0xf) == ((b >> 0) & 0xf),
    ;
}

/// A token starts with the digits of one serial only.
pub proof fn lemma_one_serial_per_token(token: Seq<char>, a: u64, b: u64)
    requires
        has_serial(token, a),
        has_serial(token, b),
    ensures
        a == b,
{
    lemma_serial_text_injective(a, b);
}

/// A token written with `serial` starts with the digits of `serial`.
pub proof fn lemma_token_text_has_serial(serial: u64, secret: Seq<u8>)
    ensures
        has_serial(token_text(serial, secret), serial),
        token_text(serial, secret).len() == SERIAL_DIGITS + 2 * secret.len(),
{
    assert(token_text(serial, secret).take(SERIAL_DIGITS as int) =~= serial_text(serial));
}

/// A token written now differs from every token written under a smaller
/// serial, whatever the secrets were.
pub proof fn lemma_fresh_token(earlier: Seq<char>, serial: u64, secret: Seq<u8>)
    requires
        issued_before(earlier, serial),
    ensures
        token_text(serial, secret) != earlier,
{
    lemma_token_text_has_serial(serial, secret);
    if token_text(serial, secret) == earlier {
        let s = choose|s: u64| s < serial && #[trigger] has_serial(earlier, s);
        lemma_one_serial_per_token(earlier, s, serial);
    }
}

/// Writes the token with the given serial and secret.
pub fn write_token(serial: u64, secret: &[u8]) -> (token: String)
    ensures
        token@ == token_text(serial, secret@),
{
    let mut out = String::new();
    let mut k: usize = 0;
    while k < 16
        invariant
            k <= 16,
            out@ == serial_text(serial).take(k as int),
        decreases 16 - k,
    {
        let shift: u64 = (60 - 4 * k) as u64;
        let n: u8 = ((serial >> shift) & 0xf) as u8;
        assert(((serial >> shift) & 0xf) < 16) by (bit_vector);
        out.push(hex_char(n));
        k += 1;
    }
    let n: usize = secret.len();
    let mut i: usize = 0;
    while i < n
        invariant
            i <= n,
            n == secret@.len(),
            out@ == serial_text(serial) + secret_text(secret@).take(2 * i),
        decreases n - i,
    {
        let b: u8 = secret[i];
        let hi: u8 = b >> 4;
        let lo: u8 = b & 0xf;
        assert(hi < 16 && lo < 16) by (bit_vector)
            requires
                hi == b >> 4,
                lo == b & 0xf,
        ;
        out.push(hex_char(hi));
        out.push(hex_char(lo));
        i += 1;
    }
    out
}

} // verus!
