//! Canonical display names.
//!
//! A display name as a user types it is turned into the identifier under
//! which the account is stored and looked up: ASCII capitals become small
//! letters and spaces become hyphens. The result must be non-empty and hold
//! only characters that need no escaping in a URL.

use vstd::prelude::*;
use crate::error::AuthError;

verus! {

/// The character that stands for `c` in a canonical name.
pub open spec fn canonical_char(c: char) -> char {
    if 'A' <= c && c <= 'Z' {
        ((c as u8) + 32) as char
    } else if c == ' ' {
        '-'
    } else {
        c
    }
}

/// Small letters, digits and the four marks `-`, `.`, `_`, `~`.
pub open spec fn is_url_safe(c: char) -> bool {
    ('a' <= c && c <= 'z') || ('0' <= c && c <= '9') || c == '-' || c == '.' || c == '_'
        || c == '~'
}

/// The canonical form of a display name, character by character.
pub open spec fn canonical_form(raw: Seq<char>) -> Seq<char> {
    Seq::new(raw.len(), |i: int| canonical_char(raw[i]))
}

/// A name that is its own canonical form: non-empty and URL-safe throughout.
pub open spec fn is_canonical(name: Seq<char>) -> bool {
    name.len() > 0 && forall|i: int| 0 <= i < name.len() ==> is_url_safe(#[trigger] name[i])
}

/// Whether a display name has a canonical form at all.
pub open spec fn can_canonicalize(raw: Seq<char>) -> bool {
    is_canonical(canonical_form(raw))
}

fn canonical_byte(b: u8) -> (r: u8)
    requires
        b < 128,
    ensures
        r < 128,
        r as char == canonical_char(b as char),
{
    if b >= 65 && b <= 90 {
        b + 32
    } else if b == 32 {
        45
    } else {
        b
    }
}

fn url_safe_byte(b: u8) -> (r: bool)
    requires
        b < 128,
    ensures
        r == is_url_safe(b as char),
{
    (b >= 97 && b <= 122) || (b >= 48 && b <= 57) || b == 45 || b == 46 || b == 95 || b == 126
}

/// Turns a display name into its canonical form, or reports `InvalidInput`
/// where it has none.
pub fn canonicalize(raw: &str) -> (r: Result<String, AuthError>)
    ensures
        match r {
            Ok(name) => can_canonicalize(raw@) && name@ == canonical_form(raw@),
            Err(e) => !can_canonicalize(raw@) && e == AuthError::InvalidInput,
        },
{
    if !raw.is_ascii() {
        proof {
            let i = choose|i: int|
                0 <= i < raw@.len() && !('\0' <= #[trigger] raw@[i] <= '\u{7f}');
            assert(canonical_form(raw@)[i] == raw@[i]);
        }
        return Err(AuthError::InvalidInput);
    }
    let bytes = raw.as_bytes();
    let n: usize = bytes.len();
    if n == 0 {
        return Err(AuthError::InvalidInput);
    }
    let mut out = String::new();
    let mut i: usize = 0;
    while i < n
        invariant
            i <= n,
            n == raw@.len(),
            bytes@.len() == n,
            forall|k: int|
                0 <= k < n ==> (#[trigger] raw@[k]) as int == bytes@[k] as int && bytes@[k] < 128,
            out@ == canonical_form(raw@).take(i as int),
            forall|k: int| 0 <= k < i ==> is_url_safe(#[trigger] canonical_form(raw@)[k]),
        decreases n - i,
    {
        assert(bytes@[i as int] as char == raw@[i as int]);
        let c: u8 = canonical_byte(bytes[i]);
        assert(c as char == canonical_form(raw@)[i as int]);
        if !url_safe_byte(c) {
            return Err(AuthError::InvalidInput);
        }
        out.push(c as char);
        i += 1;
    }
    Ok(out)
}

/// Whether `name` is already in canonical form.
pub fn is_canonical_name(name: &str) -> (r: bool)
    ensures
        r == is_canonical(name@),
{
    if !name.is_ascii() {
        return false;
    }
    let bytes = name.as_bytes();
    let n: usize = bytes.len();
    if n == 0 {
        return false;
    }
    let mut i: usize = 0;
    while i < n
        invariant
            i <= n,
            n == name@.len(),
            bytes@.len() == n,
            forall|k: int|
                0 <= k < n ==> (#[trigger] name@[k]) as int == bytes@[k] as int && bytes@[k] < 128,
            forall|k: int| 0 <= k < i ==> is_url_safe(#[trigger] name@[k]),
        decreases n - i,
    {
        assert(bytes@[i as int] as char == name@[i as int]);
        if !url_safe_byte(bytes[i]) {
            return false;
        }
        i += 1;
    }
    true
}

/// A canonical name is its own canonical form.
pub proof fn lemma_canonical_is_fixed(name: Seq<char>)
    requires
        is_canonical(name),
    ensures
        canonical_form(name) == name,
{
}

/// Canonicalizing twice gives what canonicalizing once gives.
pub proof fn lemma_canonical_form_idempotent(raw: Seq<char>)
    ensures
        canonical_form(canonical_form(raw)) == canonical_form(raw),
{
}

} // verus!
