use vstd::prelude::*;
use vstd::utf8::encode_utf8;
use argon2::{Argon2, PasswordHash, PasswordHasher, PasswordVerifier};
use argon2::password_hash::{Salt, SaltString};
use argon2::password_hash::rand_core::OsRng;

verus! {

/// Whether `hash` parses as a PHC password hash string
/// (`argon2::PasswordHash::new` succeeds on it).
pub uninterp spec fn phc_hash_is_valid(hash: Seq<char>) -> bool;

/// Whether Argon2 with default settings accepts `password` against the
/// parsed PHC string `hash` (`Argon2::verify_password` succeeds).
pub uninterp spec fn password_matches(password: Seq<char>, hash: Seq<char>) -> bool;

/// The PHC string that Argon2 with default settings makes of `password`
/// with the B64-encoded `salt`, or `None` where it fails.
pub uninterp spec fn argon2_phc_string(password: Seq<char>, salt: Seq<char>) -> Option<Seq<char>>;

/// A character of the standard Base64 alphabet: `A`-`Z`, `a`-`z`, `0`-`9`,
/// `+` and `/`.
pub open spec fn b64_char(c: char) -> bool {
    ('A' <= c && c <= 'Z') || ('a' <= c && c <= 'z') || ('0' <= c && c <= '9') || c == '+'
        || c == '/'
}

/// The shape of the unpadded standard Base64 text of 16 bytes: 22 characters
/// of the alphabet, the last of which carries no bits beyond the 128 that
/// are encoded (its six-bit value is a multiple of 16).
pub open spec fn salt_text_of_16_bytes(s: Seq<char>) -> bool {
    &&& s.len() == 22
    &&& forall|i: int| 0 <= i < 22 ==> #[trigger] b64_char(s[i])
    &&& (s[21] == 'A' || s[21] == 'Q' || s[21] == 'g' || s[21] == 'w')
}

/// Calls `argon2::password_hash::SaltString::generate` with the operating
/// system's random number generator and returns the salt's B64 text.
/// `generate` fills 16 random bytes and encodes them as unpadded standard
/// Base64; claimed is only that shape, for the bytes are random.
#[verifier::external_body]
pub(crate) fn generate_salt() -> (salt: String)
    ensures
        salt_text_of_16_bytes(salt@),
{
    SaltString::generate(&mut OsRng).as_str().to_string()
}

/// Calls `argon2::PasswordHash::new`; claims that the result tells whether
/// `hash` parses as a PHC string.
#[verifier::external_body]
pub(crate) fn parse_phc_hash(hash: &str) -> (valid: bool)
    ensures
        valid == phc_hash_is_valid(hash@),
{
    PasswordHash::new(hash).is_ok()
}

/// Calls `Argon2::default().verify_password` on the parsed `hash`; claims
/// that the result is the name `password_matches` of the arguments. The
/// hash must parse.
#[verifier::external_body]
pub(crate) fn verify_password(password: &str, hash: &str) -> (ok: bool)
    requires
        phc_hash_is_valid(hash@),
    ensures
        ok == password_matches(password@, hash@),
{
    match PasswordHash::new(hash) {
        Ok(parsed) => Argon2::default().verify_password(password.as_bytes(), &parsed).is_ok(),
        Err(_) => false,
    }
}

/// Calls `Argon2::default().hash_password` with `salt` read by
/// `Salt::from_b64` and renders the hash as a PHC string. Claims that the
/// result is the name `argon2_phc_string` of the arguments and, as the
/// crate's documentation shows (hash, render, parse, verify), that a
/// produced string parses and accepts `password`. Also claimed, from the
/// source: the default Argon2 refuses only passwords of more than
/// `0xFFFF_FFFF` bytes and salts that do not read or decode, or decode to
/// fewer than 8 bytes; so the hash is made for the Base64 text of 16 bytes
/// and any shorter password, and never for a longer one.
#[verifier::external_body]
pub(crate) fn hash_password(password: &str, salt: &str) -> (res: Option<String>)
    ensures
        match res {
            Some(h) => argon2_phc_string(password@, salt@) == Some(h@) && phc_hash_is_valid(h@)
                && password_matches(password@, h@),
            None => argon2_phc_string(password@, salt@) is None,
        },
        salt_text_of_16_bytes(salt@) && encode_utf8(password@).len() <= 0xFFFF_FFFF ==> res is Some,
        encode_utf8(password@).len() > 0xFFFF_FFFF ==> res is None,
{
    match Salt::from_b64(salt) {
        Ok(s) => match Argon2::default().hash_password(password.as_bytes(), s) {
            Ok(h) => Some(h.to_string()),
            Err(_) => None,
        },
        Err(_) => None,
    }
}

/// Whether `c` is alphabetic or numeric in the sense of Unicode
/// (`char::is_alphanumeric`).
pub uninterp spec fn char_is_alphanumeric(c: char) -> bool;

/// Calls `char::is_alphanumeric`; claims that the result is the name
/// `char_is_alphanumeric` of `c`.
#[verifier::external_body]
pub(crate) fn is_alphanumeric(c: char) -> (r: bool)
    ensures
        r == char_is_alphanumeric(c),
{
    c.is_alphanumeric()
}

} // verus!
