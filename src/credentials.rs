//! Password hashing and the encoding of generated passwords, through the
//! `argon2` and `hex` crates.
use argon2::{PasswordHasher, PasswordVerifier};
use vstd::prelude::*;

verus! {

/// The Argon2 (default parameters) PHC string of `password` under the
/// base64 salt `salt`; `None` where the salt is not valid.
pub uninterp spec fn password_hash_of(password: Seq<char>, salt: Seq<char>) -> Option<Seq<char>>;

/// Whether `password` matches the PHC string `stored`; false where
/// `stored` is not a valid PHC string.
pub uninterp spec fn password_verifies(stored: Seq<char>, password: Seq<char>) -> bool;

/// Relies on argon2's `PasswordHasher::hash_password` with
/// `Argon2::default()`: a deterministic function of the password and the
/// salt, which fails where `Salt::from_b64` rejects the salt.
#[verifier::external_body]
pub(crate) fn hash_password(password: &str, salt: &str) -> (r: Option<String>)
    ensures
        r matches Some(h) ==> password_hash_of(password@, salt@) == Some(h@),
        r is None ==> password_hash_of(password@, salt@) is None,
{
    let salt = argon2::password_hash::Salt::from_b64(salt).ok()?;
    argon2::Argon2::default().hash_password(password.as_bytes(), salt).ok().map(|h| h.to_string())
}

/// Relies on `PasswordHash::new` and argon2's
/// `PasswordVerifier::verify_password`: whether the password hashes to the
/// stored PHC string.
#[verifier::external_body]
pub(crate) fn verify_password(stored: &str, password: &str) -> (r: bool)
    ensures
        r == password_verifies(stored@, password@),
{
    match argon2::PasswordHash::new(stored) {
        Ok(hash) => argon2::Argon2::default().verify_password(password.as_bytes(), &hash).is_ok(),
        Err(_) => false,
    }
}

/// The lower-case hexadecimal digit for `d`.
pub open spec fn hex_digit(d: u8) -> char {
    if d < 10 {
        (('0' as u8) + d) as char
    } else {
        (('a' as u8) + (d - 10)) as char
    }
}

/// Two lower-case hexadecimal digits per byte, high nibble first.
pub open spec fn hex_of(bytes: Seq<u8>) -> Seq<char>
    decreases bytes.len(),
{
    if bytes.len() == 0 {
        Seq::empty()
    } else {
        hex_of(bytes.drop_last()) + seq![hex_digit(bytes.last() / 16), hex_digit(bytes.last() % 16)]
    }
}

/// Relies on `hex::encode`: two lower-case digits per byte, high nibble
/// first.
#[verifier::external_body]
pub(crate) fn to_hex(bytes: &Vec<u8>) -> (r: String)
    ensures
        r@ == hex_of(bytes@),
{
    hex::encode(bytes)
}

} // verus!
