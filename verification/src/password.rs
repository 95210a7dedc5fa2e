//! Passwords, and the salted hashes that are kept in their place.

use vstd::prelude::*;
use vstd::string::StrSliceExecFns;
use vstd::utf8::encode_utf8;

use argon2::{PasswordHasher, PasswordVerifier};

verus! {

/// The text that argon2, with its default parameters, makes of a password (as bytes) and a salt;
/// nothing where it refuses either.
pub uninterp spec fn argon2_hash(password: Seq<u8>, salt: Seq<char>) -> Option<Seq<char>>;

/// Whether argon2 accepts a password (as bytes) for a stored hash. A stored text that is no hash
/// accepts no password.
pub uninterp spec fn password_accepted(password: Seq<u8>, stored: Seq<char>) -> bool;

/// A number of lanes with so many digits is more than argon2 takes, and eight times a shorter one
/// fits into 32 bits.
pub const LANE_DIGITS: usize = 9;

/// Whether a text names, from place `i` on, a number of lanes with too many digits.
pub open spec fn too_many_lanes(stored: Seq<char>, i: int) -> bool {
    &&& 0 <= i
    &&& i + 2 + LANE_DIGITS <= stored.len()
    &&& stored[i] == 'p'
    &&& stored[i + 1] == '='
    &&& forall|k: int| i + 2 <= k < i + 2 + LANE_DIGITS ==> '0' <= #[trigger] stored[k] <= '9'
}

/// Whether no number of lanes in a text has too many digits.
pub open spec fn lanes_fit(stored: Seq<char>) -> bool {
    forall|i: int| !#[trigger] too_many_lanes(stored, i)
}

/// Whether a password is the right one for a stored hash.
pub open spec fn right_password(password: Seq<char>, stored: Seq<char>) -> bool {
    lanes_fit(stored) && password_accepted(encode_utf8(password), stored)
}

/// Why a password could not be hashed.
#[verifier::external_type_specification]
#[verifier::external_body]
pub struct ExHashError(argon2::password_hash::Error);

/// The longest password that argon2 takes, in bytes.
pub const MAX_PASSWORD: usize = 0xffff_ffff;

/// Calls `SaltString::generate` on the operating system's random numbers. Sixteen random bytes are
/// a salt that argon2 takes, so that under it just the passwords are refused that are too long.
/// What the salt is, and that two calls differ, is not claimed.
#[verifier::external_body]
fn fresh_salt() -> (salt: String)
    ensures
        forall|password: Seq<u8>|
            (#[trigger] argon2_hash(password, salt@) is Some) == (password.len() <= MAX_PASSWORD),
{
    argon2::password_hash::SaltString::generate(&mut argon2::password_hash::rand_core::OsRng)
        .as_str()
        .to_owned()
}

/// Calls `Argon2::default().hash_password` with the salt that `SaltString::from_b64` reads, and
/// gives the hash as text. The password that was hashed is accepted for its hash, which names one
/// lane.
#[verifier::external_body]
fn salted_hash(password: &[u8], salt: &str) -> (hash: Result<
    String,
    argon2::password_hash::Error,
>)
    ensures
        match hash {
            Ok(h) => argon2_hash(password@, salt@) == Some(h@) && password_accepted(
                password@,
                h@,
            ) && lanes_fit(h@),
            Err(_) => argon2_hash(password@, salt@) is None,
        },
{
    let salt = argon2::password_hash::SaltString::from_b64(salt)?;
    let hash = argon2::Argon2::default().hash_password(password, &salt)?;
    Ok(hash.to_string())
}

/// Calls `PasswordHash::new` on the stored text and `Argon2::default().verify_password` on what
/// it gives; a text that is refused there accepts nothing. Eight times the number of lanes is
/// computed in 32 bits before that number is held against its limit, so texts are left out whose
/// number of lanes may be too large for that. The memory and the time that a hash asks for are not
/// bounded here.
#[verifier::external_body]
fn verified(password: &[u8], stored: &str) -> (yes: bool)
    requires
        lanes_fit(stored@),
    ensures
        yes == password_accepted(password@, stored@),
{
    match argon2::PasswordHash::new(stored) {
        Ok(hash) => argon2::Argon2::default().verify_password(password, &hash).is_ok(),
        Err(_) => false,
    }
}

/// Hashes a password under a salt; `None` where that fails. The password is accepted for its hash.
pub fn hash_password(password: &str, salt: &str) -> (hash: Option<String>)
    ensures
        match hash {
            Some(h) => argon2_hash(encode_utf8(password@), salt@) == Some(h@)
                && right_password(password@, h@),
            None => argon2_hash(encode_utf8(password@), salt@) is None,
        },
{
    match salted_hash(password.as_bytes(), salt) {
        Ok(h) => Some(h),
        Err(_) => None,
    }
}

/// Hashes a password under a fresh salt; `None` where the password is too long.
pub fn fresh_hash(password: &str) -> (hash: Option<String>)
    ensures
        hash is Some == (encode_utf8(password@).len() <= MAX_PASSWORD),
        hash matches Some(h) ==> right_password(password@, h@) && exists|
            salt: Seq<char>,
        | #[trigger]
            argon2_hash(encode_utf8(password@), salt) == Some(h@),
{
    let salt: String = fresh_salt();
    hash_password(password, salt.as_str())
}

/// Whether a text names, from place `i` on, a number of lanes with too many digits. Its length in
/// characters is `len`.
fn names_too_many_lanes(stored: &str, len: usize, i: usize) -> (yes: bool)
    requires
        i <= len == stored@.len(),
    ensures
        yes == too_many_lanes(stored@, i as int),
{
    if len - i < 2 + LANE_DIGITS || stored.get_char(i) != 'p' || stored.get_char(i + 1) != '=' {
        return false;
    }
    let mut k: usize = 0;
    while k < LANE_DIGITS
        invariant
            k <= LANE_DIGITS,
            i + 2 + LANE_DIGITS <= len == stored@.len(),
            forall|j: int| i + 2 <= j < i + 2 + k ==> '0' <= #[trigger] stored@[j] <= '9',
        decreases LANE_DIGITS - k,
    {
        let c: char = stored.get_char(i + 2 + k);
        if !('0' <= c && c <= '9') {
            assert(!('0' <= stored@[i + 2 + k] <= '9'));
            return false;
        }
        k += 1;
    }
    true
}

/// Whether no number of lanes in a text has too many digits.
fn has_few_lanes(stored: &str) -> (yes: bool)
    ensures
        yes == lanes_fit(stored@),
{
    let len: usize = stored.unicode_len();
    let mut i: usize = 0;
    while i < len
        invariant
            i <= len == stored@.len(),
            forall|j: int| j < i ==> !#[trigger] too_many_lanes(stored@, j),
        decreases len - i,
    {
        if names_too_many_lanes(stored, len, i) {
            return false;
        }
        i += 1;
    }
    true
}

/// Whether `password` is the one that was hashed into `stored`. A text with too many lanes is no
/// hash, and accepts no password.
pub fn accepts(password: &str, stored: &str) -> (yes: bool)
    ensures
        yes == right_password(password@, stored@),
{
    has_few_lanes(stored) && verified(password.as_bytes(), stored)
}

} // verus!
