//! Asking for the tree, and trying a login.

use vstd::prelude::*;
use vstd::utf8::encode_utf8;

use crate::credentials::{open_message, opening, pad, padded};
use crate::wire::CHUNK_SIZE;

verus! {

/// A request without a body.
pub fn first_message(message_code: u8, username: &str, password: &str) -> (buf: [u8; CHUNK_SIZE])
    requires
        encode_utf8(username@).len() <= 255,
        encode_utf8(password@).len() <= 255,
    ensures
        buf@ == padded(opening(message_code, encode_utf8(username@), encode_utf8(password@))),
{
    pad(&open_message(message_code, username, password))
}

/// Whether the answer to a login attempt says that it succeeded.
pub fn login_accepted(answer: u8) -> (yes: bool)
    ensures
        yes == (answer == 20),
{
    answer == 20
}

} // verus!
