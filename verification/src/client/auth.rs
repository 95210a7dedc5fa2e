//! Asking to be registered.

use vstd::prelude::*;
use vstd::utf8::encode_utf8;

use crate::auth::registration_of;
use crate::credentials::{body_start, opening, open_message, opening_is_read_back, pad, padded};
use crate::text::lemma_text_roundtrip;
use crate::wire::{push_all, CHUNK_SIZE};

verus! {

/// Why a registration failed.
#[derive(Clone, Copy, Debug, PartialEq, Eq, Structural)]
pub enum DatabaseError {
    UsernameOccupied,
    HashingFailed,
    FailedToSave,
    FailedToLoad,
    MalformedMessage,
    Forbidden,
    Unknown,
}

/// The body of a registration: the administrator's password behind the low byte of its length.
pub open spec fn admin_body(admin: Seq<u8>) -> Seq<u8> {
    seq![(admin.len() % 256) as u8] + admin
}

/// Whether name and passwords fit into a registration.
pub open spec fn fits(username: Seq<u8>, pass: Seq<u8>, admin: Seq<u8>) -> bool {
    username.len() <= 255 && pass.len() <= 255 && username.len() + pass.len() + admin.len() + 4
        <= CHUNK_SIZE
}

/// A registration, where name and passwords fit.
pub open spec fn registration(
    username: Seq<char>,
    pass: Seq<char>,
    admin: Seq<char>,
) -> Result<Seq<u8>, DatabaseError> {
    if fits(encode_utf8(username), encode_utf8(pass), encode_utf8(admin)) {
        Ok(
            padded(
                opening(8, encode_utf8(username), encode_utf8(pass)) + admin_body(
                    encode_utf8(admin),
                ),
            ),
        )
    } else {
        Err(DatabaseError::MalformedMessage)
    }
}

/// Builds a registration.
pub fn register_message(username: &str, pass: &str, admin_pass: &str) -> (buf: Result<
    [u8; CHUNK_SIZE],
    DatabaseError,
>)
    ensures
        match buf {
            Ok(b) => registration(username@, pass@, admin_pass@) == Ok::<Seq<u8>, DatabaseError>(
                b@,
            ),
            Err(e) => registration(username@, pass@, admin_pass@) == Err::<
                Seq<u8>,
                DatabaseError,
            >(e),
        },
{
    let admin: &[u8] = admin_pass.as_bytes();
    let user_len: usize = username.as_bytes().len();
    let pass_len: usize = pass.as_bytes().len();
    if user_len > 255 || pass_len > 255 {
        return Err(DatabaseError::MalformedMessage);
    }
    if admin.len() > CHUNK_SIZE - user_len - pass_len - 4 {
        return Err(DatabaseError::MalformedMessage);
    }
    let mut out: Vec<u8> = open_message(8, username, pass);
    let ghost head = out@;
    out.push((admin.len() % 256) as u8);
    push_all(&mut out, admin);
    assert(out@ =~= head + admin_body(admin@));
    Ok(pad(&out))
}

/// What the server's answer to a registration means.
pub open spec fn registered(answer: u8) -> Result<(), DatabaseError> {
    match answer {
        20 => Ok(()),
        40 => Err(DatabaseError::MalformedMessage),
        41 => Err(DatabaseError::UsernameOccupied),
        44 => Err(DatabaseError::Forbidden),
        50 => Err(DatabaseError::FailedToLoad),
        _ => Err(DatabaseError::Unknown),
    }
}

/// Reads the server's answer to a registration.
pub fn register_answer(answer: u8) -> (result: Result<(), DatabaseError>)
    ensures
        result == registered(answer),
{
    match answer {
        20 => Ok(()),
        40 => Err(DatabaseError::MalformedMessage),
        41 => Err(DatabaseError::UsernameOccupied),
        44 => Err(DatabaseError::Forbidden),
        50 => Err(DatabaseError::FailedToLoad),
        _ => Err(DatabaseError::Unknown),
    }
}

/// A registration is one message of the size that the server reads, under the code for it; the
/// server reads name and passwords back from it, where the administrator's password is no longer
/// than its length byte can say. A name or a password over 255 bytes is refused as malformed, and
/// where all three stay within that, nothing is. The user is told of success just where the server
/// answers it, and each known answer means something of its own.
pub proof fn registration_is_read_back(
    username: Seq<char>,
    pass: Seq<char>,
    admin: Seq<char>,
    answer: u8,
)
    ensures
        match registration(username, pass, admin) {
            Ok(buf) => {
                &&& encode_utf8(username).len() <= 255
                &&& encode_utf8(pass).len() <= 255
                &&& buf.len() == CHUNK_SIZE
                &&& buf[0] == 8
                &&& encode_utf8(admin).len() <= 255 ==> registration_of(buf) == Some(
                    (username, pass, admin),
                )
            },
            Err(e) => {
                &&& e == DatabaseError::MalformedMessage
                &&& encode_utf8(username).len() > 255 || encode_utf8(pass).len() > 255
                    || encode_utf8(admin).len() > 255
            },
        },
        registered(answer) is Ok <==> answer == 20,
        forall|other: u8|
            #[trigger] registered(other) == registered(answer) && registered(answer) != Err::<
                (),
                DatabaseError,
            >(DatabaseError::Unknown) ==> other == answer,
{
    let bytes = encode_utf8(admin);
    let head = opening(8, encode_utf8(username), encode_utf8(pass));
    let buf = padded(head + admin_body(bytes));
    if registration(username, pass, admin) is Ok {
        assert(buf[0] == 8);
        if bytes.len() <= 255 {
            lemma_registration(username, pass, admin);
        }
    }
}

proof fn lemma_registration(username: Seq<char>, pass: Seq<char>, admin: Seq<char>)
    requires
        encode_utf8(username).len() <= 255,
        encode_utf8(pass).len() <= 255,
        encode_utf8(admin).len() <= 255,
    ensures
        registration_of(
            padded(
                opening(8, encode_utf8(username), encode_utf8(pass)) + admin_body(
                    encode_utf8(admin),
                ),
            ),
        ) == Some((username, pass, admin)),
{
    let bytes = encode_utf8(admin);
    let head = opening(8, encode_utf8(username), encode_utf8(pass));
    let buf = padded(head + admin_body(bytes));
    opening_is_read_back(8, username, pass, admin_body(bytes));
    let at = body_start(buf);
    assert(buf[at] == bytes.len() as u8);
    assert(buf.subrange(at + 1, at + 1 + buf[at] as int) =~= bytes);
    lemma_text_roundtrip(admin);
}

} // verus!
