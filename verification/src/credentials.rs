//! How a first message opens: what is asked for, and who asks.

use vstd::prelude::*;
use vstd::utf8::{decode_utf8, encode_utf8, valid_utf8};

use crate::text::{lemma_text_roundtrip, utf8_text};
use crate::wire::{copy_range, push_all, zeros, CHUNK_SIZE};

verus! {

/// The opening of a first message: the request's code, then name and password, each behind its
/// length.
pub open spec fn opening(code: u8, username: Seq<u8>, password: Seq<u8>) -> Seq<u8> {
    seq![code, username.len() as u8] + username + seq![password.len() as u8] + password
}

/// A message filled up with zeros to the size of a first message.
pub open spec fn padded(s: Seq<u8>) -> Seq<u8> {
    s + zeros((CHUNK_SIZE - s.len()) as nat)
}

/// Where the name ends in a first message.
pub open spec fn name_end(buf: Seq<u8>) -> int {
    2 + buf[1] as int
}

/// Where the password ends in a first message, and the body of the request begins.
pub open spec fn body_start(buf: Seq<u8>) -> int {
    name_end(buf) + 1 + buf[name_end(buf)] as int
}

/// Name and password of a first message, where both are text.
pub open spec fn credentials_of(buf: Seq<u8>) -> Option<(Seq<char>, Seq<char>)> {
    let name = buf.subrange(2, name_end(buf));
    let password = buf.subrange(name_end(buf) + 1, body_start(buf));
    if valid_utf8(name) && valid_utf8(password) {
        Some((decode_utf8(name), decode_utf8(password)))
    } else {
        None
    }
}

/// Builds the opening of a first message.
pub fn open_message(code: u8, username: &str, password: &str) -> (out: Vec<u8>)
    requires
        encode_utf8(username@).len() <= 255,
        encode_utf8(password@).len() <= 255,
    ensures
        out@ == opening(code, encode_utf8(username@), encode_utf8(password@)),
{
    let name: &[u8] = username.as_bytes();
    let pass: &[u8] = password.as_bytes();
    let mut out: Vec<u8> = Vec::new();
    out.push(code);
    out.push(name.len() as u8);
    push_all(&mut out, name);
    out.push(pass.len() as u8);
    push_all(&mut out, pass);
    assert(out@ =~= opening(code, name@, pass@));
    out
}

/// Fills a message up with zeros.
pub fn pad(message: &Vec<u8>) -> (buf: [u8; CHUNK_SIZE])
    requires
        message@.len() <= CHUNK_SIZE,
    ensures
        buf@ == padded(message@),
{
    let mut buf: [u8; CHUNK_SIZE] = [0u8; CHUNK_SIZE];
    let mut i: usize = 0;
    while i < message.len()
        invariant
            i <= message@.len() <= CHUNK_SIZE,
            buf@.len() == CHUNK_SIZE,
            forall|k: int| 0 <= k < i ==> buf@[k] == message@[k],
            forall|k: int| i <= k < CHUNK_SIZE ==> buf@[k] == 0,
        decreases message@.len() - i,
    {
        buf[i] = message[i];
        i += 1;
    }
    assert(buf@ =~= padded(message@));
    buf
}

/// Reads name and password of a first message, and where its body begins.
pub fn read_credentials(buf: &[u8; CHUNK_SIZE]) -> (found: Option<(String, String, usize)>)
    ensures
        match found {
            Some((name, password, start)) => credentials_of(buf@) == Some((name@, password@))
                && start == body_start(buf@) && start <= 513,
            None => credentials_of(buf@) is None,
        },
{
    let bytes: &[u8] = buf.as_slice();
    let end: usize = 2 + buf[1] as usize;
    let start: usize = end + 1 + buf[end] as usize;
    match utf8_text(copy_range(bytes, 2, end)) {
        None => None,
        Some(name) => match utf8_text(copy_range(bytes, end + 1, start)) {
            None => None,
            Some(password) => Some((name, password, start)),
        },
    }
}

/// The server reads what the client wrote: name, password, and the body of the request where the
/// body begins.
pub proof fn opening_is_read_back(
    code: u8,
    username: Seq<char>,
    password: Seq<char>,
    body: Seq<u8>,
)
    requires
        encode_utf8(username).len() <= 255,
        encode_utf8(password).len() <= 255,
        opening(code, encode_utf8(username), encode_utf8(password)).len() + body.len()
            <= CHUNK_SIZE,
    ensures
        ({
            let head = opening(code, encode_utf8(username), encode_utf8(password));
            let buf = padded(head + body);
            &&& buf.len() == CHUNK_SIZE
            &&& buf[0] == code
            &&& credentials_of(buf) == Some((username, password))
            &&& body_start(buf) == head.len()
            &&& buf.subrange(head.len() as int, (head.len() + body.len()) as int) == body
        }),
{
    let name = encode_utf8(username);
    let pass = encode_utf8(password);
    let head = opening(code, name, pass);
    let buf = padded(head + body);
    lemma_text_roundtrip(username);
    lemma_text_roundtrip(password);
    assert(buf[1] == name.len() as u8);
    assert(buf.subrange(2, name_end(buf)) =~= name);
    assert(buf[name_end(buf)] == pass.len() as u8);
    assert(buf.subrange(name_end(buf) + 1, body_start(buf)) =~= pass);
    assert(buf.subrange(head.len() as int, (head.len() + body.len()) as int) =~= body);
}

} // verus!
