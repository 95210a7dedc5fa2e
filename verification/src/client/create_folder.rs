//! Asking for a new folder.

use vstd::prelude::*;
use vstd::utf8::encode_utf8;

use crate::credentials::{opening, open_message, opening_is_read_back, pad, padded};
use crate::ids::{lemma_uuid_of, Uuid};
use crate::manage_folder::{folder_name_end, folder_request_of};
use crate::text::lemma_text_roundtrip;
use crate::wire::{be_bytes, lemma_be_bytes_len, lemma_u16_roundtrip, push_all, push_be, CHUNK_SIZE};

verus! {

/// The body of a request for a folder: its parent, and its name behind the name's length.
pub open spec fn folder_body(parent: Uuid, name: Seq<u8>) -> Seq<u8> {
    parent.bytes@ + be_bytes(name.len(), 2) + name
}

/// A request for a folder called `folder_name` in the given parent.
pub fn first_message(
    message_code: u8,
    username: &str,
    password: &str,
    parent_folder_uuid: &Uuid,
    folder_name: &str,
) -> (buf: [u8; CHUNK_SIZE])
    requires
        encode_utf8(username@).len() <= 255,
        encode_utf8(password@).len() <= 255,
        encode_utf8(folder_name@).len() <= u16::MAX,
        encode_utf8(username@).len() + encode_utf8(password@).len() + encode_utf8(
            folder_name@,
        ).len() + 21 <= CHUNK_SIZE,
    ensures
        buf@ == padded(
            opening(message_code, encode_utf8(username@), encode_utf8(password@)) + folder_body(
                *parent_folder_uuid,
                encode_utf8(folder_name@),
            ),
        ),
{
    let name: &[u8] = folder_name.as_bytes();
    let mut out: Vec<u8> = open_message(message_code, username, password);
    let ghost head = out@;
    push_all(&mut out, parent_folder_uuid.bytes.as_slice());
    push_be(&mut out, name.len() as u64, 2);
    push_all(&mut out, name);
    proof {
        lemma_be_bytes_len(name@.len(), 2);
        assert(out@ =~= head + folder_body(*parent_folder_uuid, name@));
    }
    pad(&out)
}

/// Whether the answer says that the folder was created.
pub fn folder_created(answer: u8) -> (yes: bool)
    ensures
        yes == (answer == 20),
{
    answer == 20
}

/// The server reads the folder that the client asked for.
pub proof fn folder_request_is_read_back(
    code: u8,
    username: Seq<char>,
    password: Seq<char>,
    parent: Uuid,
    name: Seq<char>,
)
    requires
        encode_utf8(username).len() <= 255,
        encode_utf8(password).len() <= 255,
        encode_utf8(name).len() <= u16::MAX,
        encode_utf8(username).len() + encode_utf8(password).len() + encode_utf8(name).len() + 21
            <= CHUNK_SIZE,
    ensures
        ({
            let head = opening(code, encode_utf8(username), encode_utf8(password));
            let buf = padded(head + folder_body(parent, encode_utf8(name)));
            &&& folder_name_end(buf, head.len() as int) <= CHUNK_SIZE
            &&& folder_request_of(buf, head.len() as int) == Some((parent, name))
        }),
{
    let bytes = encode_utf8(name);
    let head = opening(code, encode_utf8(username), encode_utf8(password));
    let body = folder_body(parent, bytes);
    let buf = padded(head + body);
    let at = head.len() as int;
    lemma_be_bytes_len(bytes.len(), 2);
    lemma_u16_roundtrip(bytes.len() as u16);
    opening_is_read_back(code, username, password, body);
    assert(buf.subrange(at, at + 16) =~= parent.bytes@);
    assert(buf.subrange(at + 16, at + 18) =~= be_bytes(bytes.len(), 2));
    assert(buf.subrange(at + 18, at + 18 + bytes.len() as int) =~= bytes);
    lemma_uuid_of(parent);
    lemma_text_roundtrip(name);
}

} // verus!
