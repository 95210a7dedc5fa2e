//! Fetching a file behind a public link, for a web server.

use vstd::prelude::*;
use vstd::string::{StrSliceExecFns, StringExecFns};

use crate::credentials::{pad, padded};
use crate::guest_request_file::guest_frame;
use crate::ids::{lemma_uuid_of, uuid_of, uuid_parsed, uuid_text, Uuid};
use crate::paths::{
    lemma_pieces_push, lemma_pieces_single, pieces, same_text, split, views,
};
use crate::wire::{
    be_bytes, be_value, lemma_be_bytes_len, lemma_u16_roundtrip, lemma_u64_roundtrip, push_all,
    push_u64, read_u16, read_u32, CHUNK_SIZE,
};

verus! {

/// What a web request asks for.
#[derive(Clone, Copy, Debug)]
pub enum PublicRequest {
    /// The file behind this token.
    Download(Uuid),
    /// The token cannot be read.
    InvalidUuid,
    /// Something that is not served.
    NotFound,
}

/// The token in the address of a web request: what follows `/dl/`.
pub open spec fn token_in(url: Seq<char>) -> Option<Seq<char>> {
    let parts = pieces(url);
    if parts.len() == 3 && parts[0].len() == 0 && parts[1] == "dl"@ {
        Some(parts[2])
    } else {
        None
    }
}

/// Reads the token in the address of a web request.
pub fn requested_token(url: &str) -> (token: Option<String>)
    ensures
        match token {
            Some(t) => token_in(url@) == Some(t@),
            None => token_in(url@) is None,
        },
{
    let len: usize = url.unicode_len();
    assert(url@.take(len as int) =~= url@);
    let mut parts: Vec<String> = split(url, len);
    let ghost all = views(parts@);
    if parts.len() != 3 {
        return None;
    }
    assert(all[0] == parts@[0]@ && all[1] == parts@[1]@ && all[2] == parts@[2]@);
    if !parts[0].as_str().is_empty() || !same_text(parts[1].as_str(), "dl") {
        return None;
    }
    Some(parts.remove(2))
}

/// What a web request with a token, if any, asks for, given what the token was read as.
pub fn request_with(has_token: bool, token: Option<Uuid>) -> (request: PublicRequest)
    ensures
        request == (match token {
            _ if !has_token => PublicRequest::NotFound,
            Some(u) => PublicRequest::Download(u),
            None => PublicRequest::InvalidUuid,
        }),
{
    if !has_token {
        return PublicRequest::NotFound;
    }
    match token {
        Some(u) => PublicRequest::Download(u),
        None => PublicRequest::InvalidUuid,
    }
}

/// Reads the address of a web request: `/dl/` and a token.
pub fn public_request(url: &str) -> (request: PublicRequest)
    ensures
        match token_in(url@) {
            Some(t) => match uuid_parsed(t) {
                Some(bytes) => request matches PublicRequest::Download(u) && u.bytes@ == bytes,
                None => request is InvalidUuid,
            },
            None => request is NotFound,
        },
{
    match requested_token(url) {
        Some(t) => request_with(true, Uuid::from_text(t.as_str())),
        None => request_with(false, None),
    }
}

/// The status and text that answer a web request that is not served.
pub fn refusal(request: &PublicRequest) -> (answer: Option<(u16, String)>)
    ensures
        match request {
            PublicRequest::Download(_) => answer is None,
            PublicRequest::InvalidUuid => answer is Some && (answer->0).0 == 400 && (answer->0).1@
                == "invalid uuid"@,
            PublicRequest::NotFound => answer is Some && (answer->0).0 == 404 && (answer->0).1@
                == "not found"@,
        },
{
    match request {
        PublicRequest::Download(_) => None,
        PublicRequest::InvalidUuid => Some((400, "invalid uuid".to_owned())),
        PublicRequest::NotFound => Some((404, "not found".to_owned())),
    }
}

/// The header that names the downloaded file after its token.
pub fn content_disposition(uuid: &Uuid) -> (header: String)
    ensures
        header@ == "attachment; filename=\""@ + uuid_text(uuid.bytes@) + "\""@,
{
    let mut header: String = "attachment; filename=\"".to_owned();
    header.append(uuid.to_text().as_str());
    header.append("\"");
    header
}

/// A guest's first message: the token of the link.
pub fn guest_message(uuid: &Uuid) -> (buf: [u8; CHUNK_SIZE])
    ensures
        buf@ == padded(seq![200u8] + uuid.bytes@),
{
    let mut out: Vec<u8> = Vec::new();
    out.push(200);
    push_all(&mut out, uuid.bytes.as_slice());
    assert(out@ =~= seq![200u8] + uuid.bytes@);
    pad(&out)
}

/// The number of chunks that the server announces; `None` where the message is another.
pub fn announced_chunks(meta: &[u8; 5]) -> (chunks: Option<u64>)
    ensures
        match chunks {
            Some(n) => meta@[0] == 20 && n == be_value(meta@.subrange(1, 5)),
            None => meta@[0] != 20,
        },
{
    if meta[0] != 20 {
        return None;
    }
    Some(read_u32(meta.as_slice(), 1) as u64)
}

/// A request for one chunk.
pub fn chunk_request(chunk_id: u64) -> (message: Vec<u8>)
    ensures
        message@ == seq![18u8] + be_bytes(chunk_id as nat, 8),
{
    let mut message: Vec<u8> = Vec::new();
    message.push(18);
    push_u64(&mut message, chunk_id);
    message
}

/// How many bytes of a chunk follow its head; `None` where the head is another message's.
pub fn chunk_len(header: &[u8; 11]) -> (len: Option<usize>)
    ensures
        match len {
            Some(n) => header@[0] == 2 && n == be_value(header@.subrange(9, 11)),
            None => header@[0] != 2,
        },
{
    if header[0] != 2 {
        return None;
    }
    Some(read_u16(header.as_slice(), 9) as usize)
}

/// The server reads the token that the guest sent.
pub proof fn token_is_read_back(uuid: Uuid)
    ensures
        ({
            let buf = padded(seq![200u8] + uuid.bytes@);
            buf[0] == 200 && uuid_of(buf.subrange(1, 17)) == uuid
        }),
{
    let buf = padded(seq![200u8] + uuid.bytes@);
    assert(buf.subrange(1, 17) =~= uuid.bytes@);
    lemma_uuid_of(uuid);
}

/// The guest reads the chunk that the server framed.
pub proof fn guest_chunks_are_read_back(chunk_id: u64, bytes: Seq<u8>)
    requires
        bytes.len() <= u16::MAX,
    ensures
        ({
            let frame = guest_frame(chunk_id, bytes);
            &&& frame[0] == 2
            &&& be_value(frame.take(11).subrange(1, 9)) == chunk_id
            &&& be_value(frame.take(11).subrange(9, 11)) == bytes.len()
            &&& frame.skip(11) == bytes
        }),
{
    let frame = guest_frame(chunk_id, bytes);
    lemma_be_bytes_len(chunk_id as nat, 8);
    lemma_be_bytes_len(bytes.len(), 2);
    lemma_u64_roundtrip(chunk_id);
    lemma_u16_roundtrip(bytes.len() as u16);
    assert(frame.take(11).subrange(1, 9) =~= be_bytes(chunk_id as nat, 8));
    assert(frame.take(11).subrange(9, 11) =~= be_bytes(bytes.len(), 2));
    assert(frame.skip(11) =~= bytes);
}

/// The address that is handed out with a link holds the link's token.
pub proof fn addresses_hold_their_token(token: Uuid)
    ensures
        token_in("/dl/"@ + uuid_text(token.bytes@)) == Some(uuid_text(token.bytes@)),
{
    let text = uuid_text(token.bytes@);
    reveal_strlit("/dl/");
    reveal_strlit("dl");
    assert forall|i: int| 0 <= i < text.len() implies text[i] != '/' by {}
    assert(crate::paths::slashless(text));
    assert("/dl/"@ + text =~= "/dl"@.push('/') + text) by {
        reveal_strlit("/dl");
    }
    lemma_pieces_push("/dl"@, text);
    assert("/dl"@ =~= Seq::<char>::empty().push('/') + "dl"@) by {
        reveal_strlit("/dl");
    }
    assert(crate::paths::slashless("dl"@));
    lemma_pieces_push(Seq::empty(), "dl"@);
    lemma_pieces_single(Seq::empty());
}

} // verus!
