//! Asking for a public link.

use vstd::prelude::*;
use vstd::string::StringExecFns;
use vstd::utf8::encode_utf8;

use crate::client::numbers::{parse_u64, u64_in};
use crate::credentials::{opening, open_message, opening_is_read_back, pad, padded};
use crate::ids::{lemma_uuid_of, uuid_of, uuid_text, Uuid};
use crate::mapper::FolderView;
use crate::share_link::{
    expired_links_lead_nowhere, lemma_fresh_token, link_of, shared_link_leads_to_its_file, shares,
    valid_at, LinkView,
};
use crate::wire::{be_bytes, be_value, lemma_be_bytes_len, lemma_i64_roundtrip, push_all, push_i64,
    signed, unsigned, CHUNK_SIZE};

verus! {

/// The body of a request for a link: the file, and until when the link works.
pub open spec fn link_body(file: Uuid, valid_until: i64) -> Seq<u8> {
    file.bytes@ + be_bytes(unsigned(valid_until), 8)
}

/// A request for a link to the file `uuid` that works until `timestamp`.
pub fn first_message(
    message_code: u8,
    uuid: &Uuid,
    username: &str,
    password: &str,
    timestamp: i64,
) -> (buf: [u8; CHUNK_SIZE])
    requires
        encode_utf8(username@).len() <= 255,
        encode_utf8(password@).len() <= 255,
    ensures
        buf@ == padded(
            opening(message_code, encode_utf8(username@), encode_utf8(password@)) + link_body(
                *uuid,
                timestamp,
            ),
        ),
{
    let mut out: Vec<u8> = open_message(message_code, username, password);
    let ghost head = out@;
    push_all(&mut out, uuid.bytes.as_slice());
    push_i64(&mut out, timestamp);
    proof {
        lemma_be_bytes_len(unsigned(timestamp), 8);
        assert(out@ =~= head + link_body(*uuid, timestamp));
    }
    pad(&out)
}

/// For how many hours a link shall work: the number that the text spells, or one hour.
pub fn hours_of(text: &str) -> (hours: u64)
    ensures
        hours == (match u64_in(text@) {
            Some(n) => n,
            None => 1,
        }),
{
    match parse_u64(text) {
        Some(h) => h,
        None => 1,
    }
}

/// The time `hours` after `now`, both in seconds since 1970.
pub fn expiry(now: u64, hours: u64) -> (timestamp: i64)
    requires
        now + hours * 3600 <= i64::MAX,
    ensures
        timestamp == now + hours * 3600,
{
    (now + hours * 3600) as i64
}

/// The token in an answer to a request for a link, where the answer says that there is one.
pub fn granted_token(answer: &[u8; 17]) -> (token: Option<Uuid>)
    ensures
        match token {
            Some(t) => answer@[0] == 20 && t.bytes@ == answer@.subrange(1, 17),
            None => answer@[0] != 20,
        },
{
    if answer[0] == 20 {
        Some(Uuid::read(answer.as_slice(), 1))
    } else {
        None
    }
}

/// Where the file behind a token can be fetched.
pub fn link_address(token: &Uuid) -> (address: String)
    ensures
        address@ == "127.0.0.1:8080/dl/"@ + uuid_text(token.bytes@),
{
    let mut address: String = "127.0.0.1:8080/dl/".to_owned();
    address.append(token.to_text().as_str());
    address
}

/// The server reads the file and the time that the client asked for.
pub proof fn link_request_is_read_back(
    code: u8,
    username: Seq<char>,
    password: Seq<char>,
    file: Uuid,
    valid_until: i64,
)
    requires
        encode_utf8(username).len() <= 255,
        encode_utf8(password).len() <= 255,
    ensures
        ({
            let head = opening(code, encode_utf8(username), encode_utf8(password));
            let buf = padded(head + link_body(file, valid_until));
            let at = head.len() as int;
            &&& uuid_of(buf.subrange(at, at + 16)) == file
            &&& signed(be_value(buf.subrange(at + 16, at + 24))) == valid_until
        }),
{
    let head = opening(code, encode_utf8(username), encode_utf8(password));
    let body = link_body(file, valid_until);
    let buf = padded(head + body);
    let at = head.len() as int;
    lemma_be_bytes_len(unsigned(valid_until), 8);
    opening_is_read_back(code, username, password, body);
    assert(buf.subrange(at, at + 16) =~= file.bytes@);
    assert(buf.subrange(at + 16, at + 24) =~= be_bytes(unsigned(valid_until), 8));
    lemma_uuid_of(file);
    lemma_i64_roundtrip(valid_until);
}

/// A link works until the time that the client asked for: once the server has put the link of the
/// client's request under a new token, that token leads to the file at every time before, and
/// nowhere from then on.
pub proof fn links_work_until_the_time_asked_for(
    code: u8,
    username: Seq<char>,
    password: Seq<char>,
    file: Uuid,
    valid_until: i64,
    root: FolderView,
    client: Uuid,
    before: Seq<LinkView>,
    after: Seq<LinkView>,
    token: Uuid,
    now: i64,
)
    requires
        encode_utf8(username).len() <= 255,
        encode_utf8(password).len() <= 255,
        link_of(before, token, 0) is None,
        shares(
            padded(
                opening(code, encode_utf8(username), encode_utf8(password)) + link_body(
                    file,
                    valid_until,
                ),
            ),
            opening(code, encode_utf8(username), encode_utf8(password)).len() as int,
            root,
            client,
            before,
            after,
            Ok(token),
        ),
    ensures
        after.len() == before.len() + 1,
        after.take(before.len() as int) == before,
        after.last().valid_until == valid_until,
        after.last().file_uuid == file,
        after.last().token == token,
        match link_of(valid_at(after, now), token, 0) {
            Some(l) => now < valid_until && l.file_uuid == file && l.valid_until == valid_until,
            None => valid_until <= now,
        },
{
    link_request_is_read_back(code, username, password, file, valid_until);
    let l = after.last();
    assert(after == before.push(l));
    assert(after.take(before.len() as int) =~= before);
    expired_links_lead_nowhere(after, token, now);
    expired_links_lead_nowhere(before, token, now);
    if now < valid_until {
        shared_link_leads_to_its_file(before, l, now);
    } else {
        lemma_fresh_token(before, token);
        match link_of(valid_at(after, now), token, 0) {
            Some(m) => {
                let i = choose|i: int| 0 <= i < after.len() && after[i] == m;
                if i < before.len() {
                    assert(before[i].token == token);
                }
            },
            None => {},
        }
    }
}

} // verus!
