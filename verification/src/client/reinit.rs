//! Requests about one file or transfer, and the list of transfers that can be resumed.

use vstd::prelude::*;
use vstd::utf8::encode_utf8;

use crate::credentials::{opening, open_message, opening_is_read_back, pad, padded};
use crate::ids::{lemma_uuid_of, uuid_of, Uuid};
use crate::paths::same_text;
use crate::wire::{push_all, CHUNK_SIZE};

verus! {

/// A request about the file or transfer `uuid`.
pub fn first_message(message_code: u8, uuid: &Uuid, username: &str, password: &str) -> (buf: [u8;
    CHUNK_SIZE])
    requires
        encode_utf8(username@).len() <= 255,
        encode_utf8(password@).len() <= 255,
    ensures
        buf@ == padded(
            opening(message_code, encode_utf8(username@), encode_utf8(password@)) + uuid.bytes@,
        ),
{
    let mut out: Vec<u8> = open_message(message_code, username, password);
    push_all(&mut out, uuid.bytes.as_slice());
    pad(&out)
}

/// The server reads the identifier that the client asked about.
pub proof fn identifier_is_read_back(
    code: u8,
    username: Seq<char>,
    password: Seq<char>,
    uuid: Uuid,
)
    requires
        encode_utf8(username).len() <= 255,
        encode_utf8(password).len() <= 255,
    ensures
        ({
            let head = opening(code, encode_utf8(username), encode_utf8(password));
            let buf = padded(head + uuid.bytes@);
            uuid_of(buf.subrange(head.len() as int, head.len() as int + 16)) == uuid
        }),
{
    let head = opening(code, encode_utf8(username), encode_utf8(password));
    opening_is_read_back(code, username, password, uuid.bytes@);
    lemma_uuid_of(uuid);
}

/// Why the list of transfers was not saved.
#[derive(Clone, Copy, Debug, PartialEq, Eq, Structural)]
pub enum PartsError {
    FailedToSave,
}

/// The transfers that have begun and not ended.
#[derive(Debug)]
pub struct Parts {
    pub send: Vec<PartSend>,
    pub acc: Vec<PartAcc>,
}

/// An upload that can be resumed.
#[derive(Debug)]
pub struct PartSend {
    pub uuid: Uuid,
    pub filename: String,
    pub path: String,
}

/// A download that can be resumed.
#[derive(Debug)]
pub struct PartAcc {
    pub uuid: Uuid,
    pub temp_path: String,
    pub real_path: String,
    pub server_uuid: String,
}

/// Index of the first upload with identifier `uuid`, from `i` on.
pub open spec fn first_send(send: Seq<PartSend>, uuid: Uuid, i: int) -> Option<int>
    decreases send.len() - i,
{
    if i < 0 || i >= send.len() {
        None
    } else if send[i].uuid == uuid {
        Some(i)
    } else {
        first_send(send, uuid, i + 1)
    }
}

/// Index of the first download with identifier `uuid`, from `i` on.
pub open spec fn first_acc(acc: Seq<PartAcc>, uuid: Uuid, i: int) -> Option<int>
    decreases acc.len() - i,
{
    if i < 0 || i >= acc.len() {
        None
    } else if acc[i].uuid == uuid {
        Some(i)
    } else {
        first_acc(acc, uuid, i + 1)
    }
}

/// Index of the first download of the server's file `server_uuid`, from `i` on.
pub open spec fn first_acc_of(acc: Seq<PartAcc>, server_uuid: Seq<char>, i: int) -> Option<int>
    decreases acc.len() - i,
{
    if i < 0 || i >= acc.len() {
        None
    } else if acc[i].server_uuid@ == server_uuid {
        Some(i)
    } else {
        first_acc_of(acc, server_uuid, i + 1)
    }
}

impl Parts {
    /// No transfers.
    pub fn empty() -> (parts: Parts)
        ensures
            parts.send@.len() == 0,
            parts.acc@.len() == 0,
    {
        Parts { send: Vec::new(), acc: Vec::new() }
    }

    /// Looks for an upload.
    pub fn find_send(&self, uuid: &Uuid) -> (found: Option<usize>)
        ensures
            match found {
                Some(k) => first_send(self.send@, *uuid, 0) == Some(k as int) && k
                    < self.send@.len(),
                None => first_send(self.send@, *uuid, 0) is None,
            },
    {
        let mut i: usize = 0;
        while i < self.send.len()
            invariant
                i <= self.send@.len(),
                first_send(self.send@, *uuid, 0) == first_send(self.send@, *uuid, i as int),
            decreases self.send@.len() - i,
        {
            if self.send[i].uuid == *uuid {
                return Some(i);
            }
            i += 1;
        }
        None
    }

    /// Looks for a download.
    pub fn find_acc(&self, uuid: &Uuid) -> (found: Option<usize>)
        ensures
            match found {
                Some(k) => first_acc(self.acc@, *uuid, 0) == Some(k as int) && k < self.acc@.len(),
                None => first_acc(self.acc@, *uuid, 0) is None,
            },
    {
        let mut i: usize = 0;
        while i < self.acc.len()
            invariant
                i <= self.acc@.len(),
                first_acc(self.acc@, *uuid, 0) == first_acc(self.acc@, *uuid, i as int),
            decreases self.acc@.len() - i,
        {
            if self.acc[i].uuid == *uuid {
                return Some(i);
            }
            i += 1;
        }
        None
    }

    /// Notes that an upload has begun.
    pub fn add_send(&mut self, part: PartSend)
        ensures
            final(self).send@ == old(self).send@.push(part),
            final(self).acc@ == old(self).acc@,
    {
        self.send.push(part);
    }

    /// Notes that a download has begun.
    pub fn add_acc(&mut self, part: PartAcc)
        ensures
            final(self).send@ == old(self).send@,
            final(self).acc@ == old(self).acc@.push(part),
    {
        self.acc.push(part);
    }

    /// Forgets an upload that has ended.
    pub fn sent(&mut self, uuid: &Uuid)
        ensures
            final(self).acc@ == old(self).acc@,
            final(self).send@ == (match first_send(old(self).send@, *uuid, 0) {
                Some(k) => old(self).send@.remove(k),
                None => old(self).send@,
            }),
    {
        match self.find_send(uuid) {
            Some(k) => {
                self.send.remove(k);
            },
            None => {},
        }
    }

    /// Forgets the download of the server's file `server_uuid`, which has ended.
    pub fn received(&mut self, server_uuid: &str)
        ensures
            final(self).send@ == old(self).send@,
            final(self).acc@ == (match first_acc_of(old(self).acc@, server_uuid@, 0) {
                Some(k) => old(self).acc@.remove(k),
                None => old(self).acc@,
            }),
    {
        let mut i: usize = 0;
        while i < self.acc.len()
            invariant
                i <= self.acc@.len(),
                self.acc@ == old(self).acc@,
                self.send@ == old(self).send@,
                first_acc_of(self.acc@, server_uuid@, 0) == first_acc_of(
                    self.acc@,
                    server_uuid@,
                    i as int,
                ),
            decreases self.acc@.len() - i,
        {
            if same_text(self.acc[i].server_uuid.as_str(), server_uuid) {
                self.acc.remove(i);
                return;
            }
            i += 1;
        }
    }

    /// Whether an upload or a download with this identifier is listed, and the list of uploads
    /// reaches as far as `remove_part` needs.
    pub open spec fn removable(self, uuid: Uuid) -> bool {
        match first_send(self.send@, uuid, 0) {
            Some(_) => true,
            None => match first_acc(self.acc@, uuid, 0) {
                Some(k) => k < self.send@.len(),
                None => true,
            },
        }
    }

    /// Forgets a transfer. Where it is a download, the upload at the same place of its own list
    /// goes.
    pub fn remove_part(&mut self, uuid: &Uuid) -> (result: Result<(), String>)
        requires
            old(self).removable(*uuid),
        ensures
            final(self).acc@ == old(self).acc@,
            match first_send(old(self).send@, *uuid, 0) {
                Some(k) => result is Ok && final(self).send@ == old(self).send@.remove(k),
                None => match first_acc(old(self).acc@, *uuid, 0) {
                    Some(k) => result is Ok && final(self).send@ == old(self).send@.remove(k),
                    None => result is Err && result->Err_0@ == "uuid not found"@ && final(
                        self).send@ == old(self).send@,
                },
            },
    {
        match self.find_send(uuid) {
            Some(k) => {
                self.send.remove(k);
                return Ok(());
            },
            None => {},
        }
        match self.find_acc(uuid) {
            Some(k) => {
                self.send.remove(k);
                Ok(())
            },
            None => Err("uuid not found".to_owned()),
        }
    }
}

proof fn lemma_first_send_push(send: Seq<PartSend>, part: PartSend, i: int)
    requires
        0 <= i <= send.len(),
        first_send(send, part.uuid, i) is None,
    ensures
        first_send(send.push(part), part.uuid, i) == Some(send.len() as int),
    decreases send.len() - i,
{
    if i < send.len() {
        lemma_first_send_push(send, part, i + 1);
    }
}

/// An upload that was noted under a new identifier is found until it has ended, and when it has
/// ended the list is what it was before.
pub proof fn noted_uploads_are_found(send: Seq<PartSend>, part: PartSend)
    requires
        first_send(send, part.uuid, 0) is None,
    ensures
        first_send(send.push(part), part.uuid, 0) == Some(send.len() as int),
        send.push(part).remove(send.len() as int) =~= send,
{
    lemma_first_send_push(send, part, 0);
}

/// What is looked for among the uploads is the first with the identifier, and nothing is found only
/// where none has it.
pub proof fn found_uploads_have_the_identifier(send: Seq<PartSend>, uuid: Uuid, i: int)
    requires
        0 <= i <= send.len(),
    ensures
        match first_send(send, uuid, i) {
            Some(k) => i <= k < send.len() && send[k].uuid == uuid && (forall|j: int|
                i <= j < k ==> (#[trigger] send[j]).uuid != uuid),
            None => forall|j: int| i <= j < send.len() ==> (#[trigger] send[j]).uuid != uuid,
        },
    decreases send.len() - i,
{
    if i < send.len() && send[i].uuid != uuid {
        found_uploads_have_the_identifier(send, uuid, i + 1);
    }
}

/// What is looked for among the downloads is the first with the identifier, and nothing is found
/// only where none has it.
pub proof fn found_downloads_have_the_identifier(acc: Seq<PartAcc>, uuid: Uuid, i: int)
    requires
        0 <= i <= acc.len(),
    ensures
        match first_acc(acc, uuid, i) {
            Some(k) => i <= k < acc.len() && acc[k].uuid == uuid && (forall|j: int|
                i <= j < k ==> (#[trigger] acc[j]).uuid != uuid),
            None => forall|j: int| i <= j < acc.len() ==> (#[trigger] acc[j]).uuid != uuid,
        },
    decreases acc.len() - i,
{
    if i < acc.len() && acc[i].uuid != uuid {
        found_downloads_have_the_identifier(acc, uuid, i + 1);
    }
}

/// A download that has ended is the first of the server's file, and nothing is found only where
/// none is of that file.
pub proof fn ended_downloads_are_of_the_file(acc: Seq<PartAcc>, server_uuid: Seq<char>, i: int)
    requires
        0 <= i <= acc.len(),
    ensures
        match first_acc_of(acc, server_uuid, i) {
            Some(k) => i <= k < acc.len() && acc[k].server_uuid@ == server_uuid && (forall|j: int|
                i <= j < k ==> (#[trigger] acc[j]).server_uuid@ != server_uuid),
            None => forall|j: int|
                i <= j < acc.len() ==> (#[trigger] acc[j]).server_uuid@ != server_uuid,
        },
    decreases acc.len() - i,
{
    if i < acc.len() && acc[i].server_uuid@ != server_uuid {
        ended_downloads_are_of_the_file(acc, server_uuid, i + 1);
    }
}

} // verus!
