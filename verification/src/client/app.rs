//! Uploading: the request, the rounds in which the chunks go out, and when to report progress.

use vstd::prelude::*;
use vstd::string::StringExecFns;
use vstd::utf8::encode_utf8;

use crate::client::reinit::PartSend;
use crate::credentials::{body_start, credentials_of, opening, opening_is_read_back, padded};
use crate::digest::{final_byte, HashVerdict};
use crate::file_transfer::{init_request_of, transfer_opened, InitView};
use crate::get_file::{MissingReply, SendStep};
use crate::ids::{lemma_le_roundtrip, lemma_uuid_of, swap_fields, Uuid};
use crate::mapper::FolderView;
use crate::paths::{file_name, file_name_of};
use crate::sender::{ChunkQueue, QueueView};
use crate::text::readable;
use crate::transfer_laws::chunks_just_hold_the_file;
use crate::wire::{be_bytes, lemma_be_bytes_len, lemma_u64_roundtrip, push_all, push_u64, zeros,
    CHUNK_SIZE, PAYLOAD};

pub use crate::sender::get_chunks_len;

verus! {

/// Why an upload failed.
#[derive(Clone, Copy, Debug, PartialEq, Eq, Structural)]
pub enum TransferError {
    InvalidLength,
    InvalidUuid,
    Overflow,
    FileNotFound,
    MetadataNotFound,
    Fatal,
}

/// Rounds that an upload may take.
pub const MAX_COMPLETION_ATTEMPTS: u32 = 5;

/// Workers of a round, at most.
pub const MAX_THREADS: u64 = 5;

/// The body of a request to upload: the transfer, the size of the file, its name behind the low
/// byte of the name's length, and the folder.
pub open spec fn upload_body(
    transfer: Uuid,
    file_size: u64,
    file_name: Seq<u8>,
    folder: Uuid,
) -> Seq<u8> {
    swap_fields(transfer.bytes@) + be_bytes(file_size as nat, 8) + seq![
        (file_name.len() % 256) as u8,
    ] + file_name + swap_fields(folder.bytes@)
}

/// The opening of a request to upload. Name and password stand behind the low bytes of their
/// lengths.
pub open spec fn upload_opening(username: Seq<u8>, password: Seq<u8>) -> Seq<u8> {
    seq![1u8, (username.len() % 256) as u8] + username + seq![(password.len() % 256) as u8]
        + password
}

/// A request to upload a file.
pub fn handshake_message(
    file_size: u64,
    file_name: &[u8],
    username: &str,
    password: &str,
    transfer_uuid: &Uuid,
    folder_uuid: &Uuid,
) -> (buffer: Vec<u8>)
    ensures
        buffer@ == upload_opening(encode_utf8(username@), encode_utf8(password@)) + upload_body(
            *transfer_uuid,
            file_size,
            file_name@,
            *folder_uuid,
        ),
{
    let name: &[u8] = username.as_bytes();
    let pass: &[u8] = password.as_bytes();
    let mut buffer: Vec<u8> = Vec::new();
    buffer.push(1u8);
    buffer.push((name.len() % 256) as u8);
    push_all(&mut buffer, name);
    buffer.push((pass.len() % 256) as u8);
    push_all(&mut buffer, pass);
    assert(buffer@ =~= upload_opening(name@, pass@));
    let ghost head = buffer@;
    push_all(&mut buffer, transfer_uuid.to_bytes_le().as_slice());
    push_u64(&mut buffer, file_size);
    buffer.push((file_name.len() % 256) as u8);
    push_all(&mut buffer, file_name);
    push_all(&mut buffer, folder_uuid.to_bytes_le().as_slice());
    proof {
        lemma_be_bytes_len(file_size as nat, 8);
        assert(buffer@ =~= head + upload_body(
            *transfer_uuid,
            file_size,
            file_name@,
            *folder_uuid,
        ));
    }
    buffer
}

/// What is noted of an upload that begins: under the transfer's identifier, the file's path and
/// name.
pub fn begun_upload(path: &str, transfer_uuid: Uuid) -> (part: PartSend)
    ensures
        part.uuid == transfer_uuid,
        part.path@ == path@,
        part.filename@ == (match file_name_of(path@) {
            Some(n) => n,
            None => Seq::empty(),
        }),
{
    let filename: String = match file_name(path) {
        Some(n) => n,
        None => String::new(),
    };
    PartSend { uuid: transfer_uuid, filename, path: path.to_owned() }
}

/// A greeting.
pub fn greet(name: &str) -> (greeting: String)
    ensures
        greeting@ == "Hello, "@ + name@ + "!"@,
{
    let mut greeting: String = "Hello, ".to_owned();
    greeting.append(name);
    greeting.append("!");
    greeting
}

/// Whether the answer lets the upload begin.
pub fn upload_accepted(answer: &[u8; 9]) -> (yes: bool)
    ensures
        yes == (answer@[0] == 20),
{
    answer[0] == 20
}

/// How many workers a round has: one for each chunk that waits, but at least one and at most as
/// many as there may be.
pub open spec fn upload_workers(waiting: nat) -> u64 {
    if waiting < 1 {
        1
    } else if waiting < MAX_THREADS {
        waiting as u64
    } else {
        MAX_THREADS
    }
}

fn count_workers(waiting: usize) -> (n: u64)
    ensures
        n == upload_workers(waiting as nat),
{
    if waiting < 1 {
        1
    } else if (waiting as u64) < MAX_THREADS {
        waiting as u64
    } else {
        MAX_THREADS
    }
}

/// A client's upload of one file.
pub struct UploadSession {
    pub queue: ChunkQueue,
    pub attempts: u32,
}

impl UploadSession {
    /// Begins an upload with `initial`; the first round has so many workers.
    pub fn begin(initial: Vec<u64>) -> (begun: (UploadSession, u64))
        ensures
            begun.0.queue@ == (QueueView {
                queue: initial@,
                in_flight: Map::empty(),
                aborted: false,
            }),
            begun.0.attempts == 1,
            begun.1 == upload_workers(initial@.len()),
    {
        let n: usize = initial.len();
        (UploadSession { queue: ChunkQueue::new(initial), attempts: 1 }, count_workers(n))
    }

    /// The workers of a round have ended, the last failed one with `worker_err`. An upload that was
    /// given up ends here.
    pub fn round_over(&self, worker_err: Option<TransferError>) -> (result: Result<
        (),
        TransferError,
    >)
        ensures
            result == (if self.queue@.aborted {
                Err::<(), TransferError>(
                    match worker_err {
                        Some(e) => e,
                        None => TransferError::Fatal,
                    },
                )
            } else {
                Ok(())
            }),
    {
        if self.queue.aborted {
            return match worker_err {
                Some(e) => Err(e),
                None => Err(TransferError::Fatal),
            };
        }
        Ok(())
    }

    /// This is what the receiver still lacks after a round.
    pub fn checked(&mut self, reply: MissingReply) -> (step: SendStep)
        requires
            old(self).attempts <= MAX_COMPLETION_ATTEMPTS,
        ensures
            match reply {
                MissingReply::Failed => step == SendStep::GiveUp && *final(self) == *old(self),
                MissingReply::Nothing => step == SendStep::HashCheck && *final(self) == *old(self),
                MissingReply::Ids(ids) => {
                    &&& final(self).queue@ == (QueueView {
                        queue: old(self).queue@.queue + ids@,
                        ..old(self).queue@
                    })
                    &&& final(self).attempts == old(self).attempts + 1
                    &&& step == (if old(self).attempts == MAX_COMPLETION_ATTEMPTS {
                        SendStep::GiveUp
                    } else {
                        SendStep::Round(
                            upload_workers(old(self).queue@.queue.len() + ids@.len()),
                        )
                    })
                },
            },
    {
        match reply {
            MissingReply::Failed => SendStep::GiveUp,
            MissingReply::Nothing => SendStep::HashCheck,
            MissingReply::Ids(ids) => {
                let mut missing: Vec<u64> = ids;
                self.queue.queue.append(&mut missing);
                self.attempts = self.attempts + 1;
                if self.attempts > MAX_COMPLETION_ATTEMPTS {
                    return SendStep::GiveUp;
                }
                SendStep::Round(count_workers(self.queue.queue.len()))
            },
        }
    }
}

/// How an upload ends on the sender's judgement of the receiver's digest: the byte to send, if
/// any, and the result.
pub fn upload_result(verdict: HashVerdict) -> (end: (Option<u8>, Result<(), TransferError>))
    ensures
        end == (match verdict {
            HashVerdict::NoDigest => (None::<u8>, Err::<(), TransferError>(TransferError::Fatal)),
            HashVerdict::Same => (Some(20u8), Ok(())),
            HashVerdict::Different => (Some(44u8), Err(TransferError::Fatal)),
        }),
{
    let byte: Option<u8> = final_byte(verdict);
    match verdict {
        HashVerdict::Same => (byte, Ok(())),
        _ => (byte, Err(TransferError::Fatal)),
    }
}

/// Confirmed chunks since progress was last reported.
pub struct Progress {
    pub skipped: u64,
}

/// Confirmed chunks that pass without a report.
pub const PROGRESS_EMIT_EVERY: u64 = 8;

impl Progress {
    pub open spec fn wf(self) -> bool {
        self.skipped <= PROGRESS_EMIT_EVERY + 1
    }

    pub fn new() -> (p: Progress)
        ensures
            p.wf(),
            p.skipped == 0,
    {
        Progress { skipped: 0 }
    }

    /// A chunk was confirmed. Answers whether to report progress now.
    pub fn confirmed(&mut self) -> (emit: bool)
        requires
            old(self).wf(),
        ensures
            final(self).wf(),
            emit == (old(self).skipped > PROGRESS_EMIT_EVERY),
            final(self).skipped == (if emit {
                0
            } else {
                (old(self).skipped + 1) as u64
            }),
    {
        if self.skipped > PROGRESS_EMIT_EVERY {
            self.skipped = 0;
            true
        } else {
            self.skipped = self.skipped + 1;
            false
        }
    }
}

/// The server reads the upload that the client asked for: who asks, the transfer, the size, the
/// name and the folder.
#[verifier::spinoff_prover]
pub proof fn upload_request_is_read_back(
    username: Seq<char>,
    password: Seq<char>,
    transfer: Uuid,
    file_size: u64,
    file_name: Seq<u8>,
    folder: Uuid,
)
    requires
        encode_utf8(username).len() <= 255,
        encode_utf8(password).len() <= 255,
        file_name.len() <= 255,
    ensures
        ({
            let buf = padded(
                upload_opening(encode_utf8(username), encode_utf8(password)) + upload_body(
                    transfer,
                    file_size,
                    file_name,
                    folder,
                ),
            );
            &&& credentials_of(buf) == Some((username, password))
            &&& init_request_of(buf.skip(body_start(buf) - 1)) == Some(
                InitView {
                    uuid: transfer,
                    file_size: file_size as nat,
                    file_name: readable(file_name),
                    folder_uuid: folder,
                },
            )
        }),
{
    let body = upload_body(transfer, file_size, file_name, folder);
    lemma_upload_body_len(transfer, file_size, file_name, folder);
    let rest = lemma_after_opening(username, password, body);
    let buf = padded(upload_opening(encode_utf8(username), encode_utf8(password)) + body);
    let first = buf[body_start(buf) - 1];
    lemma_upload_body(first, transfer, file_size, file_name, folder, rest);
}

proof fn lemma_upload_body_len(transfer: Uuid, file_size: u64, file_name: Seq<u8>, folder: Uuid)
    ensures
        upload_body(transfer, file_size, file_name, folder).len() == 41 + file_name.len(),
{
    lemma_be_bytes_len(file_size as nat, 8);
}

/// What follows the credentials in an upload's request, from one byte before it on.
proof fn lemma_after_opening(username: Seq<char>, password: Seq<char>, body: Seq<u8>) -> (rest: Seq<
    u8,
>)
    requires
        encode_utf8(username).len() <= 255,
        encode_utf8(password).len() <= 255,
        body.len() <= 1000,
    ensures
        ({
            let buf = padded(upload_opening(encode_utf8(username), encode_utf8(password)) + body);
            let at = body_start(buf) - 1;
            &&& credentials_of(buf) == Some((username, password))
            &&& buf.skip(at) == seq![buf[at]] + body + rest
        }),
{
    let head = upload_opening(encode_utf8(username), encode_utf8(password));
    let buf = padded(head + body);
    assert(head =~= opening(1, encode_utf8(username), encode_utf8(password)));
    opening_is_read_back(1, username, password, body);
    let at = body_start(buf) - 1;
    let rest = zeros((CHUNK_SIZE - head.len() - body.len()) as nat);
    assert(buf.skip(at) =~= seq![buf[at]] + body + rest);
    rest
}

proof fn lemma_upload_body(
    first: u8,
    transfer: Uuid,
    file_size: u64,
    file_name: Seq<u8>,
    folder: Uuid,
    rest: Seq<u8>,
)
    requires
        file_name.len() <= 255,
    ensures
        init_request_of(
            seq![first] + upload_body(transfer, file_size, file_name, folder) + rest,
        ) == Some(
            InitView {
                uuid: transfer,
                file_size: file_size as nat,
                file_name: readable(file_name),
                folder_uuid: folder,
            },
        ),
{
    let message = seq![first] + upload_body(transfer, file_size, file_name, folder) + rest;
    let n = file_name.len() as int;
    lemma_be_bytes_len(file_size as nat, 8);
    lemma_u64_roundtrip(file_size);
    assert(message[25] == n as u8);
    assert(message.subrange(1, 17) =~= swap_fields(transfer.bytes@));
    assert(message.subrange(17, 25) =~= be_bytes(file_size as nat, 8));
    assert(message.subrange(26, 26 + n) =~= file_name);
    assert(message.subrange(26 + n, 26 + n + 16) =~= swap_fields(folder.bytes@));
    lemma_le_roundtrip(transfer.bytes@);
    lemma_le_roundtrip(folder.bytes@);
    lemma_uuid_of(transfer);
    lemma_uuid_of(folder);
}

/// An upload that the client asks for is opened with the identifier and folder that it names, and
/// with as many chunks as its file takes.
#[verifier::spinoff_prover]
pub proof fn requested_uploads_hold_the_file(
    username: Seq<char>,
    password: Seq<char>,
    transfer: Uuid,
    file_size: u64,
    file_name: Seq<u8>,
    folder: Uuid,
    root: FolderView,
    dirs_ready: bool,
)
    requires
        encode_utf8(username).len() <= 255,
        encode_utf8(password).len() <= 255,
        file_name.len() <= 255,
    ensures
        ({
            let buf = padded(
                upload_opening(encode_utf8(username), encode_utf8(password)) + upload_body(
                    transfer,
                    file_size,
                    file_name,
                    folder,
                ),
            );
            match transfer_opened(buf.skip(body_start(buf) - 1), root, dirs_ready) {
                Ok(t) => {
                    &&& t.uuid == transfer
                    &&& t.parent_folder_uuid == folder
                    &&& file_size <= t.file_size_chunks * PAYLOAD
                    &&& file_size > 0 ==> (t.file_size_chunks - 1) * PAYLOAD < file_size
                    &&& file_size == 0 ==> t.file_size_chunks == 0
                },
                Err(_) => true,
            }
        }),
{
    upload_request_is_read_back(username, password, transfer, file_size, file_name, folder);
    chunks_just_hold_the_file(file_size as nat);
}

/// A round has at least one worker, at most as many as may be, and no more than there are chunks
/// where there are some.
pub proof fn rounds_have_workers_for_their_chunks(waiting: nat)
    ensures
        1 <= upload_workers(waiting) <= MAX_THREADS,
        waiting >= 1 ==> upload_workers(waiting) <= waiting,
        upload_workers(waiting) < MAX_THREADS && waiting >= 1 ==> upload_workers(waiting)
            == waiting,
{
}

} // verus!
