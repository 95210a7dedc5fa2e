//! The server's receiving side: how an upload begins, what it answers to chunks and questions, and
//! how a finished file enters the tree.

use std::collections::HashSet;

use vstd::prelude::*;
use vstd::string::StringExecFns;

use crate::clock::Timestamp;
use crate::ids::{swap_fields, uuid_of, Uuid};
use crate::map_laws::bag;
use crate::map_store::{outcome, MapStore};
use crate::map_tracker::Signal;
use crate::mapper::{AccessControl, Fil, FilView, FolderView, MapError, Query};
use crate::paths::{
    file_name, file_name_of, file_stem, file_stem_of, find_step, join, joined, next_step, pieces,
    rest_from, same_text, split, text_from, views,
};
use crate::response::{Code, ErrorTransfer, TransferSuccess};
use crate::sender::{chunk_start, chunks_of, get_chunks_len};
use crate::text::{readable, readable_text};
use crate::wire::{
    be_bytes, be_value, push_all, push_u64, read_u64, zeros, MSG_ACK_FAIL, MSG_ACK_OK, MSG_CHUNK,
    MSG_COMPLETION_REQUEST, MSG_COMPLETION_RESPONSE, MSG_HASH_REQUEST, MSG_HASH_RESPONSE, PAYLOAD,
};

verus! {

broadcast use vstd::std_specs::hash::group_hash_axioms;

/// What is kept beside an unfinished upload, so that it can be resumed.
#[derive(Debug)]
pub struct ConfigFile {
    pub last_changed_at: u64,
    pub uuid: Uuid,
    pub parent_folder_uuid: Uuid,
    pub file_size_chunks: u64,
    pub transfered_chunks: HashSet<u64>,
    pub owner: Vec<Uuid>,
    pub is_public: bool,
}

#[verifier::ext_equal]
pub struct ConfigView {
    pub last_changed_at: u64,
    pub uuid: Uuid,
    pub parent_folder_uuid: Uuid,
    pub file_size_chunks: u64,
    pub transfered_chunks: Set<u64>,
    pub owner: Seq<Uuid>,
    pub is_public: bool,
}

impl View for ConfigFile {
    type V = ConfigView;

    open spec fn view(&self) -> ConfigView {
        ConfigView {
            last_changed_at: self.last_changed_at,
            uuid: self.uuid,
            parent_folder_uuid: self.parent_folder_uuid,
            file_size_chunks: self.file_size_chunks,
            transfered_chunks: self.transfered_chunks@,
            owner: self.owner@,
            is_public: self.is_public,
        }
    }
}

/// An upload, and where its pieces lie.
#[derive(Debug)]
pub struct TransferedFile {
    pub uuid: Uuid,
    pub file_size_chunks: u64,
    pub parent_folder_uuid: Uuid,
    pub storage_path: String,
    pub temp_path: String,
    pub config_path: String,
}

#[verifier::ext_equal]
pub struct TransferView {
    pub uuid: Uuid,
    pub file_size_chunks: u64,
    pub parent_folder_uuid: Uuid,
    pub storage_path: Seq<char>,
    pub temp_path: Seq<char>,
    pub config_path: Seq<char>,
}

impl View for TransferedFile {
    type V = TransferView;

    open spec fn view(&self) -> TransferView {
        TransferView {
            uuid: self.uuid,
            file_size_chunks: self.file_size_chunks,
            parent_folder_uuid: self.parent_folder_uuid,
            storage_path: self.storage_path@,
            temp_path: self.temp_path@,
            config_path: self.config_path@,
        }
    }
}

/// What a request to upload says.
#[verifier::ext_equal]
pub struct InitView {
    pub uuid: Uuid,
    pub file_size: nat,
    pub file_name: Seq<char>,
    pub folder_uuid: Uuid,
}

/// Where the file's name ends in a request to upload.
pub open spec fn init_name_end(message: Seq<u8>) -> int {
    26 + message[25] as int
}

/// Reads a request to upload: behind a first byte that is not looked at, the transfer's
/// identifier, the file's size, its name behind the name's length, and the folder to put it in.
pub open spec fn init_request_of(message: Seq<u8>) -> Option<InitView> {
    let end = init_name_end(message);
    if message.len() < 25 || message.len() < end + 16 {
        None
    } else {
        Some(
            InitView {
                uuid: uuid_of(swap_fields(message.subrange(1, 17))),
                file_size: be_value(message.subrange(17, 25)),
                file_name: readable(message.subrange(26, end)),
                folder_uuid: uuid_of(swap_fields(message.subrange(end, end + 16))),
            },
        )
    }
}

/// The transfer that is opened for a request to upload, or the refusal. `dirs_ready` says whether
/// the server's directories exist or could be created.
pub open spec fn request_opened(request: InitView, root: FolderView, dirs_ready: bool) -> Result<
    TransferView,
    ErrorTransfer,
> {
    match root.search(Query::Folder(request.folder_uuid)) {
        None => Err(ErrorTransfer::NotFound),
        Some(p) => if !dirs_ready {
            Err(ErrorTransfer::InternalServerError)
        } else {
            match file_name_of(request.file_name) {
                None => Err(ErrorTransfer::InvalidFileName),
                Some(name) => Ok(
                    TransferView {
                        uuid: request.uuid,
                        file_size_chunks: chunks_of(request.file_size) as u64,
                        parent_folder_uuid: request.folder_uuid,
                        storage_path: joined(root.at(p).path, name),
                        temp_path: "./temp/"@ + name,
                        config_path: "./temp/"@ + name + ".config"@,
                    },
                ),
            }
        },
    }
}

/// What becomes of the message of a request to upload.
pub open spec fn transfer_opened(
    message: Seq<u8>,
    root: FolderView,
    dirs_ready: bool,
) -> Result<TransferView, ErrorTransfer> {
    match init_request_of(message) {
        None => Err(ErrorTransfer::InvalidLength),
        Some(request) => request_opened(request, root, dirs_ready),
    }
}

/// Opens the transfer that a request to upload asks for.
pub fn init_transfer(init_message: &[u8], map_store: &MapStore, dirs_ready: bool) -> (opened:
    Result<TransferedFile, ErrorTransfer>)
    requires
        init_message@.len() != 25,
    ensures
        match opened {
            Ok(t) => transfer_opened(init_message@, map_store@, dirs_ready) == Ok::<
                TransferView,
                ErrorTransfer,
            >(t@),
            Err(e) => transfer_opened(init_message@, map_store@, dirs_ready) == Err::<
                TransferView,
                ErrorTransfer,
            >(e),
        },
{
    if init_message.len() < 25 {
        return Err(ErrorTransfer::InvalidLength);
    }
    let name_end: usize = 26 + init_message[25] as usize;
    if init_message.len() < name_end + 16 {
        return Err(ErrorTransfer::InvalidLength);
    }
    let uuid: Uuid = Uuid::read_le(init_message, 1);
    let file_size: u64 = read_u64(init_message, 17);
    let sent_name: String = readable_text(
        vstd::slice::slice_subrange(init_message, 26, name_end),
    );
    let folder_uuid: Uuid = Uuid::read_le(init_message, name_end);
    open_transfer(uuid, file_size, sent_name.as_str(), folder_uuid, map_store, dirs_ready)
}

/// Opens the transfer of a file of this size and name into a folder.
pub fn open_transfer(
    uuid: Uuid,
    file_size: u64,
    sent_name: &str,
    folder_uuid: Uuid,
    map_store: &MapStore,
    dirs_ready: bool,
) -> (opened: Result<TransferedFile, ErrorTransfer>)
    ensures
        ({
            let request = InitView {
                uuid,
                file_size: file_size as nat,
                file_name: sent_name@,
                folder_uuid,
            };
            match opened {
                Ok(t) => request_opened(request, map_store@, dirs_ready) == Ok::<
                    TransferView,
                    ErrorTransfer,
                >(t@),
                Err(e) => request_opened(request, map_store@, dirs_ready) == Err::<
                    TransferView,
                    ErrorTransfer,
                >(e),
            }
        }),
{
    let folder_path: String = match map_store.get_path(folder_uuid) {
        Ok(p) => p,
        Err(_) => return Err(ErrorTransfer::NotFound),
    };
    if !dirs_ready {
        return Err(ErrorTransfer::InternalServerError);
    }
    let name: String = match file_name(sent_name) {
        Some(n) => n,
        None => return Err(ErrorTransfer::InvalidFileName),
    };
    let mut temp_path: String = "./temp/".to_owned();
    temp_path.append(name.as_str());
    let mut config_path: String = temp_path.clone();
    config_path.append(".config");
    Ok(
        TransferedFile {
            uuid,
            file_size_chunks: get_chunks_len(file_size),
            parent_folder_uuid: folder_uuid,
            storage_path: join(folder_path.as_str(), name.as_str()),
            temp_path,
            config_path,
        },
    )
}

/// Whether an opened transfer goes ahead. `taken` says whether one of its three paths exists
/// already, `created` whether its temporary file could be created.
pub fn claim_paths(taken: bool, created: bool) -> (result: Result<(), ErrorTransfer>)
    ensures
        result == (if taken {
            Err::<(), ErrorTransfer>(ErrorTransfer::ThisFileExists)
        } else if !created {
            Err(ErrorTransfer::InternalServerError)
        } else {
            Ok(())
        }),
{
    if taken {
        return Err(ErrorTransfer::ThisFileExists);
    }
    if !created {
        return Err(ErrorTransfer::InternalServerError);
    }
    Ok(())
}

/// The answer that lets an upload begin.
pub fn init_reply() -> (reply: [u8; 9])
    ensures
        reply@ == seq![20u8] + zeros(8),
{
    let mut reply: [u8; 9] = [0u8; 9];
    reply[0] = TransferSuccess::Success.get_code();
    assert(reply@ =~= seq![20u8] + zeros(8));
    reply
}

/// What is kept beside a new upload.
pub fn setup_config(file: &TransferedFile, now: u64) -> (config: ConfigFile)
    ensures
        config@ == (ConfigView {
            last_changed_at: now,
            uuid: file@.uuid,
            parent_folder_uuid: file@.parent_folder_uuid,
            file_size_chunks: file@.file_size_chunks,
            transfered_chunks: Set::empty(),
            owner: Seq::empty(),
            is_public: false,
        }),
{
    ConfigFile {
        last_changed_at: now,
        uuid: file.uuid,
        parent_folder_uuid: file.parent_folder_uuid,
        file_size_chunks: file.file_size_chunks,
        transfered_chunks: HashSet::new(),
        owner: Vec::new(),
        is_public: false,
    }
}

fn contains_all(small: &HashSet<u64>, big: &HashSet<u64>) -> (yes: bool)
    ensures
        yes == small@.subset_of(big@),
{
    for key in it: small.iter()
        invariant
            it.seq().unref().to_set() == small@,
            forall|j: int| 0 <= j < it.index() ==> big@.contains(*#[trigger] it.seq()[j]),
    {
        proof {
            assert(it.seq().unref()[it.index()] == *key);
            assert(it.seq().unref().to_set().contains(*key));
        }
        if !big.contains(key) {
            assert(small@.contains(*key));
            return false;
        }
    }
    proof {
        assert forall|x: u64| small@.contains(x) implies big@.contains(x) by {}
    }
    true
}

/// A copy of a set of chunk numbers.
pub fn copy_chunks(chunks: &HashSet<u64>) -> (copy: HashSet<u64>)
    ensures
        copy@ == chunks@,
{
    let mut copy: HashSet<u64> = HashSet::new();
    for key in it: chunks.iter()
        invariant
            it.seq().unref().to_set() == chunks@,
            copy@.subset_of(chunks@),
            forall|j: int| 0 <= j < it.index() ==> copy@.contains(*#[trigger] it.seq()[j]),
    {
        proof {
            assert(it.seq().unref()[it.index()] == *key);
            assert(it.seq().unref().to_set().contains(*key));
        }
        copy.insert(*key);
    }
    proof {
        assert forall|x: u64| chunks@.contains(x) implies copy@.contains(x) by {}
        assert(copy@ =~= chunks@);
    }
    copy
}

/// Whether two sets of chunk numbers are equal.
pub fn same_chunks(a: &HashSet<u64>, b: &HashSet<u64>) -> (same: bool)
    ensures
        same == (a@ == b@),
{
    if contains_all(a, b) && contains_all(b, a) {
        assert(a@ =~= b@);
        true
    } else {
        false
    }
}

/// Brings what is kept beside an upload up to date. Answers whether anything changed.
pub fn update_config(config: &mut ConfigFile, chunk_log: &HashSet<u64>, now: u64) -> (changed: bool)
    ensures
        changed == (old(config)@.transfered_chunks != chunk_log@),
        final(config)@ == (if changed {
            ConfigView {
                last_changed_at: now,
                transfered_chunks: chunk_log@,
                ..old(config)@
            }
        } else {
            old(config)@
        }),
{
    if same_chunks(&config.transfered_chunks, chunk_log) {
        return false;
    }
    config.last_changed_at = now;
    config.transfered_chunks = copy_chunks(chunk_log);
    true
}

/// What a message of the sender is about, by its first byte.
#[derive(Clone, Copy, Debug, PartialEq, Eq, Structural)]
pub enum Incoming {
    Chunk,
    CompletionRequest,
    HashRequest,
    /// Nothing known; it is passed over.
    Unexpected,
}

/// Tells the sender's messages apart.
pub fn incoming(message_type: u8) -> (kind: Incoming)
    ensures
        kind == (match message_type {
            2 => Incoming::Chunk,
            3 => Incoming::CompletionRequest,
            4 => Incoming::HashRequest,
            _ => Incoming::Unexpected,
        }),
{
    if message_type == MSG_CHUNK {
        Incoming::Chunk
    } else if message_type == MSG_COMPLETION_REQUEST {
        Incoming::CompletionRequest
    } else if message_type == MSG_HASH_REQUEST {
        Incoming::HashRequest
    } else {
        Incoming::Unexpected
    }
}

/// Reads the head of a chunk: its number and its length, which must not exceed a chunk's payload.
pub fn chunk_header(header: &[u8; 16]) -> (head: Result<(u64, usize), ErrorTransfer>)
    ensures
        ({
            let len = be_value(header@.subrange(8, 16));
            match head {
                Ok((id, n)) => id == be_value(header@.subrange(0, 8)) && n == len && len
                    <= PAYLOAD,
                Err(e) => len > PAYLOAD && e == ErrorTransfer::InternalServerError,
            }
        }),
{
    let id: u64 = read_u64(header.as_slice(), 0);
    let len: u64 = read_u64(header.as_slice(), 8);
    if len > PAYLOAD {
        return Err(ErrorTransfer::InternalServerError);
    }
    Ok((id, len as usize))
}

/// Where the bytes of a chunk are written.
pub fn chunk_offset(id: u64) -> (offset: u64)
    requires
        id * PAYLOAD <= u64::MAX,
    ensures
        offset == chunk_start(id as nat),
{
    id * PAYLOAD
}

/// An answer on a chunk: a code and the chunk's number.
pub open spec fn ack(code: u8, id: u64) -> Seq<u8> {
    seq![code] + be_bytes(id as nat, 8)
}

/// Builds an answer on a chunk.
pub fn build_ack(code: u8, chunk_id: u64) -> (message: Vec<u8>)
    ensures
        message@ == ack(code, chunk_id),
{
    let mut message: Vec<u8> = Vec::new();
    message.push(code);
    push_u64(&mut message, chunk_id);
    assert(message@ =~= ack(code, chunk_id));
    message
}

/// The chunks below `n` that are not in `present`, in ascending order.
pub open spec fn missing_below(present: Set<u64>, n: nat) -> Seq<u64>
    decreases n,
{
    if n == 0 {
        Seq::empty()
    } else {
        let rest = missing_below(present, (n - 1) as nat);
        if present.contains((n - 1) as u64) {
            rest
        } else {
            rest.push((n - 1) as u64)
        }
    }
}

/// Numbers of eight bytes each, one behind the other.
pub open spec fn id_bytes(ids: Seq<u64>) -> Seq<u8>
    decreases ids.len(),
{
    if ids.len() == 0 {
        Seq::empty()
    } else {
        id_bytes(ids.drop_last()) + be_bytes(ids.last() as nat, 8)
    }
}

/// The answer to the question what is missing: how many chunks, and which.
pub open spec fn completion_response(present: Set<u64>, n: u64) -> Seq<u8> {
    let missing = missing_below(present, n as nat);
    seq![23u8] + be_bytes(missing.len(), 8) + id_bytes(missing)
}

pub proof fn lemma_missing_len(present: Set<u64>, n: nat)
    ensures
        missing_below(present, n).len() <= n,
    decreases n,
{
    if n > 0 {
        lemma_missing_len(present, (n - 1) as nat);
    }
}

/// Builds the answer to the question what is missing of a file of `file_size_chunks` chunks.
pub fn build_completion_response(chunk_log: &HashSet<u64>, file_size_chunks: u64) -> (message: Vec<
    u8,
>)
    ensures
        message@ == completion_response(chunk_log@, file_size_chunks),
{
    let mut missing: Vec<u64> = Vec::new();
    let mut i: u64 = 0;
    while i < file_size_chunks
        invariant
            i <= file_size_chunks,
            missing@ == missing_below(chunk_log@, i as nat),
        decreases file_size_chunks - i,
    {
        if !chunk_log.contains(&i) {
            missing.push(i);
        }
        i += 1;
    }
    let mut message: Vec<u8> = Vec::new();
    message.push(MSG_COMPLETION_RESPONSE);
    push_u64(&mut message, missing.len() as u64);
    let ghost head = message@;
    let mut k: usize = 0;
    assert(missing@.take(0) =~= Seq::<u64>::empty());
    assert(message@ =~= head + id_bytes(missing@.take(0)));
    while k < missing.len()
        invariant
            k <= missing@.len(),
            message@ == head + id_bytes(missing@.take(k as int)),
        decreases missing@.len() - k,
    {
        push_u64(&mut message, missing[k]);
        proof {
            assert(missing@.take(k + 1).drop_last() =~= missing@.take(k as int));
            assert(message@ =~= head + id_bytes(missing@.take(k + 1)));
        }
        k += 1;
    }
    assert(missing@.take(k as int) =~= missing@);
    assert(message@ =~= completion_response(chunk_log@, file_size_chunks));
    message
}

/// Takes in whether the bytes of a chunk could be written. Gives the answer to send, and whether
/// to save which chunks have arrived.
pub fn chunk_written(chunk_log: &mut HashSet<u64>, chunk_id: u64, written: bool) -> (done: (
    Vec<u8>,
    bool,
))
    ensures
        final(chunk_log)@ == (if written {
            old(chunk_log)@.insert(chunk_id)
        } else {
            old(chunk_log)@
        }),
        done.0@ == ack(
            if written {
                MSG_ACK_OK
            } else {
                MSG_ACK_FAIL
            },
            chunk_id,
        ),
        done.1 == (written && final(chunk_log)@.len() % 10 == 8),
{
    if !written {
        return (build_ack(MSG_ACK_FAIL, chunk_id), false);
    }
    chunk_log.insert(chunk_id);
    let count: usize = chunk_log.len();
    (build_ack(MSG_ACK_OK, chunk_id), count % 10 == 8)
}

/// How many workers write chunks.
pub fn writer_count(max_workers: usize) -> (n: usize)
    ensures
        n == (if max_workers == 0 {
            1
        } else {
            max_workers
        }),
{
    if max_workers < 1 {
        1
    } else {
        max_workers
    }
}

/// What a receiver waits for.
#[derive(Clone, Copy, Debug, PartialEq, Eq, Structural)]
pub enum IntakePhase {
    /// The first byte of a message.
    Kind,
    /// The head of a chunk.
    Head,
    /// The bytes of the chunk with this number.
    Payload(u64),
    /// Nothing; no more chunks come.
    Closed,
}

/// What came to a receiver.
#[derive(Debug)]
pub enum IntakeEvent {
    /// The first byte of a message.
    Byte(u8),
    /// The head of a chunk.
    Head([u8; 16]),
    /// The bytes of a chunk.
    Payload(Vec<u8>),
    /// What was asked for last has been handed on.
    HandedOn,
    /// Reading, or handing on, has failed.
    Failed,
}

/// What a receiver does next.
#[derive(Debug)]
pub enum IntakeAction {
    /// Read the first byte of a message.
    ReadByte,
    /// Read the head of a chunk.
    ReadHead,
    /// Read so many bytes of a chunk.
    ReadPayload(usize),
    /// Hand the chunk on to be written.
    Store(u64, Vec<u8>),
    /// Hand the message on to be sent.
    Answer(Vec<u8>),
    /// Stop reading, with this outcome.
    Finish(Result<(), ErrorTransfer>),
}

/// Whether a receiver that has written `present` of a file of `chunks` chunks does this next, and
/// what it then waits for. An event that does not fit what is waited for ends the transfer.
pub open spec fn intake_next(
    phase: IntakePhase,
    event: IntakeEvent,
    present: Set<u64>,
    chunks: u64,
    next: IntakePhase,
    action: IntakeAction,
) -> bool {
    match (phase, event) {
        (IntakePhase::Kind, IntakeEvent::Byte(2)) => next == IntakePhase::Head
            && action is ReadHead,
        (IntakePhase::Kind, IntakeEvent::Byte(3)) => next == IntakePhase::Kind && (
        action matches IntakeAction::Answer(m) && m@ == completion_response(present, chunks)),
        (IntakePhase::Kind, IntakeEvent::Byte(4)) => next == IntakePhase::Closed && action
            == IntakeAction::Finish(Ok(())),
        (IntakePhase::Kind, IntakeEvent::Byte(_)) => next == IntakePhase::Kind
            && action is ReadByte,
        (IntakePhase::Kind, IntakeEvent::HandedOn) => next == IntakePhase::Kind
            && action is ReadByte,
        (IntakePhase::Head, IntakeEvent::Head(h)) if be_value(h@.subrange(8, 16))
            <= PAYLOAD => next == IntakePhase::Payload(be_value(h@.subrange(0, 8)) as u64)
            && action == IntakeAction::ReadPayload(be_value(h@.subrange(8, 16)) as usize),
        (IntakePhase::Payload(id), IntakeEvent::Payload(p)) => next == IntakePhase::Kind && action
            == IntakeAction::Store(id, p),
        _ => next == IntakePhase::Closed && action == IntakeAction::Finish(
            Err(ErrorTransfer::InternalServerError),
        ),
    }
}

impl IntakePhase {
    /// Takes in what came to a receiver that has written the chunks of `chunk_log`.
    pub fn step(
        &mut self,
        event: IntakeEvent,
        chunk_log: &HashSet<u64>,
        file_size_chunks: u64,
    ) -> (action: IntakeAction)
        ensures
            intake_next(
                *old(self),
                event,
                chunk_log@,
                file_size_chunks,
                *final(self),
                action,
            ),
    {
        match (*self, event) {
            (IntakePhase::Kind, IntakeEvent::Byte(byte)) => match incoming(byte) {
                Incoming::Chunk => {
                    *self = IntakePhase::Head;
                    IntakeAction::ReadHead
                },
                Incoming::CompletionRequest => IntakeAction::Answer(
                    build_completion_response(chunk_log, file_size_chunks),
                ),
                Incoming::HashRequest => {
                    *self = IntakePhase::Closed;
                    IntakeAction::Finish(Ok(()))
                },
                Incoming::Unexpected => IntakeAction::ReadByte,
            },
            (IntakePhase::Kind, IntakeEvent::HandedOn) => IntakeAction::ReadByte,
            (IntakePhase::Head, IntakeEvent::Head(head)) => match chunk_header(&head) {
                Ok((id, len)) => {
                    *self = IntakePhase::Payload(id);
                    IntakeAction::ReadPayload(len)
                },
                Err(e) => {
                    *self = IntakePhase::Closed;
                    IntakeAction::Finish(Err(e))
                },
            },
            (IntakePhase::Payload(id), IntakeEvent::Payload(payload)) => {
                *self = IntakePhase::Kind;
                IntakeAction::Store(id, payload)
            },
            _ => {
                *self = IntakePhase::Closed;
                IntakeAction::Finish(Err(ErrorTransfer::InternalServerError))
            },
        }
    }
}

/// What is sent once no more chunks come, and whether the transfer goes on. `outcome` says how
/// reading the chunks ended; `digest` is that of the received file, if it could be computed.
pub fn transfer_reply(outcome: Result<(), ErrorTransfer>, digest: Option<[u8; 32]>) -> (reply: (
    Vec<u8>,
    bool,
))
    ensures
        match (outcome, digest) {
            (Err(e), _) => reply.0@ == seq![e.code()] && !reply.1,
            (Ok(_), None) => reply.0@ == seq![50u8] && !reply.1,
            (Ok(_), Some(d)) => reply.0@ == seq![24u8] + d@ && reply.1,
        },
{
    let mut message: Vec<u8> = Vec::new();
    match outcome {
        Err(e) => {
            message.push(e.get_code());
            (message, false)
        },
        Ok(_) => match digest {
            None => {
                message.push(ErrorTransfer::InternalServerError.get_code());
                (message, false)
            },
            Some(d) => {
                message.push(MSG_HASH_RESPONSE);
                push_all(&mut message, d.as_slice());
                assert(message@ =~= seq![24u8] + d@);
                (message, true)
            },
        },
    }
}

/// How a received file leaves the transfer.
#[derive(Debug, Clone, Copy)]
pub enum Finish {
    /// Its path ends in no name.
    NoName,
    /// The tree did not take it.
    NotAdded(MapError),
    /// It is in the tree; its bytes are to be moved to where it is stored.
    Move,
}

/// The entry of a received file: public for viewing and changing, owned by who sent it.
pub open spec fn received_entry(
    name: Seq<char>,
    path: Seq<char>,
    owner: Uuid,
    uuid: Uuid,
    now: Timestamp,
) -> FilView {
    FilView {
        name,
        last_changed_at: now,
        uuid,
        path,
        is_locked: false,
        access: crate::manage_folder::open_access(owner),
    }
}

/// What becomes of a received file.
pub open spec fn finished(
    before: FolderView,
    file: TransferView,
    client: Uuid,
    parent: Option<Uuid>,
    uuid: Uuid,
    now: Timestamp,
) -> (FolderView, Finish) {
    match file_name_of(file.storage_path) {
        None => (before, Finish::NoName),
        Some(name) => match before.added(
            parent,
            received_entry(name, file.storage_path, client, uuid, now),
        ) {
            Ok(after) => (after, Finish::Move),
            Err(e) => (before, Finish::NotAdded(e)),
        },
    }
}

/// Puts a received file into the tree, changed now, under a fresh identifier.
pub fn finish_and_register(
    file: &TransferedFile,
    map_store: &mut MapStore,
    client_uuid: &Uuid,
    parent_folder_uuid: Option<Uuid>,
) -> (finish: Finish)
    ensures
        exists|uuid: Uuid, now: Timestamp|
            crate::ids::is_v4(uuid.bytes@) && now.in_calendar() && (
                final(map_store)@,
                finish,
            ) == #[trigger] finished(
                old(map_store)@,
                file@,
                *client_uuid,
                parent_folder_uuid,
                uuid,
                now,
            ),
{
    register_as(
        file,
        map_store,
        client_uuid,
        parent_folder_uuid,
        Uuid::new_v4(),
        Timestamp::now(),
    )
}

/// Puts a received file into the tree under the given identifier and time.
pub fn register_as(
    file: &TransferedFile,
    map_store: &mut MapStore,
    client_uuid: &Uuid,
    parent_folder_uuid: Option<Uuid>,
    uuid: Uuid,
    now: Timestamp,
) -> (finish: Finish)
    ensures
        (final(map_store)@, finish) == finished(
            old(map_store)@,
            file@,
            *client_uuid,
            parent_folder_uuid,
            uuid,
            now,
        ),
{
    let name: String = match file_name(file.storage_path.as_str()) {
        Some(n) => n,
        None => return Finish::NoName,
    };
    let access = AccessControl {
        owner: *client_uuid,
        is_public_for_viewing: true,
        is_public_for_changing: true,
        is_visible_for: Vec::new(),
        is_editable_for: Vec::new(),
    };
    assert(access@ =~= crate::manage_folder::open_access(*client_uuid));
    let entry: Fil = Fil::with_identity(name, file.storage_path.clone(), access, uuid, now);
    match map_store.add_file(parent_folder_uuid, entry) {
        Ok(_) => Finish::Move,
        Err(e) => Finish::NotAdded(e),
    }
}

/// Whether those who watch the tree are told of a received file: only once its bytes have been
/// copied and the temporary ones removed.
pub fn finish_signal(copied: bool, temp_removed: bool) -> (signal: Signal)
    ensures
        signal == (if copied && temp_removed {
            Signal::Changed
        } else {
            Signal::Silent
        }),
{
    if copied && temp_removed {
        Signal::Changed
    } else {
        Signal::Silent
    }
}

/// Whether a file beside an upload is what is kept to resume it.
pub fn is_config(path: &str) -> (yes: bool)
    ensures
        yes == (crate::paths::extension_of(path@) == Some("config"@)),
{
    crate::paths::has_extension(path, "config")
}

/// Where a file of the temporary directory is stored: at the same place below the storage
/// directory, written as it is below the temporary one. Nowhere, if it lies elsewhere.
pub open spec fn storage_for(temp_path: Seq<char>) -> Option<Seq<char>> {
    let ps = pieces(temp_path);
    let first = next_step(ps, 0);
    let second = next_step(ps, first + 1);
    if second < ps.len() && ps[first] == "."@ && ps[second] == "temp"@ {
        Some(joined("./storage"@, text_from(ps, second + 1)))
    } else {
        None
    }
}

/// Where a file of the temporary directory is stored.
pub fn temp_to_storage(temp_path: &str) -> (path: Option<String>)
    ensures
        match path {
            Some(p) => storage_for(temp_path@) == Some(p@),
            None => storage_for(temp_path@) is None,
        },
{
    let len: usize = temp_path.unicode_len();
    assert(temp_path@.take(len as int) =~= temp_path@);
    let ps: Vec<String> = split(temp_path, len);
    let ghost all = views(ps@);
    let first: usize = find_step(&ps, 0);
    if first >= ps.len() {
        assert(next_step(all, first + 1) == all.len());
        return None;
    }
    let second: usize = find_step(&ps, first + 1);
    if second >= ps.len() {
        return None;
    }
    assert(all[first as int] == ps@[first as int]@ && all[second as int] == ps@[second as int]@);
    if !same_text(ps[first].as_str(), ".") || !same_text(ps[second].as_str(), "temp") {
        return None;
    }
    Some(join("./storage", rest_from(&ps, second + 1).as_str()))
}

/// The first of the uploads that has identifier `uuid`.
pub open spec fn resumable(configs: Seq<ConfigFile>, uuid: Uuid, i: int) -> Option<int>
    decreases configs.len() - i,
{
    if i < 0 || i >= configs.len() {
        None
    } else if configs[i].uuid == uuid {
        Some(i)
    } else {
        resumable(configs, uuid, i + 1)
    }
}

/// Looks for the upload with identifier `uuid`; refuses where there is none.
pub fn find_config(configs: &Vec<ConfigFile>, uuid: &Uuid) -> (found: Result<usize, ErrorTransfer>)
    ensures
        match found {
            Ok(k) => resumable(configs@, *uuid, 0) == Some(k as int) && k < configs@.len(),
            Err(e) => resumable(configs@, *uuid, 0) is None && e == ErrorTransfer::NotFound,
        },
{
    let mut i: usize = 0;
    while i < configs.len()
        invariant
            i <= configs@.len(),
            resumable(configs@, *uuid, 0) == resumable(configs@, *uuid, i as int),
        decreases configs@.len() - i,
    {
        if configs[i].uuid == *uuid {
            return Ok(i);
        }
        i += 1;
    }
    Err(ErrorTransfer::NotFound)
}

/// The transfer that what was kept at `config_path` resumes.
pub open spec fn transfer_resumed(config_path: Seq<char>, config: ConfigView, uuid: Uuid) -> Option<
    TransferView,
> {
    match file_stem_of(config_path) {
        None => None,
        Some(stem) => {
            let temp = joined("./temp"@, stem);
            match storage_for(temp) {
                None => None,
                Some(storage) => Some(
                    TransferView {
                        uuid,
                        file_size_chunks: config.file_size_chunks,
                        parent_folder_uuid: config.parent_folder_uuid,
                        storage_path: storage,
                        temp_path: temp,
                        config_path,
                    },
                ),
            }
        },
    }
}

/// Reopens an upload from what was kept at `config_path`.
pub fn resume_transfer(config_path: &str, config: &ConfigFile, uuid: Uuid) -> (opened: Result<
    TransferedFile,
    ErrorTransfer,
>)
    ensures
        match opened {
            Ok(t) => transfer_resumed(config_path@, config@, uuid) == Some(t@),
            Err(e) => transfer_resumed(config_path@, config@, uuid) is None && e
                == ErrorTransfer::InternalServerError,
        },
{
    let stem: String = match file_stem(config_path) {
        Some(s) => s,
        None => return Err(ErrorTransfer::InternalServerError),
    };
    let temp_path: String = join("./temp", stem.as_str());
    match temp_to_storage(temp_path.as_str()) {
        None => Err(ErrorTransfer::InternalServerError),
        Some(storage_path) => Ok(
            TransferedFile {
                uuid,
                file_size_chunks: config.file_size_chunks,
                parent_folder_uuid: config.parent_folder_uuid,
                storage_path,
                temp_path,
                config_path: config_path.to_owned(),
            },
        ),
    }
}

/// A resumed upload goes on where it was begun: what was kept of the upload of `name` leads back to
/// its temporary file, and from there to a file of the same name in the storage directory.
pub proof fn resumed_uploads_keep_their_name(name: Seq<char>, config: ConfigView, uuid: Uuid)
    requires
        crate::paths::slashless(name),
        name.len() > 0,
        name != "."@,
    ensures
        transfer_resumed("./temp/"@ + name + ".config"@, config, uuid) == Some(
            TransferView {
                uuid,
                file_size_chunks: config.file_size_chunks,
                parent_folder_uuid: config.parent_folder_uuid,
                storage_path: "./storage/"@ + name,
                temp_path: "./temp/"@ + name,
                config_path: "./temp/"@ + name + ".config"@,
            },
        ),
{
    crate::paths::lemma_config_stem(name);
    lemma_temp_path_of(name);
    lemma_storage_of(name);
}

proof fn lemma_temp_path_of(name: Seq<char>)
    requires
        crate::paths::slashless(name),
        name.len() > 0,
    ensures
        joined("./temp"@, name) == "./temp/"@ + name,
{
    reveal_strlit("./temp");
    reveal_strlit("./temp/");
    reveal_strlit("/");
    assert(joined("./temp"@, name) =~= "./temp/"@ + name);
}

proof fn lemma_storage_path_of(name: Seq<char>)
    requires
        crate::paths::slashless(name),
        name.len() > 0,
    ensures
        joined("./storage"@, name) == "./storage/"@ + name,
{
    reveal_strlit("./storage");
    reveal_strlit("./storage/");
    reveal_strlit("/");
    assert(joined("./storage"@, name) =~= "./storage/"@ + name);
}

proof fn lemma_storage_of(name: Seq<char>)
    requires
        crate::paths::slashless(name),
        name.len() > 0,
        name != "."@,
    ensures
        storage_for("./temp/"@ + name) == Some("./storage/"@ + name),
{
    let ps = pieces("./temp/"@ + name);
    crate::paths::lemma_temp_components(name);
    crate::paths::lemma_temp_pieces(name);
    lemma_storage_path_of(name);
    assert(text_from(ps, 2) == name);
}

/// An upload stays in the folder that it was meant for, whatever its name says: it is stored
/// directly in that folder, and kept directly in the temporary directory until then.
pub proof fn uploads_stay_in_their_folder(message: Seq<u8>, root: FolderView, dirs_ready: bool)
    ensures
        match transfer_opened(message, root, dirs_ready) {
            Ok(t) => {
                let folder = root.at(root.search(Query::Folder(t.parent_folder_uuid))->0);
                let name = file_name_of(t.storage_path)->0;
                &&& root.search(Query::Folder(t.parent_folder_uuid)) is Some
                &&& file_name_of(t.storage_path) is Some
                &&& crate::paths::slashless(name) && name.len() > 0 && name != "."@ && name
                    != ".."@
                &&& t.storage_path == folder.path + crate::paths::separator(folder.path) + name
                &&& t.temp_path == "./temp/"@ + name
                &&& t.config_path == t.temp_path + ".config"@
            },
            Err(_) => true,
        },
{
    match transfer_opened(message, root, dirs_ready) {
        Ok(t) => {
            let request = init_request_of(message)->0;
            let folder = root.at(root.search(Query::Folder(request.folder_uuid))->0);
            crate::paths::names_lie_directly_inside(folder.path, request.file_name);
            crate::paths::file_name_is_one_step(request.file_name);
        },
        Err(_) => {},
    }
}

/// A received file is there for everybody: once it has been put into the tree under a new
/// identifier, every user gets it, may view and change it, and sees the name that its path ends in,
/// the time it came and who sent it; no other file changes. It is not put there only where its path
/// ends in no name or its folder is gone, and then nothing changes.
pub proof fn received_files_are_found(
    before: FolderView,
    file: TransferView,
    client: Uuid,
    parent: Option<Uuid>,
    uuid: Uuid,
    now: Timestamp,
    user: Uuid,
)
    requires
        before.file(uuid) is None,
    ensures
        match finished(before, file, client, parent, uuid, now) {
            (after, Finish::Move) => {
                &&& after.visible_file(uuid, user) == Some(
                    received_entry(
                        file_name_of(file.storage_path)->0,
                        file.storage_path,
                        client,
                        uuid,
                        now,
                    ),
                )
                &&& after.visible_file(uuid, user) matches Some(f) && f.uuid == uuid && Some(f.name)
                    == file_name_of(file.storage_path) && f.path == file.storage_path
                    && f.last_changed_at == now && !f.is_locked && f.access.owner == client
                    && f.access.can_view(user) && f.access.can_edit(user) && bag(after) =~= bag(
                    before,
                ).insert(f)
            },
            (after, Finish::NoName) => after == before && file_name_of(file.storage_path) is None,
            (after, Finish::NotAdded(e)) => after == before && parent is Some && before.search(
                Query::Folder(parent->0),
            ) is None && e == MapError::FolderNotFound(parent->0),
        },
{
    match file_name_of(file.storage_path) {
        None => {},
        Some(name) => {
            let entry = received_entry(name, file.storage_path, client, uuid, now);
            crate::map_laws::added_file_is_found(before, parent, entry, user);
            crate::map_laws::adding_adds_one_file(before, parent, entry);
        },
    }
}

/// The upload that is resumed is the first that was kept under the identifier, and none is found
/// only where none was.
pub proof fn resumed_uploads_have_the_identifier(configs: Seq<ConfigFile>, uuid: Uuid, i: int)
    requires
        0 <= i <= configs.len(),
    ensures
        match resumable(configs, uuid, i) {
            Some(k) => i <= k < configs.len() && configs[k].uuid == uuid && (forall|j: int|
                i <= j < k ==> (#[trigger] configs[j]).uuid != uuid),
            None => forall|j: int|
                i <= j < configs.len() ==> (#[trigger] configs[j]).uuid != uuid,
        },
    decreases configs.len() - i,
{
    if i < configs.len() && configs[i].uuid != uuid {
        resumed_uploads_have_the_identifier(configs, uuid, i + 1);
    }
}

} // verus!
