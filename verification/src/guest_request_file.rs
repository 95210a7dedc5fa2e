//! Serving a file to a guest who holds a public link.

use vstd::prelude::*;
use vstd::utf8::encode_utf8;

use crate::delete_file::locked;
use crate::errors::{is_connection_broken, IoFailure};
use crate::get_file::{same_but_lock, unlocked};
use crate::ids::{uuid_of, Uuid};
use crate::map_laws::{
    bag, found_files_are_listed, replaced_file_is_found, replacing_changes_one_file,
};
use crate::map_store::{with_file_mut_unchecked, MapStore};
use crate::mapper::FolderView;
use crate::response::{Code, ErrorTransfer};
use crate::sender::chunk_start;
use crate::share_link::{link_of, LinkDatabase};
use crate::wire::{be_bytes, push_all, push_be, push_u64, CHUNK_SIZE, PAYLOAD};

verus! {

/// What a guest gets who asks to read a file, and the tree afterwards.
pub open spec fn guest_opened(before: FolderView, file: Uuid) -> (
    Result<Seq<char>, ErrorTransfer>,
    FolderView,
) {
    match before.file(file) {
        None => (Err(ErrorTransfer::NotFound), before),
        Some(f) => if f.is_locked {
            (Err(ErrorTransfer::Locked), before.file_replaced(file, locked(f)))
        } else {
            (Ok(f.path), before.file_replaced(file, locked(f)))
        },
    }
}

/// The path of the file, whose lock is taken.
pub fn get_path(file_uuid: &Uuid, map_store: &mut MapStore) -> (path: Result<String, ErrorTransfer>)
    ensures
        final(map_store)@ == guest_opened(old(map_store)@, *file_uuid).1,
        match path {
            Ok(p) => guest_opened(old(map_store)@, *file_uuid).0 == Ok::<
                Seq<char>,
                ErrorTransfer,
            >(p@),
            Err(e) => guest_opened(old(map_store)@, *file_uuid).0 == Err::<
                Seq<char>,
                ErrorTransfer,
            >(e),
        },
{
    match with_file_mut_unchecked(file_uuid, map_store) {
        Err(e) => Err(e),
        Ok(fil) => {
            if fil.lock() {
                Ok(fil.path.clone())
            } else {
                Err(ErrorTransfer::Locked)
            }
        },
    }
}

/// A file that a guest may read: its identifier, its name and its path.
pub struct GuestFile {
    pub uuid: Uuid,
    pub name: String,
    pub path: String,
}

/// Opens the file behind the token in `first_message`, or gives the answer that refuses it.
pub fn begin_guest(
    first_message: &[u8; CHUNK_SIZE],
    links: &LinkDatabase,
    map_store: &mut MapStore,
) -> (begun: Result<GuestFile, u8>)
    ensures
        match link_of(links@, uuid_of(first_message@.subrange(1, 17)), 0) {
            None => begun == Err::<GuestFile, u8>(42) && final(map_store)@ == old(map_store)@,
            Some(link) => {
                let (path, after) = guest_opened(old(map_store)@, link.file_uuid);
                &&& final(map_store)@ == after
                &&& match path {
                    Ok(p) => begun is Ok && begun->Ok_0.uuid == link.file_uuid
                        && begun->Ok_0.name@ == link.file_name && begun->Ok_0.path@ == p,
                    Err(_) => begun == Err::<GuestFile, u8>(48),
                }
            },
        },
{
    let token: Uuid = Uuid::read(first_message.as_slice(), 1);
    match links.get_link_from_token(&token) {
        Err(_) => Err(ErrorTransfer::InvalidRequest.get_code()),
        Ok(link) => match get_path(&link.file_uuid, map_store) {
            Err(_) => Err(48),
            Ok(path) => Ok(GuestFile { uuid: link.file_uuid, name: link.file_name, path }),
        },
    }
}

/// Whether the session goes on once the file was looked at: not without its size, nor if it cannot
/// be opened. Gives the answer in that case.
pub fn check_file(size: Option<u64>, opened: bool) -> (checked: Result<u64, u8>)
    ensures
        checked == (match size {
            None => Err::<u64, u8>(44),
            Some(n) => if opened {
                Ok(n)
            } else {
                Err(50)
            },
        }),
{
    match size {
        None => Err(ErrorTransfer::NotFound.get_code()),
        Some(n) => if opened {
            Ok(n)
        } else {
            Err(ErrorTransfer::InternalServerError.get_code())
        },
    }
}

/// The message with the file's name, behind its length; a name too long for that is refused.
pub fn name_message(file_name: &str) -> (message: Result<Vec<u8>, u8>)
    ensures
        match message {
            Ok(m) => encode_utf8(file_name@).len() <= u16::MAX && m@ == be_bytes(
                encode_utf8(file_name@).len(),
                2,
            ) + encode_utf8(file_name@),
            Err(code) => encode_utf8(file_name@).len() > u16::MAX && code == 40,
        },
{
    let bytes: &[u8] = file_name.as_bytes();
    if bytes.len() > 65535 {
        return Err(ErrorTransfer::InvalidLength.get_code());
    }
    let mut message: Vec<u8> = Vec::new();
    push_be(&mut message, bytes.len() as u64, 2);
    push_all(&mut message, bytes);
    assert(message@ =~= be_bytes(bytes@.len(), 2) + bytes@);
    Ok(message)
}

/// How far a guest's session has come.
#[derive(Clone, Copy, Debug, PartialEq, Eq, Structural)]
pub enum GuestPhase {
    /// The file's name is being sent.
    Naming,
    /// The guest's go-ahead is awaited.
    AwaitReady,
    /// The number of chunks is being sent.
    Sizing,
    /// The guest's confirmation is awaited.
    AwaitConfirm,
    /// The guest asks for chunks.
    Serving,
    Closed,
}

/// What happened on the connection.
#[derive(Clone, Copy, Debug, PartialEq, Eq, Structural)]
pub enum GuestEvent {
    /// What was to be sent was sent.
    Written,
    WriteFailed(IoFailure),
    /// The first byte of what was read.
    Byte(u8),
    /// The guest closed the connection.
    NoByte,
    ReadFailed(IoFailure),
    /// A chunk could not be read from the file.
    ChunkFailed,
}

/// What to do next.
#[derive(Clone, Copy, Debug, PartialEq, Eq, Structural)]
pub enum GuestAction {
    /// Read from the guest.
    Read,
    /// Send the number of chunks.
    SendSize,
    /// Read the number of a chunk, and send that chunk.
    ServeChunk,
    /// Close the connection; the file stays locked.
    Close,
    /// Send this code, and close the connection; the file stays locked.
    CloseWith(u8),
    /// Free the file's lock, and close the connection.
    Finish,
}

/// What to do on a failed connection: a broken one is closed, any other failure is reported.
pub open spec fn on_failure(e: IoFailure) -> GuestAction {
    if e is WouldBlock || e is TimedOut || e is Other {
        GuestAction::CloseWith(50)
    } else {
        GuestAction::Close
    }
}

/// The next phase of a session, and what to do.
pub open spec fn guest_next(phase: GuestPhase, event: GuestEvent) -> (GuestPhase, GuestAction) {
    match (phase, event) {
        (GuestPhase::Naming, GuestEvent::Written) => (GuestPhase::AwaitReady, GuestAction::Read),
        (GuestPhase::AwaitReady, GuestEvent::Byte(b)) => if b == 20 {
            (GuestPhase::Sizing, GuestAction::SendSize)
        } else {
            (GuestPhase::Closed, GuestAction::Close)
        },
        (GuestPhase::Sizing, GuestEvent::Written) => (GuestPhase::AwaitConfirm, GuestAction::Read),
        (GuestPhase::AwaitConfirm, GuestEvent::Byte(b)) => if b == 20 {
            (GuestPhase::Serving, GuestAction::Read)
        } else {
            (GuestPhase::Closed, GuestAction::Close)
        },
        (GuestPhase::Serving, GuestEvent::Byte(b)) => if b == 18 {
            (GuestPhase::Serving, GuestAction::ServeChunk)
        } else {
            (GuestPhase::Closed, GuestAction::Finish)
        },
        (GuestPhase::Serving, GuestEvent::Written) => (GuestPhase::Serving, GuestAction::Read),
        (GuestPhase::Serving, GuestEvent::ChunkFailed) => (
            GuestPhase::Closed,
            GuestAction::CloseWith(50),
        ),
        (GuestPhase::Serving, GuestEvent::WriteFailed(_)) => (
            GuestPhase::Closed,
            GuestAction::CloseWith(10),
        ),
        (GuestPhase::Serving, _) => (GuestPhase::Closed, GuestAction::Close),
        (GuestPhase::Closed, _) => (GuestPhase::Closed, GuestAction::Close),
        (_, GuestEvent::WriteFailed(e)) => (GuestPhase::Closed, on_failure(e)),
        (_, GuestEvent::ReadFailed(e)) => (GuestPhase::Closed, on_failure(e)),
        _ => (GuestPhase::Closed, GuestAction::Close),
    }
}

fn failure_action(e: IoFailure) -> (action: GuestAction)
    ensures
        action == on_failure(e),
{
    if is_connection_broken(&e) {
        GuestAction::Close
    } else {
        GuestAction::CloseWith(ErrorTransfer::InternalServerError.get_code())
    }
}

impl GuestPhase {
    /// Takes in what happened, and says what to do.
    pub fn step(&mut self, event: GuestEvent) -> (action: GuestAction)
        ensures
            (*final(self), action) == guest_next(*old(self), event),
    {
        let (phase, action): (GuestPhase, GuestAction) = match *self {
            GuestPhase::Naming => match event {
                GuestEvent::Written => (GuestPhase::AwaitReady, GuestAction::Read),
                GuestEvent::WriteFailed(e) => (GuestPhase::Closed, failure_action(e)),
                GuestEvent::ReadFailed(e) => (GuestPhase::Closed, failure_action(e)),
                _ => (GuestPhase::Closed, GuestAction::Close),
            },
            GuestPhase::AwaitReady => match event {
                GuestEvent::Byte(20) => (GuestPhase::Sizing, GuestAction::SendSize),
                GuestEvent::WriteFailed(e) => (GuestPhase::Closed, failure_action(e)),
                GuestEvent::ReadFailed(e) => (GuestPhase::Closed, failure_action(e)),
                _ => (GuestPhase::Closed, GuestAction::Close),
            },
            GuestPhase::Sizing => match event {
                GuestEvent::Written => (GuestPhase::AwaitConfirm, GuestAction::Read),
                GuestEvent::WriteFailed(e) => (GuestPhase::Closed, failure_action(e)),
                GuestEvent::ReadFailed(e) => (GuestPhase::Closed, failure_action(e)),
                _ => (GuestPhase::Closed, GuestAction::Close),
            },
            GuestPhase::AwaitConfirm => match event {
                GuestEvent::Byte(20) => (GuestPhase::Serving, GuestAction::Read),
                GuestEvent::WriteFailed(e) => (GuestPhase::Closed, failure_action(e)),
                GuestEvent::ReadFailed(e) => (GuestPhase::Closed, failure_action(e)),
                _ => (GuestPhase::Closed, GuestAction::Close),
            },
            GuestPhase::Serving => match event {
                GuestEvent::Byte(18) => (GuestPhase::Serving, GuestAction::ServeChunk),
                GuestEvent::Byte(_) => (GuestPhase::Closed, GuestAction::Finish),
                GuestEvent::Written => (GuestPhase::Serving, GuestAction::Read),
                GuestEvent::ChunkFailed => (
                    GuestPhase::Closed,
                    GuestAction::CloseWith(ErrorTransfer::InternalServerError.get_code()),
                ),
                GuestEvent::WriteFailed(_) => (
                    GuestPhase::Closed,
                    GuestAction::CloseWith(ErrorTransfer::Closed.get_code()),
                ),
                _ => (GuestPhase::Closed, GuestAction::Close),
            },
            GuestPhase::Closed => (GuestPhase::Closed, GuestAction::Close),
        };
        *self = phase;
        action
    }
}

/// The message with the number of chunks.
pub fn size_message(chunks_len: u64) -> (message: Vec<u8>)
    ensures
        message@ == seq![20u8] + be_bytes(chunks_len as nat, 8),
{
    let mut message: Vec<u8> = Vec::new();
    message.push(20);
    push_u64(&mut message, chunks_len);
    message
}

/// Where a chunk that a guest asks for begins, and how many bytes are sent for it: a whole chunk,
/// also where the file ends in it, and none behind the last one.
pub fn guest_span(chunk_id: u64, chunks_len: u64) -> (span: (u64, usize))
    requires
        chunks_len * PAYLOAD <= u64::MAX,
        chunk_id <= chunks_len,
    ensures
        span.0 == chunk_start(chunk_id as nat),
        span.1 == (if chunk_id < chunks_len {
            PAYLOAD as int
        } else {
            0
        }),
{
    assert(chunk_id * PAYLOAD <= chunks_len * PAYLOAD) by (nonlinear_arith)
        requires
            chunk_id <= chunks_len,
    ;
    let remaining: u64 = chunks_len * PAYLOAD - PAYLOAD * chunk_id;
    assert(chunk_id < chunks_len ==> remaining >= PAYLOAD);
    let size: u64 = if remaining < PAYLOAD {
        remaining
    } else {
        PAYLOAD
    };
    (PAYLOAD * chunk_id, size as usize)
}

/// A chunk as a guest gets it: its type, its number, its length in two bytes, its bytes.
pub open spec fn guest_frame(chunk_id: u64, bytes: Seq<u8>) -> Seq<u8> {
    seq![2u8] + be_bytes(chunk_id as nat, 8) + be_bytes(bytes.len(), 2) + bytes
}

/// Frames the bytes of a chunk for a guest.
pub fn request_chunk(chunk_id: u64, bytes: &[u8]) -> (frame: Vec<u8>)
    ensures
        frame@ == guest_frame(chunk_id, bytes@),
{
    let mut frame: Vec<u8> = Vec::new();
    frame.push(2);
    push_u64(&mut frame, chunk_id);
    push_be(&mut frame, bytes.len() as u64, 2);
    push_all(&mut frame, bytes);
    assert(frame@ =~= guest_frame(chunk_id, bytes@));
    frame
}

/// Frees the lock of a file that a guest has read.
pub fn finish_guest(file_uuid: &Uuid, map_store: &mut MapStore) -> (result: Result<
    (),
    ErrorTransfer,
>)
    ensures
        match old(map_store)@.file(*file_uuid) {
            Some(f) => result is Ok && final(map_store)@ == old(map_store)@.file_replaced(
                *file_uuid,
                unlocked(f),
            ),
            None => result == Err::<(), ErrorTransfer>(ErrorTransfer::NotFound) && final(
                map_store)@ == old(map_store)@,
        },
{
    match with_file_mut_unchecked(file_uuid, map_store) {
        Ok(fil) => {
            fil.unlock();
            Ok(())
        },
        Err(e) => Err(e),
    }
}

/// A session that is over stays so, and the lock is freed only for a guest who has been served and
/// ends the session.
pub proof fn only_served_guests_free_the_lock(phase: GuestPhase, event: GuestEvent)
    ensures
        guest_next(GuestPhase::Closed, event) == (GuestPhase::Closed, GuestAction::Close),
        guest_next(phase, event).1 is Finish ==> phase is Serving && event is Byte,
        guest_next(phase, event).1 is ServeChunk ==> phase is Serving,
{
}

/// A guest gets the path of the file that the link leads to, whoever may view it, unless the file
/// is gone or is being read; then its lock is taken, and nothing else in the tree changes.
pub proof fn guests_take_the_lock_alone(tree: FolderView, file: Uuid)
    ensures
        match tree.file(file) {
            None => guest_opened(tree, file) == (
                Err::<Seq<char>, ErrorTransfer>(ErrorTransfer::NotFound),
                tree,
            ),
            Some(f) => {
                let (path, after) = guest_opened(tree, file);
                &&& path == (if f.is_locked {
                    Err::<Seq<char>, ErrorTransfer>(ErrorTransfer::Locked)
                } else {
                    Ok(f.path)
                })
                &&& after.file(file) matches Some(g) && g.is_locked && same_but_lock(f, g)
                    && bag(after) =~= bag(tree).remove(f).insert(g)
            },
        },
{
    match tree.file(file) {
        None => {},
        Some(f) => {
            found_files_are_listed(tree, file);
            replaced_file_is_found(tree, file, locked(f));
            replacing_changes_one_file(tree, file, locked(f));
        },
    }
}

/// A guest who answers as expected is sent the file's name, then its size, then as many chunks as
/// asked for, and ends the session by any other request. Before that, anything but readiness ends
/// it, unserved.
pub proof fn guests_are_served_step_by_step(b: u8)
    ensures
        guest_next(GuestPhase::Naming, GuestEvent::Written) == (
            GuestPhase::AwaitReady,
            GuestAction::Read,
        ),
        guest_next(GuestPhase::AwaitReady, GuestEvent::Byte(b)) == (if b == 20 {
            (GuestPhase::Sizing, GuestAction::SendSize)
        } else {
            (GuestPhase::Closed, GuestAction::Close)
        }),
        guest_next(GuestPhase::Sizing, GuestEvent::Written) == (
            GuestPhase::AwaitConfirm,
            GuestAction::Read,
        ),
        guest_next(GuestPhase::AwaitConfirm, GuestEvent::Byte(b)) == (if b == 20 {
            (GuestPhase::Serving, GuestAction::Read)
        } else {
            (GuestPhase::Closed, GuestAction::Close)
        }),
        guest_next(GuestPhase::Serving, GuestEvent::Byte(b)) == (if b == 18 {
            (GuestPhase::Serving, GuestAction::ServeChunk)
        } else {
            (GuestPhase::Closed, GuestAction::Finish)
        }),
        guest_next(GuestPhase::Serving, GuestEvent::Written) == (
            GuestPhase::Serving,
            GuestAction::Read,
        ),
        guest_next(GuestPhase::Serving, GuestEvent::ChunkFailed) == (
            GuestPhase::Closed,
            GuestAction::CloseWith(50),
        ),
{
}

/// A failed connection ends a session; the guest is told of it only where the connection may still
/// be of use.
pub proof fn failures_end_the_session(phase: GuestPhase, e: IoFailure)
    ensures
        guest_next(phase, GuestEvent::ReadFailed(e)).0 is Closed,
        guest_next(phase, GuestEvent::WriteFailed(e)).0 is Closed,
        guest_next(GuestPhase::AwaitReady, GuestEvent::ReadFailed(e)).1 == (if e is WouldBlock
            || e is TimedOut || e is Other {
            GuestAction::CloseWith(50)
        } else {
            GuestAction::Close
        }),
        guest_next(GuestPhase::Naming, GuestEvent::WriteFailed(e)).1 == guest_next(
            GuestPhase::AwaitReady,
            GuestEvent::ReadFailed(e),
        ).1,
{
}

} // verus!
