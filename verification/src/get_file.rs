//! The server's sending side: opening a file for a user, the rounds in which its chunks go out,
//! and how the transfer ends.

use vstd::prelude::*;

use crate::delete_file::locked;
use crate::digest::{final_byte, HashVerdict};
use crate::ids::{uuid_of, Uuid};
use crate::map_laws::{
    bag, found_files_are_listed, replaced_file_is_found, replacing_changes_one_file,
};
use crate::map_store::{with_file_mut, MapStore};
use crate::mapper::{FilView, FolderView};
use crate::response::{Code, ErrorTransfer};
pub use crate::sender::get_chunks_len;
use crate::sender::{all_chunks, chunks_of, numbers_below, ChunkQueue, QueueView};
use crate::wire::{be_bytes, push_u64, CHUNK_SIZE};

verus! {

/// A request for a file.
#[derive(Clone, Copy, Debug)]
pub struct Query {
    pub file_uuid: Uuid,
}

/// What a user gets who asks to read a file, and the tree afterwards: the file's path, with its
/// lock taken, or the refusal.
pub open spec fn opened(before: FolderView, file: Uuid, client: Uuid) -> (
    Result<Seq<char>, ErrorTransfer>,
    FolderView,
) {
    match before.file(file) {
        None => (Err(ErrorTransfer::NotFound), before),
        Some(f) => if !f.access.can_view(client) {
            (Err(ErrorTransfer::Forbidden), before)
        } else if f.is_locked {
            (Err(ErrorTransfer::Locked), before.file_replaced(file, locked(f)))
        } else {
            (Ok(f.path), before.file_replaced(file, locked(f)))
        },
    }
}

impl Query {
    /// Reads a request; `None` where it is too short.
    pub fn from_bytes(bytes: &[u8]) -> (query: Option<Query>)
        ensures
            match query {
                Some(q) => bytes@.len() >= 16 && q.file_uuid == uuid_of(bytes@.subrange(0, 16)),
                None => bytes@.len() < 16,
            },
    {
        if bytes.len() < 16 {
            return None;
        }
        Some(Query { file_uuid: Uuid::read(bytes, 0) })
    }

    /// The path of the file, whose lock is taken.
    pub fn get_path(&self, map: &mut MapStore, client_uuid: &Uuid) -> (path: Result<
        String,
        ErrorTransfer,
    >)
        ensures
            final(map)@ == opened(old(map)@, self.file_uuid, *client_uuid).1,
            match path {
                Ok(p) => opened(old(map)@, self.file_uuid, *client_uuid).0 == Ok::<
                    Seq<char>,
                    ErrorTransfer,
                >(p@),
                Err(e) => opened(old(map)@, self.file_uuid, *client_uuid).0 == Err::<
                    Seq<char>,
                    ErrorTransfer,
                >(e),
            },
    {
        match with_file_mut(&self.file_uuid, map, client_uuid) {
            Err(e) => Err(e),
            Ok(fil) => {
                if fil.lock() {
                    Ok(fil.path.clone())
                } else {
                    Err(ErrorTransfer::Locked)
                }
            },
        }
    }
}

/// Opens the file that `first_message` asks for: its identifier and path, or the answer that
/// refuses it.
pub fn begin_send(
    first_message: &[u8; CHUNK_SIZE],
    offset: usize,
    map_store: &mut MapStore,
    client_uuid: &Uuid,
) -> (begun: Result<(Uuid, String), u8>)
    requires
        offset <= CHUNK_SIZE,
    ensures
        if CHUNK_SIZE - offset < 16 {
            begun == Err::<(Uuid, String), u8>(48) && final(map_store)@ == old(map_store)@
        } else {
            let file = uuid_of(first_message@.subrange(offset as int, offset + 16));
            let (path, after) = opened(old(map_store)@, file, *client_uuid);
            &&& final(map_store)@ == after
            &&& match path {
                Ok(p) => begun is Ok && begun->Ok_0.0 == file && begun->Ok_0.1@ == p,
                Err(e) => begun == Err::<(Uuid, String), u8>(e.code()),
            }
        },
{
    let body: &[u8] = vstd::slice::slice_subrange(first_message.as_slice(), offset, CHUNK_SIZE);
    match Query::from_bytes(body) {
        None => Err(48),
        Some(query) => {
            assert(body@.subrange(0, 16) =~= first_message@.subrange(offset as int, offset + 16));
            match query.get_path(map_store, client_uuid) {
                Ok(path) => Ok((query.file_uuid, path)),
                Err(e) => Err(e.get_code()),
            }
        },
    }
}

/// The answer to a request for a file of this size, if its size could be learnt.
pub fn greeting(file_size: Option<u64>) -> (reply: Vec<u8>)
    ensures
        reply@ == (match file_size {
            Some(size) => seq![20u8] + be_bytes(chunks_of(size as nat), 8),
            None => seq![50u8],
        }),
{
    let mut reply: Vec<u8> = Vec::new();
    match file_size {
        Some(size) => {
            reply.push(20);
            push_u64(&mut reply, get_chunks_len(size));
        },
        None => {
            reply.push(ErrorTransfer::InternalServerError.get_code());
        },
    }
    reply
}

/// What the receiver said is missing.
#[derive(Debug)]
pub enum MissingReply {
    /// It could not be learnt.
    Failed,
    Nothing,
    Ids(Vec<u64>),
}

/// The chunks that a transfer begins with; `None` where it cannot begin. A fresh transfer begins
/// with all chunks, a resumed one with those that the receiver lacks.
pub fn initial_chunks(chunks_len: u64, resumed: Option<MissingReply>) -> (chunks: Option<Vec<u64>>)
    ensures
        match resumed {
            None => chunks is Some && chunks->0@ == numbers_below(chunks_len as nat),
            Some(MissingReply::Failed) => chunks is None,
            Some(MissingReply::Nothing) => chunks is Some && chunks->0@.len() == 0,
            Some(MissingReply::Ids(ids)) => chunks == Some(ids),
        },
{
    match resumed {
        None => Some(all_chunks(chunks_len)),
        Some(MissingReply::Failed) => None,
        Some(MissingReply::Nothing) => Some(Vec::new()),
        Some(MissingReply::Ids(ids)) => Some(ids),
    }
}

/// What a sender does next.
#[derive(Clone, Copy, Debug, PartialEq, Eq, Structural)]
pub enum SendStep {
    /// Send what waits, with so many workers.
    Round(u64),
    /// Ask for the receiver's digest.
    HashCheck,
    GiveUp,
}

/// A server gives up once it has run more rounds than these.
pub const ATTEMPT_LIMIT: u32 = 5;

/// A server's transfer of one file.
pub struct SendSession {
    pub queue: ChunkQueue,
    pub attempts: u32,
}

/// How many workers a round has.
pub open spec fn round_workers(max_workers: nat, waiting: nat) -> nat {
    if max_workers < waiting {
        max_workers
    } else {
        waiting
    }
}

fn count_workers(max_workers: usize, waiting: usize) -> (n: u64)
    ensures
        n == round_workers(max_workers as nat, waiting as nat),
{
    if max_workers < waiting {
        max_workers as u64
    } else {
        waiting as u64
    }
}

impl SendSession {
    /// Begins a transfer with `initial`. Where nothing is to be sent, the digest is asked for at
    /// once.
    pub fn begin(initial: Vec<u64>, max_workers: usize) -> (begun: (SendSession, SendStep))
        ensures
            begun.0.queue@ == (QueueView {
                queue: initial@,
                in_flight: Map::empty(),
                aborted: false,
            }),
            if initial@.len() == 0 {
                begun.1 == SendStep::HashCheck && begun.0.attempts == 0
            } else {
                begun.1 == SendStep::Round(
                    round_workers(max_workers as nat, initial@.len()) as u64,
                ) && begun.0.attempts == 1
            },
    {
        let n: usize = initial.len();
        if n == 0 {
            (SendSession { queue: ChunkQueue::new(initial), attempts: 0 }, SendStep::HashCheck)
        } else {
            (
                SendSession { queue: ChunkQueue::new(initial), attempts: 1 },
                SendStep::Round(count_workers(max_workers, n)),
            )
        }
    }

    /// A round is over, and this is what the receiver still lacks.
    pub fn round_done(&mut self, reply: MissingReply, max_workers: usize) -> (step: SendStep)
        requires
            old(self).attempts <= ATTEMPT_LIMIT + 1,
        ensures
            final(self).attempts <= ATTEMPT_LIMIT + 1,
            match reply {
                MissingReply::Failed => step == SendStep::GiveUp && *final(self) == *old(self),
                MissingReply::Nothing => step == SendStep::HashCheck && *final(self) == *old(self),
                MissingReply::Ids(ids) => if old(self).attempts > ATTEMPT_LIMIT {
                    step == SendStep::GiveUp && *final(self) == *old(self)
                } else {
                    &&& final(self).attempts == old(self).attempts + 1
                    &&& final(self).queue@ == (QueueView {
                        queue: old(self).queue@.queue + ids@,
                        ..old(self).queue@
                    })
                    &&& step == SendStep::Round(
                        round_workers(
                            max_workers as nat,
                            old(self).queue@.queue.len() + ids@.len(),
                        ) as u64,
                    )
                },
            },
    {
        match reply {
            MissingReply::Failed => SendStep::GiveUp,
            MissingReply::Nothing => SendStep::HashCheck,
            MissingReply::Ids(ids) => {
                if self.attempts > ATTEMPT_LIMIT {
                    return SendStep::GiveUp;
                }
                let mut missing: Vec<u64> = ids;
                self.queue.queue.append(&mut missing);
                self.attempts = self.attempts + 1;
                SendStep::Round(count_workers(max_workers, self.queue.queue.len()))
            },
        }
    }
}

/// A file with its lock free.
pub open spec fn unlocked(f: FilView) -> FilView {
    FilView { is_locked: false, ..f }
}

/// Ends a transfer on the sender's judgement of the receiver's digest. Where there was a digest,
/// the file's lock is freed, and the byte to send is given; where there was none, the file stays
/// locked.
pub fn finish_send(
    map_store: &mut MapStore,
    file_uuid: &Uuid,
    client_uuid: &Uuid,
    verdict: HashVerdict,
) -> (byte: Option<u8>)
    ensures
        byte == (match verdict {
            HashVerdict::NoDigest => None,
            HashVerdict::Same => Some(20u8),
            HashVerdict::Different => Some(44u8),
        }),
        final(map_store)@ == (match old(map_store)@.file(*file_uuid) {
            Some(f) => if verdict != HashVerdict::NoDigest && f.access.can_view(*client_uuid) {
                old(map_store)@.file_replaced(*file_uuid, unlocked(f))
            } else {
                old(map_store)@
            },
            None => old(map_store)@,
        }),
{
    let byte: Option<u8> = final_byte(verdict);
    if verdict != HashVerdict::NoDigest {
        match with_file_mut(file_uuid, map_store, client_uuid) {
            Ok(fil) => {
                fil.unlock();
            },
            Err(_) => {},
        }
    }
    byte
}

/// A file that is being read is refused to everybody else until its lock is freed.
pub proof fn locked_files_are_refused(tree: FolderView, file: Uuid, reader: Uuid, other: Uuid)
    requires
        opened(tree, file, reader).0 is Ok,
    ensures
        opened(opened(tree, file, reader).1, file, other).0 is Err,
{
    let f = tree.file(file)->0;
    found_files_are_listed(tree, file);
    replaced_file_is_found(tree, file, locked(f));
}

/// Once the lock is freed, whoever may view the file can open it.
pub proof fn unlocked_files_can_be_opened(tree: FolderView, file: Uuid, other: Uuid)
    requires
        tree.file(file) is Some,
        tree.file(file)->0.access.can_view(other),
    ensures
        opened(tree.file_replaced(file, unlocked(tree.file(file)->0)), file, other).0 == Ok::<
            Seq<char>,
            ErrorTransfer,
        >(tree.file(file)->0.path),
{
    let f = tree.file(file)->0;
    found_files_are_listed(tree, file);
    replaced_file_is_found(tree, file, unlocked(f));
}

/// Whether two states of a file differ in the lock at most.
pub open spec fn same_but_lock(a: FilView, b: FilView) -> bool {
    &&& b.uuid == a.uuid
    &&& b.name == a.name
    &&& b.path == a.path
    &&& b.last_changed_at == a.last_changed_at
    &&& b.access == a.access
}

/// Taking a lock and freeing it change the lock alone.
pub proof fn locks_change_nothing_else(f: FilView)
    ensures
        same_but_lock(f, locked(f)) && locked(f).is_locked,
        same_but_lock(f, unlocked(f)) && !unlocked(f).is_locked,
{
}

/// Who may view a file that nobody reads gets its path, and holds its lock from then on; nothing
/// else in the tree changes. Everybody else is told why not.
pub proof fn opening_takes_the_lock_alone(tree: FolderView, file: Uuid, client: Uuid)
    ensures
        match tree.file(file) {
            None => opened(tree, file, client) == (
                Err::<Seq<char>, ErrorTransfer>(ErrorTransfer::NotFound),
                tree,
            ),
            Some(f) => if !f.access.can_view(client) {
                opened(tree, file, client) == (
                    Err::<Seq<char>, ErrorTransfer>(ErrorTransfer::Forbidden),
                    tree,
                )
            } else {
                let (path, after) = opened(tree, file, client);
                &&& path == (if f.is_locked {
                    Err::<Seq<char>, ErrorTransfer>(ErrorTransfer::Locked)
                } else {
                    Ok(f.path)
                })
                &&& after.file(file) matches Some(g) && g.is_locked && same_but_lock(f, g)
                    && bag(after) =~= bag(tree).remove(f).insert(g)
            },
        },
{
    match tree.file(file) {
        None => {},
        Some(f) => {
            found_files_are_listed(tree, file);
            replaced_file_is_found(tree, file, locked(f));
            replacing_changes_one_file(tree, file, locked(f));
        },
    }
}

/// A round has as many workers as may be, but no more than there are chunks to send.
pub proof fn rounds_have_workers_for_their_chunks(max_workers: nat, waiting: nat)
    ensures
        round_workers(max_workers, waiting) <= max_workers,
        round_workers(max_workers, waiting) <= waiting,
        round_workers(max_workers, waiting) == max_workers || round_workers(max_workers, waiting)
            == waiting,
{
}

} // verus!
