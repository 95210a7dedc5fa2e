//! The server of the compact protocol: how a transfer begins, and its bookkeeping.

use vstd::prelude::*;
use vstd::string::StringExecFns;

use crate::compact::receiver::{
    answer_on, build_complete, build_missing, chunks_after, missing_answer, not_found,
    short_answer, store_chunk, stream_next, stream_reply, take_job, takes, too_fast, StreamEvent,
    StreamNext, WorkerJob,
};
use crate::compact::request::{request_of, Request, RequestType};
use crate::compact::response::{
    begin_answer, feedback_of, filled, send_feedback, ErrorTransfer,
};
use crate::compact::size::{decode_size, size_value, COMPACT_PAYLOAD};
use crate::ids::{swap_fields, uuid_of, Uuid};
use crate::response::{Code, TransferSuccess};
use crate::text::{readable, readable_text};
use crate::wire::CHUNK_SIZE;

verus! {

/// A file that is being received.
#[derive(Debug)]
pub struct TransferedFile {
    pub uuid: Uuid,
    pub file_size_chunks: u64,
    pub path: String,
}

/// The path at which the file of a request is stored.
pub open spec fn storage_path(contents: Seq<u8>) -> Seq<char> {
    "./storage/"@ + readable(contents.subrange(24, 24 + contents[23] as int))
}

/// Number of chunks of a file of this size.
pub open spec fn compact_chunks(size: nat) -> nat {
    (size + COMPACT_PAYLOAD as nat - 1) as nat / COMPACT_PAYLOAD as nat
}

/// The path at which the file that `data` announces is stored, if it announces one.
pub fn announced_path(data: &[u8; CHUNK_SIZE]) -> (path: Option<String>)
    ensures
        match path {
            Some(p) => data@[0] == 1 && p@ == storage_path(data@.skip(1)),
            None => data@[0] != 1,
        },
{
    if data[0] != 1 {
        return None;
    }
    let end: usize = 25 + data[24] as usize;
    let name: String = readable_text(
        vstd::slice::slice_subrange(data.as_slice(), 25, end),
    );
    proof {
        let contents = data@.skip(1);
        assert(contents[23] == data@[24]);
        assert(contents.subrange(24, 24 + contents[23] as int) =~= data@.subrange(25, end as int));
    }
    let mut path: String = "./storage/".to_owned();
    path.append(name.as_str());
    Some(path)
}

/// Opens the transfer that a request asks for. `exists` says whether there is a file at its path
/// already, `created` whether one could be created.
pub fn init_transfer(contents: &Vec<u8>, exists: bool, created: bool) -> (opened: Result<
    TransferedFile,
    ErrorTransfer,
>)
    requires
        contents@.len() >= 24,
        contents@.len() >= 24 + contents@[23],
    ensures
        match opened {
            Ok(t) => !exists && created && t.uuid == uuid_of(
                swap_fields(contents@.subrange(0, 16)),
            ) && t.path@ == storage_path(contents@) && t.file_size_chunks == compact_chunks(
                size_value(contents@.subrange(16, 23)),
            ),
            Err(e) => if exists {
                e == ErrorTransfer::ThisFileExists
            } else {
                !created && e == ErrorTransfer::InternalServerError
            },
        },
{
    let bytes: &[u8] = contents.as_slice();
    let uuid: Uuid = Uuid::read_le(bytes, 0);
    let end: usize = 24 + bytes[23] as usize;
    let name: String = readable_text(vstd::slice::slice_subrange(bytes, 24, end));
    let mut path: String = "./storage/".to_owned();
    path.append(name.as_str());
    if exists {
        return Err(ErrorTransfer::ThisFileExists);
    }
    if !created {
        return Err(ErrorTransfer::InternalServerError);
    }
    match decode_size(vstd::slice::slice_subrange(bytes, 16, 23)) {
        Err(e) => Err(e),
        Ok(size) => {
            let whole: u64 = size / COMPACT_PAYLOAD;
            let chunks: u64 = if size % COMPACT_PAYLOAD == 0 {
                whole
            } else {
                whole + 1
            };
            Ok(TransferedFile { uuid, file_size_chunks: chunks, path })
        },
    }
}

/// Begins a transfer, where the request asks for one.
pub fn handle_init(req: &Request, exists: bool, created: bool) -> (opened: Result<
    TransferedFile,
    ErrorTransfer,
>)
    requires
        req.request_type == RequestType::Init ==> req.contents@.len() >= 24 && req.contents@.len()
            >= 24 + req.contents@[23],
    ensures
        if req.request_type != RequestType::Init {
            opened == Err::<TransferedFile, ErrorTransfer>(ErrorTransfer::NotInitialized)
        } else {
            match opened {
                Ok(t) => !exists && created && t.uuid == uuid_of(
                    swap_fields(req.contents@.subrange(0, 16)),
                ) && t.path@ == storage_path(req.contents@) && t.file_size_chunks
                    == compact_chunks(size_value(req.contents@.subrange(16, 23))),
                Err(e) => if exists {
                    e == ErrorTransfer::ThisFileExists
                } else {
                    !created && e == ErrorTransfer::InternalServerError
                },
            }
        },
{
    if req.request_type == RequestType::Init {
        init_transfer(&req.contents, exists, created)
    } else {
        Err(ErrorTransfer::NotInitialized)
    }
}

/// What the server does with a message before a transfer has begun.
pub enum Greeting {
    /// Sends this and ends.
    Refuse([u8; 128]),
    /// Sends this and reads the next message.
    Retry([u8; 128]),
    /// Sends this and begins.
    Begin(TransferedFile, [u8; 32]),
}

/// Takes in a message before a transfer has begun.
pub fn greet(data: &[u8; CHUNK_SIZE], exists: bool, created: bool) -> (greeting: Greeting)
    ensures
        match greeting {
            Greeting::Refuse(a) => request_of(data@[0]) == RequestType::Unknown && a@ == filled(
                feedback_of(Err::<TransferSuccess, ErrorTransfer>(ErrorTransfer::NotFound)),
                128,
            ),
            Greeting::Retry(a) => request_of(data@[0]) != RequestType::Unknown && if request_of(
                data@[0],
            ) != RequestType::Init {
                a@ == filled(
                    feedback_of(
                        Err::<TransferSuccess, ErrorTransfer>(ErrorTransfer::NotInitialized),
                    ),
                    128,
                )
            } else if exists {
                a@ == filled(
                    feedback_of(
                        Err::<TransferSuccess, ErrorTransfer>(ErrorTransfer::ThisFileExists),
                    ),
                    128,
                )
            } else {
                !created && a@ == filled(
                    feedback_of(
                        Err::<TransferSuccess, ErrorTransfer>(
                            ErrorTransfer::InternalServerError,
                        ),
                    ),
                    128,
                )
            },
            Greeting::Begin(t, a) => {
                let contents = data@.skip(1);
                &&& request_of(data@[0]) == RequestType::Init && !exists && created
                &&& t.uuid == uuid_of(swap_fields(contents.subrange(0, 16)))
                &&& t.path@ == storage_path(contents)
                &&& t.file_size_chunks == compact_chunks(size_value(contents.subrange(16, 23)))
                &&& a@ == filled(
                    feedback_of(Ok::<TransferSuccess, ErrorTransfer>(TransferSuccess::Success)),
                    32,
                )
            },
        },
{
    let req: Request = match Request::decipher(data) {
        Ok(r) => r,
        Err(e) => return Greeting::Refuse(send_feedback(Err(e))),
    };
    match handle_init(&req, exists, created) {
        Ok(file) => Greeting::Begin(file, begin_answer()),
        Err(e) => Greeting::Retry(send_feedback(Err(e))),
    }
}

/// An upload: its waiting chunks and answers, its workers, and the chunks that were written, each
/// time one was.
pub struct Transfer {
    pub chunks: Vec<[u8; CHUNK_SIZE]>,
    pub responses: Vec<[u8; 16]>,
    pub should_die: bool,
    pub max_workers: usize,
    pub dead_workers: usize,
    pub chunk_log: Vec<usize>,
}

/// The chunks below `n` that were never written, in ascending order.
pub open spec fn unwritten_below(log: Seq<usize>, n: nat) -> Seq<u64>
    decreases n,
{
    if n == 0 {
        Seq::empty()
    } else {
        let rest = unwritten_below(log, (n - 1) as nat);
        if log.contains((n - 1) as usize) {
            rest
        } else {
            rest.push((n - 1) as u64)
        }
    }
}

/// The answer to the question what is missing of an upload.
pub open spec fn upload_completion(log: Seq<usize>, chunks_number: nat) -> Seq<u8> {
    if log.len() == chunks_number {
        filled(seq![23u8], 9)
    } else {
        missing_answer(unwritten_below(log, chunks_number))
    }
}

fn logged(log: &Vec<usize>, id: usize) -> (yes: bool)
    ensures
        yes == log@.contains(id),
{
    let mut i: usize = 0;
    while i < log.len()
        invariant
            i <= log@.len(),
            forall|k: int| 0 <= k < i ==> log@[k] != id,
        decreases log@.len() - i,
    {
        if log[i] == id {
            return true;
        }
        i += 1;
    }
    false
}

impl Transfer {
    /// An upload of which nothing has arrived.
    pub fn new(max_workers: usize) -> (t: Self)
        ensures
            t.chunks@.len() == 0,
            t.responses@.len() == 0,
            !t.should_die,
            t.max_workers == max_workers,
            t.dead_workers == 0,
            t.chunk_log@.len() == 0,
    {
        Transfer {
            chunk_log: Vec::new(),
            chunks: Vec::new(),
            responses: Vec::new(),
            should_die: false,
            max_workers,
            dead_workers: 0,
        }
    }

    /// Takes in what came from the sender of a file of `chunks_number` chunks. Gives what is
    /// answered at once, and how reading goes on.
    pub fn stream_step(&mut self, event: StreamEvent, chunks_number: usize) -> (turn: (
        Option<Vec<u8>>,
        StreamNext,
    ))
        requires
            event matches StreamEvent::Chunk(_, body) ==> 11 + body@.len() <= CHUNK_SIZE,
        ensures
            turn.1 == stream_next(event),
            match stream_reply(
                old(self).chunks@.len(),
                event,
                upload_completion(old(self).chunk_log@, chunks_number as nat),
            ) {
                Some(r) => turn.0 is Some && turn.0->0@ == r,
                None => turn.0 is None,
            },
            chunks_after(old(self).chunks@, event, final(self).chunks@),
            final(self).should_die == (old(self).should_die || (event is Completion && old(
                self).chunk_log@.len() == chunks_number)),
            final(self).responses@ == old(self).responses@,
            final(self).chunk_log@ == old(self).chunk_log@,
            final(self).max_workers == old(self).max_workers,
            final(self).dead_workers == old(self).dead_workers,
    {
        match event {
            StreamEvent::Chunk(header, body) => {
                if store_chunk(&mut self.chunks, &header, body.as_slice()) {
                    (None, StreamNext::Drain)
                } else {
                    (Some(too_fast()), StreamNext::Drain)
                }
            },
            StreamEvent::Completion => {
                let message: Vec<u8> = self.completion(chunks_number);
                (Some(message), StreamNext::Drain)
            },
            StreamEvent::Unknown => (Some(not_found()), StreamNext::Drain),
            StreamEvent::CutOff => (None, StreamNext::Again),
            StreamEvent::Nothing => (None, StreamNext::Drain),
            StreamEvent::Failed => (None, StreamNext::Stop),
        }
    }

    /// Takes in whether chunk `id` could be written: notes it, and lets its answer wait.
    pub fn chunk_written(&mut self, id: usize, written: bool)
        ensures
            final(self).chunk_log@ == (if written {
                old(self).chunk_log@.push(id)
            } else {
                old(self).chunk_log@
            }),
            final(self).responses@.len() == old(self).responses@.len() + 1,
            final(self).responses@.drop_last() == old(self).responses@,
            final(self).responses@.last()@ == (if written {
                short_answer(20, Some(id as u64))
            } else {
                short_answer(50, None)
            }),
            final(self).chunks@ == old(self).chunks@,
            final(self).should_die == old(self).should_die,
            final(self).max_workers == old(self).max_workers,
            final(self).dead_workers == old(self).dead_workers,
    {
        let answer: [u8; 16] = answer_on(id as u64, written);
        self.responses.push(answer);
        assert(self.responses@.drop_last() =~= old(self).responses@);
        if written {
            self.chunk_log.push(id);
        }
    }

    /// Answers the question what is missing of a file of `chunks_number` chunks. Where chunks were
    /// written that many times, the workers are to end.
    pub fn completion(&mut self, chunks_number: usize) -> (message: Vec<u8>)
        ensures
            if old(self).chunk_log@.len() == chunks_number {
                message@ == filled(seq![23u8], 9) && final(self).should_die
            } else {
                message@ == missing_answer(
                    unwritten_below(old(self).chunk_log@, chunks_number as nat),
                ) && final(self).should_die == old(self).should_die
            },
            final(self).chunks@ == old(self).chunks@,
            final(self).responses@ == old(self).responses@,
            final(self).chunk_log@ == old(self).chunk_log@,
            final(self).max_workers == old(self).max_workers,
            final(self).dead_workers == old(self).dead_workers,
    {
        if self.chunk_log.len() == chunks_number {
            self.should_die = true;
            return build_complete();
        }
        let mut missing: Vec<u64> = Vec::new();
        let mut i: usize = 0;
        while i < chunks_number
            invariant
                i <= chunks_number,
                missing@ == unwritten_below(self.chunk_log@, i as nat),
            decreases chunks_number - i,
        {
            if !logged(&self.chunk_log, i) {
                missing.push(i as u64);
            }
            i += 1;
        }
        build_missing(&missing)
    }

    /// Takes the next job of a worker. One that ends is counted.
    pub fn worker_step(&mut self) -> (job: WorkerJob)
        requires
            old(self).dead_workers < usize::MAX,
        ensures
            takes(old(self).chunks@, old(self).should_die, job, final(self).chunks@),
            final(self).dead_workers == (if job is Die {
                (old(self).dead_workers + 1) as usize
            } else {
                old(self).dead_workers
            }),
            final(self).responses@ == old(self).responses@,
            final(self).chunk_log@ == old(self).chunk_log@,
            final(self).should_die == old(self).should_die,
            final(self).max_workers == old(self).max_workers,
    {
        let should_die: bool = self.should_die;
        let job: WorkerJob = take_job(&mut self.chunks, should_die);
        match job {
            WorkerJob::Die => {
                self.dead_workers = self.dead_workers + 1;
            },
            _ => {},
        }
        job
    }

    /// Takes the answer that is sent next, the last one first.
    pub fn next_response(&mut self) -> (answer: Option<[u8; 16]>)
        ensures
            match answer {
                Some(a) => old(self).responses@.len() > 0 && a == old(self).responses@.last()
                    && final(self).responses@ == old(self).responses@.drop_last(),
                None => old(self).responses@.len() == 0 && final(self).responses@ == old(
                    self).responses@,
            },
            final(self).chunks@ == old(self).chunks@,
            final(self).chunk_log@ == old(self).chunk_log@,
            final(self).should_die == old(self).should_die,
            final(self).max_workers == old(self).max_workers,
            final(self).dead_workers == old(self).dead_workers,
    {
        match self.responses.pop() {
            Some(a) => {
                assert(self.responses@ =~= old(self).responses@.drop_last());
                Some(a)
            },
            None => None,
        }
    }

    /// Whether all workers have ended, and the upload with them.
    pub fn finished(&self) -> (yes: bool)
        ensures
            yes == (self.dead_workers == self.max_workers),
    {
        self.dead_workers == self.max_workers
    }
}

} // verus!
