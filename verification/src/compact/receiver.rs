//! The receiving side of the compact protocol: chunks that wait to be written, and answers that
//! wait to be sent.

use std::collections::HashSet;

use vstd::prelude::*;

use crate::compact::response::filled;
use crate::compact::size::COMPACT_PAYLOAD;
use crate::credentials::{pad, padded};
use crate::file_transfer::id_bytes;
use crate::response::{Code, ErrorTransfer, TransferSuccess};
use crate::wire::{
    be_bytes, be_value, copy_range, push_all, push_u64, read_u16, read_u64, zeros, CHUNK_SIZE,
};

verus! {

broadcast use vstd::std_specs::hash::group_hash_axioms;

/// Chunks that may wait to be written.
pub const MAX_STORED: usize = 20;

/// A download: its waiting chunks and answers, its workers, and the chunks that were written.
pub struct Transfer {
    pub chunks: Vec<[u8; CHUNK_SIZE]>,
    pub responses: Vec<[u8; 16]>,
    pub should_die: bool,
    pub max_workers: usize,
    pub dead_workers: usize,
    pub chunk_log: HashSet<usize>,
}

/// What a worker does next.
pub enum WorkerJob {
    /// Write this chunk.
    Write([u8; CHUNK_SIZE]),
    /// Everything has arrived, and the worker ends.
    Die,
    /// Nothing waits yet.
    Sleep,
}

/// Whether a job is the one that a worker takes from these chunks, and what stays behind.
pub open spec fn takes(
    before: Seq<[u8; CHUNK_SIZE]>,
    should_die: bool,
    job: WorkerJob,
    after: Seq<[u8; CHUNK_SIZE]>,
) -> bool {
    if before.len() > 0 {
        job == WorkerJob::Write(before.last()) && after == before.drop_last()
    } else {
        after == before && job == (if should_die {
            WorkerJob::Die
        } else {
            WorkerJob::Sleep
        })
    }
}

/// Takes the next job of a worker; the last chunk goes first.
pub fn take_job(chunks: &mut Vec<[u8; CHUNK_SIZE]>, should_die: bool) -> (job: WorkerJob)
    ensures
        takes(old(chunks)@, should_die, job, final(chunks)@),
{
    match chunks.pop() {
        Some(c) => {
            assert(chunks@ =~= old(chunks)@.drop_last());
            WorkerJob::Write(c)
        },
        None => {
            assert(chunks@ =~= old(chunks)@);
            if should_die {
                WorkerJob::Die
            } else {
                WorkerJob::Sleep
            }
        },
    }
}

/// The number and the bytes of a stored chunk: its number, the length in two bytes, the bytes.
pub open spec fn stored_chunk(contents: Seq<u8>) -> (u64, Seq<u8>) {
    (
        be_value(contents.subrange(1, 9)) as u64,
        contents.subrange(11, 11 + be_value(contents.subrange(9, 11)) as int),
    )
}

/// Reads a stored chunk.
pub fn recieve_chunk(contents: &[u8; CHUNK_SIZE]) -> (chunk: (u64, Vec<u8>))
    requires
        11 + be_value(contents@.subrange(9, 11)) <= CHUNK_SIZE,
    ensures
        (chunk.0, chunk.1@) == stored_chunk(contents@),
{
    let bytes: &[u8] = contents.as_slice();
    let id: u64 = read_u64(bytes, 1);
    let size: u16 = read_u16(bytes, 9);
    (id, copy_range(bytes, 11, 11 + size as usize))
}

/// Where the bytes of a chunk are written.
pub fn chunk_location(id: u64) -> (location: u64)
    requires
        id * COMPACT_PAYLOAD <= u64::MAX,
    ensures
        location == id * COMPACT_PAYLOAD,
{
    id * COMPACT_PAYLOAD
}

/// The answer on a chunk: for a written one the code of success and its number in the last eight
/// bytes, otherwise the code alone.
pub open spec fn short_answer(code: u8, id: Option<u64>) -> Seq<u8> {
    match id {
        Some(n) => seq![code] + zeros(7) + be_bytes(n as nat, 8),
        None => seq![code] + zeros(15),
    }
}

/// Builds the answer on a chunk that was written, or could not be.
pub fn answer_on(id: u64, written: bool) -> (answer: [u8; 16])
    ensures
        answer@ == (if written {
            short_answer(20, Some(id))
        } else {
            short_answer(50, None)
        }),
{
    let mut answer: [u8; 16] = [0u8; 16];
    if !written {
        answer[0] = ErrorTransfer::InternalServerError.get_code();
        assert(answer@ =~= short_answer(50, None));
        return answer;
    }
    let mut bytes: Vec<u8> = Vec::new();
    push_u64(&mut bytes, id);
    proof {
        crate::wire::lemma_be_bytes_len(id as nat, 8);
    }
    answer[0] = TransferSuccess::Success.get_code();
    let mut i: usize = 0;
    while i < 8
        invariant
            i <= 8,
            bytes@.len() == 8,
            answer@.len() == 16,
            answer@[0] == 20,
            forall|k: int| 1 <= k < 8 ==> answer@[k] == 0,
            forall|k: int| 0 <= k < i ==> answer@[8 + k] == bytes@[k],
        decreases 8 - i,
    {
        answer[8 + i] = bytes[i];
        i += 1;
    }
    assert(answer@ =~= short_answer(20, Some(id)));
    answer
}

/// A chunk as it is stored: its type, its head and its bytes, filled up with zeros.
pub open spec fn stored(header: Seq<u8>, body: Seq<u8>) -> Seq<u8> {
    padded(seq![2u8] + header + body)
}

/// Stores a chunk, unless too many wait already. Answers whether it was stored.
pub fn store_chunk(chunks: &mut Vec<[u8; CHUNK_SIZE]>, header: &[u8; 10], body: &[u8]) -> (kept:
    bool)
    requires
        11 + body@.len() <= CHUNK_SIZE,
    ensures
        kept == (old(chunks)@.len() < MAX_STORED),
        if kept {
            final(chunks)@.len() == old(chunks)@.len() + 1 && final(chunks)@.drop_last() == old(
                chunks)@ && final(chunks)@.last()@ == stored(header@, body@)
        } else {
            final(chunks)@ == old(chunks)@
        },
{
    if chunks.len() >= MAX_STORED {
        return false;
    }
    let mut bytes: Vec<u8> = Vec::new();
    bytes.push(2);
    push_all(&mut bytes, header.as_slice());
    push_all(&mut bytes, body);
    assert(bytes@ =~= seq![2u8] + header@ + body@);
    let frame: [u8; CHUNK_SIZE] = pad(&bytes);
    chunks.push(frame);
    assert(chunks@.drop_last() =~= old(chunks)@);
    true
}

/// How many bytes of a chunk follow its head.
pub fn body_len(header: &[u8; 10]) -> (n: usize)
    ensures
        n == be_value(header@.subrange(8, 10)),
{
    read_u16(header.as_slice(), 8) as usize
}

/// The answer to a chunk that cannot be stored.
pub fn too_fast() -> (answer: Vec<u8>)
    ensures
        answer@ == filled(seq![51u8], 16),
{
    let zeroes: Vec<u8> = zero_bytes(15);
    let answer: Vec<u8> = ErrorTransfer::TooFast.respond(zeroes);
    assert(answer@ =~= filled(seq![51u8], 16));
    answer
}

/// The answer to a message that is not known.
pub fn not_found() -> (answer: Vec<u8>)
    ensures
        answer@ == filled(seq![44u8], 18),
{
    let zeroes: Vec<u8> = zero_bytes(17);
    let answer: Vec<u8> = ErrorTransfer::NotFound.respond(zeroes);
    assert(answer@ =~= filled(seq![44u8], 18));
    answer
}

fn zero_bytes(n: usize) -> (out: Vec<u8>)
    ensures
        out@ == zeros(n as nat),
{
    let mut out: Vec<u8> = Vec::new();
    let mut i: usize = 0;
    while i < n
        invariant
            i <= n,
            out@ == zeros(i as nat),
        decreases n - i,
    {
        out.push(0);
        i += 1;
        assert(out@ =~= zeros(i as nat));
    }
    out
}

/// The chunks below `n` that are not in `present`, in ascending order.
pub open spec fn absent_below(present: Set<usize>, n: nat) -> Seq<u64>
    decreases n,
{
    if n == 0 {
        Seq::empty()
    } else {
        let rest = absent_below(present, (n - 1) as nat);
        if present.contains((n - 1) as usize) {
            rest
        } else {
            rest.push((n - 1) as u64)
        }
    }
}

/// The answer that names these chunks as missing.
pub open spec fn missing_answer(missing: Seq<u64>) -> Seq<u8> {
    seq![23u8] + be_bytes(missing.len(), 8) + id_bytes(missing)
}

/// Builds the answer that names these chunks as missing.
pub fn build_missing(missing: &Vec<u64>) -> (message: Vec<u8>)
    ensures
        message@ == missing_answer(missing@),
{
    let mut message: Vec<u8> = Vec::new();
    message.push(23);
    push_u64(&mut message, missing.len() as u64);
    let ghost head = message@;
    let mut k: usize = 0;
    assert(missing@.take(0) =~= Seq::<u64>::empty());
    assert(message@ =~= head + id_bytes(missing@.take(0)));
    while k < missing.len()
        invariant
            k <= missing@.len(),
            message@ == head + id_bytes(missing@.take(k as int)),
        decreases missing@.len() - k,
    {
        push_u64(&mut message, missing[k]);
        proof {
            assert(missing@.take(k + 1).drop_last() =~= missing@.take(k as int));
            assert(message@ =~= head + id_bytes(missing@.take(k + 1)));
        }
        k += 1;
    }
    assert(missing@.take(k as int) =~= missing@);
    assert(message@ =~= missing_answer(missing@));
    message
}

/// The answer that nothing is missing.
pub fn build_complete() -> (message: Vec<u8>)
    ensures
        message@ == filled(seq![23u8], 9),
{
    let mut message: Vec<u8> = Vec::new();
    message.push(23);
    let mut zeroes: Vec<u8> = zero_bytes(8);
    message.append(&mut zeroes);
    assert(message@ =~= filled(seq![23u8], 9));
    message
}

/// What reading from the connection gave.
pub enum StreamEvent {
    /// The head and the bytes of a chunk.
    Chunk([u8; 10], Vec<u8>),
    /// The question what is missing.
    Completion,
    /// A message that is not known.
    Unknown,
    /// A chunk that broke off.
    CutOff,
    /// Nothing yet.
    Nothing,
    Failed,
}

/// How reading goes on.
#[derive(Clone, Copy, Debug, PartialEq, Eq, Structural)]
pub enum StreamNext {
    /// The waiting answers are sent, and reading goes on unless all workers have ended.
    Drain,
    /// Reading goes on at once.
    Again,
    Stop,
}

/// How reading goes on after an event.
pub open spec fn stream_next(event: StreamEvent) -> StreamNext {
    match event {
        StreamEvent::CutOff => StreamNext::Again,
        StreamEvent::Failed => StreamNext::Stop,
        _ => StreamNext::Drain,
    }
}

/// The chunks that wait after an event.
pub open spec fn chunks_after(
    before: Seq<[u8; CHUNK_SIZE]>,
    event: StreamEvent,
    after: Seq<[u8; CHUNK_SIZE]>,
) -> bool {
    match event {
        StreamEvent::Chunk(header, body) if before.len() < MAX_STORED => {
            &&& after.len() == before.len() + 1
            &&& after.drop_last() == before
            &&& after.last()@ == stored(header@, body@)
        },
        _ => after == before,
    }
}

/// What is answered to an event at once, where `completion` answers the question what is missing.
pub open spec fn stream_reply(
    waiting: nat,
    event: StreamEvent,
    completion: Seq<u8>,
) -> Option<Seq<u8>> {
    match event {
        StreamEvent::Chunk(_, _) => if waiting < MAX_STORED {
            None
        } else {
            Some(filled(seq![51u8], 16))
        },
        StreamEvent::Completion => Some(completion),
        StreamEvent::Unknown => Some(filled(seq![44u8], 18)),
        _ => None,
    }
}

/// The answer to the question what is missing of a download.
pub open spec fn download_completion(log: Set<usize>, chunks_number: nat) -> Seq<u8> {
    if log.len() == chunks_number {
        filled(seq![23u8], 9)
    } else {
        missing_answer(absent_below(log, chunks_number))
    }
}

impl Transfer {
    /// Takes in what came from the sender of a file of `chunks_number` chunks. Gives what is
    /// answered at once, and how reading goes on.
    pub fn stream_step(&mut self, event: StreamEvent, chunks_number: usize) -> (turn: (
        Option<Vec<u8>>,
        StreamNext,
    ))
        requires
            event matches StreamEvent::Chunk(_, body) ==> 11 + body@.len() <= CHUNK_SIZE,
        ensures
            turn.1 == stream_next(event),
            match stream_reply(
                old(self).chunks@.len(),
                event,
                download_completion(old(self).chunk_log@, chunks_number as nat),
            ) {
                Some(r) => turn.0 is Some && turn.0->0@ == r,
                None => turn.0 is None,
            },
            chunks_after(old(self).chunks@, event, final(self).chunks@),
            final(self).should_die == (old(self).should_die || (event is Completion && old(
                self).chunk_log@.len() == chunks_number)),
            final(self).responses@ == old(self).responses@,
            final(self).chunk_log@ == old(self).chunk_log@,
            final(self).max_workers == old(self).max_workers,
            final(self).dead_workers == old(self).dead_workers,
    {
        match event {
            StreamEvent::Chunk(header, body) => {
                if store_chunk(&mut self.chunks, &header, body.as_slice()) {
                    (None, StreamNext::Drain)
                } else {
                    (Some(too_fast()), StreamNext::Drain)
                }
            },
            StreamEvent::Completion => {
                let message: Vec<u8> = self.completion(chunks_number);
                (Some(message), StreamNext::Drain)
            },
            StreamEvent::Unknown => (Some(not_found()), StreamNext::Drain),
            StreamEvent::CutOff => (None, StreamNext::Again),
            StreamEvent::Nothing => (None, StreamNext::Drain),
            StreamEvent::Failed => (None, StreamNext::Stop),
        }
    }

    /// A download of which nothing has arrived.
    pub fn new(max_workers: usize) -> (t: Self)
        ensures
            t.chunks@.len() == 0,
            t.responses@.len() == 0,
            !t.should_die,
            t.max_workers == max_workers,
            t.dead_workers == 0,
            t.chunk_log@ == Set::<usize>::empty(),
    {
        Transfer {
            chunk_log: HashSet::new(),
            chunks: Vec::new(),
            responses: Vec::new(),
            should_die: false,
            max_workers,
            dead_workers: 0,
        }
    }

    /// Takes in whether chunk `id` could be written: notes it, and lets its answer wait. Answers
    /// whether to save which chunks have arrived.
    pub fn chunk_written(&mut self, id: usize, written: bool) -> (save: bool)
        ensures
            final(self).chunk_log@ == (if written {
                old(self).chunk_log@.insert(id)
            } else {
                old(self).chunk_log@
            }),
            final(self).responses@.len() == old(self).responses@.len() + 1,
            final(self).responses@.drop_last() == old(self).responses@,
            final(self).responses@.last()@ == (if written {
                short_answer(20, Some(id as u64))
            } else {
                short_answer(50, None)
            }),
            save == (written && final(self).chunk_log@.len() % 10 == 8),
            final(self).chunks@ == old(self).chunks@,
            final(self).should_die == old(self).should_die,
            final(self).max_workers == old(self).max_workers,
            final(self).dead_workers == old(self).dead_workers,
    {
        let answer: [u8; 16] = answer_on(id as u64, written);
        self.responses.push(answer);
        assert(self.responses@.drop_last() =~= old(self).responses@);
        if written {
            self.chunk_log.insert(id);
            let count: usize = self.chunk_log.len();
            count % 10 == 8
        } else {
            false
        }
    }

    /// Answers the question what is missing of a file of `chunks_number` chunks. Where as many
    /// chunks have arrived, the workers are to end.
    pub fn completion(&mut self, chunks_number: usize) -> (message: Vec<u8>)
        ensures
            if old(self).chunk_log@.len() == chunks_number {
                message@ == filled(seq![23u8], 9) && final(self).should_die
            } else {
                message@ == missing_answer(
                    absent_below(old(self).chunk_log@, chunks_number as nat),
                ) && final(self).should_die == old(self).should_die
            },
            final(self).chunks@ == old(self).chunks@,
            final(self).responses@ == old(self).responses@,
            final(self).chunk_log@ == old(self).chunk_log@,
            final(self).max_workers == old(self).max_workers,
            final(self).dead_workers == old(self).dead_workers,
    {
        if self.chunk_log.len() == chunks_number {
            self.should_die = true;
            return build_complete();
        }
        let mut missing: Vec<u64> = Vec::new();
        let mut i: usize = 0;
        while i < chunks_number
            invariant
                i <= chunks_number,
                missing@ == absent_below(self.chunk_log@, i as nat),
            decreases chunks_number - i,
        {
            if !self.chunk_log.contains(&i) {
                missing.push(i as u64);
            }
            i += 1;
        }
        build_missing(&missing)
    }

    /// Takes the answer that is sent next, the last one first.
    pub fn next_response(&mut self) -> (answer: Option<[u8; 16]>)
        ensures
            match answer {
                Some(a) => old(self).responses@.len() > 0 && a == old(self).responses@.last()
                    && final(self).responses@ == old(self).responses@.drop_last(),
                None => old(self).responses@.len() == 0 && final(self).responses@ == old(
                    self).responses@,
            },
            final(self).chunks@ == old(self).chunks@,
            final(self).chunk_log@ == old(self).chunk_log@,
            final(self).should_die == old(self).should_die,
            final(self).max_workers == old(self).max_workers,
            final(self).dead_workers == old(self).dead_workers,
    {
        match self.responses.pop() {
            Some(a) => {
                assert(self.responses@ =~= old(self).responses@.drop_last());
                Some(a)
            },
            None => None,
        }
    }

    /// Notes that a worker has ended.
    pub fn worker_died(&mut self)
        requires
            old(self).dead_workers < usize::MAX,
        ensures
            final(self).dead_workers == old(self).dead_workers + 1,
            final(self).chunks@ == old(self).chunks@,
            final(self).responses@ == old(self).responses@,
            final(self).chunk_log@ == old(self).chunk_log@,
            final(self).should_die == old(self).should_die,
            final(self).max_workers == old(self).max_workers,
    {
        self.dead_workers = self.dead_workers + 1;
    }

    /// Whether all workers have ended, and the download with them.
    pub fn finished(&self) -> (yes: bool)
        ensures
            yes == (self.dead_workers == self.max_workers),
    {
        self.dead_workers == self.max_workers
    }
}

/// What a byte means that comes once all chunks have arrived.
#[derive(Debug)]
pub enum FinalStep {
    /// The sender's digest follows.
    ReadHash,
    /// It is passed over.
    Ignore,
    /// It is answered with this.
    Reply(Vec<u8>),
}

/// Takes in a byte, or that reading failed.
pub fn final_header(byte: Option<u8>) -> (step: FinalStep)
    ensures
        match byte {
            Some(4) => step is ReadHash,
            Some(0) => step is Ignore,
            _ => step matches FinalStep::Reply(a) && a@ == filled(seq![44u8], 18),
        },
{
    match byte {
        Some(4) => FinalStep::ReadHash,
        Some(0) => FinalStep::Ignore,
        _ => FinalStep::Reply(not_found()),
    }
}

/// The answer to the sender's digest, and whether the download is done: it is where the digests
/// are the same.
pub fn execute_final_completion_check(own: &[u8; 32], sent: &[u8; 32]) -> (reply: (Vec<u8>, bool))
    ensures
        reply.1 == (own@ == sent@),
        reply.0@ == (if own@ == sent@ {
            filled(seq![24u8], 18)
        } else {
            filled(seq![47u8], 18)
        }),
{
    let mut i: usize = 0;
    while i < 32
        invariant
            i <= 32,
            forall|k: int| 0 <= k < i ==> own@[k] == sent@[k],
        decreases 32 - i,
    {
        if own[i] != sent[i] {
            let zeroes: Vec<u8> = zero_bytes(17);
            let reply: Vec<u8> = ErrorTransfer::HashesDoNotMatch.respond(zeroes);
            assert(reply@ =~= filled(seq![47u8], 18));
            return (reply, false);
        }
        i += 1;
    }
    assert(own@ =~= sent@);
    let mut reply: Vec<u8> = Vec::new();
    reply.push(24);
    let mut zeroes: Vec<u8> = zero_bytes(17);
    reply.append(&mut zeroes);
    assert(reply@ =~= filled(seq![24u8], 18));
    (reply, true)
}

} // verus!
