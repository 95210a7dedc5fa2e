//! The sending side of a transfer: which chunks wait, which are on their way, and what an answer
//! of the receiver changes.

use std::collections::HashMap;

use vstd::prelude::*;

use crate::wire::{
    be_bytes, be_value, push_all, push_u64, read_u64, MSG_ACK_FAIL, MSG_ACK_OK, MSG_CHUNK,
    MSG_COMPLETION_RESPONSE, PAYLOAD,
};

verus! {

broadcast use vstd::std_specs::hash::group_hash_axioms;

/// The chunks of a transfer that the receiver has not confirmed.
pub struct ChunkQueue {
    /// Chunks that wait to be sent; the last one goes first.
    pub queue: Vec<u64>,
    /// Chunks that were sent, and when, in nanoseconds.
    pub in_flight: HashMap<u64, u64>,
    /// Whether the transfer was given up.
    pub aborted: bool,
}

#[verifier::ext_equal]
pub struct QueueView {
    pub queue: Seq<u64>,
    pub in_flight: Map<u64, u64>,
    pub aborted: bool,
}

impl View for ChunkQueue {
    type V = QueueView;

    open spec fn view(&self) -> QueueView {
        QueueView {
            queue: self.queue@,
            in_flight: self.in_flight@,
            aborted: self.aborted,
        }
    }
}

/// What a worker does next.
#[derive(Clone, Copy, Debug, PartialEq, Eq, Structural)]
pub enum Job {
    /// The transfer was given up.
    Aborted,
    /// Send this chunk.
    Send(u64),
    /// Nothing waits, but chunks on their way may come back.
    Wait,
    /// Nothing waits and nothing is on its way.
    Done,
}

impl QueueView {
    /// What a worker does next, and the queue after it took the job.
    pub open spec fn next(self) -> (Job, QueueView) {
        if self.aborted {
            (Job::Aborted, self)
        } else if self.queue.len() > 0 {
            (
                Job::Send(self.queue.last()),
                QueueView { queue: self.queue.drop_last(), ..self },
            )
        } else if self.in_flight.dom().len() > 0 {
            (Job::Wait, self)
        } else {
            (Job::Done, self)
        }
    }

    /// The queue after a chunk was sent.
    pub open spec fn sent(self, id: u64, now: u64) -> QueueView {
        QueueView { in_flight: self.in_flight.insert(id, now), ..self }
    }

    /// The queue after the receiver's answer on a chunk: a confirmed chunk is done with, a failed
    /// one waits again, and any other answer changes nothing.
    pub open spec fn answered(self, code: u8, id: u64) -> QueueView {
        if code == MSG_ACK_OK {
            QueueView { in_flight: self.in_flight.remove(id), ..self }
        } else if code == MSG_ACK_FAIL {
            QueueView {
                in_flight: self.in_flight.remove(id),
                queue: self.queue.push(id),
                ..self
            }
        } else {
            self
        }
    }

    /// The chunks that have been on their way for longer than `timeout`.
    pub open spec fn overdue(self, now: u64, timeout: u64) -> Set<u64> {
        self.in_flight.dom().filter(
            |id: u64| now > self.in_flight[id] && now - self.in_flight[id] > timeout,
        )
    }

    /// All chunks that are not confirmed and that no worker holds.
    pub open spec fn pending(self) -> Set<u64> {
        self.queue.to_set() + self.in_flight.dom()
    }
}

/// How often reading a chunk has failed.
pub struct Retries {
    pub counts: HashMap<u64, u32>,
}

/// Failures on one chunk after which the transfer is given up.
pub const MAX_RETRIES: u32 = 3;

impl Retries {
    /// How often chunk `id` has failed.
    pub open spec fn count(self, id: u64) -> u32 {
        if self.counts@.contains_key(id) {
            self.counts@[id]
        } else {
            0
        }
    }

    pub fn new() -> (r: Retries)
        ensures
            forall|id: u64| r.count(id) == 0,
    {
        Retries { counts: HashMap::new() }
    }
}

impl ChunkQueue {
    /// All of `chunks` wait, and none is on its way.
    pub fn new(chunks: Vec<u64>) -> (q: ChunkQueue)
        ensures
            q@ == (QueueView { queue: chunks@, in_flight: Map::empty(), aborted: false }),
    {
        ChunkQueue { queue: chunks, in_flight: HashMap::new(), aborted: false }
    }

    /// Takes the next job.
    pub fn next_job(&mut self) -> (job: Job)
        ensures
            (job, final(self)@) == old(self)@.next(),
    {
        if self.aborted {
            return Job::Aborted;
        }
        match self.queue.pop() {
            Some(id) => {
                assert(self@.queue =~= old(self)@.queue.drop_last());
                Job::Send(id)
            },
            None => {
                assert(self@.queue =~= old(self)@.queue);
                if self.in_flight.is_empty() {
                    Job::Done
                } else {
                    Job::Wait
                }
            },
        }
    }

    /// Notes that chunk `id` was sent at time `now`.
    pub fn mark_sent(&mut self, id: u64, now: u64)
        ensures
            final(self)@ == old(self)@.sent(id, now),
    {
        self.in_flight.insert(id, now);
    }

    /// Notes that chunk `id` could not be read. It waits again, unless it has failed too often:
    /// the transfer is then given up, and the answer is yes.
    pub fn read_failed(&mut self, retries: &mut Retries, id: u64) -> (fatal: bool)
        requires
            old(retries).count(id) < u32::MAX,
        ensures
            final(retries).count(id) == old(retries).count(id) + 1,
            forall|other: u64|
                other != id ==> #[trigger] final(retries).count(other) == old(retries).count(
                    other,
                ),
            fatal == (old(retries).count(id) + 1 >= MAX_RETRIES),
            final(self)@ == (if fatal {
                QueueView { aborted: true, ..old(self)@ }
            } else {
                QueueView { queue: old(self)@.queue.push(id), ..old(self)@ }
            }),
    {
        let before: u32 = match retries.counts.get(&id) {
            Some(n) => *n,
            None => 0,
        };
        let count: u32 = before + 1;
        retries.counts.insert(id, count);
        if count >= MAX_RETRIES {
            self.aborted = true;
            return true;
        }
        self.queue.push(id);
        false
    }

    /// Takes in the receiver's answer on a chunk.
    pub fn acknowledge(&mut self, code: u8, id: u64)
        ensures
            final(self)@ == old(self)@.answered(code, id),
    {
        if code == MSG_ACK_OK {
            self.in_flight.remove(&id);
        } else if code == MSG_ACK_FAIL {
            self.in_flight.remove(&id);
            self.queue.push(id);
        }
    }

    /// Lets the chunks wait again that have been on their way for longer than `timeout`, and names
    /// them. In which order they go is left open.
    pub fn expire(&mut self, now: u64, timeout: u64) -> (expired: Vec<u64>)
        ensures
            expired@.no_duplicates(),
            expired@.to_set() == old(self)@.overdue(now, timeout),
            final(self)@ == (QueueView {
                queue: old(self)@.queue + expired@,
                in_flight: old(self)@.in_flight.remove_keys(old(self)@.overdue(now, timeout)),
                aborted: old(self)@.aborted,
            }),
    {
        let mut expired: Vec<u64> = Vec::new();
        let ghost before = self@;
        let ghost due = before.overdue(now, timeout);
        let ghost mut from: Seq<int> = Seq::empty();
        for key in it: self.in_flight.keys()
            invariant
                before == self@,
                due == before.overdue(now, timeout),
                it.seq().unref().to_set() == before.in_flight.dom(),
                it.seq().no_duplicates(),
                expired@.no_duplicates(),
                from.len() == expired@.len(),
                forall|k: int| 0 <= k < expired@.len() ==> due.contains(#[trigger] expired@[k]),
                forall|k: int| 0 <= k < expired@.len() ==> 0 <= #[trigger] from[k] < it.index(),
                forall|k: int|
                    0 <= k < expired@.len() ==> *it.seq()[#[trigger] from[k]] == expired@[k],
                forall|j: int|
                    0 <= j < it.index() && due.contains(*#[trigger] it.seq()[j])
                        ==> expired@.contains(*it.seq()[j]),
        {
            let ghost here = it.index();
            let ghost all = it.seq();
            proof {
                assert(all.unref()[here] == *key);
                assert(all.unref().to_set().contains(*key));
            }
            let ghost earlier = expired@;
            match self.in_flight.get(key) {
                Some(t) => {
                    if now > *t && now - *t > timeout {
                        proof {
                            assert(due.contains(*key));
                            if expired@.contains(*key) {
                                let k = choose|k: int|
                                    0 <= k < expired@.len() && expired@[k] == *key;
                                assert(*all[from[k]] == *all[here]);
                                assert(all[from[k]] == all[here]);
                            }
                        }
                        expired.push(*key);
                        proof {
                            from = from.push(here);
                        }
                        assert(expired@.last() == *key);
                        assert forall|x: u64| earlier.contains(x) implies
                            #[trigger] expired@.contains(x) by {
                            let k = choose|k: int| 0 <= k < earlier.len() && earlier[k] == x;
                            assert(expired@[k] == x);
                        }
                        assert(*all[here] == *key);
                    } else {
                        assert(!due.contains(*key));
                    }
                },
                None => {},
            }
        }
        proof {
            assert forall|x: u64| #[trigger] due.contains(x) implies expired@.contains(x) by {
                assert(before.in_flight.dom().contains(x));
            }
            assert(expired@.to_set() =~= due);
        }
        let mut i: usize = 0;
        assert(self.in_flight@ =~= before.in_flight.remove_keys(expired@.take(0).to_set()));
        while i < expired.len()
            invariant
                i <= expired@.len(),
                self@.queue == before.queue,
                self@.aborted == before.aborted,
                self.in_flight@ == before.in_flight.remove_keys(expired@.take(i as int).to_set()),
            decreases expired@.len() - i,
        {
            self.in_flight.remove(&expired[i]);
            proof {
                let gone = expired@.take(i as int).to_set();
                let more = expired@.take(i + 1).to_set();
                assert(expired@.take(i + 1) =~= expired@.take(i as int).push(expired@[i as int]));
                assert forall|x: u64| more.contains(x) <==> gone.contains(x) || x
                    == expired@[i as int] by {
                    if gone.contains(x) {
                        let k = choose|k: int|
                            0 <= k < expired@.take(i as int).len() && expired@.take(i as int)[k]
                                == x;
                        assert(expired@.take(i + 1)[k] == x);
                    }
                    if x == expired@[i as int] {
                        assert(expired@.take(i + 1)[i as int] == x);
                    }
                }
                assert(self.in_flight@ =~= before.in_flight.remove_keys(more));
            }
            i += 1;
        }
        assert(expired@.take(i as int) =~= expired@);
        let mut j: usize = 0;
        assert(self.queue@ =~= before.queue + expired@.take(0));
        while j < expired.len()
            invariant
                j <= expired@.len(),
                self.queue@ == before.queue + expired@.take(j as int),
                self.in_flight@ == before.in_flight.remove_keys(due),
                self.aborted == before.aborted,
            decreases expired@.len() - j,
        {
            self.queue.push(expired[j]);
            j += 1;
            assert(self.queue@ =~= before.queue + expired@.take(j as int));
        }
        assert(expired@.take(j as int) =~= expired@);
        expired
    }
}

/// The receiver's answers, as far as one of nine bytes has arrived.
pub struct AckReader {
    pub header: [u8; 9],
    pub filled: usize,
}

/// What reading from the connection gave.
#[derive(Debug)]
pub enum ReadEvent {
    /// The peer closed the connection.
    Closed,
    /// Some bytes.
    Data(Vec<u8>),
    /// Nothing in time.
    TimedOut,
    Failed,
}

/// The receiver's answer in nine bytes: a code, and the chunk that it is about.
pub open spec fn answer_in(header: Seq<u8>) -> (u8, u64) {
    (header[0], be_value(header.subrange(1, 9)) as u64)
}

impl AckReader {
    /// Whether an answer is still being waited for.
    pub open spec fn wf(self) -> bool {
        self.filled < 9
    }

    /// The bytes of the answer that have arrived.
    pub open spec fn arrived(self) -> Seq<u8> {
        self.header@.take(self.filled as int)
    }

    pub fn new() -> (r: AckReader)
        ensures
            r.wf(),
            r.arrived() == Seq::<u8>::empty(),
    {
        let r = AckReader { header: [0u8; 9], filled: 0 };
        assert(r.arrived() =~= Seq::<u8>::empty());
        r
    }

    /// Takes in bytes, no more than the answer lacks. A whole answer is handed out.
    pub fn feed(&mut self, bytes: &[u8]) -> (answer: Option<(u8, u64)>)
        requires
            old(self).wf(),
            old(self).filled + bytes@.len() <= 9,
        ensures
            final(self).wf(),
            ({
                let all = old(self).arrived() + bytes@;
                if all.len() == 9 {
                    answer == Some(answer_in(all)) && final(self).arrived() == Seq::<u8>::empty()
                } else {
                    answer is None && final(self).arrived() == all
                }
            }),
    {
        let ghost before = self.arrived();
        let start: usize = self.filled;
        let mut i: usize = 0;
        while i < bytes.len()
            invariant
                i <= bytes@.len(),
                start + bytes@.len() <= 9,
                start == before.len(),
                self.filled == start,
                self.header@.len() == 9,
                forall|k: int| 0 <= k < start ==> self.header@[k] == before[k],
                forall|k: int| 0 <= k < i ==> self.header@[start + k] == bytes@[k],
            decreases bytes@.len() - i,
        {
            let at: usize = start + i;
            self.header[at] = bytes[i];
            i += 1;
        }
        self.filled = start + bytes.len();
        let ghost all = before + bytes@;
        assert(self.header@.take(self.filled as int) =~= all);
        if self.filled == 9 {
            self.filled = 0;
            assert(self.arrived() =~= Seq::<u8>::empty());
            assert(self.header@ =~= all);
            let id: u64 = read_u64(self.header.as_slice(), 1);
            Some((self.header[0], id))
        } else {
            None
        }
    }

    /// One turn of reading answers. `stop` says that the round is over. Gives whether to read on,
    /// and the answer that was completed, if any.
    pub fn step(&mut self, queue: &mut ChunkQueue, stop: bool, event: ReadEvent) -> (turn: (
        bool,
        Option<(u8, u64)>,
    ))
        requires
            old(self).wf(),
            event matches ReadEvent::Data(d) ==> old(self).filled + d@.len() <= 9,
        ensures
            final(self).wf(),
            ({
                let quiet = old(queue)@.aborted || stop;
                match event {
                    ReadEvent::Data(d) if !quiet && d@.len() > 0 => {
                        let all = old(self).arrived() + d@;
                        &&& turn.0
                        &&& if all.len() == 9 {
                            let (code, id) = answer_in(all);
                            &&& turn.1 == Some((code, id))
                            &&& final(queue)@ == old(queue)@.answered(code, id)
                            &&& final(self).arrived() == Seq::<u8>::empty()
                        } else {
                            &&& turn.1 is None
                            &&& final(queue)@ == old(queue)@
                            &&& final(self).arrived() == all
                        }
                    },
                    _ => {
                        &&& turn.0 == (!quiet && event is TimedOut)
                        &&& turn.1 is None
                        &&& final(queue)@ == old(queue)@
                        &&& final(self).arrived() == old(self).arrived()
                    },
                }
            }),
    {
        if queue.aborted || stop {
            return (false, None);
        }
        match event {
            ReadEvent::Closed => (false, None),
            ReadEvent::Failed => (false, None),
            ReadEvent::TimedOut => (true, None),
            ReadEvent::Data(bytes) => {
                if bytes.len() == 0 {
                    return (false, None);
                }
                match self.feed(bytes.as_slice()) {
                    None => (true, None),
                    Some((code, id)) => {
                        queue.acknowledge(code, id);
                        (true, Some((code, id)))
                    },
                }
            },
        }
    }
}

/// Number of chunks of a file: its size over the payload of a chunk, rounded up.
pub open spec fn chunks_of(file_size: nat) -> nat {
    (file_size + PAYLOAD as nat - 1) as nat / PAYLOAD as nat
}

/// Number of chunks of a file.
pub fn get_chunks_len(file_size: u64) -> (n: u64)
    ensures
        n == chunks_of(file_size as nat),
{
    let whole: u64 = file_size / PAYLOAD;
    if file_size % PAYLOAD == 0 {
        whole
    } else {
        whole + 1
    }
}

/// Where chunk `id` begins in a file.
pub open spec fn chunk_start(id: nat) -> nat {
    id * PAYLOAD as nat
}

/// How many bytes of the file chunk `id` holds.
pub open spec fn chunk_size(file_size: nat, id: nat) -> nat {
    if chunk_start(id) >= file_size {
        0
    } else if file_size - chunk_start(id) < PAYLOAD {
        (file_size - chunk_start(id)) as nat
    } else {
        PAYLOAD as nat
    }
}

/// Where chunk `id` begins in a file, and how many bytes it holds.
pub fn chunk_span(file_size: u64, id: u64) -> (span: (u64, usize))
    requires
        id * PAYLOAD <= u64::MAX,
    ensures
        span.0 == chunk_start(id as nat),
        span.1 == chunk_size(file_size as nat, id as nat),
{
    let offset: u64 = id * PAYLOAD;
    let remaining: u64 = if file_size > offset {
        file_size - offset
    } else {
        0
    };
    let len: u64 = if remaining < PAYLOAD {
        remaining
    } else {
        PAYLOAD
    };
    (offset, len as usize)
}

/// A chunk as it goes over the wire: its type, its number, its length, its bytes.
pub open spec fn chunk_frame(id: u64, payload: Seq<u8>) -> Seq<u8> {
    seq![2u8] + be_bytes(id as nat, 8) + be_bytes(payload.len(), 8) + payload
}

/// Frames the bytes of a chunk.
pub fn frame_chunk(id: u64, payload: &[u8]) -> (frame: Vec<u8>)
    ensures
        frame@ == chunk_frame(id, payload@),
{
    let mut frame: Vec<u8> = Vec::new();
    frame.push(MSG_CHUNK);
    push_u64(&mut frame, id);
    push_u64(&mut frame, payload.len() as u64);
    push_all(&mut frame, payload);
    assert(frame@ =~= chunk_frame(id, payload@));
    frame
}

/// What nine bytes say that came in answer to the question what is missing.
#[derive(Clone, Copy, Debug, PartialEq, Eq, Structural)]
pub enum Completion {
    /// They answer something else.
    Unrelated,
    /// Nothing is missing.
    Complete,
    /// More is said to be missing than there is.
    Implausible,
    /// So many chunks are missing, and their numbers follow.
    Missing(u64),
}

/// What an answer says, for a file of `chunks_len` chunks.
pub open spec fn completion_in(header: Seq<u8>, chunks_len: u64) -> Completion {
    let count = be_value(header.subrange(1, 9));
    if header[0] != MSG_COMPLETION_RESPONSE {
        Completion::Unrelated
    } else if count == 0 {
        Completion::Complete
    } else if count > chunks_len {
        Completion::Implausible
    } else {
        Completion::Missing(count as u64)
    }
}

/// Reads the head of an answer to the question what is missing.
pub fn read_completion(header: &[u8; 9], chunks_len: u64) -> (c: Completion)
    ensures
        c == completion_in(header@, chunks_len),
{
    let count: u64 = read_u64(header.as_slice(), 1);
    if header[0] != MSG_COMPLETION_RESPONSE {
        Completion::Unrelated
    } else if count == 0 {
        Completion::Complete
    } else if count > chunks_len {
        Completion::Implausible
    } else {
        Completion::Missing(count)
    }
}

/// The numbers that a byte string holds, eight bytes each; a shorter rest is left out.
pub open spec fn ids_in(bytes: Seq<u8>) -> Seq<u64> {
    Seq::new(
        bytes.len() / 8,
        |i: int| be_value(bytes.subrange(8 * i, 8 * i + 8)) as u64,
    )
}

/// Reads chunk numbers of eight bytes each.
pub fn read_ids(bytes: &[u8]) -> (ids: Vec<u64>)
    ensures
        ids@ == ids_in(bytes@),
{
    let mut ids: Vec<u64> = Vec::new();
    let mut at: usize = 0;
    while bytes.len() - at >= 8
        invariant
            at <= bytes.len(),
            at == 8 * ids@.len(),
            forall|k: int| 0 <= k < ids@.len() ==> #[trigger] ids@[k] == ids_in(bytes@)[k],
            ids@.len() <= bytes@.len() / 8,
        decreases bytes.len() - at,
    {
        let id: u64 = read_u64(bytes, at);
        ids.push(id);
        at += 8;
    }
    assert(ids@ =~= ids_in(bytes@));
    ids
}

/// The numbers from 0 up to `n`.
pub open spec fn numbers_below(n: nat) -> Seq<u64> {
    Seq::new(n, |i: int| i as u64)
}

/// All chunks of a file.
pub fn all_chunks(chunks_len: u64) -> (ids: Vec<u64>)
    ensures
        ids@ == numbers_below(chunks_len as nat),
{
    let mut ids: Vec<u64> = Vec::new();
    let mut i: u64 = 0;
    while i < chunks_len
        invariant
            i <= chunks_len,
            ids@.len() == i,
            forall|k: int| 0 <= k < i ==> ids@[k] == k,
        decreases chunks_len - i,
    {
        ids.push(i);
        i += 1;
    }
    assert(ids@ =~= numbers_below(chunks_len as nat));
    ids
}

/// A fresh transfer sends every chunk, and each once.
pub proof fn fresh_transfers_send_every_chunk(n: u64, id: u64)
    ensures
        numbers_below(n as nat).len() == n,
        numbers_below(n as nat).contains(id) == (id < n),
        numbers_below(n as nat).no_duplicates(),
{
    let all = numbers_below(n as nat);
    if id < n {
        assert(all[id as int] == id);
    }
}

} // verus!
