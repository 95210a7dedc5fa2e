//! The sending side of the compact protocol.

use std::collections::HashMap;

use vstd::prelude::*;

use crate::compact::size::{encode_file_size, size_bytes, COMPACT_PAYLOAD};
use crate::guest_request_file::{guest_frame, request_chunk};
use crate::ids::{swap_fields, Uuid};
use crate::wire::{be_value, push_all, read_u64};

verus! {

broadcast use vstd::std_specs::hash::group_hash_axioms;

/// Workers of a round, at most.
pub const COMPACT_THREADS: u64 = 5;

/// Chunks on their way above which no more are sent.
pub const MAX_IN_FLIGHT: i64 = 5;

/// Turns that a worker waits before it drops the chunks whose time is over.
pub const PATIENCE: u32 = 10;

/// How long a chunk may be on its way, in nanoseconds.
pub const CHUNK_TIME: u64 = 10_000_000_000;

/// The message that announces a file: the transfer, the size, and the name behind the low byte of
/// its length.
pub fn announce(transfer_uuid: &Uuid, file_size: u64, file_name: &[u8]) -> (buffer: Vec<u8>)
    ensures
        buffer@ == seq![1u8] + swap_fields(transfer_uuid.bytes@) + size_bytes(
            file_size as nat,
            7,
        ) + seq![(file_name@.len() % 256) as u8] + file_name@,
{
    let mut buffer: Vec<u8> = Vec::new();
    buffer.push(1);
    push_all(&mut buffer, transfer_uuid.to_bytes_le().as_slice());
    push_all(&mut buffer, encode_file_size(file_size).as_slice());
    buffer.push((file_name.len() % 256) as u8);
    push_all(&mut buffer, file_name);
    assert(buffer@ =~= seq![1u8] + swap_fields(transfer_uuid.bytes@) + size_bytes(
        file_size as nat,
        7,
    ) + seq![(file_name@.len() % 256) as u8] + file_name@);
    buffer
}

/// The message that resumes a transfer.
pub fn first_message(uuid: &Uuid) -> (buf: [u8; 17])
    ensures
        buf@ == seq![10u8] + uuid.bytes@,
{
    let mut buf: [u8; 17] = [0u8; 17];
    buf[0] = 10;
    let mut i: usize = 0;
    while i < 16
        invariant
            i <= 16,
            buf@.len() == 17,
            buf@[0] == 10,
            forall|k: int| 0 <= k < i ==> buf@[k + 1] == uuid.bytes@[k],
        decreases 16 - i,
    {
        buf[i + 1] = uuid.bytes[i];
        i += 1;
    }
    assert(buf@ =~= seq![10u8] + uuid.bytes@);
    buf
}

/// Number of chunks that a sender counts: one more than whole chunks fit into the file.
pub fn chunks_len(file_size: u64) -> (n: u64)
    ensures
        n == file_size / COMPACT_PAYLOAD + 1,
{
    file_size / COMPACT_PAYLOAD + 1
}

/// The chunks that a fresh transfer begins with: all but the first, which the receiver will name
/// as missing.
pub fn initial_chunks(chunks_len: u64) -> (chunks: Vec<u64>)
    ensures
        chunks@.len() == (if chunks_len == 0 {
            0
        } else {
            chunks_len - 1
        }),
        forall|k: int| 0 <= k < chunks@.len() ==> chunks@[k] == k + 1,
{
    let mut chunks: Vec<u64> = Vec::new();
    let mut i: u64 = 1;
    while i < chunks_len
        invariant
            1 <= i,
            chunks_len > 0 ==> i <= chunks_len,
            chunks_len == 0 ==> i == 1,
            chunks@.len() == i - 1,
            forall|k: int| 0 <= k < chunks@.len() ==> chunks@[k] == k + 1,
        decreases chunks_len - i,
    {
        chunks.push(i);
        i += 1;
    }
    chunks
}

/// Where a chunk begins in the file, and how many bytes it holds.
pub fn chunk_span(file_size: u64, index: u64) -> (span: (u64, usize))
    requires
        index * COMPACT_PAYLOAD <= file_size,
    ensures
        span.0 == index * COMPACT_PAYLOAD,
        span.1 == (if file_size - index * COMPACT_PAYLOAD < COMPACT_PAYLOAD {
            file_size - index * COMPACT_PAYLOAD
        } else {
            COMPACT_PAYLOAD as int
        }),
{
    let offset: u64 = COMPACT_PAYLOAD * index;
    let remaining: u64 = file_size - offset;
    let size: u64 = if remaining < COMPACT_PAYLOAD {
        remaining
    } else {
        COMPACT_PAYLOAD
    };
    (offset, size as usize)
}

/// A chunk as it goes over the wire.
pub fn send_chunk(id: u64, data: &[u8]) -> (frame: Vec<u8>)
    ensures
        frame@ == guest_frame(id, data@),
{
    request_chunk(id, data)
}

/// A transfer on the sender's side.
pub struct SendState {
    /// Chunks that wait to be sent; the last one goes first.
    pub queue: Vec<u64>,
    /// Chunks that were sent, and until when they may be on their way, in nanoseconds.
    pub deadlines: HashMap<u64, u64>,
    /// How many chunks are held to be on their way.
    pub in_flight: i64,
    /// Workers that have ended in this round.
    pub dead_threads: u64,
}

#[verifier::ext_equal]
pub struct SendStateView {
    pub queue: Seq<u64>,
    pub deadlines: Map<u64, u64>,
    pub in_flight: int,
    pub dead_threads: nat,
}

impl View for SendState {
    type V = SendStateView;

    open spec fn view(&self) -> SendStateView {
        SendStateView {
            queue: self.queue@,
            deadlines: self.deadlines@,
            in_flight: self.in_flight as int,
            dead_threads: self.dead_threads as nat,
        }
    }
}

/// What a worker does in one turn.
#[derive(Clone, Copy, Debug, PartialEq, Eq, Structural)]
pub enum Turn {
    /// Too many chunks are on their way, and it waits.
    Throttled,
    /// It sends this chunk.
    Send(u64),
    /// Nothing waits, and it ends.
    Dead,
}

impl SendStateView {
    /// The chunks whose time is over.
    pub open spec fn late(self, now: u64) -> Set<u64> {
        self.deadlines.dom().filter(|id: u64| self.deadlines[id] < now)
    }
}

impl SendState {
    /// A transfer that begins with `chunks`.
    pub fn new(chunks: Vec<u64>) -> (s: SendState)
        ensures
            s@ == (SendStateView {
                queue: chunks@,
                deadlines: Map::empty(),
                in_flight: 0,
                dead_threads: 0,
            }),
    {
        SendState { queue: chunks, deadlines: HashMap::new(), in_flight: 0, dead_threads: 0 }
    }

    /// A new round begins: no worker has ended, and no chunk is held to be on its way.
    pub fn start_round(&mut self)
        ensures
            final(self)@ == (SendStateView { in_flight: 0, dead_threads: 0, ..old(self)@ }),
    {
        self.in_flight = 0;
        self.dead_threads = 0;
    }

    /// Drops the chunks whose time is over from those on their way, and counts them.
    fn drop_late(&mut self, now: u64) -> (n: usize)
        ensures
            n == old(self)@.late(now).len(),
            final(self)@ == (SendStateView {
                deadlines: old(self)@.deadlines.remove_keys(old(self)@.late(now)),
                ..old(self)@
            }),
    {
        let mut late: Vec<u64> = Vec::new();
        let ghost before = self@;
        let ghost due = before.late(now);
        let ghost mut from: Seq<int> = Seq::empty();
        for key in it: self.deadlines.keys()
            invariant
                before == self@,
                due == before.late(now),
                it.seq().unref().to_set() == before.deadlines.dom(),
                it.seq().no_duplicates(),
                late@.no_duplicates(),
                from.len() == late@.len(),
                forall|k: int| 0 <= k < late@.len() ==> due.contains(#[trigger] late@[k]),
                forall|k: int| 0 <= k < late@.len() ==> 0 <= #[trigger] from[k] < it.index(),
                forall|k: int|
                    0 <= k < late@.len() ==> *it.seq()[#[trigger] from[k]] == late@[k],
                forall|j: int|
                    0 <= j < it.index() && due.contains(*#[trigger] it.seq()[j])
                        ==> late@.contains(*it.seq()[j]),
        {
            let ghost here = it.index();
            let ghost all = it.seq();
            let ghost earlier = late@;
            proof {
                assert(all.unref()[here] == *key);
                assert(all.unref().to_set().contains(*key));
            }
            match self.deadlines.get(key) {
                Some(t) => {
                    if *t < now {
                        proof {
                            assert(due.contains(*key));
                            if late@.contains(*key) {
                                let k = choose|k: int| 0 <= k < late@.len() && late@[k] == *key;
                                assert(*all[from[k]] == *all[here]);
                                assert(all[from[k]] == all[here]);
                            }
                        }
                        late.push(*key);
                        proof {
                            from = from.push(here);
                        }
                        assert(late@.last() == *key);
                        assert forall|x: u64| earlier.contains(x) implies #[trigger] late@.contains(
                            x,
                        ) by {
                            let k = choose|k: int| 0 <= k < earlier.len() && earlier[k] == x;
                            assert(late@[k] == x);
                        }
                        assert(*all[here] == *key);
                    } else {
                        assert(!due.contains(*key));
                    }
                },
                None => {},
            }
        }
        proof {
            assert forall|x: u64| #[trigger] due.contains(x) implies late@.contains(x) by {
                assert(before.deadlines.dom().contains(x));
            }
            assert(late@.to_set() =~= due);
            late@.unique_seq_to_set();
        }
        let mut i: usize = 0;
        assert(self.deadlines@ =~= before.deadlines.remove_keys(late@.take(0).to_set()));
        while i < late.len()
            invariant
                i <= late@.len(),
                self@.queue == before.queue,
                self@.in_flight == before.in_flight,
                self@.dead_threads == before.dead_threads,
                self.deadlines@ == before.deadlines.remove_keys(late@.take(i as int).to_set()),
            decreases late@.len() - i,
        {
            self.deadlines.remove(&late[i]);
            proof {
                let gone = late@.take(i as int).to_set();
                let more = late@.take(i + 1).to_set();
                assert forall|x: u64| more.contains(x) <==> gone.contains(x) || x
                    == late@[i as int] by {
                    if gone.contains(x) {
                        let k = choose|k: int|
                            0 <= k < late@.take(i as int).len() && late@.take(i as int)[k] == x;
                        assert(late@.take(i + 1)[k] == x);
                    }
                    if x == late@[i as int] {
                        assert(late@.take(i + 1)[i as int] == x);
                    }
                }
                assert(self.deadlines@ =~= before.deadlines.remove_keys(more));
            }
            i += 1;
        }
        assert(late@.take(i as int) =~= late@);
        late.len()
    }

    /// One turn of a worker, which has waited for `counter` turns.
    pub fn worker_turn(&mut self, counter: &mut u32, now: u64) -> (turn: Turn)
        requires
            *old(counter) < u32::MAX,
            old(self)@.deadlines.dom().len() <= i64::MAX,
            old(self).dead_threads < u64::MAX,
        ensures
            ({
                let before = old(self)@;
                let waited = *old(counter) + 1;
                if before.in_flight > MAX_IN_FLIGHT {
                    &&& turn == Turn::Throttled
                    &&& *final(counter) == (if waited >= PATIENCE {
                        0
                    } else {
                        waited
                    })
                    &&& final(self)@ == (if waited >= PATIENCE {
                        SendStateView {
                            deadlines: before.deadlines.remove_keys(before.late(now)),
                            in_flight: before.in_flight - before.late(now).len(),
                            ..before
                        }
                    } else {
                        before
                    })
                } else if before.queue.len() > 0 {
                    &&& turn == Turn::Send(before.queue.last())
                    &&& *final(counter) == 0
                    &&& final(self)@ == (SendStateView {
                        queue: before.queue.drop_last(),
                        ..before
                    })
                } else {
                    &&& turn == Turn::Dead
                    &&& *final(counter) == *old(counter)
                    &&& final(self)@ == (SendStateView {
                        dead_threads: before.dead_threads + 1,
                        ..before
                    })
                }
            }),
    {
        if self.in_flight > MAX_IN_FLIGHT {
            *counter = *counter + 1;
            if *counter >= PATIENCE {
                proof {
                    let due = self@.late(now);
                    assert(due.subset_of(self@.deadlines.dom()));
                    vstd::set_lib::lemma_len_subset(due, self@.deadlines.dom());
                }
                let n: usize = self.drop_late(now);
                *counter = 0;
                self.in_flight = self.in_flight - n as i64;
            }
            return Turn::Throttled;
        }
        match self.queue.pop() {
            Some(index) => {
                assert(self@.queue =~= old(self)@.queue.drop_last());
                *counter = 0;
                Turn::Send(index)
            },
            None => {
                self.dead_threads = self.dead_threads + 1;
                assert(self@.queue =~= old(self)@.queue);
                Turn::Dead
            },
        }
    }

    /// Notes whether a chunk could be sent. One that could not is left for the receiver to name as
    /// missing.
    pub fn chunk_sent(&mut self, index: u64, ok: bool, now: u64)
        requires
            old(self).in_flight < i64::MAX,
            now + CHUNK_TIME <= u64::MAX,
        ensures
            final(self)@ == (if ok {
                SendStateView {
                    deadlines: old(self)@.deadlines.insert(index, (now + CHUNK_TIME) as u64),
                    in_flight: old(self)@.in_flight + 1,
                    ..old(self)@
                }
            } else {
                old(self)@
            }),
    {
        if ok {
            self.deadlines.insert(index, now + CHUNK_TIME);
            self.in_flight = self.in_flight + 1;
        }
    }

    /// Takes in an answer of sixteen bytes. Answers whether it was one: a first byte of zero says
    /// that nothing came.
    pub fn on_response(&mut self, resp: &[u8; 16]) -> (counted: bool)
        requires
            old(self).in_flight > i64::MIN,
        ensures
            counted == (resp@[0] != 0),
            final(self)@ == (if resp@[0] == 0 {
                old(self)@
            } else {
                SendStateView {
                    in_flight: old(self)@.in_flight - 1,
                    deadlines: if resp@[0] == 20 {
                        old(self)@.deadlines.remove(be_value(resp@.subrange(8, 16)) as u64)
                    } else {
                        old(self)@.deadlines
                    },
                    ..old(self)@
                }
            }),
    {
        if resp[0] == 0 {
            return false;
        }
        if resp[0] == 20 {
            let id: u64 = read_u64(resp.as_slice(), 8);
            self.deadlines.remove(&id);
        }
        self.in_flight = self.in_flight - 1;
        true
    }

    /// Whether the round goes on: while workers run, or chunks are held to be on their way.
    pub fn round_goes_on(&self, threads: u64, seen_in_flight: i64) -> (yes: bool)
        ensures
            yes == (threads > self@.dead_threads || seen_in_flight > 0),
    {
        threads > self.dead_threads || seen_in_flight > 0
    }

    /// Lets the chunks wait that the receiver named as missing.
    pub fn add_missing(&mut self, ids: Vec<u64>)
        ensures
            final(self)@ == (SendStateView { queue: old(self)@.queue + ids@, ..old(self)@ }),
    {
        let mut missing: Vec<u64> = ids;
        self.queue.append(&mut missing);
    }
}

/// How many workers a round has.
pub fn thread_count(chunks_len: u64) -> (n: u64)
    ensures
        n == (if chunks_len < COMPACT_THREADS {
            chunks_len
        } else {
            COMPACT_THREADS
        }),
{
    if chunks_len < COMPACT_THREADS {
        chunks_len
    } else {
        COMPACT_THREADS
    }
}

/// The message with the sender's digest.
pub fn hash_message(digest: &[u8; 32]) -> (message: Vec<u8>)
    ensures
        message@ == seq![4u8] + digest@,
{
    let mut message: Vec<u8> = Vec::new();
    message.push(4);
    push_all(&mut message, digest.as_slice());
    assert(message@ =~= seq![4u8] + digest@);
    message
}

/// How far a sender has come.
#[derive(Clone, Copy, Debug, PartialEq, Eq, Structural)]
pub enum SendPhase {
    /// Chunks go out.
    Round,
    /// The answer to the question what is missing is awaited.
    AwaitCode,
    /// How many chunks are missing is awaited.
    AwaitCount,
    /// The numbers of so many chunks are awaited.
    AwaitIds(u64),
    /// That the receiver is ready is awaited.
    AwaitReady,
    /// The receiver's verdict on the digest is awaited.
    AwaitVerdict,
    Done,
}

/// What happened on the sender's side.
#[derive(Debug)]
pub enum SendEvent {
    /// All workers have ended.
    RoundOver,
    /// A byte came.
    Byte(u8),
    /// Eight bytes came, as a number.
    Count(u64),
    /// The numbers of chunks came.
    Ids(Vec<u64>),
}

/// What a sender does next.
#[derive(Clone, Copy, Debug, PartialEq, Eq, Structural)]
pub enum SendAction {
    /// Ask what is missing, and read a byte.
    AskMissing,
    ReadByte,
    /// Read eight bytes.
    ReadCount,
    /// Read the numbers of so many chunks.
    ReadIds(u64),
    /// Send the digest, and read a byte.
    SendHash,
    /// Start a round.
    StartRound,
    Finish,
    /// Nothing that was awaited.
    Ignore,
}

/// The next phase of a sender, and what it does.
pub open spec fn send_next(phase: SendPhase, event: SendEvent) -> (SendPhase, SendAction) {
    match (phase, event) {
        (SendPhase::Round, SendEvent::RoundOver) => (SendPhase::AwaitCode, SendAction::AskMissing),
        (SendPhase::AwaitCode, SendEvent::Byte(b)) => if b == 23 {
            (SendPhase::AwaitCount, SendAction::ReadCount)
        } else {
            (SendPhase::AwaitCode, SendAction::ReadByte)
        },
        (SendPhase::AwaitCount, SendEvent::Count(n)) => if n == 0 {
            (SendPhase::AwaitReady, SendAction::ReadByte)
        } else {
            (SendPhase::AwaitIds(n), SendAction::ReadIds(n))
        },
        (SendPhase::AwaitIds(_), SendEvent::Ids(_)) => (SendPhase::Round, SendAction::StartRound),
        (SendPhase::AwaitReady, SendEvent::Byte(b)) => if b == 21 {
            (SendPhase::AwaitVerdict, SendAction::SendHash)
        } else {
            (SendPhase::AwaitReady, SendAction::ReadByte)
        },
        (SendPhase::AwaitVerdict, SendEvent::Byte(b)) => if b == 24 {
            (SendPhase::Done, SendAction::Finish)
        } else {
            (SendPhase::AwaitVerdict, SendAction::ReadByte)
        },
        (p, _) => (p, SendAction::Ignore),
    }
}

impl SendState {
    /// Takes in what happened. Chunks that the receiver names as missing wait for the next round.
    pub fn step(&mut self, phase: SendPhase, event: SendEvent) -> (next: (SendPhase, SendAction))
        ensures
            next == send_next(phase, event),
            final(self)@ == (match (phase, event) {
                (SendPhase::AwaitIds(_), SendEvent::Ids(ids)) => SendStateView {
                    queue: old(self)@.queue + ids@,
                    in_flight: 0,
                    dead_threads: 0,
                    ..old(self)@
                },
                _ => old(self)@,
            }),
    {
        match phase {
            SendPhase::Round => match event {
                SendEvent::RoundOver => (SendPhase::AwaitCode, SendAction::AskMissing),
                _ => (phase, SendAction::Ignore),
            },
            SendPhase::AwaitCode => match event {
                SendEvent::Byte(23) => (SendPhase::AwaitCount, SendAction::ReadCount),
                SendEvent::Byte(_) => (SendPhase::AwaitCode, SendAction::ReadByte),
                _ => (phase, SendAction::Ignore),
            },
            SendPhase::AwaitCount => match event {
                SendEvent::Count(0) => (SendPhase::AwaitReady, SendAction::ReadByte),
                SendEvent::Count(n) => (SendPhase::AwaitIds(n), SendAction::ReadIds(n)),
                _ => (phase, SendAction::Ignore),
            },
            SendPhase::AwaitIds(_) => match event {
                SendEvent::Ids(ids) => {
                    self.add_missing(ids);
                    self.start_round();
                    (SendPhase::Round, SendAction::StartRound)
                },
                _ => (phase, SendAction::Ignore),
            },
            SendPhase::AwaitReady => match event {
                SendEvent::Byte(21) => (SendPhase::AwaitVerdict, SendAction::SendHash),
                SendEvent::Byte(_) => (SendPhase::AwaitReady, SendAction::ReadByte),
                _ => (phase, SendAction::Ignore),
            },
            SendPhase::AwaitVerdict => match event {
                SendEvent::Byte(24) => (SendPhase::Done, SendAction::Finish),
                SendEvent::Byte(_) => (SendPhase::AwaitVerdict, SendAction::ReadByte),
                _ => (phase, SendAction::Ignore),
            },
            SendPhase::Done => (phase, SendAction::Ignore),
        }
    }
}

/// A digest is sent only to a receiver that is ready, which is awaited only once nothing is
/// missing; and a transfer is done only on the receiver's word.
pub proof fn transfers_end_on_the_receivers_word(phase: SendPhase, event: SendEvent)
    ensures
        send_next(phase, event).0 is AwaitReady && phase !is AwaitReady ==> event
            == SendEvent::Count(0),
        send_next(phase, event).1 is SendHash ==> phase is AwaitReady && event
            == SendEvent::Byte(21),
        send_next(phase, event).0 is Done && phase !is Done ==> phase is AwaitVerdict && event
            == SendEvent::Byte(24),
{
}

/// A sender that hears what it waits for goes on: it asks what is missing after a round, sends what
/// is named, sends its digest once nothing is missing and the receiver is ready, and ends when the
/// receiver has confirmed it. Any other byte is passed over.
pub proof fn senders_go_on_when_answered(b: u8, n: u64, ids: Vec<u64>)
    ensures
        send_next(SendPhase::Round, SendEvent::RoundOver) == (
            SendPhase::AwaitCode,
            SendAction::AskMissing,
        ),
        send_next(SendPhase::AwaitIds(n), SendEvent::Ids(ids)) == (
            SendPhase::Round,
            SendAction::StartRound,
        ),
        send_next(SendPhase::AwaitCode, SendEvent::Byte(b)).0 is AwaitCount <==> b == 23,
        b != 23 ==> send_next(SendPhase::AwaitCode, SendEvent::Byte(b)) == (
            SendPhase::AwaitCode,
            SendAction::ReadByte,
        ),
        send_next(SendPhase::AwaitCount, SendEvent::Count(n)) == (if n == 0 {
            (SendPhase::AwaitReady, SendAction::ReadByte)
        } else {
            (SendPhase::AwaitIds(n), SendAction::ReadIds(n))
        }),
        send_next(SendPhase::AwaitReady, SendEvent::Byte(b)) == (if b == 21 {
            (SendPhase::AwaitVerdict, SendAction::SendHash)
        } else {
            (SendPhase::AwaitReady, SendAction::ReadByte)
        }),
        send_next(SendPhase::AwaitVerdict, SendEvent::Byte(b)) == (if b == 24 {
            (SendPhase::Done, SendAction::Finish)
        } else {
            (SendPhase::AwaitVerdict, SendAction::ReadByte)
        }),
{
}

/// A chunk is late just once its time is over.
pub proof fn chunks_are_late_after_their_time(s: SendStateView, id: u64, now: u64)
    ensures
        s.late(now).contains(id) == (s.deadlines.contains_key(id) && s.deadlines[id] < now),
{
}

} // verus!
