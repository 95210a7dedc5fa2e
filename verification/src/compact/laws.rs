//! What the two sides of the compact protocol can rely on.

use vstd::prelude::*;

use crate::compact::receiver::{
    absent_below, chunks_after, download_completion, missing_answer, short_answer, stored,
    stored_chunk, stream_next, stream_reply, takes, StreamEvent, WorkerJob, MAX_STORED,
};
use crate::compact::response::filled;
use crate::compact::sender::{send_next, SendAction, SendEvent, SendPhase};
use crate::compact::server::{compact_chunks, storage_path, unwritten_below, upload_completion};
use crate::compact::size::{
    size_bytes, size_value, sizes_are_read_back, COMPACT_PAYLOAD,
};
use crate::credentials::padded;
use crate::file_transfer::id_bytes;
use crate::guest_request_file::guest_frame;
use crate::ids::{lemma_le_roundtrip, lemma_uuid_of, swap_fields, uuid_of, Uuid};
use crate::sender::ids_in;
use crate::text::readable;
use crate::transfer_laws::lemma_id_bytes;
use crate::wire::{
    be_bytes, be_value, lemma_be_bytes_len, lemma_u16_roundtrip, lemma_u64_roundtrip, zeros,
    CHUNK_SIZE,
};

verus! {

/// The server reads the file that a sender announced: the transfer, the number of chunks and the
/// name.
pub proof fn announcement_is_read_back(transfer: Uuid, file_size: u64, name: Seq<u8>)
    requires
        file_size < 0x2_0000_0000_0000,
        name.len() <= 255,
    ensures
        ({
            let data = padded(
                seq![1u8] + swap_fields(transfer.bytes@) + size_bytes(file_size as nat, 7) + seq![
                    (name.len() % 256) as u8,
                ] + name,
            );
            let contents = data.skip(1);
            &&& data[0] == 1
            &&& uuid_of(swap_fields(contents.subrange(0, 16))) == transfer
            &&& size_value(contents.subrange(16, 23)) == file_size
            &&& file_size <= compact_chunks(size_value(contents.subrange(16, 23)))
                * COMPACT_PAYLOAD
            &&& file_size > 0 ==> (compact_chunks(size_value(contents.subrange(16, 23))) - 1)
                * COMPACT_PAYLOAD < file_size
            &&& file_size == 0 ==> compact_chunks(size_value(contents.subrange(16, 23))) == 0
            &&& storage_path(contents) == "./storage/"@ + readable(name)
        }),
{
    let data = padded(
        seq![1u8] + swap_fields(transfer.bytes@) + size_bytes(file_size as nat, 7) + seq![
            (name.len() % 256) as u8,
        ] + name,
    );
    let contents = data.skip(1);
    let n = name.len() as int;
    sizes_are_read_back(file_size);
    assert(contents.subrange(0, 16) =~= swap_fields(transfer.bytes@));
    assert(contents.subrange(16, 23) =~= size_bytes(file_size as nat, 7));
    assert(contents[23] == n as u8);
    assert(contents.subrange(24, 24 + n) =~= name);
    lemma_le_roundtrip(transfer.bytes@);
    lemma_uuid_of(transfer);
}

/// The number of chunks that the server counts is the least that holds a file of this size.
pub proof fn counted_chunks_just_hold_the_file(size: nat, n: nat)
    ensures
        size <= compact_chunks(size) * COMPACT_PAYLOAD,
        n < compact_chunks(size) ==> n * COMPACT_PAYLOAD < size,
        size <= n * COMPACT_PAYLOAD ==> compact_chunks(size) <= n,
{
}

/// The receiver stores and reads the chunk that the sender framed.
pub proof fn chunks_are_read_back(id: u64, data: Seq<u8>)
    requires
        data.len() <= COMPACT_PAYLOAD,
    ensures
        ({
            let frame = guest_frame(id, data);
            let header = frame.subrange(1, 11);
            let body = frame.skip(11);
            &&& be_value(header.subrange(8, 10)) == body.len()
            &&& stored_chunk(stored(header, body)) == (id, data)
        }),
{
    let frame = guest_frame(id, data);
    let header = frame.subrange(1, 11);
    let body = frame.skip(11);
    let contents = stored(header, body);
    lemma_be_bytes_len(id as nat, 8);
    lemma_be_bytes_len(data.len(), 2);
    lemma_u64_roundtrip(id);
    lemma_u16_roundtrip(data.len() as u16);
    assert(body =~= data);
    assert(header.subrange(8, 10) =~= be_bytes(data.len(), 2));
    assert(contents.subrange(1, 9) =~= be_bytes(id as nat, 8));
    assert(contents.subrange(9, 11) =~= be_bytes(data.len(), 2));
    assert(contents.subrange(11, 11 + data.len() as int) =~= data);
}

/// The sender reads which chunk an answer confirms.
pub proof fn answers_are_read_back(id: u64)
    ensures
        short_answer(20, Some(id)).len() == 16,
        short_answer(20, Some(id))[0] == 20,
        be_value(short_answer(20, Some(id)).subrange(8, 16)) == id,
{
    lemma_be_bytes_len(id as nat, 8);
    lemma_u64_roundtrip(id);
    assert(short_answer(20, Some(id)).subrange(8, 16) =~= be_bytes(id as nat, 8));
}

/// The sender reads which chunks the receiver names as missing: the answer's first byte makes it
/// read their number, and that makes it read the chunks, or go on to the digest where none is
/// missing.
pub proof fn missing_answers_are_read_back(missing: Seq<u64>)
    requires
        missing.len() <= u64::MAX,
    ensures
        ({
            let message = missing_answer(missing);
            let count = missing.len() as u64;
            &&& message.len() == 9 + 8 * missing.len()
            &&& send_next(SendPhase::AwaitCode, SendEvent::Byte(message[0])) == (
                SendPhase::AwaitCount,
                SendAction::ReadCount,
            )
            &&& be_value(message.subrange(1, 9)) == count
            &&& send_next(SendPhase::AwaitCount, SendEvent::Count(count)) == (if count == 0 {
                (SendPhase::AwaitReady, SendAction::ReadByte)
            } else {
                (SendPhase::AwaitIds(count), SendAction::ReadIds(count))
            })
            &&& ids_in(message.skip(9)) == missing
        }),
{
    lemma_id_bytes(missing);
    lemma_be_bytes_len(missing.len(), 8);
    lemma_u64_roundtrip(missing.len() as u64);
    let message = missing_answer(missing);
    assert(message.subrange(1, 9) =~= be_bytes(missing.len(), 8));
    assert(message.skip(9) =~= id_bytes(missing));
}

/// The answer that nothing is missing names no chunk.
proof fn lemma_nothing_missing()
    ensures
        filled(seq![23u8], 9) == missing_answer(Seq::empty()),
{
    let none = Seq::<u64>::empty();
    missing_answers_are_read_back(none);
    assert(be_bytes(0, 8) =~= zeros(8)) by {
        reveal_with_fuel(be_bytes, 9);
    }
    assert(filled(seq![23u8], 9) =~= missing_answer(none));
}

/// Whatever has been written, the senders of a download and of an upload read what is missing: no
/// chunk, where as many were written as the file has, otherwise just those that were not.
pub proof fn completions_are_read_back(written: Set<usize>, log: Seq<usize>, n: usize)
    ensures
        ({
            let message = download_completion(written, n as nat);
            let missing = if written.len() == n {
                Seq::empty()
            } else {
                absent_below(written, n as nat)
            };
            &&& message == missing_answer(missing)
            &&& be_value(message.subrange(1, 9)) == missing.len()
            &&& ids_in(message.skip(9)) == missing
        }),
        ({
            let message = upload_completion(log, n as nat);
            let missing = if log.len() == n {
                Seq::empty()
            } else {
                unwritten_below(log, n as nat)
            };
            &&& message == missing_answer(missing)
            &&& be_value(message.subrange(1, 9)) == missing.len()
            &&& ids_in(message.skip(9)) == missing
        }),
{
    lemma_nothing_missing();
    lemma_missing_len(written, log, n as nat);
    missing_answers_are_read_back(Seq::empty());
    missing_answers_are_read_back(absent_below(written, n as nat));
    missing_answers_are_read_back(unwritten_below(log, n as nat));
}

/// An upload misses the same chunks as a download of which the same ones were written.
pub proof fn uploads_and_downloads_miss_the_same(log: Seq<usize>, n: nat)
    ensures
        unwritten_below(log, n) == absent_below(log.to_set(), n),
    decreases n,
{
    if n > 0 {
        uploads_and_downloads_miss_the_same(log, (n - 1) as nat);
    }
}

proof fn lemma_missing_len(written: Set<usize>, log: Seq<usize>, n: nat)
    ensures
        absent_below(written, n).len() <= n,
        unwritten_below(log, n).len() <= n,
    decreases n,
{
    if n > 0 {
        lemma_missing_len(written, log, (n - 1) as nat);
    }
}

/// What is missing: just the chunks that have not arrived, in ascending order.
pub proof fn missing_chunks_are_the_absent_ones(present: Set<usize>, n: usize)
    ensures
        ({
            let missing = absent_below(present, n as nat);
            &&& forall|id: u64|
                #[trigger] missing.contains(id) <==> id < n && !present.contains(id as usize)
            &&& forall|i: int, j: int| 0 <= i < j < missing.len() ==> missing[i] < missing[j]
        }),
{
    lemma_absent(present, n as nat);
}

proof fn lemma_absent(present: Set<usize>, n: nat)
    requires
        n <= usize::MAX,
    ensures
        ({
            let missing = absent_below(present, n);
            &&& forall|id: u64|
                #[trigger] missing.contains(id) <==> id < n && !present.contains(id as usize)
            &&& forall|i: int, j: int| 0 <= i < j < missing.len() ==> missing[i] < missing[j]
        }),
    decreases n,
{
    if n > 0 {
        let rest = absent_below(present, (n - 1) as nat);
        let missing = absent_below(present, n);
        lemma_absent(present, (n - 1) as nat);
        assert forall|id: u64|
            #[trigger] missing.contains(id) <==> id < n && !present.contains(id as usize) by {
            if rest.contains(id) {
                let k = choose|k: int| 0 <= k < rest.len() && rest[k] == id;
                assert(missing[k] == id);
            }
            if missing.contains(id) {
                let k = choose|k: int| 0 <= k < missing.len() && missing[k] == id;
                if k < rest.len() {
                    assert(rest[k] == id);
                    assert(rest.contains(id));
                }
            }
            if id == n - 1 && !present.contains(id as usize) {
                assert(missing[rest.len() as int] == id);
            }
        }
        assert forall|i: int, j: int| 0 <= i < j < missing.len() implies missing[i]
            < missing[j] by {
            if j == rest.len() {
                assert(rest.contains(rest[i]));
            }
        }
    }
}

/// A chunk that comes in is stored behind those that wait, or refused for coming too fast, and
/// never both; nothing else that comes changes what waits.
pub proof fn arriving_chunks_are_stored_or_refused(
    before: Seq<[u8; CHUNK_SIZE]>,
    event: StreamEvent,
    after: Seq<[u8; CHUNK_SIZE]>,
    completion: Seq<u8>,
)
    requires
        chunks_after(before, event, after),
    ensures
        event matches StreamEvent::Chunk(header, body) ==> if before.len() < MAX_STORED {
            &&& after.len() == before.len() + 1
            &&& forall|k: int| 0 <= k < before.len() ==> #[trigger] after[k] == before[k]
            &&& after.last()@ == padded(seq![2u8] + header@ + body@)
            &&& stream_reply(before.len(), event, completion) is None
        } else {
            &&& after == before
            &&& stream_reply(before.len(), event, completion) is Some
            &&& (stream_reply(before.len(), event, completion)->0).len() == 16
            &&& (stream_reply(before.len(), event, completion)->0)[0] == 51
        },
        event !is Chunk ==> after == before,
        event is Completion ==> stream_reply(before.len(), event, completion) == Some(completion),
        event is Unknown ==> (stream_reply(before.len(), event, completion) matches Some(m)
            && m.len() == 18 && m[0] == 44),
        (event is CutOff || event is Nothing || event is Failed) ==> stream_reply(
            before.len(),
            event,
            completion,
        ) is None,
        stream_next(event) is Stop <==> event is Failed,
        stream_next(event) is Again <==> event is CutOff,
{
    if event is Chunk && before.len() < MAX_STORED {
        assert forall|k: int| 0 <= k < before.len() implies #[trigger] after[k] == before[k] by {
            assert(after.drop_last()[k] == before[k]);
        }
    }
}

/// A worker takes a chunk that waits and leaves the others; it ends only where none waits and it
/// was told to.
pub proof fn taken_chunks_leave_the_others(
    before: Seq<[u8; CHUNK_SIZE]>,
    should_die: bool,
    job: WorkerJob,
    after: Seq<[u8; CHUNK_SIZE]>,
)
    requires
        takes(before, should_die, job, after),
    ensures
        job matches WorkerJob::Write(c) ==> before == after.push(c),
        job !is Write ==> before.len() == 0 && after == before,
        job is Die ==> should_die,
        job is Sleep ==> !should_die,
{
    if before.len() > 0 {
        assert(before =~= before.drop_last().push(before.last()));
    }
}

/// A chunk that could not be written is answered with the code of the failure alone.
pub proof fn failed_chunks_are_not_confirmed(code: u8)
    ensures
        short_answer(code, None).len() == 16,
        short_answer(code, None)[0] == code,
        forall|k: int| 1 <= k < 16 ==> #[trigger] short_answer(code, None)[k] == 0,
{
}

/// A chunk's frame is never longer than the largest message, and a full chunk just fills it.
pub proof fn frames_fit_into_a_message(id: u64, data: Seq<u8>)
    requires
        data.len() <= COMPACT_PAYLOAD,
    ensures
        guest_frame(id, data).len() == 11 + data.len(),
        guest_frame(id, data).len() <= CHUNK_SIZE,
        data.len() == COMPACT_PAYLOAD ==> guest_frame(id, data).len() == CHUNK_SIZE,
{
    lemma_be_bytes_len(id as nat, 8);
    lemma_be_bytes_len(data.len(), 2);
}

} // verus!
