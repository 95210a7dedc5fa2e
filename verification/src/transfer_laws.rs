//! What the two sides of a transfer can rely on: no chunk is lost, each side reads what the other
//! wrote, and the chunks make up the file.

use vstd::prelude::*;

use crate::file_transfer::{
    ack, completion_response, id_bytes, intake_next, lemma_missing_len, missing_below,
    request_opened, transfer_opened, InitView, IntakeAction, IntakeEvent, IntakePhase,
    TransferView,
};
use crate::mapper::{FolderView, Query};
use crate::paths::{file_name_of, names_lie_directly_inside};
use crate::response::ErrorTransfer;
use crate::sender::{
    answer_in, chunk_frame, chunk_size, chunk_start, chunks_of, completion_in, ids_in, Completion,
    Job, QueueView,
};
use crate::wire::{
    be_bytes, be_value, lemma_be_bytes_len, lemma_be_value_bound, lemma_powers,
    lemma_u64_roundtrip, CHUNK_SIZE, MSG_ACK_FAIL, MSG_ACK_OK, PAYLOAD,
};

verus! {

/// The first `n` chunks of a file, one behind the other.
pub open spec fn first_chunks(content: Seq<u8>, n: nat) -> Seq<u8>
    decreases n,
{
    if n == 0 {
        Seq::empty()
    } else {
        let id = (n - 1) as nat;
        first_chunks(content, id) + content.subrange(
            chunk_start(id) as int,
            (chunk_start(id) + chunk_size(content.len(), id)) as int,
        )
    }
}

proof fn lemma_first_chunks(content: Seq<u8>, n: nat)
    requires
        n <= chunks_of(content.len()),
    ensures
        first_chunks(content, n) == content.take(
            if chunk_start(n) < content.len() {
                chunk_start(n) as int
            } else {
                content.len() as int
            },
        ),
    decreases n,
{
    if n == 0 {
        assert(first_chunks(content, 0) =~= content.take(0));
    } else {
        let id = (n - 1) as nat;
        lemma_first_chunks(content, id);
        let start = chunk_start(id) as int;
        let end = (chunk_start(id) + chunk_size(content.len(), id)) as int;
        assert(start < content.len());
        assert(content.take(start) + content.subrange(start, end) =~= content.take(end));
    }
}

/// The chunks of a file, in order, are the file: every byte is in just one of them. None of them
/// is empty or longer than a chunk may be.
pub proof fn chunks_make_up_the_file(content: Seq<u8>)
    ensures
        first_chunks(content, chunks_of(content.len())) == content,
        forall|id: nat|
            id < chunks_of(content.len()) ==> 0 < #[trigger] chunk_size(content.len(), id)
                <= PAYLOAD,
{
    let n = chunks_of(content.len());
    lemma_first_chunks(content, n);
    assert(chunk_start(n) >= content.len());
    assert(content.take(content.len() as int) =~= content);
}

/// Whether `n` chunks hold a file of this size, and one chunk less does not.
pub open spec fn just_holds(n: int, size: int) -> bool {
    &&& size <= n * PAYLOAD
    &&& n > 0 ==> (n - 1) * PAYLOAD < size
    &&& n >= 0
}

/// The number of chunks of a file is the least that holds it.
pub proof fn chunks_just_hold_the_file(size: nat)
    ensures
        just_holds(chunks_of(size) as int, size as int),
        forall|n: int| just_holds(n, size as int) ==> n == chunks_of(size),
{
}

/// An upload is opened as it was asked for, under the name that the sent one ends in and in the
/// folder that was named, with as many chunks as the file takes: whatever the file holds, so many
/// chunks hold all of it and one less does not, they make up the file, and nothing is missing just
/// where each of them has been written. It is refused only for an unknown folder, for directories
/// that cannot be had, or for a name that is none.
pub proof fn opened_uploads_count_their_chunks(
    request: InitView,
    root: FolderView,
    dirs_ready: bool,
    content: Seq<u8>,
    written: Set<u64>,
)
    requires
        request.file_size <= u64::MAX,
        content.len() == request.file_size,
    ensures
        match request_opened(request, root, dirs_ready) {
            Ok(t) => {
                &&& t.uuid == request.uuid
                &&& t.parent_folder_uuid == request.folder_uuid
                &&& dirs_ready
                &&& root.search(Query::Folder(request.folder_uuid)) is Some
                &&& file_name_of(request.file_name) is Some
                &&& file_name_of(t.storage_path) == file_name_of(request.file_name)
                &&& just_holds(t.file_size_chunks as int, content.len() as int)
                &&& first_chunks(content, t.file_size_chunks as nat) == content
                &&& missing_below(written, t.file_size_chunks as nat).len() == 0 <==> forall|
                    i: int,
                |
                    0 <= i < content.len() ==> #[trigger] written.contains(
                        (i / PAYLOAD as int) as u64,
                    )
            },
            Err(e) => if root.search(Query::Folder(request.folder_uuid)) is None {
                e == ErrorTransfer::NotFound
            } else if !dirs_ready {
                e == ErrorTransfer::InternalServerError
            } else {
                file_name_of(request.file_name) is None && e == ErrorTransfer::InvalidFileName
            },
        },
{
    match request_opened(request, root, dirs_ready) {
        Ok(t) => {
            let n = t.file_size_chunks;
            let folder = root.at(root.search(Query::Folder(request.folder_uuid))->0);
            names_lie_directly_inside(folder.path, request.file_name);
            chunks_just_hold_the_file(request.file_size);
            chunks_make_up_the_file(content);
            completion_is_read_back(written, n);
            if missing_below(written, n as nat).len() == 0 {
                assert forall|i: int| 0 <= i < content.len() implies #[trigger] written.contains(
                    (i / PAYLOAD as int) as u64,
                ) by {
                    assert(i / (PAYLOAD as int) < n);
                }
            } else {
                missing_chunks_are_the_absent_ones(written, n);
                let id = missing_below(written, n as nat)[0];
                assert(missing_below(written, n as nat).contains(id));
                let i = id * PAYLOAD as int;
                assert(i < content.len());
                assert(i / PAYLOAD as int == id);
                assert(!written.contains((i / PAYLOAD as int) as u64));
            }
        },
        Err(_) => {},
    }
}

/// An upload that a message asks for has as many chunks as the size in the message takes.
pub proof fn requested_uploads_count_their_chunks(
    message: Seq<u8>,
    root: FolderView,
    dirs_ready: bool,
)
    ensures
        match transfer_opened(message, root, dirs_ready) {
            Ok(t) => just_holds(
                t.file_size_chunks as int,
                be_value(message.subrange(17, 25)) as int,
            ),
            Err(_) => true,
        },
        message.len() < 25 || message.len() < 42 + message[25] ==> transfer_opened(
            message,
            root,
            dirs_ready,
        ) == Err::<TransferView, ErrorTransfer>(ErrorTransfer::InvalidLength),
        message.len() >= 25 && message.len() >= 42 + message[25] ==> match transfer_opened(
            message,
            root,
            dirs_ready,
        ) {
            Ok(_) => true,
            Err(e) => e != ErrorTransfer::InvalidLength,
        },
{
    match transfer_opened(message, root, dirs_ready) {
        Ok(t) => {
            let size = be_value(message.subrange(17, 25));
            lemma_be_value_bound(message.subrange(17, 25));
            lemma_powers();
            chunks_just_hold_the_file(size);
        },
        Err(_) => {},
    }
}

/// A worker that takes a job holds it: whatever was pending still is, or is in the worker's hands.
/// There is nothing left to do just where nothing is pending and the transfer goes on.
pub proof fn taking_a_job_loses_nothing(q: QueueView)
    requires
        q.in_flight.dom().finite(),
    ensures
        match q.next() {
            (Job::Send(id), after) => q.pending() =~= after.pending().insert(id),
            (_, after) => after == q,
        },
        (q.next().0 is Done) == (!q.aborted && q.pending() =~= Set::empty()),
        (q.next().0 is Aborted) == q.aborted,
        (q.next().0 is Send) == (!q.aborted && q.queue.len() > 0),
{
    match q.next() {
        (Job::Send(id), after) => {
            assert(q.queue =~= q.queue.drop_last().push(id));
            assert forall|x: u64| q.pending().contains(x) <==> after.pending().insert(
                id,
            ).contains(x) by {
                if q.queue.to_set().contains(x) {
                    let k = choose|k: int| 0 <= k < q.queue.len() && q.queue[k] == x;
                    if k < q.queue.len() - 1 {
                        assert(after.queue[k] == x);
                    }
                }
                if after.queue.to_set().contains(x) {
                    let k = choose|k: int| 0 <= k < after.queue.len() && after.queue[k] == x;
                    assert(q.queue[k] == x);
                }
                assert(q.queue[q.queue.len() - 1] == id);
            }
            assert(q.pending().contains(id));
        },
        (job, _) => {
            if !q.aborted {
                assert(q.queue.to_set() =~= Set::empty());
                if job is Done {
                    assert(q.in_flight.dom() =~= Set::empty());
                    assert(q.pending() =~= Set::empty());
                } else {
                    let x = q.in_flight.dom().choose();
                    assert(q.in_flight.dom().contains(x));
                    assert(q.pending().contains(x));
                }
            }
        },
    }
}

/// A chunk that was sent is pending until the receiver confirms it.
pub proof fn sent_chunks_are_pending(q: QueueView, id: u64, now: u64)
    ensures
        q.sent(id, now).pending() =~= q.pending().insert(id),
{
}

/// Only a confirmation takes a chunk out of what is pending, and only the chunk that it names: it
/// is on its way no more, and nothing else changes. A failed chunk waits again, and other answers
/// change nothing.
pub proof fn only_confirmation_settles_a_chunk(q: QueueView, code: u8, id: u64)
    ensures
        code == MSG_ACK_OK ==> {
            let after = q.answered(code, id);
            &&& !after.in_flight.contains_key(id)
            &&& after.in_flight =~= q.in_flight.remove(id)
            &&& after.queue == q.queue
            &&& after.aborted == q.aborted
            &&& !q.queue.contains(id) ==> !after.pending().contains(id)
        },
        code == MSG_ACK_FAIL ==> q.answered(code, id).pending() =~= q.pending().insert(id),
        code == MSG_ACK_FAIL ==> q.answered(code, id).queue.contains(id) && !q.answered(
            code,
            id,
        ).in_flight.contains_key(id),
        code != MSG_ACK_FAIL && code != MSG_ACK_OK ==> q.answered(code, id) == q,
        forall|x: u64|
            x != id && #[trigger] q.pending().contains(x) ==> q.answered(
                code,
                id,
            ).pending().contains(x),
{
    let after = q.answered(code, id);
    if code == MSG_ACK_FAIL {
        assert(after.queue.last() == id);
        assert forall|x: u64| after.pending().contains(x) <==> q.pending().insert(id).contains(
            x,
        ) by {
            if q.queue.to_set().contains(x) {
                let k = choose|k: int| 0 <= k < q.queue.len() && q.queue[k] == x;
                assert(after.queue[k] == x);
            }
            if after.queue.to_set().contains(x) {
                let k = choose|k: int| 0 <= k < after.queue.len() && after.queue[k] == x;
                if k < q.queue.len() {
                    assert(q.queue[k] == x);
                }
            }
            assert(after.queue[after.queue.len() - 1] == id);
        }
    }
}

/// A chunk is given up for lost just once it has been on its way for longer than the timeout, and
/// the others are judged by when they themselves were sent.
pub proof fn chunks_expire_after_the_timeout(
    q: QueueView,
    id: u64,
    sent_at: u64,
    now: u64,
    timeout: u64,
    other: u64,
)
    ensures
        q.sent(id, sent_at).overdue(now, timeout).contains(id) == (now > sent_at + timeout),
        q.sent(id, sent_at).queue == q.queue,
        other != id ==> q.sent(id, sent_at).overdue(now, timeout).contains(other) == q.overdue(
            now,
            timeout,
        ).contains(other),
        q.overdue(now, timeout).contains(other) ==> q.in_flight.contains_key(other),
{
}

/// Chunks whose answer is overdue stay pending: they wait again.
pub proof fn expiry_loses_nothing(q: QueueView, expired: Seq<u64>, now: u64, timeout: u64)
    requires
        expired.to_set() == q.overdue(now, timeout),
    ensures
        (QueueView {
            queue: q.queue + expired,
            in_flight: q.in_flight.remove_keys(q.overdue(now, timeout)),
            aborted: q.aborted,
        }).pending() =~= q.pending(),
{
    let after = QueueView {
        queue: q.queue + expired,
        in_flight: q.in_flight.remove_keys(q.overdue(now, timeout)),
        aborted: q.aborted,
    };
    let due = q.overdue(now, timeout);
    assert forall|x: u64| after.pending().contains(x) <==> q.pending().contains(x) by {
        if q.queue.to_set().contains(x) {
            let k = choose|k: int| 0 <= k < q.queue.len() && q.queue[k] == x;
            assert(after.queue[k] == x);
        }
        if after.queue.to_set().contains(x) {
            let k = choose|k: int| 0 <= k < after.queue.len() && after.queue[k] == x;
            if k < q.queue.len() {
                assert(q.queue[k] == x);
            } else {
                assert(expired[k - q.queue.len()] == x);
                assert(expired.to_set().contains(x));
            }
        }
        if due.contains(x) {
            assert(expired.to_set().contains(x));
            let k = choose|k: int| 0 <= k < expired.len() && expired[k] == x;
            assert(after.queue[q.queue.len() + k] == x);
        }
    }
}

/// The sender reads the receiver's answer on a chunk.
pub proof fn answers_are_read_back(code: u8, id: u64)
    ensures
        ack(code, id).len() == 9,
        answer_in(ack(code, id)) == (code, id),
{
    lemma_be_bytes_len(id as nat, 8);
    lemma_u64_roundtrip(id);
    assert(ack(code, id).subrange(1, 9) =~= be_bytes(id as nat, 8));
}

/// The receiver reads the chunk that the sender framed: its type, its number, its length and its
/// bytes.
pub proof fn chunks_are_read_back(id: u64, payload: Seq<u8>)
    requires
        payload.len() <= PAYLOAD,
    ensures
        ({
            let frame = chunk_frame(id, payload);
            &&& frame.len() == 17 + payload.len()
            &&& frame[0] == 2
            &&& be_value(frame.subrange(1, 17).subrange(0, 8)) == id
            &&& be_value(frame.subrange(1, 17).subrange(8, 16)) == payload.len()
            &&& frame.skip(17) == payload
        }),
{
    let frame = chunk_frame(id, payload);
    let head = frame.subrange(1, 17);
    lemma_be_bytes_len(id as nat, 8);
    lemma_be_bytes_len(payload.len(), 8);
    lemma_u64_roundtrip(id);
    lemma_u64_roundtrip(payload.len() as u64);
    assert(head.subrange(0, 8) =~= be_bytes(id as nat, 8));
    assert(head.subrange(8, 16) =~= be_bytes(payload.len(), 8));
    assert(frame.skip(17) =~= payload);
}

/// A receiver that waits for a message, and is given a framed chunk in the pieces that it asks for,
/// asks for just these pieces, hands on just that chunk, and waits for the next message.
pub proof fn framed_chunks_are_handed_on(
    id: u64,
    payload: Vec<u8>,
    head: [u8; 16],
    present: Set<u64>,
    chunks: u64,
    phases: (IntakePhase, IntakePhase, IntakePhase),
    actions: (IntakeAction, IntakeAction, IntakeAction),
)
    requires
        payload@.len() <= PAYLOAD,
        head@ == chunk_frame(id, payload@).subrange(1, 17),
        intake_next(
            IntakePhase::Kind,
            IntakeEvent::Byte(chunk_frame(id, payload@)[0]),
            present,
            chunks,
            phases.0,
            actions.0,
        ),
        intake_next(
            phases.0,
            IntakeEvent::Head(head),
            present,
            chunks,
            phases.1,
            actions.1,
        ),
        intake_next(
            phases.1,
            IntakeEvent::Payload(payload),
            present,
            chunks,
            phases.2,
            actions.2,
        ),
    ensures
        actions.0 is ReadHead,
        actions.1 == IntakeAction::ReadPayload(payload@.len() as usize),
        actions.2 == IntakeAction::Store(id, payload),
        phases.2 == IntakePhase::Kind,
{
    chunks_are_read_back(id, payload@);
}

/// Numbers of chunks are read back from their bytes.
pub proof fn lemma_id_bytes(ids: Seq<u64>)
    ensures
        id_bytes(ids).len() == 8 * ids.len(),
        ids_in(id_bytes(ids)) == ids,
    decreases ids.len(),
{
    if ids.len() == 0 {
        assert(ids_in(id_bytes(ids)) =~= ids);
    } else {
        let rest = ids.drop_last();
        let all = id_bytes(ids);
        let head = id_bytes(rest);
        lemma_id_bytes(rest);
        lemma_be_bytes_len(ids.last() as nat, 8);
        lemma_u64_roundtrip(ids.last());
        assert forall|i: int| 0 <= i < ids.len() implies #[trigger] ids_in(all)[i] == ids[i] by {
            if i < rest.len() {
                assert(all.subrange(8 * i, 8 * i + 8) =~= head.subrange(8 * i, 8 * i + 8));
                assert(ids_in(head)[i] == rest[i]);
            } else {
                assert(all.subrange(8 * i, 8 * i + 8) =~= be_bytes(ids.last() as nat, 8));
            }
        }
        assert(ids_in(all) =~= ids);
    }
}

/// What is missing, by number: just the chunks of the file that are not present, each once and in
/// ascending order.
pub proof fn missing_chunks_are_the_absent_ones(present: Set<u64>, n: u64)
    ensures
        ({
            let missing = missing_below(present, n as nat);
            &&& forall|id: u64|
                #[trigger] missing.contains(id) <==> id < n && !present.contains(id)
            &&& forall|i: int, j: int| 0 <= i < j < missing.len() ==> missing[i] < missing[j]
        }),
{
    lemma_missing(present, n as nat);
}

proof fn lemma_missing(present: Set<u64>, n: nat)
    requires
        n <= u64::MAX,
    ensures
        ({
            let missing = missing_below(present, n);
            &&& forall|id: u64|
                #[trigger] missing.contains(id) <==> id < n && !present.contains(id)
            &&& forall|i: int, j: int| 0 <= i < j < missing.len() ==> missing[i] < missing[j]
        }),
    decreases n,
{
    if n > 0 {
        let rest = missing_below(present, (n - 1) as nat);
        let missing = missing_below(present, n);
        lemma_missing(present, (n - 1) as nat);
        assert forall|id: u64| #[trigger] missing.contains(id) <==> id < n && !present.contains(
            id,
        ) by {
            if rest.contains(id) {
                let k = choose|k: int| 0 <= k < rest.len() && rest[k] == id;
                assert(missing[k] == id);
            }
            if missing.contains(id) {
                let k = choose|k: int| 0 <= k < missing.len() && missing[k] == id;
                if k < rest.len() {
                    assert(rest[k] == id);
                    assert(rest.contains(id));
                }
            }
            if id == n - 1 && !present.contains(id) {
                assert(missing[rest.len() as int] == id);
            }
        }
        assert forall|i: int, j: int| 0 <= i < j < missing.len() implies missing[i]
            < missing[j] by {
            if j == rest.len() {
                assert(rest.contains(rest[i]));
            }
        }
    }
}

/// The sender reads what the receiver says is missing: that nothing is, where every chunk is
/// present, and otherwise just the missing chunks. The answer is never taken for anything else.
pub proof fn completion_is_read_back(present: Set<u64>, n: u64)
    ensures
        ({
            let message = completion_response(present, n);
            let missing = missing_below(present, n as nat);
            &&& message.len() == 9 + 8 * missing.len()
            &&& if missing.len() == 0 {
                completion_in(message.take(9), n) is Complete
            } else {
                completion_in(message.take(9), n) == Completion::Missing(missing.len() as u64)
            }
            &&& ids_in(message.skip(9)) == missing
        }),
        (missing_below(present, n as nat).len() == 0) == (forall|id: u64|
            id < n ==> present.contains(id)),
{
    let message = completion_response(present, n);
    let missing = missing_below(present, n as nat);
    lemma_missing_len(present, n as nat);
    lemma_id_bytes(missing);
    lemma_be_bytes_len(missing.len(), 8);
    lemma_u64_roundtrip(missing.len() as u64);
    assert(message.take(9).subrange(1, 9) =~= be_bytes(missing.len(), 8));
    assert(message.skip(9) =~= id_bytes(missing));
    missing_chunks_are_the_absent_ones(present, n);
    if missing.len() == 0 {
        assert forall|id: u64| id < n implies present.contains(id) by {
            assert(!missing.contains(id));
        }
    } else {
        assert(missing.contains(missing[0]));
        assert(missing[0] < n && !present.contains(missing[0]));
    }
}

/// Once every chunk that was missing has arrived, nothing is missing any more.
pub proof fn resending_the_missing_completes(present: Set<u64>, n: u64)
    ensures
        missing_below(present + missing_below(present, n as nat).to_set(), n as nat).len() == 0,
{
    let missing = missing_below(present, n as nat);
    let after = present + missing.to_set();
    missing_chunks_are_the_absent_ones(present, n);
    missing_chunks_are_the_absent_ones(after, n);
    let left = missing_below(after, n as nat);
    if left.len() > 0 {
        let id = left[0];
        assert(left.contains(id));
        assert(missing.contains(id));
        assert(missing.to_set().contains(id));
    }
}

/// A file after `bytes` were written into it at `offset`. What lies between its old end and
/// `offset` is zero.
pub open spec fn written_at(file: Seq<u8>, offset: nat, bytes: Seq<u8>) -> Seq<u8> {
    let end = offset + bytes.len();
    Seq::new(
        if file.len() > end {
            file.len()
        } else {
            end
        },
        |i: int|
            if offset <= i < end {
                bytes[i - offset]
            } else if i < file.len() {
                file[i]
            } else {
                0
            },
    )
}

/// The bytes of one chunk of a file.
pub open spec fn chunk_of(content: Seq<u8>, id: nat) -> Seq<u8> {
    content.subrange(
        chunk_start(id) as int,
        (chunk_start(id) + chunk_size(content.len(), id)) as int,
    )
}

/// What a receiver has written once the chunks of a file have come in some order.
pub open spec fn received(content: Seq<u8>, order: Seq<u64>) -> Seq<u8>
    decreases order.len(),
{
    if order.len() == 0 {
        Seq::empty()
    } else {
        let id = order.last() as nat;
        written_at(received(content, order.drop_last()), chunk_start(id), chunk_of(content, id))
    }
}

/// Which chunk a byte belongs to.
pub open spec fn chunk_holding(i: nat) -> nat {
    i / PAYLOAD as nat
}

/// Byte `i` of a file has been written as it is.
spec fn byte_arrived(file: Seq<u8>, content: Seq<u8>, i: int) -> bool {
    i < file.len() && file[i] == content[i]
}

proof fn lemma_received(content: Seq<u8>, order: Seq<u64>, i: int)
    requires
        content.len() <= u64::MAX,
        0 <= i < content.len(),
        forall|k: int| 0 <= k < order.len() ==> (#[trigger] order[k]) < chunks_of(content.len()),
    ensures
        received(content, order).len() <= content.len(),
        order.contains(chunk_holding(i as nat) as u64) ==> byte_arrived(
            received(content, order),
            content,
            i,
        ),
    decreases order.len(),
{
    if order.len() > 0 {
        let rest = order.drop_last();
        let id = order.last() as nat;
        let c = chunk_holding(i as nat);
        lemma_received(content, rest, i);
        assert(order[order.len() - 1] < chunks_of(content.len()));
        assert(chunk_start(id) < content.len());
        assert(chunk_start(c) <= i < chunk_start(c) + PAYLOAD);
        if order.contains(c as u64) && c != id {
            let k = choose|k: int| 0 <= k < order.len() && order[k] == c as u64;
            assert(rest[k] == c as u64);
            assert(chunk_start(c) + PAYLOAD <= chunk_start(id) || chunk_start(id) + PAYLOAD
                <= chunk_start(c));
        }
    }
}

/// A file arrives whole, in whatever order its chunks come and however often: once each of them
/// has been written, what was received is what was sent.
pub proof fn files_arrive_whole(content: Seq<u8>, order: Seq<u64>)
    requires
        content.len() <= u64::MAX,
        forall|k: int| 0 <= k < order.len() ==> (#[trigger] order[k]) < chunks_of(content.len()),
        forall|id: u64| id < chunks_of(content.len()) ==> #[trigger] order.contains(id),
    ensures
        received(content, order) == content,
{
    assert forall|i: int| 0 <= i < content.len() implies #[trigger] byte_arrived(
        received(content, order),
        content,
        i,
    ) by {
        lemma_received(content, order, i);
        assert(chunk_holding(i as nat) < chunks_of(content.len()));
        assert(order.contains(chunk_holding(i as nat) as u64));
    }
    if content.len() > 0 {
        lemma_received(content, order, 0);
        assert(byte_arrived(received(content, order), content, content.len() - 1));
        assert forall|i: int| 0 <= i < content.len() implies received(content, order)[i]
            == content[i] by {
            assert(byte_arrived(received(content, order), content, i));
        }
    } else {
        if order.len() > 0 {
            assert(order[0] < chunks_of(content.len()));
        }
    }
    assert(received(content, order) =~= content);
}

/// The answer to the question what is missing is told from any other by its first byte; one that
/// names more chunks than the file has is not believed.
pub proof fn only_plausible_answers_are_believed(header: Seq<u8>, chunks_len: u64)
    ensures
        completion_in(header, chunks_len) is Unrelated <==> header[0] != 23,
        header[0] == 23 ==> {
            let count = be_value(header.subrange(1, 9));
            &&& completion_in(header, chunks_len) is Complete <==> count == 0
            &&& completion_in(header, chunks_len) is Implausible <==> count > chunks_len
            &&& completion_in(header, chunks_len) matches Completion::Missing(n) ==> n == count
        },
{
}

/// A receiver takes each message for what its first byte says, reads as many bytes of a chunk as
/// its head announces, unless that is more than a chunk may hold, and hands them on under the
/// number in the head. Any failure ends the transfer.
pub proof fn receivers_follow_the_sender(
    phase: IntakePhase,
    event: IntakeEvent,
    present: Set<u64>,
    chunks: u64,
    next: IntakePhase,
    action: IntakeAction,
)
    requires
        intake_next(phase, event, present, chunks, next, action),
    ensures
        event is Failed ==> next is Closed && action is Finish && action->Finish_0 is Err,
        phase is Closed ==> next is Closed,
        phase is Kind && event == IntakeEvent::Byte(4) ==> next is Closed
            && action == IntakeAction::Finish(Ok(())),
        phase is Kind && event == IntakeEvent::Byte(3) ==> next is Kind && action is Answer,
        phase is Kind && event == IntakeEvent::Byte(2) ==> next is Head && action is ReadHead,
        phase is Kind && event is Byte && event->Byte_0 != 2 && event->Byte_0 != 3
            && event->Byte_0 != 4 ==> next is Kind && action is ReadByte,
        action is Finish && action->Finish_0 is Ok ==> phase is Kind && event
            == IntakeEvent::Byte(4),
        phase is Head ==> (event matches IntakeEvent::Head(h) ==> {
            let id = be_value(h@.subrange(0, 8));
            let len = be_value(h@.subrange(8, 16));
            if len <= PAYLOAD {
                next == IntakePhase::Payload(id as u64) && action == IntakeAction::ReadPayload(
                    len as usize,
                )
            } else {
                next is Closed
            }
        }),
        phase matches IntakePhase::Payload(id) ==> (event matches IntakeEvent::Payload(bytes)
            ==> next is Kind && action == IntakeAction::Store(id, bytes)),
{
}

/// A chunk's frame is never longer than the largest message, and a full chunk just fills it.
pub proof fn frames_fit_into_a_message(id: u64, payload: Seq<u8>)
    requires
        payload.len() <= PAYLOAD,
    ensures
        chunk_frame(id, payload).len() == 17 + payload.len(),
        chunk_frame(id, payload).len() <= CHUNK_SIZE,
        payload.len() == PAYLOAD ==> chunk_frame(id, payload).len() == CHUNK_SIZE,
        CHUNK_SIZE == 32768,
{
    lemma_be_bytes_len(id as nat, 8);
    lemma_be_bytes_len(payload.len(), 8);
}

} // verus!
