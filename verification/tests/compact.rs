use std::collections::HashSet;

use filecloud::client::reinit::PartAcc;
use filecloud::compact::receiver::{
    answer_on, body_len, build_complete, build_missing, chunk_location,
    execute_final_completion_check, final_header, not_found, recieve_chunk, store_chunk, take_job,
    too_fast, FinalStep, StreamEvent, StreamNext, Transfer, WorkerJob, MAX_STORED,
};
use filecloud::compact::request::{handle_request, requested_write, Request, RequestType};
use filecloud::compact::response::{begin_answer, send_feedback, ErrorTransfer};
use filecloud::compact::resume::{
    announced_chunks, merge_chunks, missing_directory, quoted_temp_path, resume_target,
    temp_path_of, update_config, ConfigFile,
};
use filecloud::compact::sender::{
    announce, chunk_span, chunks_len, first_message, hash_message, initial_chunks, send_chunk,
    thread_count, SendAction, SendEvent, SendPhase, SendState, Turn, CHUNK_TIME,
};
use filecloud::compact::server;
use filecloud::compact::size::{decode_size, encode_file_size, COMPACT_PAYLOAD};
use filecloud::digest::hash_file;
use filecloud::ids::Uuid;
use filecloud::response::{Code, TransferSuccess};
use filecloud::sender::read_ids;
use filecloud::wire::CHUNK_SIZE;

const P: u64 = COMPACT_PAYLOAD;

fn id(n: u8) -> Uuid {
    Uuid { bytes: [n; 16] }
}

fn padded(bytes: &[u8]) -> [u8; CHUNK_SIZE] {
    let mut buf = [0u8; CHUNK_SIZE];
    buf[..bytes.len()].copy_from_slice(bytes);
    buf
}

fn frame(chunk: u64, data: &[u8]) -> ([u8; 10], Vec<u8>) {
    let sent = send_chunk(chunk, data);
    let mut header = [0u8; 10];
    header.copy_from_slice(&sent[1..11]);
    (header, sent[11..].to_vec())
}

#[test]
fn every_compact_error_has_its_code_and_message() {
    let all: [(ErrorTransfer, u8, &str); 9] = [
        (ErrorTransfer::InvalidLength, 40, "40 invalid length"),
        (ErrorTransfer::InvalidUuid, 40, "40 invalid uuid"),
        (ErrorTransfer::Overflow, 40, "40 request too big"),
        (ErrorTransfer::NotFound, 44, "44 not found"),
        (ErrorTransfer::NotInitialized, 45, "45 not initialized"),
        (ErrorTransfer::AlreadyInitialized, 46, "46 already initialized"),
        (ErrorTransfer::ThisFileExists, 41, "41 file with this name already exists"),
        (ErrorTransfer::InternalServerError, 50, "50 internal server error"),
        (ErrorTransfer::TooFast, 51, "51 too fast"),
    ];
    for (error, code, message) in all {
        assert_eq!(error.get_code(), code);
        assert_eq!(error.get_message(), message.as_bytes());
        let feedback = send_feedback(Err(error));
        assert_eq!(feedback[0], code);
        assert_eq!(&feedback[1..=message.len()], message.as_bytes());
        assert!(feedback[message.len() + 1..].iter().all(|b| *b == 0));
    }
    let feedback = send_feedback(Ok(TransferSuccess::Success));
    assert_eq!(feedback[..4], [20, b'o', b'k', 0]);
    assert_eq!(begin_answer()[..4], [20, b'o', b'k', 0]);
    assert_eq!(begin_answer().len(), 32);
}

#[test]
fn sizes_are_read_back() {
    for size in [0u64, 1, 127, 128, P, 1 << 40, (1 << 49) - 1] {
        assert_eq!(decode_size(&encode_file_size(size)), Ok(size));
    }
    assert_eq!(encode_file_size(300), [44, 2, 0, 0, 0, 0, 0]);
    assert_eq!(encode_file_size(1 << 49), [0; 7]);
    assert_eq!(decode_size(&[0x81, 0, 0, 0, 0, 0, 0]), Ok(1));
    assert_eq!(decode_size(&[0; 6]), Err(ErrorTransfer::InvalidLength));
}

#[test]
fn requests_are_deciphered() {
    let known = [RequestType::Disconnect, RequestType::Init, RequestType::ChunkTransfer];
    for (code, kind) in known.into_iter().enumerate() {
        assert_eq!(RequestType::get_type(code as u8), kind);
        let request = Request::decipher(&padded(&[code as u8, 7])).unwrap();
        assert_eq!(request.request_type, kind);
        assert_eq!((request.contents.len(), request.contents[0]), (CHUNK_SIZE - 1, 7));
    }
    assert_eq!(RequestType::get_type(3), RequestType::Unknown);
    assert_eq!(
        Request::decipher(&padded(&[3])).map(|r| r.contents.len()),
        Err(ErrorTransfer::NotFound)
    );
    assert_eq!(handle_request(&padded(&[1]), true), Err(ErrorTransfer::AlreadyInitialized));
    assert_eq!(handle_request(&padded(&[2]), true), Ok(TransferSuccess::Success));
    assert_eq!(
        handle_request(&padded(&[2]), false),
        Err(ErrorTransfer::InternalServerError)
    );
    assert_eq!(handle_request(&padded(&[9]), true), Err(ErrorTransfer::NotFound));
}

#[test]
fn requested_chunks_are_written_at_their_place() {
    let data = padded(&[2, 99, 0, 0, 0, 0, 0, 0, 1, 2, 0, 3, 7, 8, 9, 10]);
    let write = requested_write(&data).unwrap();
    assert_eq!((write.id, write.bytes, write.location), (258, vec![7, 8, 9], 258 * P));
    let empty = requested_write(&padded(&[2])).unwrap();
    assert_eq!((empty.id, empty.bytes.len(), empty.location), (0, 0, 0));
    assert!(requested_write(&padded(&[1])).is_none());
    assert!(requested_write(&padded(&[9])).is_none());
}

#[test]
fn missing_chunks_are_asked_for_and_read() {
    let message = build_missing(&vec![0, 258]);
    let mut s = SendState::new(vec![5]);
    let (phase, action) = s.step(SendPhase::AwaitCode, SendEvent::Byte(message[0]));
    assert_eq!(action, SendAction::ReadCount);
    let count = u64::from_be_bytes(message[1..9].try_into().unwrap());
    let (phase, action) = s.step(phase, SendEvent::Count(count));
    assert_eq!(action, SendAction::ReadIds(2));
    let (_, action) = s.step(phase, SendEvent::Ids(read_ids(&message[9..])));
    assert_eq!(action, SendAction::StartRound);
    assert_eq!(s.queue, [5, 0, 258]);
    assert_eq!(build_complete(), build_missing(&Vec::new()));
}

#[test]
fn announcements_open_a_file() {
    let data = padded(&announce(&id(9), 2 * P + 1, b"test.txt"));
    assert_eq!(server::announced_path(&data), Some("./storage/test.txt".to_string()));
    match server::greet(&data, false, true) {
        server::Greeting::Begin(file, answer) => {
            assert_eq!((file.uuid, file.file_size_chunks), (id(9), 3));
            assert_eq!(file.path, "./storage/test.txt");
            assert_eq!(answer, begin_answer());
        }
        _ => panic!("not begun"),
    }
    match server::greet(&data, true, true) {
        server::Greeting::Retry(answer) => assert_eq!(answer[0], 41),
        _ => panic!("not refused"),
    }
    match server::greet(&data, false, false) {
        server::Greeting::Retry(answer) => assert_eq!(answer[0], 50),
        _ => panic!("not refused"),
    }
    match server::greet(&padded(&[2]), false, true) {
        server::Greeting::Retry(answer) => assert_eq!(answer[0], 45),
        _ => panic!("not refused"),
    }
    match server::greet(&padded(&[77]), false, true) {
        server::Greeting::Refuse(answer) => assert_eq!(answer[0], 44),
        _ => panic!("not refused"),
    }
}

#[test]
fn compact_names_are_repaired() {
    let data = padded(&announce(&id(9), 1, &[b'a', 0xff]));
    assert_eq!(server::announced_path(&data), Some("./storage/a\u{fffd}".to_string()));
    assert_eq!(server::announced_path(&padded(&[2])), None);
}

#[test]
fn compact_chunks_are_read_back() {
    let size = P + 3;
    assert_eq!(chunks_len(size), 2);
    assert_eq!(chunks_len(2 * P), 3);
    assert_eq!(initial_chunks(4), [1, 2, 3]);
    assert!(initial_chunks(1).is_empty());
    assert_eq!(chunk_span(size, 1), (P, 3));
    assert_eq!(chunk_span(size, 0), (0, P as usize));
    let (header, body) = frame(258, &[7, 8]);
    assert_eq!(header, [0, 0, 0, 0, 0, 0, 1, 2, 0, 2]);
    assert_eq!(body_len(&header), 2);
    let mut stored = Vec::new();
    assert!(store_chunk(&mut stored, &header, &body));
    assert_eq!(stored[0][0], 2);
    assert_eq!(recieve_chunk(&stored[0]), (258, vec![7, 8]));
    assert_eq!(chunk_location(3), 3 * P);
}

#[test]
fn a_receiver_holds_so_many_chunks() {
    let mut t = Transfer::new(5);
    let (header, body) = frame(1, &[7]);
    for _ in 0..MAX_STORED {
        let (answer, next) = t.stream_step(StreamEvent::Chunk(header, body.clone()), 3);
        assert_eq!((answer, next), (None, StreamNext::Drain));
    }
    let (answer, next) = t.stream_step(StreamEvent::Chunk(header, body), 3);
    assert_eq!((answer, next), (Some(too_fast()), StreamNext::Drain));
    assert_eq!(too_fast().len(), 16);
    assert_eq!(too_fast()[0], 51);
    assert_eq!(t.chunks.len(), MAX_STORED);
}

#[test]
fn a_receiver_follows_the_stream() {
    let mut t = Transfer::new(1);
    assert_eq!(t.stream_step(StreamEvent::Unknown, 3), (Some(not_found()), StreamNext::Drain));
    assert_eq!(not_found().len(), 18);
    assert_eq!(not_found()[0], 44);
    assert_eq!(t.stream_step(StreamEvent::CutOff, 3), (None, StreamNext::Again));
    assert_eq!(t.stream_step(StreamEvent::Nothing, 3), (None, StreamNext::Drain));
    assert_eq!(t.stream_step(StreamEvent::Failed, 3), (None, StreamNext::Stop));
}

#[test]
fn a_receiver_says_what_is_missing() {
    let mut t = Transfer::new(1);
    assert!(!t.chunk_written(1, true));
    assert!(!t.chunk_written(5, false));
    let (answer, _) = t.stream_step(StreamEvent::Completion, 3);
    assert_eq!(answer, Some(build_missing(&vec![0, 2])));
    assert!(!t.should_die);
    t.chunk_written(0, true);
    t.chunk_written(2, true);
    t.chunk_written(2, true);
    let (answer, _) = t.stream_step(StreamEvent::Completion, 3);
    assert_eq!(answer, Some(build_complete()));
    assert_eq!(build_complete(), [23, 0, 0, 0, 0, 0, 0, 0, 0]);
    assert!(t.should_die);
    assert!(!t.finished());
    t.worker_died();
    assert!(t.finished());
}

#[test]
fn answers_leave_newest_first() {
    let mut t = Transfer::new(1);
    t.chunk_written(1, true);
    t.chunk_written(258, false);
    assert_eq!(t.next_response(), Some(answer_on(258, false)));
    assert_eq!(t.next_response(), Some(answer_on(1, true)));
    assert_eq!(t.next_response(), None);
    assert_eq!(answer_on(258, true), [20, 0, 0, 0, 0, 0, 0, 0, 0, 0, 0, 0, 0, 0, 1, 2]);
    let mut refused = [0u8; 16];
    refused[0] = 50;
    assert_eq!(answer_on(258, false), refused);
}

#[test]
fn a_receiver_saves_now_and_then() {
    let mut t = Transfer::new(1);
    for n in 0..30usize {
        assert_eq!(t.chunk_written(n, true), (n + 1) % 10 == 8);
    }
}

#[test]
fn workers_take_jobs_until_told_to_end() {
    let mut chunks = vec![padded(&[2, 1]), padded(&[2, 9])];
    assert!(matches!(take_job(&mut chunks, true), WorkerJob::Write(c) if c[1] == 9));
    assert!(matches!(take_job(&mut chunks, true), WorkerJob::Write(c) if c[1] == 1));
    assert!(matches!(take_job(&mut chunks, false), WorkerJob::Sleep));
    assert!(matches!(take_job(&mut chunks, true), WorkerJob::Die));
}

#[test]
fn the_server_counts_what_it_wrote() {
    let mut t = server::Transfer::new(1);
    t.chunk_written(1, true);
    t.chunk_written(1, true);
    t.chunk_written(9, false);
    assert_eq!(t.completion(3), build_missing(&vec![0, 2]));
    t.chunk_written(0, true);
    assert_eq!(t.completion(3), build_complete());
    assert!(t.should_die);
    assert_eq!(t.next_response(), Some(answer_on(0, true)));
    assert!(matches!(t.worker_step(), WorkerJob::Die));
    assert!(t.finished());
    let mut t = server::Transfer::new(1);
    let (header, body) = frame(1, &[7]);
    assert_eq!(t.stream_step(StreamEvent::Chunk(header, body), 3), (None, StreamNext::Drain));
    assert!(matches!(t.worker_step(), WorkerJob::Write(c) if c[11] == 7));
    assert!(matches!(t.worker_step(), WorkerJob::Sleep));
}

#[test]
fn the_last_check_compares_digests() {
    assert!(matches!(final_header(Some(4)), FinalStep::ReadHash));
    assert!(matches!(final_header(Some(0)), FinalStep::Ignore));
    for other in [Some(7), None] {
        match final_header(other) {
            FinalStep::Reply(r) => assert_eq!(r, not_found()),
            step => panic!("{step:?}"),
        }
    }
    let (reply, same) = execute_final_completion_check(&hash_file(b"a"), &hash_file(b"a"));
    assert_eq!((reply.len(), reply[0], same), (18, 24, true));
    let (reply, same) = execute_final_completion_check(&hash_file(b"a"), &hash_file(b"b"));
    assert_eq!((reply.len(), reply[0], same), (18, 47, false));
    assert_eq!(hash_message(&[5; 32])[..3], [4, 5, 5]);
}

#[test]
fn workers_wait_while_much_is_in_flight() {
    let mut s = SendState::new(vec![1, 2]);
    let mut counter: u32 = 0;
    assert_eq!(s.worker_turn(&mut counter, 0), Turn::Send(2));
    s.chunk_sent(2, true, 100);
    assert_eq!((s.in_flight, s.deadlines[&2]), (1, 100 + CHUNK_TIME));
    assert_eq!(s.worker_turn(&mut counter, 0), Turn::Send(1));
    s.chunk_sent(1, false, 100);
    assert_eq!((s.in_flight, s.deadlines.len()), (1, 1));
    s.in_flight = 6;
    for n in 1..10u32 {
        assert_eq!(s.worker_turn(&mut counter, 101 + CHUNK_TIME), Turn::Throttled);
        assert_eq!((counter, s.in_flight), (n, 6));
    }
    assert_eq!(s.worker_turn(&mut counter, 101 + CHUNK_TIME), Turn::Throttled);
    assert_eq!((counter, s.in_flight, s.deadlines.len()), (0, 5, 0));
    assert_eq!(s.worker_turn(&mut counter, 0), Turn::Dead);
    assert_eq!(s.dead_threads, 1);
}

#[test]
fn answers_are_counted() {
    let mut s = SendState::new(Vec::new());
    s.chunk_sent(258, true, 0);
    s.chunk_sent(3, true, 0);
    assert!(s.on_response(&answer_on(258, true)));
    assert_eq!((s.in_flight, s.deadlines.len()), (1, 1));
    assert!(s.on_response(&answer_on(3, false)));
    assert_eq!((s.in_flight, s.deadlines.len()), (0, 1));
    assert!(!s.on_response(&[0; 16]));
    assert_eq!(s.in_flight, 0);
    assert!(s.round_goes_on(1, 0));
    assert!(!s.round_goes_on(0, 0));
    assert!(s.round_goes_on(0, 1));
    assert_eq!((thread_count(3), thread_count(9)), (3, 5));
}

#[test]
fn a_sender_goes_from_round_to_verdict() {
    let mut s = SendState::new(vec![]);
    let mut phase = SendPhase::Round;
    let script = [
        (SendEvent::RoundOver, SendPhase::AwaitCode, SendAction::AskMissing),
        (SendEvent::Byte(20), SendPhase::AwaitCode, SendAction::ReadByte),
        (SendEvent::Byte(23), SendPhase::AwaitCount, SendAction::ReadCount),
        (SendEvent::Count(2), SendPhase::AwaitIds(2), SendAction::ReadIds(2)),
        (SendEvent::Ids(vec![0, 4]), SendPhase::Round, SendAction::StartRound),
        (SendEvent::RoundOver, SendPhase::AwaitCode, SendAction::AskMissing),
        (SendEvent::Byte(23), SendPhase::AwaitCount, SendAction::ReadCount),
        (SendEvent::Count(0), SendPhase::AwaitReady, SendAction::ReadByte),
        (SendEvent::Byte(0), SendPhase::AwaitReady, SendAction::ReadByte),
        (SendEvent::Byte(21), SendPhase::AwaitVerdict, SendAction::SendHash),
        (SendEvent::Byte(44), SendPhase::AwaitVerdict, SendAction::ReadByte),
        (SendEvent::Byte(24), SendPhase::Done, SendAction::Finish),
        (SendEvent::Byte(24), SendPhase::Done, SendAction::Ignore),
    ];
    for (event, next, action) in script {
        assert_eq!(s.step(phase, event), (next, action));
        phase = next;
    }
    assert_eq!(s.queue, [0, 4]);
}

#[test]
fn downloads_are_resumed_by_the_first_part() {
    let part = |server: &str| PartAcc {
        uuid: id(1),
        temp_path: String::new(),
        real_path: String::new(),
        server_uuid: server.to_string(),
    };
    assert_eq!(resume_target(&vec![]), None);
    assert_eq!(resume_target(&vec![part("no"), part(&id(3).to_text())]), None);
    assert_eq!(resume_target(&vec![part(&id(3).to_text()), part("no")]), Some(id(3)));
    assert_eq!(first_message(&id(3))[..2], [10, 3]);
    assert_eq!(announced_chunks(&[1; 100]), 0x01010101);
    assert_eq!(
        missing_directory(false, false),
        Some("temp location didnt exist".to_string())
    );
    assert_eq!(
        missing_directory(true, false),
        Some("stor location didnt exist".to_string())
    );
    assert_eq!(missing_directory(true, true), None);
}

#[test]
fn temp_paths_are_quoted() {
    assert_eq!(temp_path_of("x"), "./temp/x");
    for name in ["a.txt", "with \"quotes\"", "tab\there", "ąę"] {
        assert_eq!(quoted_temp_path(name), format!("./temp/{name:?}"));
    }
}

#[test]
fn records_only_grow() {
    let set = |ids: &[usize]| ids.iter().copied().collect::<HashSet<usize>>();
    let mut config = ConfigFile {
        last_changed_at: 1,
        file_size_chunks: 9,
        transfered_chunks: set(&[1, 2]),
        owner: Vec::new(),
        is_public: false,
    };
    assert!(!update_config(&mut config, &set(&[2, 1]), 5));
    assert_eq!(config.last_changed_at, 1);
    assert!(update_config(&mut config, &set(&[3]), 6));
    assert_eq!(config.transfered_chunks, set(&[1, 2, 3]));
    assert_eq!(config.last_changed_at, 6);
    let mut chunks = set(&[7]);
    merge_chunks(&mut chunks, &set(&[7, 8]));
    assert_eq!(chunks, set(&[7, 8]));
}
