use std::collections::HashSet;
use std::path::Path;

use filecloud::client::app::{
    begun_upload, greet, handshake_message, upload_accepted, upload_result, Progress,
    TransferError, UploadSession,
};
use filecloud::client::reinit::first_message;
use filecloud::clock::Timestamp;
use filecloud::credentials::read_credentials;
use filecloud::digest::{
    final_byte, hash_file, hash_response, judge_hash, transfer_confirmed, HashVerdict,
};
use filecloud::file_transfer::{
    build_ack, build_completion_response, chunk_header, chunk_offset, chunk_written, claim_paths,
    copy_chunks, find_config, finish_and_register, finish_signal, incoming, init_reply,
    init_transfer, is_config, open_transfer, register_as, resume_transfer, same_chunks, setup_config,
    temp_to_storage, transfer_reply, update_config, writer_count, ConfigFile, Finish, Incoming,
    IntakeAction, IntakeEvent, IntakePhase, TransferedFile,
};
use filecloud::get_file::{
    begin_send, finish_send, greeting, initial_chunks, MissingReply, Query, SendSession, SendStep,
};
use filecloud::ids::Uuid;
use filecloud::map_store::MapStore;
use filecloud::map_tracker::Signal;
use filecloud::mapper::{AccessControl, Fil, Folder, MapError};
use filecloud::response::ErrorTransfer;
use filecloud::sender::{
    all_chunks, chunk_span, frame_chunk, get_chunks_len, read_completion, read_ids, AckReader,
    ChunkQueue, Completion, Job, ReadEvent, Retries,
};
use filecloud::text::readable_text;
use filecloud::wire::PAYLOAD;

fn id(n: u8) -> Uuid {
    Uuid { bytes: [n; 16] }
}

fn access(public: bool) -> AccessControl {
    AccessControl {
        owner: id(100),
        is_public_for_viewing: public,
        is_public_for_changing: public,
        is_visible_for: Vec::new(),
        is_editable_for: Vec::new(),
    }
}

fn store() -> MapStore {
    let t = Timestamp { secs: 0, nanos: 0 };
    let mut root = Folder::with_identity("storage", ".", access(true), id(1), t);
    root.folders.push(Folder::with_identity("two", "./storage", access(true), id(2), t));
    for (n, public) in [(10, true), (11, false)] {
        root.files.push(Fil::with_identity(
            format!("f{n}"),
            format!("./storage/f{n}"),
            access(public),
            id(n),
            t,
        ));
    }
    MapStore { inner: root }
}

fn log(ids: &[u64]) -> HashSet<u64> {
    ids.iter().copied().collect()
}

fn upload(name: &[u8], folder: &Uuid, size: u64) -> Vec<u8> {
    handshake_message(size, name, "ann", "pw", &id(9), folder)
}

#[test]
fn chunks_are_counted() {
    let p = PAYLOAD;
    for (size, n) in [(0, 0), (1, 1), (p - 1, 1), (p, 1), (p + 1, 2), (3 * p, 3)] {
        assert_eq!(get_chunks_len(size), n);
    }
    assert_eq!(get_chunks_len(u64::MAX), u64::MAX.div_ceil(p));
    assert_eq!(all_chunks(3), [0, 1, 2]);
}

#[test]
fn spans_make_up_the_file() {
    let size = 2 * PAYLOAD + 5;
    let spans: Vec<(u64, usize)> = (0..3).map(|i| chunk_span(size, i)).collect();
    assert_eq!(
        spans,
        [(0, PAYLOAD as usize), (PAYLOAD, PAYLOAD as usize), (2 * PAYLOAD, 5)]
    );
    assert_eq!(chunk_span(size, 3), (3 * PAYLOAD, 0));
}

#[test]
fn chunk_frames_are_read_back() {
    let frame = frame_chunk(258, &[7, 8, 9]);
    assert_eq!(frame, [2, 0, 0, 0, 0, 0, 0, 1, 2, 0, 0, 0, 0, 0, 0, 0, 3, 7, 8, 9]);
    let mut header = [0u8; 16];
    header.copy_from_slice(&frame[1..17]);
    assert_eq!(chunk_header(&header), Ok((258, 3)));
    header[8..16].copy_from_slice(&PAYLOAD.to_be_bytes());
    assert_eq!(chunk_header(&header), Ok((258, PAYLOAD as usize)));
    header[8..16].copy_from_slice(&(PAYLOAD + 1).to_be_bytes());
    assert_eq!(chunk_header(&header), Err(ErrorTransfer::InternalServerError));
    assert_eq!(chunk_offset(3), 3 * PAYLOAD);
}

#[test]
fn files_arrive_whole_in_any_order() {
    let content: Vec<u8> = (0..2 * PAYLOAD + 100).map(|i| (i % 251) as u8).collect();
    let size = content.len() as u64;
    let mut received: Vec<u8> = Vec::new();
    let mut present = HashSet::new();
    for chunk in [2u64, 0, 2, 1] {
        let (start, len) = chunk_span(size, chunk);
        let frame = frame_chunk(chunk, &content[start as usize..start as usize + len]);
        let mut header = [0u8; 16];
        header.copy_from_slice(&frame[1..17]);
        let (got, len) = chunk_header(&header).unwrap();
        let at = chunk_offset(got) as usize;
        if received.len() < at + len {
            received.resize(at + len, 0);
        }
        received[at..at + len].copy_from_slice(&frame[17..17 + len]);
        let _ = chunk_written(&mut present, got, true);
    }
    assert_eq!(received, content);
    assert_eq!(build_completion_response(&present, 3), [23, 0, 0, 0, 0, 0, 0, 0, 0]);
}

#[test]
fn messages_are_told_apart() {
    assert_eq!(incoming(2), Incoming::Chunk);
    assert_eq!(incoming(3), Incoming::CompletionRequest);
    assert_eq!(incoming(4), Incoming::HashRequest);
    for other in [0u8, 1, 5, 20, 255] {
        assert_eq!(incoming(other), Incoming::Unexpected);
    }
}

#[test]
fn framed_chunks_are_handed_on() {
    let present = log(&[0]);
    let mut phase = IntakePhase::Kind;
    let frame = frame_chunk(1, &[7, 8]);
    let mut head = [0u8; 16];
    head.copy_from_slice(&frame[1..17]);
    assert!(matches!(
        phase.step(IntakeEvent::Byte(frame[0]), &present, 3),
        IntakeAction::ReadHead
    ));
    assert!(matches!(
        phase.step(IntakeEvent::Head(head), &present, 3),
        IntakeAction::ReadPayload(2)
    ));
    match phase.step(IntakeEvent::Payload(frame[17..].to_vec()), &present, 3) {
        IntakeAction::Store(id, payload) => assert_eq!((id, payload), (1, vec![7, 8])),
        other => panic!("{other:?}"),
    }
    assert!(matches!(
        phase.step(IntakeEvent::HandedOn, &present, 3),
        IntakeAction::ReadByte
    ));
    assert!(matches!(
        phase.step(IntakeEvent::Byte(99), &present, 3),
        IntakeAction::ReadByte
    ));
    match phase.step(IntakeEvent::Byte(3), &present, 3) {
        IntakeAction::Answer(message) => {
            assert_eq!(message, build_completion_response(&present, 3))
        }
        other => panic!("{other:?}"),
    }
    assert!(matches!(
        phase.step(IntakeEvent::Byte(4), &present, 3),
        IntakeAction::Finish(Ok(()))
    ));
    assert_eq!(phase, IntakePhase::Closed);
}

#[test]
fn broken_messages_end_the_intake() {
    let present = log(&[]);
    let ends = |mut phase: IntakePhase, event: IntakeEvent| {
        let action = phase.step(event, &present, 3);
        assert_eq!(phase, IntakePhase::Closed);
        matches!(action, IntakeAction::Finish(Err(ErrorTransfer::InternalServerError)))
    };
    let mut head = [0u8; 16];
    head[8..].copy_from_slice(&(PAYLOAD + 1).to_be_bytes());
    assert!(ends(IntakePhase::Head, IntakeEvent::Head(head)));
    for phase in [IntakePhase::Kind, IntakePhase::Head, IntakePhase::Payload(5)] {
        assert!(ends(phase, IntakeEvent::Failed));
    }
}

#[test]
fn jobs_are_taken_from_the_end() {
    let mut q = ChunkQueue::new(vec![1, 2]);
    assert_eq!(q.next_job(), Job::Send(2));
    q.mark_sent(2, 100);
    assert_eq!(q.next_job(), Job::Send(1));
    assert_eq!(q.next_job(), Job::Wait);
    q.acknowledge(20, 2);
    assert_eq!(q.next_job(), Job::Done);
    q.aborted = true;
    assert_eq!(q.next_job(), Job::Aborted);
}

#[test]
fn only_confirmation_settles_a_chunk() {
    let mut q = ChunkQueue::new(vec![5]);
    assert_eq!(q.next_job(), Job::Send(5));
    q.mark_sent(5, 0);
    q.acknowledge(7, 5);
    assert!(q.in_flight.contains_key(&5) && q.queue.is_empty());
    q.acknowledge(44, 5);
    assert!(q.in_flight.is_empty());
    assert_eq!(q.queue, [5]);
    q.mark_sent(5, 0);
    q.acknowledge(20, 5);
    assert!(q.in_flight.is_empty());
    assert_eq!(q.queue, [5]);
}

#[test]
fn expired_chunks_wait_again() {
    let mut q = ChunkQueue::new(vec![9]);
    q.mark_sent(1, 0);
    q.mark_sent(2, 50);
    q.mark_sent(3, 10);
    let mut expired = q.expire(110, 100);
    assert_eq!(expired, [1]);
    expired = q.expire(151, 100);
    expired.sort();
    assert_eq!(expired, [2, 3]);
    assert!(q.in_flight.is_empty());
    let mut queue = q.queue.clone();
    queue.sort();
    assert_eq!(queue, [1, 2, 3, 9]);
}

#[test]
fn three_failed_reads_abort() {
    let mut q = ChunkQueue::new(Vec::new());
    let mut retries = Retries::new();
    assert!(!q.read_failed(&mut retries, 4));
    assert!(!q.read_failed(&mut retries, 4));
    assert!(!q.read_failed(&mut retries, 6));
    assert_eq!(q.queue, [4, 4, 6]);
    assert!(!q.aborted);
    assert!(q.read_failed(&mut retries, 4));
    assert!(q.aborted);
    assert_eq!(q.queue, [4, 4, 6]);
}

#[test]
fn answers_are_put_together() {
    let mut reader = AckReader::new();
    let ack = build_ack(20, 77);
    assert_eq!(ack, [20, 0, 0, 0, 0, 0, 0, 0, 77]);
    assert_eq!(reader.feed(&ack[..4]), None);
    assert_eq!(reader.feed(&ack[4..]), Some((20, 77)));
    assert_eq!(reader.feed(&build_ack(44, 3)), Some((44, 3)));
}

#[test]
fn the_reader_follows_the_connection() {
    let mut reader = AckReader::new();
    let mut q = ChunkQueue::new(Vec::new());
    q.mark_sent(7, 0);
    assert_eq!(reader.step(&mut q, false, ReadEvent::TimedOut), (true, None));
    let ack = build_ack(20, 7);
    assert_eq!(
        reader.step(&mut q, false, ReadEvent::Data(ack[..5].to_vec())),
        (true, None)
    );
    assert_eq!(
        reader.step(&mut q, false, ReadEvent::Data(ack[5..].to_vec())),
        (true, Some((20, 7)))
    );
    assert!(q.in_flight.is_empty());
    assert!(!reader.step(&mut q, false, ReadEvent::Closed).0);
    assert!(!reader.step(&mut q, false, ReadEvent::Failed).0);
    assert!(!reader.step(&mut q, true, ReadEvent::TimedOut).0);
}

#[test]
fn missing_chunks_are_the_absent_ones() {
    let message = build_completion_response(&log(&[0, 2, 9]), 5);
    let mut expected = vec![23u8];
    for n in [3u64, 1, 3, 4] {
        expected.extend_from_slice(&n.to_be_bytes());
    }
    assert_eq!(message, expected);
    let mut header = [0u8; 9];
    header.copy_from_slice(&message[..9]);
    assert_eq!(read_completion(&header, 5), Completion::Missing(3));
    assert_eq!(read_ids(&message[9..]), [1, 3, 4]);
    assert_eq!(read_completion(&header, 2), Completion::Implausible);
    assert_eq!(read_completion(&[23, 0, 0, 0, 0, 0, 0, 0, 0], 5), Completion::Complete);
    assert_eq!(read_completion(&[20, 0, 0, 0, 0, 0, 0, 0, 0], 5), Completion::Unrelated);
}

#[test]
fn written_chunks_are_confirmed() {
    let mut present = HashSet::new();
    for chunk in 0..40u64 {
        let (ack, save) = chunk_written(&mut present, chunk, true);
        assert_eq!(ack, build_ack(20, chunk));
        assert_eq!(save, present.len() % 10 == 8);
    }
    let (ack, save) = chunk_written(&mut present, 99, false);
    assert_eq!((ack, save), (build_ack(44, 99), false));
    assert!(!present.contains(&99));
    assert_eq!(writer_count(0), 1);
    assert_eq!(writer_count(5), 5);
}

#[test]
fn uploads_are_announced_and_opened() {
    let message = upload("dir/plik.txt".as_bytes(), &id(2), 2 * PAYLOAD + 1);
    let mut buf = [0u8; 32768];
    buf[..message.len()].copy_from_slice(&message);
    let (user, pass, offset) = read_credentials(&buf).unwrap();
    assert_eq!((user.as_str(), pass.as_str()), ("ann", "pw"));
    let file = init_transfer(&buf[offset - 1..], &store(), true).unwrap();
    assert_eq!(file.uuid, id(9));
    assert_eq!(file.parent_folder_uuid, id(2));
    assert_eq!(file.file_size_chunks, 3);
    assert_eq!(file.temp_path, "./temp/plik.txt");
    assert_eq!(file.storage_path, "./storage/two/plik.txt");
    assert_eq!(file.config_path, "./temp/plik.txt.config");
    assert_eq!(init_reply(), [20, 0, 0, 0, 0, 0, 0, 0, 0]);
    assert!(upload_accepted(&init_reply()));
    assert!(!upload_accepted(&[41; 9]));
}

#[test]
fn transfers_are_opened_by_name() {
    let file = open_transfer(id(9), PAYLOAD, "x/plik", id(1), &store(), true).unwrap();
    assert_eq!((file.uuid, file.file_size_chunks), (id(9), 1));
    assert_eq!(file.storage_path, "./storage/plik");
    assert_eq!(file.config_path, "./temp/plik.config");
    let refused = |name: &str, folder: u8, dirs: bool| {
        open_transfer(id(9), 1, name, id(folder), &store(), dirs).map(|f| f.uuid)
    };
    assert_eq!(refused("a", 77, true), Err(ErrorTransfer::NotFound));
    assert_eq!(refused("a", 1, false), Err(ErrorTransfer::InternalServerError));
    assert_eq!(refused("/", 1, true), Err(ErrorTransfer::InvalidFileName));
}

#[test]
fn names_are_repaired() {
    assert_eq!(readable_text("zażółć".as_bytes()), "zażółć");
    assert_eq!(readable_text(&[b'a', 0xff]), "a\u{fffd}");
    let message = upload(&[b'a', 0xff, b'b'], &id(2), 1);
    let file = init_transfer(&message[7..], &store(), true).unwrap();
    assert_eq!(file.temp_path, "./temp/a\u{fffd}b");
}

#[test]
fn bad_uploads_are_refused() {
    let s = store();
    let refused = |message: &[u8], dirs: bool| init_transfer(message, &s, dirs).map(|f| f.uuid);
    let good = upload(b"a", &id(2), 1);
    assert_eq!(refused(&good[7..30], true), Err(ErrorTransfer::InvalidLength));
    assert_eq!(
        refused(&good[7..good.len() - 1], true),
        Err(ErrorTransfer::InvalidLength)
    );
    assert_eq!(refused(&upload(b"a", &id(3), 1)[7..], true), Err(ErrorTransfer::NotFound));
    assert_eq!(refused(&good[7..], false), Err(ErrorTransfer::InternalServerError));
    assert_eq!(
        refused(&upload(b"..", &id(2), 1)[7..], true),
        Err(ErrorTransfer::InvalidFileName)
    );
    assert_eq!(claim_paths(false, true), Ok(()));
    assert_eq!(claim_paths(true, true), Err(ErrorTransfer::ThisFileExists));
    assert_eq!(claim_paths(false, false), Err(ErrorTransfer::InternalServerError));
}

fn opened() -> TransferedFile {
    init_transfer(&upload(b"new", &id(2), 5 * PAYLOAD)[7..], &store(), true).unwrap()
}

#[test]
fn what_is_kept_beside_an_upload() {
    let file = opened();
    let mut config = setup_config(&file, 11);
    assert_eq!((config.last_changed_at, config.uuid), (11, id(9)));
    assert_eq!((config.parent_folder_uuid, config.file_size_chunks), (id(2), 5));
    assert!(config.transfered_chunks.is_empty() && config.owner.is_empty() && !config.is_public);
    assert!(!update_config(&mut config, &log(&[]), 12));
    assert_eq!(config.last_changed_at, 11);
    assert!(update_config(&mut config, &log(&[1, 3]), 13));
    assert_eq!(config.last_changed_at, 13);
    assert_eq!(config.transfered_chunks, log(&[1, 3]));
    assert_eq!(copy_chunks(&config.transfered_chunks), log(&[1, 3]));
    assert!(same_chunks(&log(&[1, 3]), &log(&[3, 1])));
    assert!(!same_chunks(&log(&[1, 3]), &log(&[1, 4])));
    assert!(!same_chunks(&log(&[1]), &log(&[1, 3])));
}

#[test]
fn interrupted_uploads_are_found() {
    let make = |n: u8| ConfigFile {
        last_changed_at: 0,
        uuid: id(n),
        parent_folder_uuid: id(2),
        file_size_chunks: 7,
        transfered_chunks: log(&[1]),
        owner: Vec::new(),
        is_public: false,
    };
    let configs = vec![make(5), make(6), make(6)];
    assert_eq!(find_config(&configs, &id(6)), Ok(1));
    assert_eq!(find_config(&configs, &id(7)), Err(ErrorTransfer::NotFound));
    let file = resume_transfer("./temp/a.txt.config", &configs[1], id(6)).unwrap();
    assert_eq!(file.temp_path, "./temp/a.txt");
    assert_eq!(file.storage_path, "./storage/a.txt");
    assert_eq!(file.config_path, "./temp/a.txt.config");
    assert_eq!((file.uuid, file.parent_folder_uuid, file.file_size_chunks), (id(6), id(2), 7));
}

#[test]
fn records_are_told_by_their_ending() {
    assert!(is_config("./temp/a.txt.config"));
    assert!(!is_config("./temp/a.txt") && !is_config("./temp/config") && !is_config(".config"));
    assert_eq!(temp_to_storage("./temp/a/b"), Some("./storage/a/b".to_string()));
    assert_eq!(temp_to_storage("./temp/a//b"), Some("./storage/a//b".to_string()));
    assert_eq!(temp_to_storage("./temp/a/./b"), Some("./storage/a/./b".to_string()));
    assert_eq!(temp_to_storage("./temp//a/"), Some("./storage/a".to_string()));
    assert_eq!(temp_to_storage("./temp"), Some("./storage/".to_string()));
    for path in [
        "", ".", "./", "/", "//", "temp", "temp/a", "/temp/a", "./temp/", "./temp/.", ".//temp/a",
        "././temp/./a/.", "./temp/../a", "./temp/a/../b/", "./temp/a//./b/.//", "./temp/.a",
        "./temp/a.b", "./tempa/b", "../temp/a", "./temp/ a /b", "./temp///", "./temp/..",
    ] {
        let expected = Path::new(path)
            .strip_prefix("./temp")
            .ok()
            .map(|rest| Path::new("./storage").join(rest).to_str().unwrap().to_string());
        assert_eq!(temp_to_storage(path), expected, "{path}");
    }
    assert_eq!(temp_to_storage("./other/a"), None);
    assert_eq!(temp_to_storage("./temporary"), None);
}

#[test]
fn transfers_end_with_the_digest() {
    let digest = hash_file(b"abc");
    let (reply, go_on) = transfer_reply(Ok(()), Some(digest));
    assert_eq!(reply, hash_response(&digest));
    assert!(go_on);
    assert_eq!(transfer_reply(Ok(()), None), (vec![50], false));
    assert_eq!(
        transfer_reply(Err(ErrorTransfer::InternalServerError), Some(digest)),
        (vec![50], false)
    );
}

#[test]
fn received_files_are_registered() {
    let mut s = store();
    let file = opened();
    let t = Timestamp { secs: 1, nanos: 2 };
    assert!(matches!(
        register_as(&file, &mut s, &id(7), Some(id(2)), id(70), t),
        Finish::Move
    ));
    let f = &s.inner.folders[0].files[0];
    assert_eq!((f.name.as_str(), f.path.as_str()), ("new", "./storage/two/new"));
    assert_eq!((f.uuid, f.last_changed_at, f.access.owner), (id(70), t, id(7)));
    assert!(f.access.is_public_for_viewing && f.access.is_public_for_changing && !f.is_locked);
    assert!(matches!(finish_and_register(&file, &mut s, &id(7), None), Finish::Move));
    assert_eq!(s.inner.files.len(), 3);
    assert!(matches!(
        finish_and_register(&file, &mut s, &id(7), Some(id(99))),
        Finish::NotAdded(MapError::FolderNotFound(_))
    ));
    let mut nameless = opened();
    nameless.storage_path = "..".to_string();
    assert!(matches!(
        finish_and_register(&nameless, &mut s, &id(7), None),
        Finish::NoName
    ));
    assert_eq!(finish_signal(true, true), Signal::Changed);
    assert_eq!(finish_signal(false, true), Signal::Silent);
    assert_eq!(finish_signal(true, false), Signal::Silent);
}

#[test]
fn digests_are_blake3() {
    let empty = hash_file(b"");
    assert_eq!(
        empty[..8],
        [0xaf, 0x13, 0x49, 0xb9, 0xf5, 0xf9, 0xa1, 0xa6]
    );
    let mut hasher = blake3::Hasher::new();
    hasher.update(b"ab");
    hasher.update(b"c");
    assert_eq!(hash_file(b"abc"), *hasher.finalize().as_bytes());
}

#[test]
fn equal_digests_confirm_a_transfer() {
    let own = hash_file(b"abc");
    let mut message = [0u8; 33];
    message.copy_from_slice(&hash_response(&own));
    assert_eq!(message[0], 24);
    assert_eq!(judge_hash(&message, &own), HashVerdict::Same);
    assert_eq!(judge_hash(&message, &hash_file(b"abd")), HashVerdict::Different);
    message[0] = 44;
    assert_eq!(judge_hash(&message, &own), HashVerdict::NoDigest);
    assert_eq!(final_byte(HashVerdict::Same), Some(20));
    assert_eq!(final_byte(HashVerdict::Different), Some(44));
    assert_eq!(final_byte(HashVerdict::NoDigest), None);
    assert!(transfer_confirmed(20) && !transfer_confirmed(44) && !transfer_confirmed(0));
}

#[test]
fn a_file_is_sent_to_one_reader() {
    let mut s = store();
    let buf = first_message(5, &id(10), "ann", "pw");
    assert_eq!(
        begin_send(&buf, 8, &mut s, &id(5)),
        Ok((id(10), "./storage/f10".to_string()))
    );
    assert_eq!(begin_send(&buf, 8, &mut s, &id(5)), Err(53));
    assert_eq!(finish_send(&mut s, &id(10), &id(5), HashVerdict::Same), Some(20));
    assert!(begin_send(&buf, 8, &mut s, &id(5)).is_ok());
    assert_eq!(finish_send(&mut s, &id(10), &id(5), HashVerdict::NoDigest), None);
    assert_eq!(begin_send(&buf, 8, &mut s, &id(5)), Err(53));
    assert_eq!(
        begin_send(&first_message(5, &id(11), "ann", "pw"), 8, &mut s, &id(5)),
        Err(48)
    );
    assert_eq!(
        begin_send(&first_message(5, &id(12), "ann", "pw"), 8, &mut s, &id(5)),
        Err(44)
    );
    assert_eq!(begin_send(&buf, 32760, &mut s, &id(5)), Err(48));
}

#[test]
fn queries_name_a_file() {
    assert!(Query::from_bytes(&[1; 15]).is_none());
    let query = Query::from_bytes(&[10; 20]).unwrap();
    assert_eq!(query.file_uuid, id(10));
    let mut s = store();
    assert_eq!(query.get_path(&mut s, &id(5)), Ok("./storage/f10".to_string()));
    assert_eq!(query.get_path(&mut s, &id(5)), Err(ErrorTransfer::Locked));
}

#[test]
fn senders_greet_with_the_number_of_chunks() {
    assert_eq!(greeting(Some(PAYLOAD + 1)), [20, 0, 0, 0, 0, 0, 0, 0, 2]);
    assert_eq!(greeting(None), [50]);
}

#[test]
fn resumed_transfers_start_with_what_is_missing() {
    assert_eq!(initial_chunks(3, None), Some(vec![0, 1, 2]));
    assert_eq!(initial_chunks(3, Some(MissingReply::Ids(vec![1]))), Some(vec![1]));
    assert_eq!(initial_chunks(3, Some(MissingReply::Nothing)), Some(Vec::new()));
    assert_eq!(initial_chunks(3, Some(MissingReply::Failed)), None);
}

#[test]
fn servers_try_six_rounds() {
    let (mut session, step) = SendSession::begin(vec![0, 1, 2], 5);
    assert_eq!(step, SendStep::Round(3));
    for _ in 0..5 {
        session.queue.queue.clear();
        assert_eq!(session.round_done(MissingReply::Ids(vec![1]), 5), SendStep::Round(1));
        assert_eq!(session.queue.queue, [1]);
    }
    assert_eq!(session.round_done(MissingReply::Ids(vec![1]), 5), SendStep::GiveUp);
}

#[test]
fn servers_end_with_the_hash_check() {
    let (_, step) = SendSession::begin(Vec::new(), 5);
    assert_eq!(step, SendStep::HashCheck);
    let (mut session, step) = SendSession::begin((0..9).collect(), 5);
    assert_eq!(step, SendStep::Round(5));
    assert_eq!(session.round_done(MissingReply::Nothing, 5), SendStep::HashCheck);
    let (mut session, _) = SendSession::begin(vec![0], 5);
    assert_eq!(session.round_done(MissingReply::Failed, 5), SendStep::GiveUp);
}

#[test]
fn clients_try_five_rounds() {
    let (mut session, workers) = UploadSession::begin(Vec::new());
    assert_eq!(workers, 1);
    for _ in 0..4 {
        session.queue.queue.clear();
        assert_eq!(session.checked(MissingReply::Ids(vec![4, 5])), SendStep::Round(2));
        assert_eq!(session.queue.queue, [4, 5]);
    }
    assert_eq!(session.checked(MissingReply::Ids(vec![4, 5])), SendStep::GiveUp);
    let (mut session, workers) = UploadSession::begin((0..9).collect());
    assert_eq!(workers, 5);
    assert_eq!(session.checked(MissingReply::Nothing), SendStep::HashCheck);
    assert_eq!(session.checked(MissingReply::Failed), SendStep::GiveUp);
}

#[test]
fn an_aborted_upload_fails() {
    let (mut session, _) = UploadSession::begin(vec![0]);
    assert_eq!(session.round_over(Some(TransferError::FileNotFound)), Ok(()));
    session.queue.aborted = true;
    assert_eq!(session.round_over(None), Err(TransferError::Fatal));
    assert_eq!(
        session.round_over(Some(TransferError::FileNotFound)),
        Err(TransferError::FileNotFound)
    );
    assert_eq!(upload_result(HashVerdict::Same), (Some(20), Ok(())));
    assert_eq!(upload_result(HashVerdict::Different), (Some(44), Err(TransferError::Fatal)));
    assert_eq!(upload_result(HashVerdict::NoDigest), (None, Err(TransferError::Fatal)));
}

#[test]
fn progress_is_shown_every_tenth_time() {
    let mut progress = Progress::new();
    let shown: Vec<bool> = (0..20).map(|_| progress.confirmed()).collect();
    for (i, s) in shown.iter().enumerate() {
        assert_eq!(*s, i % 10 == 9);
    }
}

#[test]
fn begun_uploads_are_noted() {
    let part = begun_upload("/home/a/b.txt", id(3));
    assert_eq!((part.uuid, part.path.as_str()), (id(3), "/home/a/b.txt"));
    assert_eq!(part.filename, "b.txt");
    assert_eq!(begun_upload("..", id(3)).filename, "");
    assert_eq!(greet("Ann"), "Hello, Ann!");
}
