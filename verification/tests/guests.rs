use filecloud::client::guest_request_file::{
    announced_chunks, chunk_len, chunk_request, guest_message,
};
use filecloud::clock::Timestamp;
use filecloud::errors::IoFailure;
use filecloud::guest_request_file::{
    begin_guest, check_file, finish_guest, get_path, guest_span, name_message, request_chunk,
    size_message, GuestAction, GuestEvent, GuestPhase,
};
use filecloud::ids::Uuid;
use filecloud::map_store::MapStore;
use filecloud::mapper::{AccessControl, Fil, Folder};
use filecloud::response::ErrorTransfer;
use filecloud::share_link::{LinkDatabase, PublicLink};
use filecloud::wire::{read_u64, PAYLOAD};

fn id(n: u8) -> Uuid {
    Uuid { bytes: [n; 16] }
}

fn store() -> MapStore {
    let t = Timestamp { secs: 0, nanos: 0 };
    let access = || AccessControl {
        owner: id(100),
        is_public_for_viewing: false,
        is_public_for_changing: false,
        is_visible_for: Vec::new(),
        is_editable_for: Vec::new(),
    };
    let mut root = Folder::with_identity("storage", ".", access(), id(1), t);
    root.files.push(Fil::with_identity(
        "ten".to_string(),
        "./storage/ten".to_string(),
        access(),
        id(10),
        t,
    ));
    MapStore { inner: root }
}

fn links() -> LinkDatabase {
    LinkDatabase {
        links: vec![
            PublicLink::new(id(10), 0, id(20), "ten".to_string()),
            PublicLink::new(id(11), 0, id(21), "eleven".to_string()),
        ],
    }
}

#[test]
fn a_token_opens_its_file() {
    let mut s = store();
    let buf = guest_message(&id(20));
    assert_eq!(buf[0], 200);
    let file = begin_guest(&buf, &links(), &mut s).ok().unwrap();
    assert_eq!((file.uuid, file.name.as_str()), (id(10), "ten"));
    assert_eq!(file.path, "./storage/ten");
    assert!(s.inner.files[0].is_locked);
    assert_eq!(begin_guest(&buf, &links(), &mut s).err(), Some(48));
    assert_eq!(finish_guest(&id(10), &mut s), Ok(()));
    assert!(!s.inner.files[0].is_locked);
    assert_eq!(finish_guest(&id(11), &mut s), Err(ErrorTransfer::NotFound));
}

#[test]
fn other_tokens_open_nothing() {
    let mut s = store();
    assert_eq!(begin_guest(&guest_message(&id(22)), &links(), &mut s).err(), Some(42));
    assert_eq!(begin_guest(&guest_message(&id(21)), &links(), &mut s).err(), Some(48));
    assert_eq!(get_path(&id(10), &mut s), Ok("./storage/ten".to_string()));
    assert_eq!(get_path(&id(10), &mut s), Err(ErrorTransfer::Locked));
    assert_eq!(get_path(&id(11), &mut s), Err(ErrorTransfer::NotFound));
}

#[test]
fn files_are_checked_before_they_are_named() {
    assert_eq!(check_file(Some(PAYLOAD + 1), true), Ok(PAYLOAD + 1));
    assert_eq!(check_file(None, true), Err(44));
    assert_eq!(check_file(Some(1), false), Err(50));
    assert_eq!(name_message("ab"), Ok(vec![0, 2, b'a', b'b']));
    assert_eq!(name_message(&"x".repeat(65536)), Err(40));
    assert_eq!(name_message(&"x".repeat(65535)).map(|m| m.len()), Ok(65537));
    assert_eq!(size_message(258), [20, 0, 0, 0, 0, 0, 0, 1, 2]);
}

#[test]
fn a_served_guest_frees_the_lock() {
    let mut phase = GuestPhase::Naming;
    assert_eq!(phase.step(GuestEvent::Written), GuestAction::Read);
    assert_eq!(phase.step(GuestEvent::Byte(20)), GuestAction::SendSize);
    assert_eq!(phase.step(GuestEvent::Written), GuestAction::Read);
    assert_eq!(phase.step(GuestEvent::Byte(20)), GuestAction::Read);
    assert_eq!(phase.step(GuestEvent::Byte(18)), GuestAction::ServeChunk);
    assert_eq!(phase.step(GuestEvent::Written), GuestAction::Read);
    assert_eq!(phase.step(GuestEvent::Byte(0)), GuestAction::Finish);
    assert_eq!(phase, GuestPhase::Closed);
}

#[test]
fn other_guests_are_left() {
    let run = |mut phase: GuestPhase, event: GuestEvent| {
        let action = phase.step(event);
        assert_eq!(phase, GuestPhase::Closed);
        action
    };
    for phase in [GuestPhase::Naming, GuestPhase::Sizing] {
        assert_eq!(run(phase, GuestEvent::WriteFailed(IoFailure::BrokenPipe)), GuestAction::Close);
        assert_eq!(
            run(phase, GuestEvent::WriteFailed(IoFailure::Other)),
            GuestAction::CloseWith(50),
        );
    }
    for phase in [GuestPhase::AwaitReady, GuestPhase::AwaitConfirm] {
        assert_eq!(run(phase, GuestEvent::Byte(7)), GuestAction::Close);
        assert_eq!(run(phase, GuestEvent::NoByte), GuestAction::Close);
        assert_eq!(
            run(phase, GuestEvent::ReadFailed(IoFailure::ConnectionReset)),
            GuestAction::Close,
        );
        assert_eq!(
            run(phase, GuestEvent::ReadFailed(IoFailure::TimedOut)),
            GuestAction::CloseWith(50),
        );
    }
    assert_eq!(run(GuestPhase::Serving, GuestEvent::NoByte), GuestAction::Close);
    assert_eq!(
        run(GuestPhase::Serving, GuestEvent::ReadFailed(IoFailure::Other)),
        GuestAction::Close,
    );
    assert_eq!(run(GuestPhase::Serving, GuestEvent::ChunkFailed), GuestAction::CloseWith(50));
    assert_eq!(
        run(GuestPhase::Serving, GuestEvent::WriteFailed(IoFailure::BrokenPipe)),
        GuestAction::CloseWith(10)
    );
}

#[test]
fn guest_chunks_are_read_back() {
    assert_eq!(guest_span(1, 2), (PAYLOAD, PAYLOAD as usize));
    assert_eq!(guest_span(2, 2), (2 * PAYLOAD, 0));
    let frame = request_chunk(3, &[1, 2, 3]);
    assert_eq!(frame, [2, 0, 0, 0, 0, 0, 0, 0, 3, 0, 3, 1, 2, 3]);
    let mut header = [0u8; 11];
    header.copy_from_slice(&frame[..11]);
    assert_eq!(chunk_len(&header), Some(3));
    header[0] = 50;
    assert_eq!(chunk_len(&header), None);
    let request = chunk_request(513);
    assert_eq!(request[0], 18);
    assert_eq!(read_u64(&request, 1), 513);
    assert_eq!(announced_chunks(&[20, 0, 0, 1, 2]), Some(258));
    assert_eq!(announced_chunks(&[42, 0, 0, 1, 2]), None);
}
