use filecloud::client::create_folder::{first_message, folder_created};
use filecloud::client::get_map as client_map;
use filecloud::clock::Timestamp;
use filecloud::credentials::read_credentials;
use filecloud::delete_file::{
    begin_delete, finish_delete, requested_file, DeleteStep, StoredBytes,
};
use filecloud::ids::Uuid;
use filecloud::manage_folder::{
    create_folder, create_folder_as, delete_folder, folder_request, folder_to_delete, saved_reply,
};
use filecloud::map_store::MapStore;
use filecloud::map_tracker::{notify_change, Signal, Tracker};
use filecloud::mapper::{AccessControl, Fil, Folder, MapError};
use filecloud::response::ErrorTransfer;
use filecloud::wire::CHUNK_SIZE;

fn id(n: u8) -> Uuid {
    Uuid { bytes: [n; 16] }
}

fn access(owner: u8, view: bool, edit: bool) -> AccessControl {
    AccessControl {
        owner: id(owner),
        is_public_for_viewing: view,
        is_public_for_changing: edit,
        is_visible_for: Vec::new(),
        is_editable_for: Vec::new(),
    }
}

fn store() -> MapStore {
    let t = Timestamp { secs: 0, nanos: 0 };
    let mut root = Folder::with_identity("storage", ".", access(100, true, true), id(1), t);
    root.folders.push(Folder::with_identity(
        "two",
        "./storage",
        access(100, true, false),
        id(2),
        t,
    ));
    for (n, edit) in [(10, true), (11, false)] {
        root.files.push(Fil::with_identity(
            format!("f{n}"),
            format!("./storage/f{n}"),
            access(100, true, edit),
            id(n),
            t,
        ));
    }
    MapStore { inner: root }
}

#[test]
fn a_folder_request_is_read_back() {
    let buf = first_message(50, "ann", "pw", &id(2), "zdjęcia");
    assert_eq!(buf[0], 50);
    let (user, pass, offset) = read_credentials(&buf).unwrap();
    assert_eq!((user.as_str(), pass.as_str(), offset), ("ann", "pw", 8));
    assert_eq!(folder_request(&buf, offset), Ok((id(2), "zdjęcia".to_string())));
    assert_eq!(folder_to_delete(&buf, offset), id(2));
    assert_eq!(requested_file(&buf, offset), id(2));
}

#[test]
fn bad_folder_names_are_refused() {
    let mut buf = first_message(50, "ann", "pw", &id(1), "x");
    buf[8 + 18] = 0xff;
    assert_eq!(folder_request(&buf, 8), Err(ErrorTransfer::InvalidFileName));
    let mut s = store();
    assert_eq!(create_folder(&mut s, &buf, 8, &id(5), true), (43, Signal::Silent));
    assert_eq!(s.inner.folders.len(), 1);
}

#[test]
fn created_folders_are_signalled() {
    let mut s = store();
    let buf = first_message(50, "ann", "pw", &id(1), "new");
    let t = Timestamp { secs: 3, nanos: 4 };
    assert_eq!(
        create_folder_as(&mut s, &buf, 8, &id(5), true, id(50), t),
        (20, Signal::Changed)
    );
    let made = s.inner.find(id(50)).unwrap();
    assert_eq!((made.name.as_str(), made.access.owner), ("new", id(5)));
    assert!(made.access.is_public_for_viewing && made.access.is_public_for_changing);
    assert_eq!(create_folder(&mut s, &buf, 8, &id(5), true), (41, Signal::Silent));
    let other = first_message(50, "ann", "pw", &id(1), "other");
    assert_eq!(create_folder(&mut s, &other, 8, &id(5), false), (42, Signal::Silent));
    let nowhere = first_message(50, "ann", "pw", &id(9), "other");
    assert_eq!(create_folder(&mut s, &nowhere, 8, &id(5), true), (44, Signal::Silent));
    let closed = first_message(50, "ann", "pw", &id(2), "other");
    assert_eq!(create_folder(&mut s, &closed, 8, &id(5), true), (42, Signal::Silent));
    assert_eq!(create_folder(&mut s, &closed, 8, &id(100), true), (20, Signal::Changed));
}

#[test]
fn deleted_folders_wake_the_trackers() {
    let mut s = store();
    let buf = first_message(0, "ann", "pw", &id(2), "");
    assert_eq!(delete_folder(&mut s, &buf, 8, &id(5), true), (42, Signal::Silent));
    assert_eq!(delete_folder(&mut s, &buf, 8, &id(100), false), (42, Signal::Silent));
    assert_eq!(delete_folder(&mut s, &buf, 8, &id(100), true), (20, Signal::Woken));
    assert_eq!(delete_folder(&mut s, &buf, 8, &id(100), true), (44, Signal::Silent));
    assert!(s.inner.folders.is_empty());
}

#[test]
fn map_errors_have_transfer_errors() {
    assert_eq!(ErrorTransfer::from(MapError::FolderNotFound(id(1))), ErrorTransfer::NotFound);
    assert_eq!(
        ErrorTransfer::from(MapError::FolderAlreadyPresent),
        ErrorTransfer::ThisFileExists
    );
    assert_eq!(
        ErrorTransfer::from(MapError::InvalidFolderLocation),
        ErrorTransfer::InvalidRequest
    );
    for e in [MapError::Io, MapError::Json, MapError::Poisoned] {
        assert_eq!(ErrorTransfer::from(e), ErrorTransfer::InternalServerError);
    }
}

#[test]
fn clients_understand_the_answers() {
    assert!(folder_created(20) && !folder_created(42));
    assert!(client_map::login_accepted(20) && !client_map::login_accepted(48));
    let buf = client_map::first_message(9, "ann", "pw");
    assert_eq!(read_credentials(&buf), Some(("ann".to_string(), "pw".to_string(), 8)));
    assert!(buf[8..].iter().all(|b| *b == 0));
    assert_eq!(buf.len(), CHUNK_SIZE);
}

#[test]
fn a_deleted_file_is_gone() {
    let mut s = store();
    match begin_delete(&mut s, &id(10), &id(5)) {
        DeleteStep::Remove(path) => assert_eq!(path, "./storage/f10"),
        other => panic!("{other:?}"),
    }
    assert!(s.inner.files[0].is_locked);
    let removed = s.remove_file(&id(10), &id(5));
    assert_eq!(removed, Ok(()));
    let (reply, signal) = finish_delete(StoredBytes::Removed, removed, true);
    assert_eq!((reply, signal), (vec![20], Signal::Changed));
    assert!(s.inner.list_files().iter().all(|f| f.uuid != id(10)));
    assert_eq!(s.inner.files.len(), 1);
}

#[test]
fn locked_and_unknown_files_are_not_deleted() {
    let mut s = store();
    assert!(matches!(begin_delete(&mut s, &id(77), &id(5)), DeleteStep::Refused(44)));
    s.inner.files[0].lock();
    assert!(matches!(begin_delete(&mut s, &id(10), &id(5)), DeleteStep::Refused(53)));
    s.inner.files[1].access.is_public_for_viewing = false;
    assert!(matches!(begin_delete(&mut s, &id(11), &id(5)), DeleteStep::Refused(48)));
}

#[test]
fn what_becomes_of_the_bytes_is_answered_first() {
    let mut s = store();
    assert!(matches!(begin_delete(&mut s, &id(11), &id(5)), DeleteStep::Denied));
    let removed = s.remove_file(&id(11), &id(5));
    let (reply, signal) = finish_delete(StoredBytes::Denied, removed, true);
    assert_eq!((reply, signal), (vec![48, 20], Signal::Changed));
    let mut s = store();
    let _ = begin_delete(&mut s, &id(10), &id(5));
    let removed = s.remove_file(&id(10), &id(5));
    let (reply, signal) = finish_delete(StoredBytes::Kept, removed, true);
    assert_eq!((reply, signal), (vec![50, 20], Signal::Changed));
    let removed = s.remove_file(&id(10), &id(5));
    let (reply, signal) = finish_delete(StoredBytes::Removed, removed, true);
    assert_eq!((reply, signal), (vec![44], Signal::Silent));
}

#[test]
fn changes_that_cannot_be_saved_are_not_told() {
    let (reply, signal) = finish_delete(StoredBytes::Removed, Ok(()), false);
    assert_eq!((reply, signal), (vec![50], Signal::Silent));
    let (reply, signal) = finish_delete(StoredBytes::Denied, Ok(()), false);
    assert_eq!((reply, signal), (vec![48, 50], Signal::Silent));
    let failed = || Err(MapError::Io);
    assert_eq!(saved_reply((20, Signal::Changed), Ok(())), (20, Signal::Changed));
    assert_eq!(saved_reply((20, Signal::Woken), failed()), (50, Signal::Silent));
    assert_eq!(saved_reply((20, Signal::Changed), failed()), (50, Signal::Silent));
    assert_eq!(saved_reply((42, Signal::Silent), failed()), (42, Signal::Silent));
}

#[test]
fn changes_are_sent_once() {
    let mut version: u64 = 0;
    let mut tracker = Tracker::new();
    assert!(!tracker.track(version));
    notify_change(&mut version);
    notify_change(&mut version);
    assert_eq!(version, 2);
    assert!(tracker.track(version));
    assert_eq!(tracker.last_seen, 2);
    assert!(!tracker.track(version));
}
