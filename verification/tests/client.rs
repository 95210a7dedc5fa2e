use std::collections::HashSet;

use filecloud::client::numbers::parse_u64;
use filecloud::client::queues::{
    download, download_reinit, plan_download, transfer_status, upload_batch, upload_reinit,
    DownloadPlan,
};
use filecloud::client::reinit::{first_message, PartAcc, PartSend, Parts};
use filecloud::client::request_file::{
    begun_download, chunk_written, config_path_for, final_verdict, handshake_verdict,
    init_transfer, read_handshake_response, resume_transfer, setup_config, temp_path_for,
    update_config, ConfigFile, Handshake,
};
use filecloud::credentials::read_credentials;
use filecloud::delete_file::requested_file;
use filecloud::ids::Uuid;
use filecloud::response::ErrorTransfer;

fn id(n: u8) -> Uuid {
    Uuid { bytes: [n; 16] }
}

fn part_send(n: u8) -> PartSend {
    PartSend { uuid: id(n), filename: format!("f{n}"), path: format!("/p/f{n}") }
}

fn part_acc(n: u8, server: u8) -> PartAcc {
    PartAcc {
        uuid: id(n),
        temp_path: format!("./temp/f{n}"),
        real_path: format!("/p/f{n}"),
        server_uuid: id(server).to_text(),
    }
}

#[test]
fn numbers_are_read_as_std_does() {
    for text in [
        "0", "7", "+7", "-7", "007", "", "+", "1a", " 1", "18446744073709551615",
        "18446744073709551616", "99999999999999999999999", "+0",
    ] {
        assert_eq!(parse_u64(text), text.parse::<u64>().ok(), "{text:?}");
    }
}

#[test]
fn an_identifier_is_read_back() {
    let buf = first_message(10, &id(9), "ann", "pw");
    assert_eq!(buf[0], 10);
    let (user, pass, offset) = read_credentials(&buf).unwrap();
    assert_eq!((user.as_str(), pass.as_str()), ("ann", "pw"));
    assert_eq!(requested_file(&buf, offset), id(9));
}

#[test]
fn noted_uploads_are_found_until_sent() {
    let mut parts = Parts::empty();
    assert!(parts.send.is_empty() && parts.acc.is_empty());
    parts.add_send(part_send(1));
    parts.add_send(part_send(2));
    assert_eq!(parts.find_send(&id(2)), Some(1));
    assert_eq!(parts.find_send(&id(3)), None);
    parts.sent(&id(1));
    assert_eq!(parts.find_send(&id(1)), None);
    assert_eq!(parts.find_send(&id(2)), Some(0));
    parts.sent(&id(7));
    assert_eq!(parts.send.len(), 1);
}

#[test]
fn noted_downloads_are_found_until_received() {
    let mut parts = Parts::empty();
    parts.add_acc(part_acc(1, 11));
    parts.add_acc(part_acc(2, 12));
    parts.add_acc(part_acc(3, 12));
    assert_eq!(parts.find_acc(&id(3)), Some(2));
    assert_eq!(parts.find_acc(&id(4)), None);
    parts.received(&id(12).to_text());
    assert_eq!(parts.acc.len(), 2);
    assert_eq!(parts.find_acc(&id(3)), Some(1));
    parts.received("nothing");
    assert_eq!(parts.acc.len(), 2);
}

#[test]
fn parts_are_removed() {
    let mut parts = Parts::empty();
    parts.add_send(part_send(1));
    parts.add_send(part_send(2));
    parts.add_acc(part_acc(3, 13));
    assert_eq!(parts.remove_part(&id(2)), Ok(()));
    assert_eq!(parts.send.len(), 1);
    assert_eq!(parts.remove_part(&id(9)), Err("uuid not found".to_string()));
    assert_eq!(parts.remove_part(&id(3)), Ok(()));
    assert_eq!((parts.send.len(), parts.acc.len()), (0, 1));
}

#[test]
fn handshakes_are_judged() {
    assert_eq!(read_handshake_response(&[20, 0, 0, 0, 0, 0, 0, 1, 2]), (20, 258));
    assert_eq!(handshake_verdict(20), Handshake::Granted);
    assert_eq!(handshake_verdict(48), Handshake::Forbidden);
    assert_eq!(handshake_verdict(44), Handshake::Failed(44));
}

#[test]
fn downloads_lie_in_the_temp_folder() {
    assert_eq!(temp_path_for("/home/a/b.txt"), "./temp/b.txt");
    assert_eq!(temp_path_for(".."), "./temp/");
    assert_eq!(config_path_for("./temp/b.txt"), "./temp/b.txt.config");
    let part = begun_download("/home/a/b.txt", &id(5), id(6));
    assert_eq!((part.uuid, part.real_path.as_str()), (id(6), "/home/a/b.txt"));
    assert_eq!((part.temp_path.as_str(), part.server_uuid), ("./temp/b.txt", id(5).to_text()));
}

#[test]
fn downloads_are_opened() {
    let file = init_transfer("./temp/b", "/p/b", 7, true, false, true).unwrap();
    assert_eq!(file.file_size_chunks, 7);
    assert_eq!((file.temp_path.as_str(), file.storage_path.as_str()), ("./temp/b", "/p/b"));
    assert_eq!(file.config_path, "./temp/b.config");
    let refused = |dirs: bool, taken: bool, created: bool| {
        init_transfer("./temp/b", "/p/b", 7, dirs, taken, created).map(|f| f.file_size_chunks)
    };
    assert_eq!(refused(false, false, true), Err(ErrorTransfer::InternalServerError));
    assert_eq!(refused(true, true, true), Err(ErrorTransfer::ThisFileExists));
    assert_eq!(refused(true, false, false), Err(ErrorTransfer::InternalServerError));
}

#[test]
fn downloads_are_resumed() {
    let file = init_transfer("./temp/b", "/p/b", 7, true, false, true).unwrap();
    let mut config: ConfigFile = setup_config(&file, 5);
    assert_eq!((config.last_changed_at, config.file_size_chunks), (5, 7));
    let log: HashSet<u64> = [1, 2].into_iter().collect();
    assert!(update_config(&mut config, &log, 6));
    assert!(!update_config(&mut config, &log, 7));
    assert_eq!(config.last_changed_at, 6);
    let part = part_acc(1, 11);
    let resumed = resume_transfer(&part, &config).unwrap();
    assert_eq!((resumed.temp_path.as_str(), resumed.storage_path.as_str()), ("./temp/f1", "/p/f1"));
    assert_eq!((resumed.config_path.as_str(), resumed.file_size_chunks), ("./temp/f1.config", 7));
}

#[test]
fn downloads_are_noted_now_and_then() {
    let mut log = HashSet::new();
    for chunk in 0..70u64 {
        let (ack, save) = chunk_written(&mut log, chunk, true);
        assert_eq!(ack[0], 20);
        assert_eq!(save, log.len() % 32 == 0);
    }
    let (ack, save) = chunk_written(&mut log, 99, false);
    assert_eq!((ack[0], ack[8], save), (44, 99, false));
    assert_eq!(log.len(), 70);
}

#[test]
fn the_senders_last_byte_is_judged() {
    assert_eq!(final_verdict(20), Ok(()));
    assert_eq!(final_verdict(44), Err(ErrorTransfer::HashesDoNotMatch));
    assert_eq!(final_verdict(9), Err(ErrorTransfer::InternalServerError));
}

#[test]
fn batches_become_items() {
    let paths = vec![
        ("/a".to_string(), "t1".to_string()),
        ("/b".to_string(), "t2".to_string()),
    ];
    let items = upload_batch("ann", "pw", "folder", &paths);
    assert_eq!(items.len(), 2);
    let b = &items[1];
    assert_eq!((b.path.as_str(), b.frontend_uuid.as_str(), b.is_reinit), ("/b", "t2", false));
    assert_eq!((b.username.as_str(), b.password.as_str()), ("ann", "pw"));
    assert_eq!(b.folder_uuid, "folder");
    let again = upload_reinit("ann", "pw", "part", "t3");
    assert_eq!((again.folder_uuid.as_str(), again.path.as_str()), ("part", ""));
    assert!(again.is_reinit);
}

#[test]
fn downloads_are_planned() {
    let item = download("ann", "pw", "file", "t1", "/a");
    assert!(matches!(plan_download(&item), DownloadPlan::Fetch(p) if p == "/a"));
    let again = download_reinit("ann", "pw", "part", "t2");
    assert_eq!((again.file_uuid.as_str(), again.is_reinit), ("part", true));
    assert!(matches!(plan_download(&again), DownloadPlan::Resume));
    let mut nowhere = download("ann", "pw", "file", "t1", "/a");
    nowhere.path = None;
    assert!(matches!(plan_download(&nowhere), DownloadPlan::Skip));
    let status = transfer_status("t1", None);
    assert_eq!((status.transfer_id.as_str(), status.success, status.error), ("t1", true, None));
    let status = transfer_status("t1", Some("no".to_string()));
    assert_eq!((status.success, status.error), (false, Some("no".to_string())));
}
