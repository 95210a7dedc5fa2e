use filecloud::client::guest_request_file::{
    content_disposition, public_request, refusal, request_with, requested_token, PublicRequest,
};
use filecloud::client::share_link::{
    expiry, first_message, granted_token, hours_of, link_address,
};
use filecloud::clock::Timestamp;
use filecloud::credentials::read_credentials;
use filecloud::ids::Uuid;
use filecloud::mapper::{AccessControl, Fil, Folder};
use filecloud::response::ErrorTransfer;
use filecloud::share_link::{share_link, share_link_as, share_reply, LinkDatabase, PublicLink};

fn id(n: u8) -> Uuid {
    Uuid { bytes: [n; 16] }
}

fn access(public: bool) -> AccessControl {
    AccessControl {
        owner: id(100),
        is_public_for_viewing: public,
        is_public_for_changing: public,
        is_visible_for: Vec::new(),
        is_editable_for: Vec::new(),
    }
}

fn root() -> Folder {
    let t = Timestamp { secs: 0, nanos: 0 };
    let mut root = Folder::with_identity("storage", ".", access(true), id(1), t);
    root.files.push(Fil::with_identity(
        "open".to_string(),
        "./storage/open".to_string(),
        access(true),
        id(10),
        t,
    ));
    root.files.push(Fil::with_identity(
        "closed".to_string(),
        "./storage/closed".to_string(),
        access(false),
        id(11),
        t,
    ));
    root
}

fn links(valid: &[i64]) -> LinkDatabase {
    let mut db = LinkDatabase { links: Vec::new() };
    for (i, v) in valid.iter().enumerate() {
        db.add(PublicLink::new(id(50 + i as u8), *v, id(i as u8), format!("f{i}")));
    }
    db
}

#[test]
fn links_are_found_by_token() {
    let db = links(&[10, 20]);
    assert_eq!(db.get_filename(&id(1)), Ok("f1".to_string()));
    assert_eq!(db.get_filename(&id(9)), Err("no token".to_string()));
    let link = db.get_link_from_token(&id(0)).unwrap();
    assert_eq!((link.file_uuid, link.valid_until, link.token), (id(50), 10, id(0)));
    assert_eq!(db.get_link_from_token(&id(9)).map(|l| l.token), Err("no token".to_string()));
}

#[test]
fn expired_links_lead_nowhere() {
    let mut db = links(&[10, 20, 30]);
    assert_eq!(db.get_file_uuid(&id(1), 19), Some(id(51)));
    assert_eq!(db.links.len(), 2);
    assert_eq!(db.get_file_uuid(&id(1), 20), None);
    assert_eq!(db.get_file_uuid(&id(2), 20), Some(id(52)));
    assert_eq!(db.links.len(), 1);
}

#[test]
fn cleaning_up_twice_keeps_the_later_time() {
    let mut twice = links(&[5, 15, 25, 10, 40]);
    twice.cleanup(9);
    twice.cleanup(20);
    let mut once = links(&[5, 15, 25, 10, 40]);
    once.cleanup(20);
    let tokens = |db: &LinkDatabase| db.links.iter().map(|l| l.token).collect::<Vec<Uuid>>();
    assert_eq!(tokens(&twice), tokens(&once));
    assert_eq!(tokens(&once), vec![id(2), id(4)]);
}

#[test]
fn a_link_request_is_read_back() {
    let buf = first_message(100, &id(10), "ann", "pw", -5);
    assert_eq!(buf[0], 100);
    let (user, pass, offset) = read_credentials(&buf).unwrap();
    assert_eq!((user.as_str(), pass.as_str(), offset), ("ann", "pw", 8));
    let mut db = links(&[]);
    assert_eq!(share_link_as(&buf, offset, &root(), &id(7), &mut db, id(77)), Ok(id(77)));
    let link = &db.links[0];
    assert_eq!((link.file_uuid, link.valid_until, link.token), (id(10), -5, id(77)));
    assert_eq!(link.file_name, "open");
}

#[test]
fn shared_links_get_fresh_tokens() {
    let buf = first_message(100, &id(10), "ann", "pw", 99);
    let mut db = links(&[]);
    let first = share_link(&buf, 8, &root(), &id(7), &mut db).unwrap();
    let second = share_link(&buf, 8, &root(), &id(7), &mut db).unwrap();
    assert_ne!(first, second);
    assert_eq!(db.get_file_uuid(&first, 98), Some(id(10)));
    assert_eq!(db.get_file_uuid(&second, 98), Some(id(10)));
}

#[test]
fn hidden_files_are_not_shared() {
    let mut db = links(&[]);
    let buf = first_message(100, &id(11), "ann", "pw", 99);
    assert_eq!(
        share_link(&buf, 8, &root(), &id(7), &mut db),
        Err(ErrorTransfer::Forbidden)
    );
    let buf = first_message(100, &id(12), "ann", "pw", 99);
    assert_eq!(share_link(&buf, 8, &root(), &id(7), &mut db), Err(ErrorTransfer::NotFound));
    assert!(db.links.is_empty());
}

#[test]
fn the_answer_holds_the_token() {
    let reply = share_reply(Ok(id(7)), true);
    assert_eq!(reply.len(), 17);
    let mut answer = [0u8; 17];
    answer.copy_from_slice(&reply);
    assert_eq!(granted_token(&answer), Some(id(7)));
    assert_eq!(share_reply(Ok(id(7)), false), [50]);
    assert_eq!(share_reply(Err(ErrorTransfer::Forbidden), true), [48]);
    assert_eq!(granted_token(&[48; 17]), None);
}

#[test]
fn links_last_for_hours() {
    assert_eq!(hours_of("3"), 3);
    assert_eq!(hours_of("+3"), 3);
    assert_eq!(hours_of("three"), 1);
    assert_eq!(expiry(1000, 2), 8200);
}

#[test]
fn addresses_lead_to_their_token() {
    let token = Uuid::new_v4();
    let address = link_address(&token);
    assert_eq!(address, format!("127.0.0.1:8080/dl/{}", token.to_text()));
    let url = address.strip_prefix("127.0.0.1:8080").unwrap();
    match public_request(url) {
        PublicRequest::Download(found) => assert_eq!(found, token),
        other => panic!("{other:?}"),
    }
}

#[test]
fn other_addresses_are_refused() {
    for url in ["/", "", "/dl", "/dl/a/b", "/up/00000000-0000-0000-0000-000000000000"] {
        let request = public_request(url);
        assert!(matches!(request, PublicRequest::NotFound), "{url}");
        assert_eq!(refusal(&request), Some((404, "not found".to_string())));
    }
    let request = public_request("/dl/xyz");
    assert!(matches!(request, PublicRequest::InvalidUuid));
    assert_eq!(refusal(&request), Some((400, "invalid uuid".to_string())));
    assert_eq!(refusal(&PublicRequest::Download(id(1))), None);
}

#[test]
fn tokens_are_taken_out_of_addresses() {
    assert_eq!(requested_token("/dl/abc"), Some("abc".to_string()));
    assert_eq!(requested_token("/dl/"), Some(String::new()));
    assert_eq!(requested_token("/dl"), None);
    assert_eq!(requested_token("dl/abc/"), None);
    assert!(matches!(request_with(true, Some(id(3))), PublicRequest::Download(u) if u == id(3)));
    assert!(matches!(request_with(true, None), PublicRequest::InvalidUuid));
    assert!(matches!(request_with(false, Some(id(3))), PublicRequest::NotFound));
}

#[test]
fn downloads_are_named_after_the_token() {
    assert_eq!(
        content_disposition(&id(0)),
        "attachment; filename=\"00000000-0000-0000-0000-000000000000\""
    );
}
