use filecloud::auth::{
    has_admin_privileges, let_in, login_api, parse_register_message, recognised, register,
    registered, vet_parsed, vet_registration, Database, DatabaseError, User,
};
use filecloud::client::auth as client_auth;
use filecloud::credentials::{open_message, pad, read_credentials};
use filecloud::ids::Uuid;
use filecloud::password::{accepts, fresh_hash, hash_password};
use filecloud::router::{handle_client, route, Route};
use filecloud::request::RequestType;
use filecloud::wire::CHUNK_SIZE;

const SALT: &str = "c29tZXNhbHQ";

fn id(n: u8) -> Uuid {
    Uuid { bytes: [n; 16] }
}

fn users(names: &[(&str, &str, u8)]) -> Database {
    let mut users = Vec::new();
    for (name, pass, n) in names {
        users.push(User::with_salt(name, pass, SALT, id(*n)).unwrap());
    }
    Database { users }
}

fn message(parts: &[&[u8]]) -> [u8; CHUNK_SIZE] {
    let mut buf = [0u8; CHUNK_SIZE];
    let mut at = 1;
    for part in parts {
        buf[at] = part.len() as u8;
        buf[at + 1..at + 1 + part.len()].copy_from_slice(part);
        at += 1 + part.len();
    }
    buf
}

#[test]
fn hashes_are_argon2id_strings() {
    let hash = hash_password("secret", SALT).unwrap();
    assert!(hash.starts_with("$argon2id$v=19$m=19456,t=2,p=1$c29tZXNhbHQ$"));
    assert_eq!(hash_password("secret", SALT), Some(hash.clone()));
    assert_ne!(hash_password("other", SALT), Some(hash));
    assert_eq!(hash_password("secret", "no salt!"), None);
}

#[test]
fn the_right_password_is_accepted() {
    let hash = hash_password("secret", SALT).unwrap();
    assert!(accepts("secret", &hash));
    assert!(!accepts("Secret", &hash));
    assert!(!accepts("secret", "secret"));
    assert!(!accepts("secret", ""));
}

#[test]
fn hashes_with_too_many_lanes_accept_nothing() {
    let hash = hash_password("secret", SALT).unwrap();
    for lanes in ["536870912", "4294967295", "100000000", "99999999999"] {
        let other = hash.replace("p=1$", &format!("p={lanes}$"));
        assert_ne!(other, hash);
        assert!(!accepts("secret", &other));
        assert!(!has_admin_privileges(Some(&other), "secret"));
        assert!(!accepts("secret", &format!("p={lanes}")));
    }
    for lanes in ["0", "2", "99999999", "16777216"] {
        let other = hash.replace("p=1$", &format!("p={lanes}$"));
        assert!(!accepts("secret", &other));
    }
    assert!(!accepts("secret", "p="));
    assert!(!accepts("secret", "p=12345678"));
    assert!(accepts("p=123456789", &hash_password("p=123456789", SALT).unwrap()));
}

#[test]
fn a_registered_user_logs_in() {
    let mut database = Database { users: Vec::new() };
    let ann = database.new_user("ann", "pw").unwrap();
    let bob = database.new_user("bob", "pw").unwrap();
    assert_ne!(ann, bob);
    assert_eq!(database.login("ann", "pw"), Some(ann));
    assert_eq!(database.login("bob", "pw"), Some(bob));
    assert_eq!(database.login("ann", "pw2"), None);
    assert_eq!(database.login("eve", "pw"), None);
    assert_ne!(database.users[0].password_hash, database.users[1].password_hash);
}

#[test]
fn a_name_is_taken_once() {
    let mut database = users(&[("ann", "pw", 1)]);
    assert_eq!(database.new_user("ann", "other"), Err(DatabaseError::UsernameOccupied));
    assert_eq!(database.users.len(), 1);
    assert_eq!(database.login("ann", "pw"), Some(id(1)));
}

#[test]
fn users_are_found_by_name() {
    let database = users(&[("ann", "pw", 1), ("bob", "pw", 2)]);
    assert_eq!(database.find_by_username("bob").map(|u| u.uuid), Some(id(2)));
    assert!(database.find_by_username("Bob").is_none());
}

#[test]
fn a_bad_salt_fails_to_hash() {
    assert!(matches!(
        User::with_salt("ann", "pw", "no salt!", id(1)),
        Err(DatabaseError::HashingFailed)
    ));
    let user = User::new("ann", "pw").unwrap();
    assert_eq!(user.username, "ann");
    assert!(accepts("pw", &user.password_hash));
}

#[test]
fn fresh_hashes_differ() {
    let first = fresh_hash("pw").unwrap();
    let second = fresh_hash("pw").unwrap();
    assert_ne!(first, second);
    assert!(accepts("pw", &first) && accepts("pw", &second));
    assert!(!accepts("wp", &first));
}

#[test]
fn hashed_users_are_entered() {
    let mut database = Database { users: Vec::new() };
    assert_eq!(database.new_user_with("ann", Some("h".to_string()), id(1)), Ok(id(1)));
    assert_eq!(
        database.new_user_with("ann", Some("g".to_string()), id(2)),
        Err(DatabaseError::UsernameOccupied)
    );
    assert_eq!(
        database.new_user_with("bob", None, id(2)),
        Err(DatabaseError::HashingFailed)
    );
    assert_eq!(database.users.len(), 1);
    let ann = &database.users[0];
    assert_eq!((ann.username.as_str(), ann.password_hash.as_str()), ("ann", "h"));
    assert_eq!(let_in(Some(ann), true), Some(id(1)));
    assert_eq!(let_in(Some(ann), false), None);
    assert_eq!(let_in(None, true), None);
    let user = User::with_hash("eve", Some("x".to_string()), id(5)).unwrap();
    assert_eq!((user.username.as_str(), user.uuid), ("eve", id(5)));
    assert!(matches!(User::with_hash("eve", None, id(5)), Err(DatabaseError::HashingFailed)));
}

#[test]
fn outcomes_become_answers() {
    let fields = || ("ann".to_string(), "pw".to_string(), "admin".to_string());
    assert_eq!(
        vet_parsed(Ok(fields()), true),
        Ok(("ann".to_string(), "pw".to_string()))
    );
    assert_eq!(vet_parsed(Ok(fields()), false), Err((44, DatabaseError::Forbidden)));
    assert_eq!(
        vet_parsed(Err(DatabaseError::MalformedMessage), true),
        Err((40, DatabaseError::MalformedMessage))
    );
    let (code, result) = registered(users(&[]), Ok(id(1)));
    assert_eq!((code, result.is_ok()), (20, true));
    let (code, result) = registered(users(&[]), Err(DatabaseError::HashingFailed));
    assert_eq!(code, 41);
    assert!(matches!(result, Err(DatabaseError::HashingFailed)));
    let buf = pad(&open_message(9, "ann", "pw"));
    assert_eq!(recognised(&buf, Some(id(1))), Some((id(1), 8)));
    assert_eq!(recognised(&buf, None), None);
    assert_eq!(recognised(&message(&[&[0xff], b"pw"]), Some(id(1))), None);
}

#[test]
fn credentials_are_read_back() {
    let opened = open_message(5, "zoë", "pw");
    assert_eq!(opened, [5, 4, b'z', b'o', 0xc3, 0xab, 2, b'p', b'w']);
    let buf = pad(&opened);
    assert_eq!(read_credentials(&buf), Some(("zoë".to_string(), "pw".to_string(), 9)));
    assert_eq!(read_credentials(&message(&[&[0xff], b"pw"])), None);
    assert_eq!(read_credentials(&message(&[b"a", &[0xc3]])), None);
    assert_eq!(read_credentials(&[0; CHUNK_SIZE]), Some((String::new(), String::new(), 3)));
}

#[test]
fn registrations_are_parsed() {
    let buf = message(&[b"ann", b"pw", b"admin"]);
    assert_eq!(
        parse_register_message(&buf),
        Ok(("ann".to_string(), "pw".to_string(), "admin".to_string()))
    );
    for bad in [
        message(&[&[0xff], b"pw", b"admin"]),
        message(&[b"ann", &[0xff], b"admin"]),
        message(&[b"ann", b"pw", &[0xff]]),
    ] {
        assert_eq!(parse_register_message(&bad), Err(DatabaseError::MalformedMessage));
    }
}

#[test]
fn a_client_registration_is_read_back() {
    let buf = client_auth::register_message("ann", "pw", "admin").unwrap();
    assert_eq!(buf[0], 8);
    assert_eq!(
        parse_register_message(&buf),
        Ok(("ann".to_string(), "pw".to_string(), "admin".to_string()))
    );
    let long = "x".repeat(256);
    let huge = "x".repeat(CHUNK_SIZE);
    for (user, pass, admin) in [(&long[..], "p", "a"), ("u", &long[..], "a"), ("u", "p", &huge[..])]
    {
        assert!(matches!(
            client_auth::register_message(user, pass, admin),
            Err(client_auth::DatabaseError::MalformedMessage)
        ));
    }
    let buf = client_auth::register_message("u", "p", &long).unwrap();
    assert_eq!(buf[..7], [8, 1, b'u', 1, b'p', 0, b'x']);
}

#[test]
fn admin_passwords_are_checked_against_the_stored_hash() {
    let hash = hash_password("admin", SALT).unwrap();
    assert!(has_admin_privileges(Some(&hash), "admin"));
    assert!(!has_admin_privileges(Some(&hash), "user"));
    assert!(!has_admin_privileges(Some("garbage"), "admin"));
    assert!(!has_admin_privileges(None, "admin"));
}

#[test]
fn registrations_are_vetted() {
    let hash = hash_password("admin", SALT).unwrap();
    let good = message(&[b"ann", b"pw", b"admin"]);
    assert_eq!(
        vet_registration(&good, Some(&hash)),
        Ok(("ann".to_string(), "pw".to_string()))
    );
    assert_eq!(
        vet_registration(&message(&[b"ann", b"pw", b"guess"]), Some(&hash)),
        Err((44, DatabaseError::Forbidden))
    );
    assert_eq!(vet_registration(&good, None), Err((44, DatabaseError::Forbidden)));
    assert_eq!(
        vet_registration(&message(&[&[0xff], b"pw", b"admin"]), Some(&hash)),
        Err((40, DatabaseError::MalformedMessage))
    );
}

#[test]
fn registering_answers_with_a_code() {
    let (code, result) = register("bob", "pw", Some(users(&[("ann", "pw", 1)])));
    assert_eq!(code, 20);
    let database = result.unwrap();
    assert_eq!(database.users.len(), 2);
    assert_eq!(database.login("bob", "pw"), Some(database.users[1].uuid));
    assert_eq!(database.login("ann", "pw"), Some(id(1)));
    let (code, result) = register("bob", "pw", Some(database));
    assert_eq!(code, 41);
    assert!(matches!(result, Err(DatabaseError::UsernameOccupied)));
    let (code, result) = register("bob", "pw", None);
    assert_eq!(code, 50);
    assert!(matches!(result, Err(DatabaseError::FailedToLoad)));
}

#[test]
fn logins_say_where_the_request_goes_on() {
    let database = users(&[("ann", "pw", 1)]);
    let buf = pad(&open_message(9, "ann", "pw"));
    assert_eq!(login_api(&buf, Some(&database)), Some((id(1), 8)));
    assert_eq!(login_api(&pad(&open_message(9, "ann", "no")), Some(&database)), None);
    assert_eq!(login_api(&pad(&open_message(9, "eve", "pw")), Some(&database)), None);
    assert_eq!(login_api(&buf, None), None);
    assert_eq!(login_api(&message(&[&[0xff], b"pw"]), Some(&database)), None);
}

#[test]
fn strangers_are_refused() {
    let database = users(&[("ann", "pw", 1)]);
    for code in 0..=255u8 {
        let to = handle_client(&pad(&open_message(code, "eve", "pw")), Some(&database));
        match code {
            8 => assert!(matches!(to, Route::Register)),
            200 => assert!(matches!(to, Route::GuestRequestFile)),
            _ => assert!(matches!(to, Route::Refused(48))),
        }
    }
}

#[test]
fn users_are_routed() {
    let database = users(&[("ann", "pw", 1)]);
    let go = |code: u8| handle_client(&pad(&open_message(code, "ann", "pw")), Some(&database));
    assert!(matches!(go(1), Route::Receive { client, offset: 8 } if client == id(1)));
    assert!(matches!(go(10), Route::Reinitialize { client, offset: 8 } if client == id(1)));
    assert!(matches!(go(5), Route::SendFile { offset: 8, resume: false, .. }));
    assert!(matches!(go(6), Route::SendFile { offset: 8, resume: true, .. }));
    assert!(matches!(go(9), Route::GetMap { client } if client == id(1)));
    assert!(matches!(go(255), Route::DeleteFile { offset: 8, .. }));
    assert!(matches!(go(100), Route::ShareLink { offset: 8, .. }));
    for code in [0u8, 2, 3, 4, 7, 11, 254] {
        assert!(matches!(go(code), Route::Shutdown));
    }
}

#[test]
fn the_remaining_requests_are_routed() {
    let login = Some((id(1), 8));
    assert!(matches!(route(RequestType::DeleteFolder, login), Route::DeleteFolder { .. }));
    assert!(matches!(route(RequestType::CreateFolder, login), Route::CreateFolder { .. }));
    assert!(matches!(route(RequestType::MapTracker, login), Route::Track { .. }));
    assert!(matches!(route(RequestType::LoginAttempt, login), Route::LoginAttempt));
    assert!(matches!(route(RequestType::LoginAttempt, None), Route::Refused(48)));
}

#[test]
fn clients_understand_the_answer_to_a_registration() {
    assert_eq!(client_auth::register_answer(20), Ok(()));
    assert_eq!(client_auth::register_answer(40), Err(client_auth::DatabaseError::MalformedMessage));
    assert_eq!(client_auth::register_answer(41), Err(client_auth::DatabaseError::UsernameOccupied));
    assert_eq!(client_auth::register_answer(44), Err(client_auth::DatabaseError::Forbidden));
    assert_eq!(client_auth::register_answer(50), Err(client_auth::DatabaseError::FailedToLoad));
    assert_eq!(client_auth::register_answer(7), Err(client_auth::DatabaseError::Unknown));
}
