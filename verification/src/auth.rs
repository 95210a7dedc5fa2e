//! Users, registration and login.

use vstd::prelude::*;
use vstd::utf8::{decode_utf8, encode_utf8, valid_utf8};

use crate::credentials::{
    body_start, credentials_of, opening, opening_is_read_back, padded, read_credentials,
};
use crate::ids::Uuid;
use crate::password::{
    accepts, argon2_hash, fresh_hash, hash_password, right_password, MAX_PASSWORD,
};
use crate::paths::same_text;
use crate::text::utf8_text;
use crate::wire::{copy_range, CHUNK_SIZE};

verus! {

/// Why a registration failed.
#[derive(Clone, Copy, Debug, PartialEq, Eq, Structural)]
pub enum DatabaseError {
    UsernameOccupied,
    HashingFailed,
    FailedToSave,
    FailedToLoad,
    MalformedMessage,
    Forbidden,
}

/// All registered users.
#[derive(Debug)]
pub struct Database {
    pub users: Vec<User>,
}

#[derive(Debug)]
pub struct User {
    pub username: String,
    pub password_hash: String,
    pub uuid: Uuid,
}

#[verifier::ext_equal]
pub struct UserView {
    pub username: Seq<char>,
    pub password_hash: Seq<char>,
    pub uuid: Uuid,
}

impl View for User {
    type V = UserView;

    open spec fn view(&self) -> UserView {
        UserView {
            username: self.username@,
            password_hash: self.password_hash@,
            uuid: self.uuid,
        }
    }
}

impl View for Database {
    type V = Seq<UserView>;

    open spec fn view(&self) -> Seq<UserView> {
        Seq::new(self.users@.len(), |i: int| self.users@[i]@)
    }
}

/// The first user called `username`, from index `i` on.
pub open spec fn user_named(users: Seq<UserView>, username: Seq<char>, i: int) -> Option<UserView>
    decreases users.len() - i,
{
    if i < 0 || i >= users.len() {
        None
    } else if users[i].username == username {
        Some(users[i])
    } else {
        user_named(users, username, i + 1)
    }
}

/// Who logs in with this name and password.
pub open spec fn logged_in(
    users: Seq<UserView>,
    username: Seq<char>,
    password: Seq<char>,
) -> Option<Uuid> {
    match user_named(users, username, 0) {
        Some(u) if right_password(password, u.password_hash) => Some(u.uuid),
        _ => None,
    }
}

/// A user under an identifier, given what became of the password's hashing.
pub open spec fn user_made(username: Seq<char>, hash: Option<Seq<char>>, uuid: Uuid) -> Result<
    UserView,
    DatabaseError,
> {
    match hash {
        Some(h) => Ok(UserView { username, password_hash: h, uuid }),
        None => Err(DatabaseError::HashingFailed),
    }
}

/// The users with one more, unless the name is taken or the password could not be hashed.
pub open spec fn user_entered(
    users: Seq<UserView>,
    username: Seq<char>,
    hash: Option<Seq<char>>,
    uuid: Uuid,
) -> Result<Seq<UserView>, DatabaseError> {
    if user_named(users, username, 0) is Some {
        Err(DatabaseError::UsernameOccupied)
    } else {
        match user_made(username, hash, uuid) {
            Ok(user) => Ok(users.push(user)),
            Err(e) => Err(e),
        }
    }
}

/// The text of an optional string.
pub open spec fn text_in(text: Option<String>) -> Option<Seq<char>> {
    match text {
        Some(t) => Some(t@),
        None => None,
    }
}

impl User {
    /// A new user under a fresh salt and a fresh identifier.
    pub fn new(username: &str, pass: &str) -> (user: Result<User, DatabaseError>)
        ensures
            match user {
                Ok(u) => encode_utf8(pass@).len() <= MAX_PASSWORD && u@.username == username@
                    && right_password(pass@, u@.password_hash) && (exists|
                    salt: Seq<char>,
                | #[trigger]
                    argon2_hash(encode_utf8(pass@), salt) == Some(u@.password_hash))
                    && crate::ids::is_v4(u@.uuid.bytes@),
                Err(e) => encode_utf8(pass@).len() > MAX_PASSWORD && e
                    == DatabaseError::HashingFailed,
            },
    {
        User::with_hash(username, fresh_hash(pass), Uuid::new_v4())
    }

    /// A new user under the given salt and identifier.
    pub fn with_salt(username: &str, pass: &str, salt: &str, uuid: Uuid) -> (user: Result<
        User,
        DatabaseError,
    >)
        ensures
            match user {
                Ok(u) => user_made(username@, argon2_hash(encode_utf8(pass@), salt@), uuid) == Ok::<
                    UserView,
                    DatabaseError,
                >(u@) && right_password(pass@, u@.password_hash),
                Err(e) => user_made(username@, argon2_hash(encode_utf8(pass@), salt@), uuid)
                    == Err::<UserView, DatabaseError>(e),
            },
    {
        User::with_hash(username, hash_password(pass, salt), uuid)
    }

    /// A new user with the given hash of a password, if it could be hashed.
    pub fn with_hash(username: &str, hash: Option<String>, uuid: Uuid) -> (user: Result<
        User,
        DatabaseError,
    >)
        ensures
            match user {
                Ok(u) => user_made(username@, text_in(hash), uuid) == Ok::<UserView, DatabaseError>(
                    u@,
                ),
                Err(e) => user_made(username@, text_in(hash), uuid) == Err::<
                    UserView,
                    DatabaseError,
                >(e),
            },
    {
        match hash {
            Some(hash) => Ok(User { username: username.to_owned(), password_hash: hash, uuid }),
            None => Err(DatabaseError::HashingFailed),
        }
    }
}

impl Database {
    /// Adds a user under a fresh salt and a fresh identifier, unless the name is taken or the
    /// password is too long.
    pub fn new_user(&mut self, username: &str, pass: &str) -> (id: Result<Uuid, DatabaseError>)
        ensures
            id is Ok == (user_named(old(self)@, username@, 0) is None && encode_utf8(pass@).len()
                <= MAX_PASSWORD),
            match id {
                Ok(id) => crate::ids::is_v4(id.bytes@) && exists|hash: Seq<char>|
                    user_entered(old(self)@, username@, Some(hash), id) == Ok::<
                        Seq<UserView>,
                        DatabaseError,
                    >(final(self)@) && #[trigger] right_password(pass@, hash),
                Err(e) => final(self)@ == old(self)@ && e == (if user_named(
                    old(self)@,
                    username@,
                    0,
                ) is Some {
                    DatabaseError::UsernameOccupied
                } else {
                    DatabaseError::HashingFailed
                }),
            },
    {
        if self.find_by_username(username).is_some() {
            return Err(DatabaseError::UsernameOccupied);
        }
        let hash: Option<String> = fresh_hash(pass);
        self.new_user_with(username, hash, Uuid::new_v4())
    }

    /// Adds a user with the given hash of a password, if it could be hashed, unless the name is
    /// taken.
    pub fn new_user_with(&mut self, username: &str, hash: Option<String>, uuid: Uuid) -> (id:
        Result<Uuid, DatabaseError>)
        ensures
            match user_entered(old(self)@, username@, text_in(hash), uuid) {
                Ok(after) => id == Ok::<Uuid, DatabaseError>(uuid) && final(self)@ == after,
                Err(e) => id == Err::<Uuid, DatabaseError>(e) && final(self)@ == old(self)@,
            },
    {
        if self.find_by_username(username).is_some() {
            return Err(DatabaseError::UsernameOccupied);
        }
        match User::with_hash(username, hash, uuid) {
            Err(e) => Err(e),
            Ok(user) => {
                let ghost before = self@;
                self.users.push(user);
                assert(self@ =~= before.push(user@));
                Ok(uuid)
            },
        }
    }

    /// The first user with this name.
    pub fn find_by_username(&self, username: &str) -> (found: Option<&User>)
        ensures
            match found {
                Some(u) => user_named(self@, username@, 0) == Some(u@),
                None => user_named(self@, username@, 0) is None,
            },
    {
        let mut i: usize = 0;
        while i < self.users.len()
            invariant
                i <= self.users@.len(),
                user_named(self@, username@, 0) == user_named(self@, username@, i as int),
            decreases self.users@.len() - i,
        {
            assert(self@[i as int] == self.users@[i as int]@);
            if same_text(self.users[i].username.as_str(), username) {
                return Some(&self.users[i]);
            }
            i += 1;
        }
        None
    }

    /// The user with this name and password.
    pub fn login(&self, username: &str, password: &str) -> (id: Option<Uuid>)
        ensures
            id == logged_in(self@, username@, password@),
    {
        let user: Option<&User> = self.find_by_username(username);
        let accepted: bool = match user {
            Some(u) => accepts(password, u.password_hash.as_str()),
            None => false,
        };
        let_in(user, accepted)
    }
}

/// Who is let in, given whether the password was accepted.
pub fn let_in(user: Option<&User>, accepted: bool) -> (id: Option<Uuid>)
    ensures
        id == (match user {
            Some(u) if accepted => Some(u@.uuid),
            _ => None,
        }),
{
    match user {
        Some(u) => if accepted {
            Some(u.uuid)
        } else {
            None
        },
        None => None,
    }
}

/// Name, password and administrator's password of a registration, where all three are text.
pub open spec fn registration_of(buf: Seq<u8>) -> Option<(Seq<char>, Seq<char>, Seq<char>)> {
    let start = body_start(buf);
    let admin = buf.subrange(start + 1, start + 1 + buf[start] as int);
    match credentials_of(buf) {
        Some((name, password)) if valid_utf8(admin) => Some(
            (name, password, decode_utf8(admin)),
        ),
        _ => None,
    }
}

/// Reads a registration.
pub fn parse_register_message(buf: &[u8; CHUNK_SIZE]) -> (found: Result<
    (String, String, String),
    DatabaseError,
>)
    ensures
        match found {
            Ok((name, password, admin)) => registration_of(buf@) == Some(
                (name@, password@, admin@),
            ),
            Err(e) => registration_of(buf@) is None && e == DatabaseError::MalformedMessage,
        },
{
    match read_credentials(buf) {
        None => Err(DatabaseError::MalformedMessage),
        Some((name, password, start)) => {
            let end: usize = start + 1 + buf[start] as usize;
            match utf8_text(copy_range(buf.as_slice(), start + 1, end)) {
                None => Err(DatabaseError::MalformedMessage),
                Some(admin) => Ok((name, password, admin)),
            }
        },
    }
}

/// Whether `pass` is the administrator's password, given the configured hash of it, if any.
pub fn has_admin_privileges(admin_hash: Option<&str>, pass: &str) -> (yes: bool)
    ensures
        yes == (admin_hash is Some && right_password(pass@, admin_hash->0@)),
{
    match admin_hash {
        None => false,
        Some(hash) => accepts(pass, hash),
    }
}

/// Checks a registration before the users are loaded: name and password to enter, or the answer
/// that refuses it.
pub fn vet_registration(first_message: &[u8; CHUNK_SIZE], admin_hash: Option<&str>) -> (vetted:
    Result<(String, String), (u8, DatabaseError)>)
    ensures
        match registration_of(first_message@) {
            None => vetted == Err::<(String, String), (u8, DatabaseError)>(
                (40, DatabaseError::MalformedMessage),
            ),
            Some((name, password, admin)) => if admin_hash is Some && right_password(
                admin,
                admin_hash->0@,
            ) {
                vetted is Ok && vetted->Ok_0.0@ == name && vetted->Ok_0.1@ == password
            } else {
                vetted == Err::<(String, String), (u8, DatabaseError)>(
                    (44, DatabaseError::Forbidden),
                )
            },
        },
{
    let parsed = parse_register_message(first_message);
    let privileged: bool = match &parsed {
        Ok(fields) => has_admin_privileges(admin_hash, fields.2.as_str()),
        Err(_) => false,
    };
    vet_parsed(parsed, privileged)
}

/// Checks a registration that was read, given whether its third field is the administrator's
/// password.
pub fn vet_parsed(
    parsed: Result<(String, String, String), DatabaseError>,
    privileged: bool,
) -> (vetted: Result<(String, String), (u8, DatabaseError)>)
    ensures
        vetted == (match parsed {
            Err(e) => Err::<(String, String), (u8, DatabaseError)>((40, e)),
            Ok(_) if !privileged => Err((44, DatabaseError::Forbidden)),
            Ok((username, pass, _)) => Ok((username, pass)),
        }),
{
    match parsed {
        Err(e) => Err((40, e)),
        Ok((username, pass, _)) => if privileged {
            Ok((username, pass))
        } else {
            Err((44, DatabaseError::Forbidden))
        },
    }
}

/// Enters a vetted registration into the users, if they could be loaded. Gives the answer to send,
/// and the users to save or the error.
pub fn register(username: &str, pass: &str, loaded: Option<Database>) -> (outcome: (
    u8,
    Result<Database, DatabaseError>,
))
    ensures
        match (loaded, outcome.1) {
            (None, r) => outcome.0 == 50 && r == Err::<Database, DatabaseError>(
                DatabaseError::FailedToLoad,
            ),
            (Some(db), Ok(after)) => outcome.0 == 20 && encode_utf8(pass@).len() <= MAX_PASSWORD
                && exists|hash: Seq<char>, id: Uuid|
                #[trigger] user_entered(db@, username@, Some(hash), id) == Ok::<
                    Seq<UserView>,
                    DatabaseError,
                >(after@) && crate::ids::is_v4(id.bytes@) && right_password(pass@, hash),
            (Some(db), Err(e)) => outcome.0 == 41 && if user_named(db@, username@, 0) is Some {
                e == DatabaseError::UsernameOccupied
            } else {
                e == DatabaseError::HashingFailed && encode_utf8(pass@).len() > MAX_PASSWORD
            },
        },
{
    match loaded {
        None => (50, Err(DatabaseError::FailedToLoad)),
        Some(db) => {
            let mut database: Database = db;
            let entered = database.new_user(username, pass);
            registered(database, entered)
        },
    }
}

/// The answer to a registration, and the users to save or the error.
pub fn registered(database: Database, entered: Result<Uuid, DatabaseError>) -> (outcome: (
    u8,
    Result<Database, DatabaseError>,
))
    ensures
        outcome == (match entered {
            Ok(_) => (20u8, Ok::<Database, DatabaseError>(database)),
            Err(e) => (41u8, Err(e)),
        }),
{
    match entered {
        Ok(_) => (20, Ok(database)),
        Err(e) => (41, Err(e)),
    }
}

/// Who sends a first message, and where its body begins. Nobody where the message holds no
/// credentials, the users could not be loaded, or name and password are not theirs.
pub fn login_api(buf: &[u8; CHUNK_SIZE], database: Option<&Database>) -> (found: Option<
    (Uuid, usize),
>)
    ensures
        match (credentials_of(buf@), database) {
            (Some((name, password)), Some(db)) => match logged_in(db@, name, password) {
                Some(id) => found == Some((id, body_start(buf@) as usize)),
                None => found is None,
            },
            _ => found is None,
        },
        found matches Some((_, start)) ==> start == body_start(buf@) && start <= 513,
{
    let login: Option<Uuid> = match (read_credentials(buf), database) {
        (Some((username, password, _)), Some(db)) => db.login(username.as_str(), password.as_str()),
        _ => None,
    };
    recognised(buf, login)
}

/// Who sends a first message, and where its body begins, given whom its credentials log in.
pub fn recognised(buf: &[u8; CHUNK_SIZE], login: Option<Uuid>) -> (found: Option<(Uuid, usize)>)
    ensures
        found == (match login {
            Some(id) if credentials_of(buf@) is Some => Some((id, body_start(buf@) as usize)),
            _ => None,
        }),
        found matches Some((_, start)) ==> start == body_start(buf@) && start <= 513,
{
    match (read_credentials(buf), login) {
        (Some((_, _, start)), Some(id)) => Some((id, start)),
        _ => None,
    }
}

/// Whether no two users share a name.
pub open spec fn distinct_names(users: Seq<UserView>) -> bool {
    forall|i: int, j: int|
        0 <= i < j < users.len() ==> #[trigger] users[i].username != #[trigger] users[j].username
}

proof fn lemma_named(users: Seq<UserView>, username: Seq<char>, i: int)
    requires
        0 <= i <= users.len(),
    ensures
        match user_named(users, username, i) {
            Some(u) => exists|k: int|
                i <= k < users.len() && #[trigger] users[k] == u && u.username == username,
            None => forall|k: int|
                i <= k < users.len() ==> (#[trigger] users[k]).username != username,
        },
    decreases users.len() - i,
{
    if i < users.len() && users[i].username != username {
        lemma_named(users, username, i + 1);
    }
}

proof fn lemma_named_push(users: Seq<UserView>, u: UserView, username: Seq<char>, i: int)
    requires
        0 <= i <= users.len(),
    ensures
        user_named(users.push(u), username, i) == (match user_named(users, username, i) {
            Some(v) => Some(v),
            None => if u.username == username {
                Some(u)
            } else {
                None
            },
        }),
    decreases users.len() - i,
{
    if i < users.len() {
        if users[i].username != username {
            lemma_named_push(users, u, username, i + 1);
        }
    } else {
        assert(user_named(users.push(u), username, i + 1) is None);
    }
}

/// Who registers can log in: once a user has been entered, that name logs that user in with a
/// password that the stored hash accepts, such as the one it was made of, and with no other.
pub proof fn registered_user_logs_in(
    users: Seq<UserView>,
    username: Seq<char>,
    hash: Option<Seq<char>>,
    uuid: Uuid,
    password: Seq<char>,
)
    ensures
        match user_entered(users, username, hash, uuid) {
            Ok(after) => logged_in(after, username, password) == (if right_password(
                password,
                hash->0,
            ) {
                Some(uuid)
            } else {
                None
            }),
            Err(_) => true,
        },
{
    if hash is Some {
        let u = UserView { username, password_hash: hash->0, uuid };
        lemma_named_push(users, u, username, 0);
    }
}

/// A registration leaves the logins of all others as they were.
pub proof fn registration_keeps_other_logins(
    users: Seq<UserView>,
    username: Seq<char>,
    hash: Option<Seq<char>>,
    uuid: Uuid,
    other: Seq<char>,
    password: Seq<char>,
)
    requires
        other != username,
    ensures
        match user_entered(users, username, hash, uuid) {
            Ok(after) => logged_in(after, other, password) == logged_in(users, other, password),
            Err(_) => true,
        },
{
    if hash is Some {
        let u = UserView { username, password_hash: hash->0, uuid };
        lemma_named_push(users, u, other, 0);
    }
}

/// A registration keeps the users' names distinct.
pub proof fn registration_keeps_names_distinct(
    users: Seq<UserView>,
    username: Seq<char>,
    hash: Option<Seq<char>>,
    uuid: Uuid,
)
    requires
        distinct_names(users),
    ensures
        match user_entered(users, username, hash, uuid) {
            Ok(after) => distinct_names(after),
            Err(_) => true,
        },
{
    lemma_named(users, username, 0);
}

/// Who has registered is recognised by a first message: its credentials log that user in, and the
/// body of the request begins right behind them.
pub proof fn registered_user_is_recognised(
    users: Seq<UserView>,
    username: Seq<char>,
    hash: Option<Seq<char>>,
    uuid: Uuid,
    password: Seq<char>,
    code: u8,
    body: Seq<u8>,
)
    requires
        encode_utf8(username).len() <= 255,
        encode_utf8(password).len() <= 255,
        body.len() + 513 <= CHUNK_SIZE,
    ensures
        ({
            let head = opening(code, encode_utf8(username), encode_utf8(password));
            let buf = padded(head + body);
            &&& credentials_of(buf) == Some((username, password))
            &&& buf.subrange(body_start(buf), body_start(buf) + body.len()) == body
            &&& user_entered(users, username, hash, uuid) is Ok && right_password(
                password,
                hash->0,
            ) ==> logged_in(
                user_entered(users, username, hash, uuid)->Ok_0,
                username,
                password,
            ) == Some(uuid)
        }),
{
    opening_is_read_back(code, username, password, body);
    registered_user_logs_in(users, username, hash, uuid, password);
}

/// Only the right password logs a user in: who logs in is the first user of that name, with a
/// password that is right for that user's hash; and nobody of that name is refused whose password
/// is right.
pub proof fn logins_need_the_right_password(
    users: Seq<UserView>,
    username: Seq<char>,
    password: Seq<char>,
)
    requires
        distinct_names(users),
    ensures
        match logged_in(users, username, password) {
            Some(id) => exists|k: int|
                0 <= k < users.len() && (#[trigger] users[k]).username == username && users[k].uuid
                    == id && right_password(password, users[k].password_hash),
            None => forall|k: int|
                0 <= k < users.len() && (#[trigger] users[k]).username == username
                    ==> !right_password(password, users[k].password_hash),
        },
{
    lemma_named(users, username, 0);
    match user_named(users, username, 0) {
        Some(u) => {
            let i = choose|k: int|
                0 <= k < users.len() && #[trigger] users[k] == u && u.username == username;
            assert forall|k: int|
                0 <= k < users.len() && (#[trigger] users[k]).username == username implies k
                == i by {
                if k < i {
                    assert(users[k].username != users[i].username);
                } else if i < k {
                    assert(users[i].username != users[k].username);
                }
            }
        },
        None => {},
    }
}

/// A registration adds one user, with the name, the hash and the identifier that it was given, and
/// leaves the others as they are. A name that is taken is refused, whatever the password; otherwise
/// only a password that could not be hashed is.
pub proof fn registration_adds_one_user(
    users: Seq<UserView>,
    username: Seq<char>,
    hash: Option<Seq<char>>,
    uuid: Uuid,
)
    ensures
        match user_entered(users, username, hash, uuid) {
            Ok(after) => {
                &&& forall|k: int|
                    0 <= k < users.len() ==> (#[trigger] users[k]).username != username
                &&& after.len() == users.len() + 1
                &&& forall|k: int| 0 <= k < users.len() ==> #[trigger] after[k] == users[k]
                &&& after.last().username == username
                &&& hash == Some(after.last().password_hash)
                &&& after.last().uuid == uuid
            },
            Err(e) => if exists|k: int|
                0 <= k < users.len() && (#[trigger] users[k]).username == username {
                e == DatabaseError::UsernameOccupied
            } else {
                hash is None && e == DatabaseError::HashingFailed
            },
        },
{
    lemma_named(users, username, 0);
}

} // verus!
