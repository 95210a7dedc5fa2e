//! Which part of the server answers a first message.

use vstd::prelude::*;
use vstd::utf8::encode_utf8;

use crate::auth::{logged_in, login_api, Database};
use crate::credentials::{body_start, credentials_of, opening, opening_is_read_back, padded};
use crate::ids::Uuid;
use crate::request::{request_of, RequestType};
use crate::response::Code;
use crate::wire::CHUNK_SIZE;

verus! {

/// Where a first message goes. `client` is who sent it, and `offset` where its body begins.
#[derive(Clone, Copy, Debug)]
pub enum Route {
    Register,
    GuestRequestFile,
    /// Nobody is logged in; this is the answer.
    Refused(u8),
    Receive { client: Uuid, offset: usize },
    Reinitialize { client: Uuid, offset: usize },
    /// Send a file, where `resume` only the chunks that are missing.
    SendFile { client: Uuid, offset: usize, resume: bool },
    GetMap { client: Uuid },
    DeleteFile { client: Uuid, offset: usize },
    DeleteFolder { client: Uuid, offset: usize },
    ShareLink { client: Uuid, offset: usize },
    LoginAttempt,
    CreateFolder { client: Uuid, offset: usize },
    Track { client: Uuid },
    /// The connection is closed.
    Shutdown,
}

/// Where a request of some kind goes once `client` has logged in.
pub open spec fn route_of(kind: RequestType, client: Uuid, offset: usize) -> Route {
    match kind {
        RequestType::Init => Route::Receive { client, offset },
        RequestType::Reinit => Route::Reinitialize { client, offset },
        RequestType::GetFile => Route::SendFile { client, offset, resume: false },
        RequestType::ReinitGetFile => Route::SendFile { client, offset, resume: true },
        RequestType::GetMap => Route::GetMap { client },
        RequestType::Delete => Route::DeleteFile { client, offset },
        RequestType::DeleteFolder => Route::DeleteFolder { client, offset },
        RequestType::ShareLink => Route::ShareLink { client, offset },
        RequestType::LoginAttempt => Route::LoginAttempt,
        RequestType::CreateFolder => Route::CreateFolder { client, offset },
        RequestType::MapTracker => Route::Track { client },
        _ => Route::Shutdown,
    }
}

/// Where a request of some kind goes, given who has logged in.
pub open spec fn routed(kind: RequestType, login: Option<(Uuid, usize)>) -> Route {
    if kind == RequestType::Register {
        Route::Register
    } else if kind == RequestType::GuestRequestFile {
        Route::GuestRequestFile
    } else {
        match login {
            None => Route::Refused(48),
            Some((client, offset)) => route_of(kind, client, offset),
        }
    }
}

/// Decides on a request, given who has logged in with the first message.
pub fn route(kind: RequestType, login: Option<(Uuid, usize)>) -> (to: Route)
    ensures
        to == routed(kind, login),
{
    if kind == RequestType::Register {
        return Route::Register;
    }
    if kind == RequestType::GuestRequestFile {
        return Route::GuestRequestFile;
    }
    let (client, offset) = match login {
        Some(found) => found,
        None => return Route::Refused(48),
    };
    match kind {
        RequestType::Init => Route::Receive { client, offset },
        RequestType::Reinit => Route::Reinitialize { client, offset },
        RequestType::GetFile => Route::SendFile { client, offset, resume: false },
        RequestType::ReinitGetFile => Route::SendFile { client, offset, resume: true },
        RequestType::GetMap => Route::GetMap { client },
        RequestType::Delete => Route::DeleteFile { client, offset },
        RequestType::DeleteFolder => Route::DeleteFolder { client, offset },
        RequestType::ShareLink => Route::ShareLink { client, offset },
        RequestType::LoginAttempt => Route::LoginAttempt,
        RequestType::CreateFolder => Route::CreateFolder { client, offset },
        RequestType::MapTracker => Route::Track { client },
        _ => Route::Shutdown,
    }
}

/// Decides on a first message, given the users if they could be loaded.
pub fn handle_client(buffer: &[u8; CHUNK_SIZE], database: Option<&Database>) -> (to: Route)
    ensures
        to == routed(request_of(buffer@[0]), message_login(buffer@, database)),
{
    let kind: RequestType = RequestType::get_type(buffer[0]);
    route(kind, login_api(buffer, database))
}

/// Who a first message logs in, and where its body begins.
pub open spec fn message_login(message: Seq<u8>, database: Option<&Database>) -> Option<
    (Uuid, usize),
> {
    match (credentials_of(message), database) {
        (Some((name, password)), Some(db)) => match logged_in(db@, name, password) {
            Some(id) => Some((id, body_start(message) as usize)),
            None => None,
        },
        _ => None,
    }
}

/// Nobody gets past the login: without one, only registrations and guests are served, and all
/// else is refused with the code for a forbidden request.
pub proof fn strangers_are_refused(code: u8)
    ensures
        routed(request_of(code), None) == (if code == 8 {
            Route::Register
        } else if code == 200 {
            Route::GuestRequestFile
        } else {
            Route::Refused(crate::response::ErrorTransfer::Forbidden.code())
        }),
{
}

/// Whoever has logged in gets what the first byte asks for, as that user, with the body of the
/// request where it begins.
pub proof fn requests_reach_their_handlers(code: u8, client: Uuid, offset: usize)
    ensures
        routed(request_of(code), Some((client, offset))) == (if code == 1 {
            Route::Receive { client, offset }
        } else if code == 5 {
            Route::SendFile { client, offset, resume: false }
        } else if code == 6 {
            Route::SendFile { client, offset, resume: true }
        } else if code == 8 {
            Route::Register
        } else if code == 9 {
            Route::GetMap { client }
        } else if code == 10 {
            Route::Reinitialize { client, offset }
        } else if code == 100 {
            Route::ShareLink { client, offset }
        } else if code == 200 {
            Route::GuestRequestFile
        } else if code == 255 {
            Route::DeleteFile { client, offset }
        } else {
            Route::Shutdown
        }),
{
}

/// A first message is taken as its sender's: it logs in the user whose name and password it opens
/// with, if they are right, and the body is what follows them.
pub proof fn first_messages_log_their_sender_in(
    code: u8,
    username: Seq<char>,
    password: Seq<char>,
    body: Seq<u8>,
    database: &Database,
)
    requires
        encode_utf8(username).len() <= 255,
        encode_utf8(password).len() <= 255,
        body.len() + 513 <= CHUNK_SIZE,
    ensures
        ({
            let head = opening(code, encode_utf8(username), encode_utf8(password));
            let buf = padded(head + body);
            &&& buf[0] == code
            &&& message_login(buf, None) is None
            &&& match (logged_in(database@, username, password), message_login(
                buf,
                Some(database),
            )) {
                (Some(id), Some((client, at))) => client == id && at == head.len() && buf.subrange(
                    at as int,
                    at + body.len(),
                ) == body,
                (None, None) => true,
                _ => false,
            }
        }),
{
    opening_is_read_back(code, username, password, body);
}

} // verus!
