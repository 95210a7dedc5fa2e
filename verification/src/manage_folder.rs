//! Requests to create and to delete a folder.

use vstd::prelude::*;
use vstd::utf8::{decode_utf8, valid_utf8};

use crate::clock::Timestamp;
use crate::ids::{uuid_of, Uuid};
use crate::map_store::MapStore;
use crate::map_tracker::Signal;
use crate::mapper::{AccessControl, AccessView, FolderView, MapError};
use crate::response::{Code, ErrorTransfer, TransferSuccess};
use crate::text::utf8_text;
use crate::wire::{be_value, copy_range, read_u16, CHUNK_SIZE};

verus! {

/// What a user is told of a failed change of the tree.
pub open spec fn refusal_of(e: MapError) -> ErrorTransfer {
    match e {
        MapError::FolderNotFound(_) => ErrorTransfer::NotFound,
        MapError::FolderAlreadyPresent => ErrorTransfer::ThisFileExists,
        MapError::InvalidFolderLocation => ErrorTransfer::InvalidRequest,
        MapError::Io | MapError::Json | MapError::Poisoned => ErrorTransfer::InternalServerError,
    }
}

impl vstd::std_specs::convert::FromSpecImpl<MapError> for ErrorTransfer {
    open spec fn obeys_from_spec() -> bool {
        true
    }

    open spec fn from_spec(e: MapError) -> ErrorTransfer {
        refusal_of(e)
    }
}

impl From<MapError> for ErrorTransfer {
    fn from(e: MapError) -> (refusal: ErrorTransfer) {
        match e {
            MapError::FolderNotFound(_) => ErrorTransfer::NotFound,
            MapError::FolderAlreadyPresent => ErrorTransfer::ThisFileExists,
            MapError::InvalidFolderLocation => ErrorTransfer::InvalidRequest,
            MapError::Io | MapError::Json | MapError::Poisoned => {
                ErrorTransfer::InternalServerError
            },
        }
    }
}

/// Where the folder's name ends in a request to create a folder.
pub open spec fn folder_name_end(message: Seq<u8>, offset: int) -> int {
    offset + 18 + be_value(message.subrange(offset + 16, offset + 18))
}

/// Parent and name of the folder that a request asks for; nothing where the name is no text.
pub open spec fn folder_request_of(message: Seq<u8>, offset: int) -> Option<(Uuid, Seq<char>)> {
    let name = message.subrange(offset + 18, folder_name_end(message, offset));
    if valid_utf8(name) {
        Some((uuid_of(message.subrange(offset, offset + 16)), decode_utf8(name)))
    } else {
        None
    }
}

/// Everybody's permissions for a folder that belongs to `owner`.
pub open spec fn open_access(owner: Uuid) -> AccessView {
    AccessView {
        owner,
        is_public_for_viewing: true,
        is_public_for_changing: true,
        is_visible_for: Seq::empty(),
        is_editable_for: Seq::empty(),
    }
}

/// Reads a request to create a folder.
pub fn folder_request(first_message: &[u8; CHUNK_SIZE], offset: usize) -> (found: Result<
    (Uuid, String),
    ErrorTransfer,
>)
    requires
        offset + 18 <= CHUNK_SIZE,
        folder_name_end(first_message@, offset as int) <= CHUNK_SIZE,
    ensures
        match found {
            Ok((parent, name)) => folder_request_of(first_message@, offset as int) == Some(
                (parent, name@),
            ),
            Err(e) => folder_request_of(first_message@, offset as int) is None && e
                == ErrorTransfer::InvalidFileName,
        },
{
    let message: &[u8] = first_message.as_slice();
    let len: u16 = read_u16(message, offset + 16);
    let parent: Uuid = Uuid::read(message, offset);
    match utf8_text(copy_range(message, offset + 18, offset + 18 + len as usize)) {
        Some(name) => Ok((parent, name)),
        None => Err(ErrorTransfer::InvalidFileName),
    }
}

/// What becomes of a request to create a folder: the tree, the answer, and whether those who watch
/// the tree are told.
pub open spec fn folder_creation(
    before: FolderView,
    message: Seq<u8>,
    offset: int,
    client: Uuid,
    dir_created: bool,
    uuid: Uuid,
    now: Timestamp,
) -> (FolderView, u8, Signal) {
    match folder_request_of(message, offset) {
        None => (before, 43, Signal::Silent),
        Some((parent, name)) => {
            let change = before.folder_created(
                Some(parent),
                name,
                client,
                open_access(client),
                dir_created,
                uuid,
                now,
            );
            match change {
                Ok(after) => (after, 20, Signal::Changed),
                Err(e) => (before, refusal_of(e).code(), Signal::Silent),
            }
        },
    }
}

/// Creates the folder that `first_message` asks for, open to everybody, changed now, under a fresh
/// identifier. `dir_created` says whether its directory could be created.
pub fn create_folder(
    map_store: &mut MapStore,
    first_message: &[u8; CHUNK_SIZE],
    offset: usize,
    client_uuid: &Uuid,
    dir_created: bool,
) -> (reply: (u8, Signal))
    requires
        offset + 18 <= CHUNK_SIZE,
        folder_name_end(first_message@, offset as int) <= CHUNK_SIZE,
    ensures
        exists|uuid: Uuid, now: Timestamp|
            crate::ids::is_v4(uuid.bytes@) && now.in_calendar() && (
                final(map_store)@,
                reply.0,
                reply.1,
            ) == #[trigger] folder_creation(
                old(map_store)@,
                first_message@,
                offset as int,
                *client_uuid,
                dir_created,
                uuid,
                now,
            ),
{
    create_folder_as(
        map_store,
        first_message,
        offset,
        client_uuid,
        dir_created,
        Uuid::new_v4(),
        Timestamp::now(),
    )
}

/// Creates the folder that `first_message` asks for under the given identifier and time.
pub fn create_folder_as(
    map_store: &mut MapStore,
    first_message: &[u8; CHUNK_SIZE],
    offset: usize,
    client_uuid: &Uuid,
    dir_created: bool,
    uuid: Uuid,
    now: Timestamp,
) -> (reply: (u8, Signal))
    requires
        offset + 18 <= CHUNK_SIZE,
        folder_name_end(first_message@, offset as int) <= CHUNK_SIZE,
    ensures
        (final(map_store)@, reply.0, reply.1) == folder_creation(
            old(map_store)@,
            first_message@,
            offset as int,
            *client_uuid,
            dir_created,
            uuid,
            now,
        ),
{
    let (parent, name) = match folder_request(first_message, offset) {
        Ok(request) => request,
        Err(e) => return (e.get_code(), Signal::Silent),
    };
    let access = AccessControl {
        owner: *client_uuid,
        is_public_for_viewing: true,
        is_public_for_changing: true,
        is_visible_for: Vec::new(),
        is_editable_for: Vec::new(),
    };
    assert(access@ =~= open_access(*client_uuid));
    match map_store.create_folder_as(
        Some(parent),
        name.as_str(),
        client_uuid,
        access,
        dir_created,
        uuid,
        now,
    ) {
        Ok(_) => (TransferSuccess::Success.get_code(), Signal::Changed),
        Err(e) => (ErrorTransfer::from(e).get_code(), Signal::Silent),
    }
}

/// The answer to a request that changed the tree, or did not, and whether those who watch the tree
/// are told. `saved` is what became of saving the tree, which only a change is followed by.
pub fn saved_reply(reply: (u8, Signal), saved: Result<(), MapError>) -> (told: (u8, Signal))
    ensures
        told == (match saved {
            Err(e) if reply.1 != Signal::Silent => (refusal_of(e).code(), Signal::Silent),
            _ => reply,
        }),
{
    match saved {
        Ok(_) => reply,
        Err(e) => {
            if reply.1 == Signal::Silent {
                reply
            } else {
                (ErrorTransfer::from(e).get_code(), Signal::Silent)
            }
        },
    }
}

/// The folder that a request to delete a folder names.
pub fn folder_to_delete(first_message: &[u8; CHUNK_SIZE], offset: usize) -> (id: Uuid)
    requires
        offset + 16 <= CHUNK_SIZE,
    ensures
        id == uuid_of(first_message@.subrange(offset as int, offset + 16)),
{
    Uuid::read(first_message.as_slice(), offset)
}

/// What becomes of a request to delete a folder.
pub open spec fn folder_deletion(
    before: FolderView,
    message: Seq<u8>,
    offset: int,
    client: Uuid,
    dir_removed: bool,
) -> (FolderView, u8, Signal) {
    match before.folder_deleted(
        uuid_of(message.subrange(offset, offset + 16)),
        client,
        dir_removed,
    ) {
        Ok(after) => (after, 20, Signal::Woken),
        Err(e) => (before, refusal_of(e).code(), Signal::Silent),
    }
}

/// Deletes the folder that `first_message` names. `dir_removed` says whether its directory could
/// be removed.
pub fn delete_folder(
    map_store: &mut MapStore,
    first_message: &[u8; CHUNK_SIZE],
    offset: usize,
    client_uuid: &Uuid,
    dir_removed: bool,
) -> (reply: (u8, Signal))
    requires
        offset + 16 <= CHUNK_SIZE,
    ensures
        (final(map_store)@, reply.0, reply.1) == folder_deletion(
            old(map_store)@,
            first_message@,
            offset as int,
            *client_uuid,
            dir_removed,
        ),
{
    let folder_uuid: Uuid = folder_to_delete(first_message, offset);
    match map_store.delete_folder(folder_uuid, client_uuid, dir_removed) {
        Ok(_) => (TransferSuccess::Success.get_code(), Signal::Woken),
        Err(e) => (ErrorTransfer::from(e).get_code(), Signal::Silent),
    }
}

} // verus!
