//! Deleting a file.

use vstd::prelude::*;

use crate::ids::{uuid_of, Uuid};
use crate::map_laws::{
    bag, distinct_files, found_files_are_listed, removed_file_is_gone, removing_removes_one_file,
    replaced_file_is_found, replacing_changes_one_file, replacing_keeps_files_distinct,
    viewers_get_their_files,
};
use crate::map_store::{with_file_mut, MapStore};
use crate::map_tracker::Signal;
use crate::mapper::{FilView, FolderView};
use crate::response::{Code, ErrorTransfer, TransferSuccess};
use crate::wire::CHUNK_SIZE;

verus! {

/// How a deletion goes on after the file has been looked up and locked.
#[derive(Debug)]
pub enum DeleteStep {
    /// The file stays; this is the answer.
    Refused(u8),
    /// The stored file at this path is to be removed.
    Remove(String),
    /// The user may not change the file, and its stored bytes stay.
    Denied,
}

/// The file that a request names.
pub fn requested_file(first_message: &[u8; CHUNK_SIZE], offset: usize) -> (id: Uuid)
    requires
        offset + 16 <= CHUNK_SIZE,
    ensures
        id == uuid_of(first_message@.subrange(offset as int, offset + 16)),
{
    Uuid::read(first_message.as_slice(), offset)
}

/// A file with its lock taken.
pub open spec fn locked(f: FilView) -> FilView {
    FilView { is_locked: true, ..f }
}

/// Looks the file up for the user and takes its lock.
pub fn begin_delete(map_store: &mut MapStore, uuid: &Uuid, client_uuid: &Uuid) -> (step: DeleteStep)
    ensures
        match old(map_store)@.file(*uuid) {
            None => final(map_store)@ == old(map_store)@ && step == DeleteStep::Refused(44),
            Some(f) => if !f.access.can_view(*client_uuid) {
                final(map_store)@ == old(map_store)@ && step == DeleteStep::Refused(48)
            } else {
                final(map_store)@ == old(map_store)@.file_replaced(*uuid, locked(f)) && (
                if f.is_locked {
                    step == DeleteStep::Refused(53)
                } else if !f.access.can_edit(*client_uuid) {
                    step is Denied
                } else {
                    step matches DeleteStep::Remove(p) && p@ == f.path
                })
            },
        },
{
    match with_file_mut(uuid, map_store, client_uuid) {
        Err(e) => DeleteStep::Refused(e.get_code()),
        Ok(fil) => {
            if !fil.lock() {
                DeleteStep::Refused(ErrorTransfer::Locked.get_code())
            } else if !fil.access.can_edit(client_uuid) {
                DeleteStep::Denied
            } else {
                DeleteStep::Remove(fil.path.clone())
            }
        },
    }
}

/// What happened to the stored bytes of a file that leaves the tree.
#[derive(Clone, Copy, Debug, PartialEq, Eq, Structural)]
pub enum StoredBytes {
    Removed,
    /// They could not be removed.
    Kept,
    /// The user may not change the file, so they were left alone.
    Denied,
}

/// The answers to a deletion, in the order in which they are sent: first what went wrong with the
/// stored bytes, then what became of the entry in the tree.
pub open spec fn delete_replies(bytes: StoredBytes, entry: u8) -> Seq<u8> {
    match bytes {
        StoredBytes::Removed => seq![entry],
        StoredBytes::Kept => seq![50, entry],
        StoredBytes::Denied => seq![48, entry],
    }
}

/// The answers to a deletion after the file has been taken out of the tree, whatever became of its
/// stored bytes, and whether those who watch the tree are told. `removed` is what became of the
/// entry, and `saved` says whether the tree without it could be saved.
pub fn finish_delete(
    bytes: StoredBytes,
    removed: Result<(), ErrorTransfer>,
    saved: bool,
) -> (reply: (Vec<u8>, Signal))
    ensures
        match removed {
            Ok(_) => if saved {
                reply.0@ == delete_replies(bytes, 20) && reply.1 == Signal::Changed
            } else {
                reply.0@ == delete_replies(bytes, 50) && reply.1 == Signal::Silent
            },
            Err(e) => reply.0@ == delete_replies(bytes, e.code()) && reply.1 == Signal::Silent,
        },
{
    let (entry, signal): (u8, Signal) = match removed {
        Ok(_) => if saved {
            (TransferSuccess::Success.get_code(), Signal::Changed)
        } else {
            (ErrorTransfer::InternalServerError.get_code(), Signal::Silent)
        },
        Err(e) => (e.get_code(), Signal::Silent),
    };
    let mut replies: Vec<u8> = Vec::new();
    match bytes {
        StoredBytes::Removed => {},
        StoredBytes::Kept => {
            replies.push(50);
        },
        StoredBytes::Denied => {
            replies.push(ErrorTransfer::Forbidden.get_code());
        },
    }
    replies.push(entry);
    assert(replies@ =~= delete_replies(bytes, entry));
    (replies, signal)
}

/// A deleted file is gone: where a user may view a file, taking its lock and then the file itself
/// leaves no file of that identifier, and the other files as they were.
pub proof fn deleted_files_are_gone(tree: FolderView, file: Uuid, user: Uuid)
    requires
        distinct_files(bag(tree)),
        tree.file(file) is Some,
        (tree.file(file)->0).access.can_view(user),
    ensures
        match tree.file_replaced(file, locked(tree.file(file)->0)).file_removed(file, user) {
            Ok(after) => after.file(file) is None && distinct_files(bag(after)) && bag(after)
                =~= bag(tree).remove(tree.file(file)->0),
            Err(_) => false,
        },
{
    let f = tree.file(file)->0;
    found_files_are_listed(tree, file);
    let held = tree.file_replaced(file, locked(f));
    replaced_file_is_found(tree, file, locked(f));
    replacing_keeps_files_distinct(tree, file, locked(f));
    replacing_changes_one_file(tree, file, locked(f));
    viewers_get_their_files(held, file, user);
    removing_removes_one_file(held, file, user);
    removed_file_is_gone(held, file, user);
}

/// The last answer to a deletion is what became of the entry; before it, only what went wrong with
/// the stored bytes is answered.
pub proof fn deletions_answer_the_entry_last(bytes: StoredBytes, entry: u8)
    ensures
        ({
            let replies = delete_replies(bytes, entry);
            &&& replies.last() == entry
            &&& bytes is Removed ==> replies.len() == 1
            &&& bytes !is Removed ==> replies.len() == 2 && replies[0] == (if bytes is Kept {
                50
            } else {
                48u8
            })
        }),
{
}

} // verus!
