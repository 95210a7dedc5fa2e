//! The server's tree as one store: adding, removing and changing what lies in it.

use vstd::prelude::*;

use crate::clock::Timestamp;
use crate::ids::Uuid;
use crate::mapper::{
    empty_folder, fil_views, first_file, lemma_first_file, lemma_folder_view, lemma_search_hits,
    records_folder, AccessControl, AccessView, Fil, FilView, Folder, FolderView, MapError, Query,
    ScannedFolder,
};
use crate::paths::{file_name, file_name_of, join, joined};
use crate::response::ErrorTransfer;

verus! {

/// The folder tree that the server works on.
#[derive(Debug)]
pub struct MapStore {
    pub inner: Folder,
}

impl View for MapStore {
    type V = FolderView;

    open spec fn view(&self) -> FolderView {
        self.inner@
    }
}

impl FolderView {
    /// This folder with one file more.
    pub open spec fn with_file(self, file: FilView) -> FolderView {
        FolderView { files: self.files.push(file), ..self }
    }

    /// This folder with one subfolder more.
    pub open spec fn with_folder(self, folder: FolderView) -> FolderView {
        FolderView { folders: self.folders.push(folder), ..self }
    }

    /// This folder without the file at index `k`.
    pub open spec fn without_file(self, k: int) -> FolderView {
        FolderView { files: self.files.remove(k), ..self }
    }

    /// This folder without its subfolders of identifier `t`.
    pub open spec fn without_folder(self, t: Uuid) -> FolderView {
        FolderView { folders: self.folders.filter(|f: FolderView| f.uuid != t), ..self }
    }

    /// This folder with the file at index `k` replaced.
    pub open spec fn replaced_file(self, k: int, file: FilView) -> FolderView {
        FolderView { files: self.files.update(k, file), ..self }
    }

    /// Whether a subfolder of this very folder is called `name`.
    pub open spec fn has_folder_named(self, name: Seq<char>) -> bool {
        exists|i: int| 0 <= i < self.folders.len() && (#[trigger] self.folders[i]).name == name
    }

    /// The tree with `file` in folder `t`, or in the root where no folder is given.
    pub open spec fn added(self, t: Option<Uuid>, file: FilView) -> Result<FolderView, MapError> {
        match t {
            None => Ok(self.with_file(file)),
            Some(id) => match self.search(Query::Folder(id)) {
                Some(p) => Ok(self.put(p, self.at(p).with_file(file))),
                None => Err(MapError::FolderNotFound(id)),
            },
        }
    }

    /// Whether `client` may delete folder `t`: the path to remove, or the reason against it.
    pub open spec fn deletable(self, t: Uuid, client: Uuid) -> Result<Seq<char>, MapError> {
        match self.search(Query::Folder(t)) {
            None => Err(MapError::FolderNotFound(t)),
            Some(p) => if self.at(p).access.can_edit(client) {
                Ok(self.at(p).path)
            } else {
                Err(MapError::InvalidFolderLocation)
            },
        }
    }

    /// The tree without folder `t`, given whether its directory could be removed.
    pub open spec fn folder_deleted(self, t: Uuid, client: Uuid, dir_removed: bool) -> Result<
        FolderView,
        MapError,
    > {
        match self.deletable(t, client) {
            Err(e) => Err(e),
            Ok(_) => match self.search(Query::VisibleFolder(t, client)) {
                Some(p) if dir_removed => Ok(self.put(p, self.at(p).without_folder(t))),
                _ => Err(MapError::InvalidFolderLocation),
            },
        }
    }

    /// Whether `client` may create a folder called `name` in folder `t`, or in the root where no
    /// folder is given: the path of a directory to create, if one is called for, or the reason
    /// against it.
    pub open spec fn creatable(self, t: Option<Uuid>, name: Seq<char>, client: Uuid) -> Result<
        Option<Seq<char>>,
        MapError,
    > {
        match file_name_of(name) {
            None => Err(MapError::InvalidFolderLocation),
            Some(n) => match t {
                None => Ok(None),
                Some(id) => match self.search(Query::Folder(id)) {
                    None => Err(MapError::FolderNotFound(id)),
                    Some(p) => if !self.at(p).access.can_edit(client) {
                        Err(MapError::InvalidFolderLocation)
                    } else if self.at(p).has_folder_named(n) {
                        Err(MapError::FolderAlreadyPresent)
                    } else {
                        Ok(Some(joined(self.at(p).path, n)))
                    },
                },
            },
        }
    }

    /// The tree with a new folder, given whether its directory could be created.
    pub open spec fn folder_created(
        self,
        t: Option<Uuid>,
        name: Seq<char>,
        client: Uuid,
        access: AccessView,
        dir_created: bool,
        uuid: Uuid,
        now: Timestamp,
    ) -> Result<FolderView, MapError> {
        match self.creatable(t, name, client) {
            Err(e) => Err(e),
            Ok(None) => Ok(
                self.with_folder(
                    empty_folder(file_name_of(name)->0, self.path, access, uuid, now),
                ),
            ),
            Ok(Some(_)) => if !dir_created {
                Err(MapError::InvalidFolderLocation)
            } else {
                let p = self.search(Query::Folder(t->0))->0;
                let new = empty_folder(file_name_of(name)->0, self.at(p).path, access, uuid, now);
                Ok(self.put(p, self.at(p).with_folder(new)))
            },
        }
    }

    /// The tree without the file `t` that `client` may view.
    pub open spec fn file_removed(self, t: Uuid, client: Uuid) -> Result<
        FolderView,
        ErrorTransfer,
    > {
        match self.search(Query::VisibleFile(t, client)) {
            None => Err(self.file_refusal(t, client)),
            Some(p) => Ok(
                self.put(p, self.at(p).without_file(first_file(self.at(p).files, t, 0)->0)),
            ),
        }
    }

    /// The file with identifier `t`, whoever may view it.
    pub open spec fn file(self, t: Uuid) -> Option<FilView> {
        match self.search(Query::File(t)) {
            Some(p) => Some(self.at(p).files[first_file(self.at(p).files, t, 0)->0]),
            None => None,
        }
    }

    /// The tree with the file of identifier `t` replaced.
    pub open spec fn file_replaced(self, t: Uuid, file: FilView) -> FolderView {
        match self.search(Query::File(t)) {
            Some(p) => self.put(
                p,
                self.at(p).replaced_file(first_file(self.at(p).files, t, 0)->0, file),
            ),
            None => self,
        }
    }
}

/// What a change of the tree comes to: the new tree and success, or the old tree and the error.
pub open spec fn outcome<E>(
    old_tree: FolderView,
    new_tree: FolderView,
    result: Result<(), E>,
    change: Result<FolderView, E>,
) -> bool {
    match change {
        Ok(t) => result == Ok::<(), E>(()) && new_tree == t,
        Err(e) => result == Err::<(), E>(e) && new_tree == old_tree,
    }
}

/// A text as the name of one folder: its last step.
pub fn sanitized_folder_name(folder_name: &str) -> (name: Result<String, String>)
    ensures
        match name {
            Ok(n) => file_name_of(folder_name@) == Some(n@),
            Err(e) => file_name_of(folder_name@) is None && e@ == "invalid folder name"@,
        },
{
    match file_name(folder_name) {
        Some(n) => Ok(n),
        None => Err("invalid folder name".to_owned()),
    }
}

fn push_file(folder: &mut Folder, file: Fil)
    ensures
        final(folder)@ == old(folder)@.with_file(file@),
{
    proof {
        lemma_folder_view(*folder);
    }
    let ghost before = *folder;
    folder.files.push(file);
    proof {
        lemma_folder_view(*folder);
        assert(folder@.files =~= before@.files.push(file@));
        assert(folder@.folders =~= before@.folders);
    }
}

fn push_folder(folder: &mut Folder, sub: Folder)
    ensures
        final(folder)@ == old(folder)@.with_folder(sub@),
{
    proof {
        lemma_folder_view(*folder);
    }
    let ghost before = *folder;
    folder.folders.push(sub);
    proof {
        lemma_folder_view(*folder);
        assert(folder@.files =~= before@.files);
        assert(folder@.folders =~= before@.folders.push(sub@));
    }
}

fn drop_file(folder: &mut Folder, k: usize)
    requires
        k < old(folder).files@.len(),
    ensures
        final(folder)@ == old(folder)@.without_file(k as int),
{
    proof {
        lemma_folder_view(*folder);
    }
    let ghost before = *folder;
    folder.files.remove(k);
    proof {
        lemma_folder_view(*folder);
        assert(folder@.files =~= before@.files.remove(k as int));
        assert(folder@.folders =~= before@.folders);
    }
}

proof fn lemma_filter_step(s: Seq<FolderView>, keep: spec_fn(FolderView) -> bool, i: int)
    requires
        0 <= i < s.len(),
    ensures
        s.take(i + 1).filter(keep) == (if keep(s[i]) {
            s.take(i).filter(keep).push(s[i])
        } else {
            s.take(i).filter(keep)
        }),
{
    reveal(Seq::filter);
    assert(s.take(i + 1).drop_last() =~= s.take(i));
}

fn drop_folders(folder: &mut Folder, t: Uuid)
    ensures
        final(folder)@ == old(folder)@.without_folder(t),
{
    let ghost before = *folder;
    let ghost keep = |f: FolderView| f.uuid != t;
    proof {
        lemma_folder_view(*folder);
    }
    let ghost all = before@.folders;
    let ghost mut seen: int = 0;
    let mut i: usize = 0;
    proof {
        assert(all.take(0) =~= Seq::empty());
        reveal(Seq::filter);
        assert(folder.folders@ =~= before.folders@.skip(0));
    }
    while i < folder.folders.len()
        invariant
            0 <= i <= folder.folders@.len(),
            0 <= seen <= all.len(),
            folder.folders@.len() - i == all.len() - seen,
            all == before@.folders,
            all.len() == before.folders@.len(),
            forall|k: int|
                0 <= k < before.folders@.len() ==> #[trigger] all[k] == before.folders@[k]@,
            forall|k: int|
                i <= k < folder.folders@.len() ==> #[trigger] folder.folders@[k]
                    == before.folders@[seen + k - i],
            keep == |f: FolderView| f.uuid != t,
            i == all.take(seen).filter(keep).len(),
            forall|k: int|
                0 <= k < i ==> #[trigger] folder.folders@[k]@ == all.take(seen).filter(keep)[k],
            folder.uuid == before.uuid,
            folder.name == before.name,
            folder.last_changed_at == before.last_changed_at,
            folder.files == before.files,
            folder.path == before.path,
            folder.is_locked == before.is_locked,
            folder.access == before.access,
        decreases folder.folders@.len() - i,
    {
        proof {
            assert(folder.folders@[i as int] == before.folders@[seen]);
            assert(all[seen] == before.folders@[seen]@);
            lemma_folder_view(folder.folders@[i as int]);
            lemma_filter_step(all, keep, seen);
        }
        if folder.folders[i].uuid == t {
            folder.folders.remove(i);
        } else {
            i += 1;
        }
        proof {
            seen = seen + 1;
        }
    }
    proof {
        assert(all.take(seen) =~= all);
        lemma_folder_view(*folder);
        assert(folder@.folders =~= all.filter(keep));
        assert(folder@.files =~= before@.files);
    }
}

fn has_named(folder: &Folder, name: &String) -> (found: bool)
    ensures
        found == folder@.has_folder_named(name@),
{
    proof {
        lemma_folder_view(*folder);
    }
    let mut i: usize = 0;
    while i < folder.folders.len()
        invariant
            i <= folder.folders@.len(),
            folder@.folders.len() == folder.folders@.len(),
            forall|k: int|
                0 <= k < folder.folders@.len() ==> #[trigger] folder@.folders[k]
                    == folder.folders@[k]@,
            forall|k: int| 0 <= k < i ==> (#[trigger] folder@.folders[k]).name != name@,
        decreases folder.folders@.len() - i,
    {
        let sub: &Folder = &folder.folders[i];
        proof {
            lemma_folder_view(*sub);
            assert(folder@.folders[i as int] == sub@);
        }
        if sub.name == *name {
            return true;
        }
        i += 1;
    }
    false
}

impl MapStore {
    /// Read-only access to the tree.
    pub fn read(&self) -> (root: &Folder)
        ensures
            root@ == self@,
    {
        &self.inner
    }

    /// Unlocks a copy of every file of the tree and hands the copies out. The tree itself keeps
    /// its locks.
    pub fn unlock_all(&mut self) -> (copies: Vec<Fil>)
        ensures
            final(self)@ == old(self)@,
            copies@.len() == old(self)@.listing().len(),
            forall|i: int|
                0 <= i < copies@.len() ==> #[trigger] copies@[i]@ == (FilView {
                    is_locked: false,
                    ..old(self)@.listing()[i]
                }),
    {
        let mut copies: Vec<Fil> = self.inner.list_files();
        let ghost all = self@.listing();
        let mut i: usize = 0;
        assert(fil_views(copies@) == all);
        assert(forall|k: int|
            0 <= k < copies@.len() ==> #[trigger] copies@[k]@ == fil_views(copies@)[k]);
        while i < copies.len()
            invariant
                i <= copies@.len(),
                copies@.len() == all.len(),
                forall|k: int|
                    0 <= k < i ==> #[trigger] copies@[k]@ == (FilView {
                        is_locked: false,
                        ..all[k]
                    }),
                forall|k: int| i <= k < copies@.len() ==> #[trigger] copies@[k]@ == all[k],
            decreases copies@.len() - i,
        {
            copies[i].unlock();
            i += 1;
        }
        copies
    }

    /// Replaces the tree by what was found on disk, under a fresh owner.
    pub fn map_new(&mut self, found: &ScannedFolder)
        ensures
            exists|owner: Uuid|
                crate::ids::is_v4(owner.bytes@) && #[trigger] records_folder(
                    final(self)@,
                    *found,
                    owner,
                ),
    {
        let owner: Uuid = Uuid::new_v4();
        self.inner = Folder::scan(found, owner);
        assert(records_folder(self@, *found, owner));
    }

    /// Inserts `file` into the folder identified by `folder_uuid`, or into the root.
    pub fn add_file(&mut self, folder_uuid: Option<Uuid>, file: Fil) -> (result: Result<
        (),
        MapError,
    >)
        ensures
            outcome(old(self)@, final(self)@, result, old(self)@.added(folder_uuid, file@)),
    {
        match folder_uuid {
            None => {
                push_file(&mut self.inner, file);
                Ok(())
            },
            Some(target) => match self.inner.find_mut(target) {
                Some(folder) => {
                    push_file(folder, file);
                    Ok(())
                },
                None => Err(MapError::FolderNotFound(target)),
            },
        }
    }

    /// The directory to remove before folder `folder_uuid` leaves the tree.
    pub fn folder_to_delete(&self, folder_uuid: Uuid, client_uuid: &Uuid) -> (path: Result<
        String,
        MapError,
    >)
        ensures
            match path {
                Ok(p) => self@.deletable(folder_uuid, *client_uuid) == Ok::<Seq<char>, MapError>(
                    p@,
                ),
                Err(e) => self@.deletable(folder_uuid, *client_uuid) == Err::<Seq<char>, MapError>(
                    e,
                ),
            },
    {
        match self.inner.find(folder_uuid) {
            None => Err(MapError::FolderNotFound(folder_uuid)),
            Some(folder) => {
                proof {
                    lemma_folder_view(*folder);
                }
                if !folder.access.can_edit(client_uuid) {
                    return Err(MapError::InvalidFolderLocation);
                }
                Ok(folder.path.clone())
            },
        }
    }

    /// Takes folder `folder_uuid` out of the tree. `dir_removed` says whether its directory could
    /// be removed.
    pub fn delete_folder(
        &mut self,
        folder_uuid: Uuid,
        client_uuid: &Uuid,
        dir_removed: bool,
    ) -> (result: Result<(), MapError>)
        ensures
            outcome(
                old(self)@,
                final(self)@,
                result,
                old(self)@.folder_deleted(folder_uuid, *client_uuid, dir_removed),
            ),
    {
        match self.folder_to_delete(folder_uuid, client_uuid) {
            Err(e) => Err(e),
            Ok(_) => {
                if !dir_removed {
                    return Err(MapError::InvalidFolderLocation);
                }
                match self.inner.find_folder_parent(&folder_uuid, client_uuid) {
                    Ok(parent) => {
                        drop_folders(parent, folder_uuid);
                        Ok(())
                    },
                    Err(e) => Err(e),
                }
            },
        }
    }

    /// The directory to create before the folder enters the tree; none for a folder of the root.
    pub fn folder_to_create(
        &self,
        folder_uuid: Option<Uuid>,
        folder_name: &str,
        client_uuid: &Uuid,
    ) -> (path: Result<Option<String>, MapError>)
        ensures
            match path {
                Ok(Some(p)) => self@.creatable(folder_uuid, folder_name@, *client_uuid) == Ok::<
                    Option<Seq<char>>,
                    MapError,
                >(Some(p@)),
                Ok(None) => self@.creatable(folder_uuid, folder_name@, *client_uuid) == Ok::<
                    Option<Seq<char>>,
                    MapError,
                >(None),
                Err(e) => self@.creatable(folder_uuid, folder_name@, *client_uuid) == Err::<
                    Option<Seq<char>>,
                    MapError,
                >(e),
            },
    {
        let name: String = match sanitized_folder_name(folder_name) {
            Ok(n) => n,
            Err(_) => return Err(MapError::InvalidFolderLocation),
        };
        match folder_uuid {
            None => Ok(None),
            Some(target) => match self.inner.find(target) {
                None => Err(MapError::FolderNotFound(target)),
                Some(folder) => {
                    proof {
                        lemma_folder_view(*folder);
                    }
                    if !folder.access.can_edit(client_uuid) {
                        return Err(MapError::InvalidFolderLocation);
                    }
                    if has_named(folder, &name) {
                        return Err(MapError::FolderAlreadyPresent);
                    }
                    Ok(Some(join(folder.path.as_str(), name.as_str())))
                },
            },
        }
    }

    /// Puts a new folder into the tree, changed now, under a fresh identifier. `dir_created` says
    /// whether the directory of `folder_to_create` could be created.
    pub fn create_folder(
        &mut self,
        folder_uuid: Option<Uuid>,
        folder_name: &str,
        client_uuid: &Uuid,
        access: AccessControl,
        dir_created: bool,
    ) -> (result: Result<(), MapError>)
        ensures
            exists|uuid: Uuid, now: Timestamp|
                crate::ids::is_v4(uuid.bytes@) && now.in_calendar() && outcome(
                    old(self)@,
                    final(self)@,
                    result,
                    #[trigger] old(self)@.folder_created(
                        folder_uuid,
                        folder_name@,
                        *client_uuid,
                        access@,
                        dir_created,
                        uuid,
                        now,
                    ),
                ),
    {
        self.create_folder_as(
            folder_uuid,
            folder_name,
            client_uuid,
            access,
            dir_created,
            Uuid::new_v4(),
            Timestamp::now(),
        )
    }

    /// Puts a new folder with the given identifier and time of change into the tree.
    pub fn create_folder_as(
        &mut self,
        folder_uuid: Option<Uuid>,
        folder_name: &str,
        client_uuid: &Uuid,
        access: AccessControl,
        dir_created: bool,
        uuid: Uuid,
        now: Timestamp,
    ) -> (result: Result<(), MapError>)
        ensures
            outcome(
                old(self)@,
                final(self)@,
                result,
                old(self)@.folder_created(
                    folder_uuid,
                    folder_name@,
                    *client_uuid,
                    access@,
                    dir_created,
                    uuid,
                    now,
                ),
            ),
    {
        match self.folder_to_create(folder_uuid, folder_name, client_uuid) {
            Err(e) => Err(e),
            Ok(dir) => {
                let name: String = match sanitized_folder_name(folder_name) {
                    Ok(n) => n,
                    Err(_) => return Err(MapError::InvalidFolderLocation),
                };
                match folder_uuid {
                    None => {
                        proof {
                            lemma_folder_view(self.inner);
                        }
                        let sub = Folder::with_identity(
                            name.as_str(),
                            self.inner.path.as_str(),
                            access,
                            uuid,
                            now,
                        );
                        push_folder(&mut self.inner, sub);
                        Ok(())
                    },
                    Some(target) => {
                        if !dir_created {
                            return Err(MapError::InvalidFolderLocation);
                        }
                        match self.inner.find_mut(target) {
                            None => Err(MapError::FolderNotFound(target)),
                            Some(folder) => {
                                proof {
                                    lemma_folder_view(*folder);
                                }
                                let sub = Folder::with_identity(
                                    name.as_str(),
                                    folder.path.as_str(),
                                    access,
                                    uuid,
                                    now,
                                );
                                push_folder(folder, sub);
                                Ok(())
                            },
                        }
                    },
                }
            },
        }
    }

    /// The path of folder `folder_uuid`.
    pub fn get_path(&self, folder_uuid: Uuid) -> (path: Result<String, MapError>)
        ensures
            match path {
                Ok(p) => self@.search(Query::Folder(folder_uuid)) is Some && p@ == self@.at(
                    self@.search(Query::Folder(folder_uuid))->0,
                ).path,
                Err(e) => self@.search(Query::Folder(folder_uuid)) is None && e
                    == MapError::FolderNotFound(folder_uuid),
            },
    {
        match self.inner.find(folder_uuid) {
            None => Err(MapError::FolderNotFound(folder_uuid)),
            Some(folder) => {
                proof {
                    lemma_folder_view(*folder);
                }
                Ok(folder.path.clone())
            },
        }
    }

    /// Takes the file `file_uuid` out of the tree, where `client_uuid` may view it.
    pub fn remove_file(&mut self, file_uuid: &Uuid, client_uuid: &Uuid) -> (result: Result<
        (),
        ErrorTransfer,
    >)
        ensures
            outcome(
                old(self)@,
                final(self)@,
                result,
                old(self)@.file_removed(*file_uuid, *client_uuid),
            ),
    {
        proof {
            lemma_search_hits(self@, Query::VisibleFile(*file_uuid, *client_uuid));
        }
        match self.inner.find_file_parent(file_uuid, client_uuid) {
            Err(e) => Err(e),
            Ok(folder) => {
                match folder.own_file(file_uuid) {
                    Some(k) => drop_file(folder, k),
                    None => {},
                }
                Ok(())
            },
        }
    }
}

/// The file `target`, to change, where `client_uuid` may view it.
pub fn with_file_mut<'a>(target: &Uuid, map: &'a mut MapStore, client_uuid: &Uuid) -> (found:
    Result<&'a mut Fil, ErrorTransfer>)
    ensures
        match found {
            Ok(f) => old(map)@.file(*target) == Some(f@) && f@.access.can_view(*client_uuid)
                && final(map)@ == old(map)@.file_replaced(*target, final(f)@),
            Err(e) => final(map)@ == old(map)@ && match old(map)@.file(*target) {
                None => e == ErrorTransfer::NotFound,
                Some(f) => e == ErrorTransfer::Forbidden && !f.access.can_view(*client_uuid),
            },
        },
{
    let q = Query::File(*target);
    match map.inner.locate(&q) {
        None => Err(ErrorTransfer::NotFound),
        Some(p) => {
            if !may_view(&map.inner, target, client_uuid, &p) {
                return Err(ErrorTransfer::Forbidden);
            }
            match find_file_mut(&mut map.inner, target) {
                Some(f) => Ok(f),
                None => Err(ErrorTransfer::NotFound),
            }
        },
    }
}

/// The file `target`, to change, whoever may view it.
pub fn with_file_mut_unchecked<'a>(target: &Uuid, map: &'a mut MapStore) -> (found: Result<
    &'a mut Fil,
    ErrorTransfer,
>)
    ensures
        match found {
            Ok(f) => old(map)@.file(*target) == Some(f@) && final(map)@
                == old(map)@.file_replaced(*target, final(f)@),
            Err(e) => old(map)@.file(*target) is None && e == ErrorTransfer::NotFound
                && final(map)@ == old(map)@,
        },
{
    match find_file_mut(&mut map.inner, target) {
        Some(f) => Ok(f),
        None => Err(ErrorTransfer::NotFound),
    }
}

fn may_view(root: &Folder, target: &Uuid, client_uuid: &Uuid, path: &Vec<usize>) -> (yes: bool)
    requires
        root@.search(Query::File(*target)) == Some(crate::mapper::ints(path@).reverse()),
    ensures
        yes == root@.file(*target)->0.access.can_view(*client_uuid),
{
    proof {
        lemma_search_hits(root@, Query::File(*target));
        assert(path@.take(path@.len() as int) =~= path@);
    }
    let folder: &Folder = root.peek(path, path.len());
    proof {
        lemma_folder_view(*folder);
    }
    match folder.own_file(target) {
        Some(k) => folder.files[k].access.can_view(client_uuid),
        None => false,
    }
}

fn file_slot(folder: &mut Folder, k: usize) -> (f: &mut Fil)
    requires
        k < old(folder).files@.len(),
    ensures
        f@ == old(folder)@.files[k as int],
        final(folder)@ == old(folder)@.replaced_file(k as int, final(f)@),
{
    let ghost before = *folder;
    let ghost after = *final(folder);
    proof {
        lemma_folder_view(before);
        lemma_folder_view(after);
    }
    let f = &mut folder.files[k];
    proof {
        assert(after@.files =~= before@.files.update(k as int, final(f)@));
        assert(after@.folders =~= before@.folders);
    }
    f
}

/// Searches the tree for a file with the given identifier.
pub fn find_file_mut<'a>(folder: &'a mut Folder, target: &Uuid) -> (found: Option<&'a mut Fil>)
    ensures
        match found {
            Some(f) => old(folder)@.file(*target) == Some(f@) && final(folder)@
                == old(folder)@.file_replaced(*target, final(f)@),
            None => old(folder)@.file(*target) is None && *final(folder) == *old(folder),
        },
{
    let q = Query::File(*target);
    match folder.locate(&q) {
        None => None,
        Some(p) => {
            proof {
                lemma_search_hits(folder@, q);
                assert(p@.take(p@.len() as int) =~= p@);
            }
            let n: usize = p.len();
            let k: usize = match folder.peek(&p, n).own_file(target) {
                Some(k) => k,
                None => return None,
            };
            let holder = folder.descend(&p, n);
            proof {
                lemma_folder_view(*holder);
                lemma_first_file(holder@.files, *target, 0);
            }
            Some(file_slot(holder, k))
        },
    }
}

} // verus!
