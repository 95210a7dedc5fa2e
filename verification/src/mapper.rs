//! The tree of folders and files, who may see and change them, and the searches over it.

use vstd::prelude::*;

use crate::clock::Timestamp;
use crate::ids::Uuid;
use crate::paths::{file_name, file_name_of, join, joined};
use crate::response::ErrorTransfer;

verus! {

/// Shared ownership and permission fields of folders and files.
#[derive(Debug)]
pub struct AccessControl {
    pub owner: Uuid,
    pub is_public_for_viewing: bool,
    pub is_public_for_changing: bool,
    pub is_visible_for: Vec<Uuid>,
    pub is_editable_for: Vec<Uuid>,
}

#[verifier::ext_equal]
pub struct AccessView {
    pub owner: Uuid,
    pub is_public_for_viewing: bool,
    pub is_public_for_changing: bool,
    pub is_visible_for: Seq<Uuid>,
    pub is_editable_for: Seq<Uuid>,
}

impl View for AccessControl {
    type V = AccessView;

    open spec fn view(&self) -> AccessView {
        AccessView {
            owner: self.owner,
            is_public_for_viewing: self.is_public_for_viewing,
            is_public_for_changing: self.is_public_for_changing,
            is_visible_for: self.is_visible_for@,
            is_editable_for: self.is_editable_for@,
        }
    }
}

impl AccessView {
    /// Changing is for everyone, for the owner, and for the listed editors.
    pub open spec fn can_edit(self, user: Uuid) -> bool {
        self.is_public_for_changing || self.owner == user || self.is_editable_for.contains(user)
    }

    /// Viewing is for everyone, for the owner, for the listed viewers, and for all who may edit.
    pub open spec fn can_view(self, user: Uuid) -> bool {
        self.is_public_for_viewing || self.owner == user || self.is_visible_for.contains(user)
            || self.can_edit(user)
    }
}

fn lists(ids: &Vec<Uuid>, id: &Uuid) -> (found: bool)
    ensures
        found == ids@.contains(*id),
{
    let mut i: usize = 0;
    while i < ids.len()
        invariant
            i <= ids@.len(),
            forall|k: int| 0 <= k < i ==> ids@[k] != *id,
        decreases ids@.len() - i,
    {
        if ids[i] == *id {
            return true;
        }
        i += 1;
    }
    false
}

fn copy_ids(ids: &Vec<Uuid>) -> (out: Vec<Uuid>)
    ensures
        out@ == ids@,
{
    let mut out: Vec<Uuid> = Vec::new();
    let mut i: usize = 0;
    while i < ids.len()
        invariant
            i <= ids@.len(),
            out@ == ids@.take(i as int),
        decreases ids@.len() - i,
    {
        out.push(ids[i]);
        i += 1;
        assert(out@ =~= ids@.take(i as int));
    }
    assert(out@ =~= ids@);
    out
}

impl AccessControl {
    pub fn can_view(&self, user: &Uuid) -> (yes: bool)
        ensures
            yes == self@.can_view(*user),
    {
        self.is_public_for_viewing || self.owner == *user || lists(&self.is_visible_for, user)
            || self.can_edit(user)
    }

    pub fn can_edit(&self, user: &Uuid) -> (yes: bool)
        ensures
            yes == self@.can_edit(*user),
    {
        self.is_public_for_changing || self.owner == *user || lists(&self.is_editable_for, user)
    }
}

impl Clone for AccessControl {
    fn clone(&self) -> (copy: Self)
        ensures
            copy@ == self@,
    {
        AccessControl {
            owner: self.owner,
            is_public_for_viewing: self.is_public_for_viewing,
            is_public_for_changing: self.is_public_for_changing,
            is_visible_for: copy_ids(&self.is_visible_for),
            is_editable_for: copy_ids(&self.is_editable_for),
        }
    }
}

/// A stored file.
#[derive(Debug)]
pub struct Fil {
    pub name: String,
    pub last_changed_at: Timestamp,
    pub uuid: Uuid,
    pub path: String,
    pub is_locked: bool,
    pub access: AccessControl,
}

#[verifier::ext_equal]
pub struct FilView {
    pub name: Seq<char>,
    pub last_changed_at: Timestamp,
    pub uuid: Uuid,
    pub path: Seq<char>,
    pub is_locked: bool,
    pub access: AccessView,
}

impl View for Fil {
    type V = FilView;

    open spec fn view(&self) -> FilView {
        FilView {
            name: self.name@,
            last_changed_at: self.last_changed_at,
            uuid: self.uuid,
            path: self.path@,
            is_locked: self.is_locked,
            access: self.access@,
        }
    }
}

impl Clone for Fil {
    fn clone(&self) -> (copy: Self)
        ensures
            copy@ == self@,
    {
        Fil {
            name: self.name.clone(),
            last_changed_at: self.last_changed_at,
            uuid: self.uuid,
            path: self.path.clone(),
            is_locked: self.is_locked,
            access: self.access.clone(),
        }
    }
}

impl Fil {
    /// A new unlocked file, changed now, under a fresh identifier.
    pub fn new(
        filename: String,
        path: String,
        owner: Uuid,
        is_public_for_viewing: bool,
        is_public_for_changing: bool,
        is_visible_for: Vec<Uuid>,
        is_editable_for: Vec<Uuid>,
    ) -> (file: Self)
        ensures
            crate::ids::is_v4(file.uuid.bytes@),
            file.last_changed_at.in_calendar(),
            file@ == (FilView {
                name: filename@,
                last_changed_at: file.last_changed_at,
                uuid: file.uuid,
                path: path@,
                is_locked: false,
                access: AccessView {
                    owner,
                    is_public_for_viewing,
                    is_public_for_changing,
                    is_visible_for: is_visible_for@,
                    is_editable_for: is_editable_for@,
                },
            }),
    {
        let access = AccessControl {
            owner,
            is_public_for_viewing,
            is_public_for_changing,
            is_visible_for,
            is_editable_for,
        };
        Fil::with_identity(filename, path, access, Uuid::new_v4(), Timestamp::now())
    }

    /// A new unlocked file with the given identifier and time of change.
    pub fn with_identity(
        filename: String,
        path: String,
        access: AccessControl,
        uuid: Uuid,
        last_changed_at: Timestamp,
    ) -> (file: Self)
        ensures
            file@ == (FilView {
                name: filename@,
                last_changed_at,
                uuid,
                path: path@,
                is_locked: false,
                access: access@,
            }),
    {
        Fil { name: filename, last_changed_at, uuid, path, is_locked: false, access }
    }

    /// Takes the file's lock. Answers whether it was free.
    pub fn lock(&mut self) -> (taken: bool)
        ensures
            taken == !old(self)@.is_locked,
            final(self)@ == (FilView { is_locked: true, ..old(self)@ }),
    {
        match self.is_locked {
            true => false,
            false => {
                self.is_locked = true;
                true
            },
        }
    }

    /// Frees the file's lock.
    pub fn unlock(&mut self)
        ensures
            final(self)@ == (FilView { is_locked: false, ..old(self)@ }),
    {
        self.is_locked = false;
    }
}

/// A folder with all that lies in it.
#[derive(Debug)]
pub struct Folder {
    pub uuid: Uuid,
    pub name: String,
    pub last_changed_at: Timestamp,
    pub folders: Vec<Folder>,
    pub files: Vec<Fil>,
    pub path: String,
    pub is_locked: bool,
    pub access: AccessControl,
}

#[verifier::ext_equal]
pub struct FolderView {
    pub uuid: Uuid,
    pub name: Seq<char>,
    pub last_changed_at: Timestamp,
    pub folders: Seq<FolderView>,
    pub files: Seq<FilView>,
    pub path: Seq<char>,
    pub is_locked: bool,
    pub access: AccessView,
}

pub open spec fn fil_views(files: Seq<Fil>) -> Seq<FilView> {
    Seq::new(files.len(), |i: int| files[i]@)
}

impl View for Folder {
    type V = FolderView;

    open spec fn view(&self) -> FolderView
        decreases self,
    {
        FolderView {
            uuid: self.uuid,
            name: self.name@,
            last_changed_at: self.last_changed_at,
            folders: Seq::new(
                self.folders@.len(),
                |i: int|
                    if 0 <= i < self.folders@.len() {
                        self.folders@[i].view()
                    } else {
                        arbitrary()
                    },
            ),
            files: fil_views(self.files@),
            path: self.path@,
            is_locked: self.is_locked,
            access: self.access@,
        }
    }
}

/// A folder's view holds the views of its subfolders.
pub proof fn lemma_folder_view(f: Folder)
    ensures
        f@.folders.len() == f.folders@.len(),
        forall|i: int| 0 <= i < f.folders@.len() ==> #[trigger] f@.folders[i] == f.folders@[i]@,
        f@.files == fil_views(f.files@),
        f@.uuid == f.uuid,
        f@.name == f.name@,
        f@.path == f.path@,
        f@.access == f.access@,
        f@.is_locked == f.is_locked,
        f@.last_changed_at == f.last_changed_at,
{
    reveal_with_fuel(<Folder as View>::view, 2);
}

/// What a search looks for.
pub enum Query {
    /// The folder with this identifier.
    Folder(Uuid),
    /// The folder that holds the file with this identifier.
    File(Uuid),
    /// The folder that holds the file (first), as the user (second) may see it.
    VisibleFile(Uuid, Uuid),
    /// The folder that holds the subfolder (first), as the user (second) may see it.
    VisibleFolder(Uuid, Uuid),
}

/// What a search finds in one folder.
#[derive(PartialEq, Eq, Structural)]
pub enum Verdict {
    /// What was looked for.
    Hit,
    /// What was looked for, but hidden from the user; nothing below is searched.
    Hidden,
    /// Nothing; the search goes on below.
    Open,
}

/// Index of the first file with identifier `t`, from `i` on.
pub open spec fn first_file(files: Seq<FilView>, t: Uuid, i: int) -> Option<int>
    decreases files.len() - i,
{
    if i < 0 || i >= files.len() {
        None
    } else if files[i].uuid == t {
        Some(i)
    } else {
        first_file(files, t, i + 1)
    }
}

/// Index of the first folder with identifier `t`, from `i` on.
pub open spec fn first_folder(folders: Seq<FolderView>, t: Uuid, i: int) -> Option<int>
    decreases folders.len() - i,
{
    if i < 0 || i >= folders.len() {
        None
    } else if folders[i].uuid == t {
        Some(i)
    } else {
        first_folder(folders, t, i + 1)
    }
}

pub proof fn lemma_first_file(files: Seq<FilView>, t: Uuid, i: int)
    requires
        0 <= i <= files.len(),
    ensures
        match first_file(files, t, i) {
            Some(k) => i <= k < files.len() && files[k].uuid == t && (forall|j: int|
                i <= j < k ==> files[j].uuid != t),
            None => forall|j: int| i <= j < files.len() ==> files[j].uuid != t,
        },
    decreases files.len() - i,
{
    if i < files.len() && files[i].uuid != t {
        lemma_first_file(files, t, i + 1);
    }
}

pub proof fn lemma_first_folder(folders: Seq<FolderView>, t: Uuid, i: int)
    requires
        0 <= i <= folders.len(),
    ensures
        match first_folder(folders, t, i) {
            Some(k) => i <= k < folders.len() && folders[k].uuid == t && (forall|j: int|
                i <= j < k ==> folders[j].uuid != t),
            None => forall|j: int| i <= j < folders.len() ==> folders[j].uuid != t,
        },
    decreases folders.len() - i,
{
    if i < folders.len() && folders[i].uuid != t {
        lemma_first_folder(folders, t, i + 1);
    }
}

impl FolderView {
    /// What query `q` finds in this very folder.
    pub open spec fn verdict(self, q: Query) -> Verdict {
        match q {
            Query::Folder(t) => if self.uuid == t {
                Verdict::Hit
            } else {
                Verdict::Open
            },
            Query::File(t) => match first_file(self.files, t, 0) {
                Some(_) => Verdict::Hit,
                None => Verdict::Open,
            },
            Query::VisibleFile(t, user) => match first_file(self.files, t, 0) {
                Some(k) => if self.files[k].access.can_view(user) {
                    Verdict::Hit
                } else {
                    Verdict::Hidden
                },
                None => Verdict::Open,
            },
            Query::VisibleFolder(t, user) => match first_folder(self.folders, t, 0) {
                Some(k) => if self.folders[k].access.can_view(user) {
                    Verdict::Hit
                } else {
                    Verdict::Hidden
                },
                None => Verdict::Open,
            },
        }
    }

    /// Where the first hit of `q` lies, a folder before the folders in it: the indices of the
    /// subfolders to descend into.
    pub open spec fn search(self, q: Query) -> Option<Seq<int>>
        decreases self, self.folders.len() + 1,
    {
        match self.verdict(q) {
            Verdict::Hit => Some(Seq::empty()),
            Verdict::Hidden => None,
            Verdict::Open => self.search_from(q, 0),
        }
    }

    /// The first hit in the subfolders from index `i` on.
    pub open spec fn search_from(self, q: Query, i: int) -> Option<Seq<int>>
        decreases self, self.folders.len() - i,
    {
        if i < 0 || i >= self.folders.len() {
            None
        } else {
            match self.folders[i].search(q) {
                Some(p) => Some(seq![i] + p),
                None => self.search_from(q, i + 1),
            }
        }
    }

    /// Whether a list of indices leads to a folder below this one.
    pub open spec fn leads(self, path: Seq<int>) -> bool
        decreases path.len(),
    {
        path.len() == 0 || (0 <= path[0] < self.folders.len() && self.folders[path[0]].leads(
            path.skip(1),
        ))
    }

    /// The folder that a list of indices leads to.
    pub open spec fn at(self, path: Seq<int>) -> FolderView
        decreases path.len(),
    {
        if path.len() == 0 {
            self
        } else {
            self.folders[path[0]].at(path.skip(1))
        }
    }

    /// The tree with the folder at `path` replaced.
    pub open spec fn put(self, path: Seq<int>, new: FolderView) -> FolderView
        decreases path.len(),
    {
        if path.len() == 0 {
            new
        } else {
            FolderView {
                folders: self.folders.update(
                    path[0],
                    self.folders[path[0]].put(path.skip(1), new),
                ),
                ..self
            }
        }
    }

    /// All files of the tree, those of a folder before those of its subfolders.
    pub open spec fn listing(self) -> Seq<FilView>
        decreases self, self.folders.len() + 1,
    {
        self.files + self.listing_below(self.folders.len())
    }

    /// All files of the first `n` subfolders.
    pub open spec fn listing_below(self, n: nat) -> Seq<FilView>
        decreases self, n,
    {
        if n == 0 || n > self.folders.len() {
            Seq::empty()
        } else {
            self.listing_below((n - 1) as nat) + self.folders[n - 1].listing()
        }
    }
}

/// Where a search succeeds, the path leads to a folder in which it is a hit.
pub proof fn lemma_search_hits(f: FolderView, q: Query)
    ensures
        match f.search(q) {
            Some(p) => f.leads(p) && f.at(p).verdict(q) is Hit,
            None => f.verdict(q) !is Hit,
        },
    decreases f, f.folders.len() + 1,
{
    if f.verdict(q) is Open {
        lemma_search_from_hits(f, q, 0);
    }
}

pub proof fn lemma_search_from_hits(f: FolderView, q: Query, i: int)
    requires
        0 <= i,
    ensures
        match f.search_from(q, i) {
            Some(p) => p.len() > 0 && f.leads(p) && f.at(p).verdict(q) is Hit,
            None => forall|k: int| i <= k < f.folders.len() ==> #[trigger] f.folders[k].search(
                q,
            ) is None,
        },
    decreases f, f.folders.len() - i,
{
    if i < f.folders.len() {
        lemma_search_hits(f.folders[i], q);
        match f.folders[i].search(q) {
            Some(p) => {
                assert((seq![i] + p).skip(1) =~= p);
            },
            None => {
                lemma_search_from_hits(f, q, i + 1);
            },
        }
    }
}

pub open spec fn ints(v: Seq<usize>) -> Seq<int> {
    Seq::new(v.len(), |i: int| v[i] as int)
}

impl Folder {
    /// Looks for the first file with identifier `t` in this folder itself.
    pub(crate) fn own_file(&self, t: &Uuid) -> (found: Option<usize>)
        ensures
            match found {
                Some(k) => first_file(self@.files, *t, 0) == Some(k as int) && k
                    < self.files@.len(),
                None => first_file(self@.files, *t, 0) is None,
            },
    {
        proof {
            lemma_folder_view(*self);
            lemma_first_file(self@.files, *t, 0);
        }
        let mut i: usize = 0;
        while i < self.files.len()
            invariant
                i <= self.files@.len(),
                self@.files == fil_views(self.files@),
                first_file(self@.files, *t, 0) == first_file(self@.files, *t, i as int),
            decreases self.files@.len() - i,
        {
            if self.files[i].uuid == *t {
                return Some(i);
            }
            i += 1;
        }
        None
    }

    /// Looks for the first subfolder with identifier `t` in this folder itself.
    fn own_folder(&self, t: &Uuid) -> (found: Option<usize>)
        ensures
            match found {
                Some(k) => first_folder(self@.folders, *t, 0) == Some(k as int) && k
                    < self.folders@.len(),
                None => first_folder(self@.folders, *t, 0) is None,
            },
    {
        proof {
            lemma_folder_view(*self);
        }
        let mut i: usize = 0;
        while i < self.folders.len()
            invariant
                i <= self.folders@.len(),
                self@.folders.len() == self.folders@.len(),
                forall|k: int|
                    0 <= k < self.folders@.len() ==> #[trigger] self@.folders[k]
                        == self.folders@[k]@,
                first_folder(self@.folders, *t, 0) == first_folder(self@.folders, *t, i as int),
            decreases self.folders@.len() - i,
        {
            let sub: &Folder = &self.folders[i];
            proof {
                lemma_folder_view(*sub);
                assert(self@.folders[i as int] == sub@);
            }
            if sub.uuid == *t {
                return Some(i);
            }
            i += 1;
        }
        None
    }

    fn judge(&self, q: &Query) -> (v: Verdict)
        ensures
            v == self@.verdict(*q),
    {
        proof {
            lemma_folder_view(*self);
        }
        match q {
            Query::Folder(t) => if self.uuid == *t {
                Verdict::Hit
            } else {
                Verdict::Open
            },
            Query::File(t) => match self.own_file(t) {
                Some(_) => Verdict::Hit,
                None => Verdict::Open,
            },
            Query::VisibleFile(t, user) => match self.own_file(t) {
                Some(k) => if self.files[k].access.can_view(user) {
                    Verdict::Hit
                } else {
                    Verdict::Hidden
                },
                None => Verdict::Open,
            },
            Query::VisibleFolder(t, user) => match self.own_folder(t) {
                Some(k) => {
                    let sub: &Folder = &self.folders[k];
                    proof {
                        lemma_folder_view(*sub);
                        assert(self@.folders[k as int] == sub@);
                    }
                    if sub.access.can_view(user) {
                        Verdict::Hit
                    } else {
                        Verdict::Hidden
                    }
                },
                None => Verdict::Open,
            },
        }
    }

    /// Searches the tree; the path comes innermost step first.
    pub(crate) fn locate(&self, q: &Query) -> (found: Option<Vec<usize>>)
        ensures
            match found {
                Some(p) => self@.search(*q) == Some(ints(p@).reverse()),
                None => self@.search(*q) is None,
            },
        decreases self,
    {
        match self.judge(q) {
            Verdict::Hit => {
                let p: Vec<usize> = Vec::new();
                assert(ints(p@).reverse() =~= Seq::<int>::empty());
                Some(p)
            },
            Verdict::Hidden => None,
            Verdict::Open => {
                proof {
                    lemma_folder_view(*self);
                }
                let mut i: usize = 0;
                while i < self.folders.len()
                    invariant
                        i <= self.folders@.len(),
                        self@.verdict(*q) is Open,
                        self@.search(*q) == self@.search_from(*q, i as int),
                        self@.folders.len() == self.folders@.len(),
                        forall|k: int|
                            0 <= k < self.folders@.len() ==> #[trigger] self@.folders[k]
                                == self.folders@[k]@,
                    decreases self.folders@.len() - i,
                {
                    let sub: &Folder = &self.folders[i];
                    assert(self@.folders[i as int] == sub@);
                    match sub.locate(q) {
                        Some(mut p) => {
                            let ghost below = ints(p@).reverse();
                            p.push(i);
                            assert(ints(p@).reverse() =~= seq![i as int] + below);
                            return Some(p);
                        },
                        None => {},
                    }
                    i += 1;
                }
                None
            },
        }
    }

    /// The folder that the first `n` steps of `path` lead to, the last of them first.
    pub(crate) fn descend(&mut self, path: &Vec<usize>, n: usize) -> (f: &mut Folder)
        requires
            n <= path@.len(),
            old(self)@.leads(ints(path@.take(n as int)).reverse()),
        ensures
            f@ == old(self)@.at(ints(path@.take(n as int)).reverse()),
            final(self)@ == old(self)@.put(ints(path@.take(n as int)).reverse(), final(f)@),
        decreases n,
    {
        let ghost steps = ints(path@.take(n as int)).reverse();
        if n == 0 {
            return self;
        }
        let k: usize = path[n - 1];
        let ghost before = *self;
        let ghost after = *final(self);
        proof {
            lemma_folder_view(*self);
            lemma_folder_view(after);
            assert(steps[0] == k as int);
            assert(steps.skip(1) =~= ints(path@.take(n - 1)).reverse());
            assert(self@.folders[k as int] == self.folders@[k as int]@);
        }
        let f = self.folders[k].descend(path, n - 1);
        proof {
            assert(after@.folders =~= before@.folders.update(
                k as int,
                before@.folders[k as int].put(steps.skip(1), final(f)@),
            ));
        }
        f
    }
}

/// A folder as it was found on disk.
pub struct ScannedFolder {
    pub path: String,
    pub modified: Timestamp,
    pub folders: Vec<ScannedFolder>,
    pub files: Vec<ScannedFile>,
}

/// A file as it was found on disk.
pub struct ScannedFile {
    pub name: String,
    pub path: String,
    pub modified: Timestamp,
}

/// The permissions of scanned things: the owner's, and everybody's where `public`.
pub open spec fn scanned_access(owner: Uuid, public: bool) -> AccessView {
    AccessView {
        owner,
        is_public_for_viewing: public,
        is_public_for_changing: public,
        is_visible_for: Seq::empty(),
        is_editable_for: Seq::empty(),
    }
}

/// Whether `f` records the file `s`: public, unlocked, under a fresh identifier.
pub open spec fn records_file(f: FilView, s: ScannedFile, owner: Uuid) -> bool {
    &&& crate::ids::is_v4(f.uuid.bytes@)
    &&& f.name == s.name@
    &&& f.path == s.path@
    &&& f.last_changed_at == s.modified
    &&& !f.is_locked
    &&& f.access == scanned_access(owner, true)
}

/// Whether `f` records the folder `s` and all in it: private to its owner, unlocked, under a fresh
/// identifier, with everything below it in the order in which it was found.
pub open spec fn records_folder(f: FolderView, s: ScannedFolder, owner: Uuid) -> bool
    decreases s,
{
    &&& crate::ids::is_v4(f.uuid.bytes@)
    &&& f.name == (match file_name_of(s.path@) {
        Some(n) => n,
        None => Seq::empty(),
    })
    &&& f.path == s.path@
    &&& f.last_changed_at == s.modified
    &&& !f.is_locked
    &&& f.access == scanned_access(owner, false)
    &&& f.files.len() == s.files@.len()
    &&& f.folders.len() == s.folders@.len()
    &&& forall|i: int|
        0 <= i < s.files@.len() ==> records_file(#[trigger] f.files[i], s.files@[i], owner)
    &&& forall|i: int|
        0 <= i < s.folders@.len() ==> records_folder(#[trigger] f.folders[i], s.folders@[i], owner)
}

fn scanned_permissions(owner: Uuid, public: bool) -> (access: AccessControl)
    ensures
        access@ == scanned_access(owner, public),
{
    AccessControl {
        owner,
        is_public_for_viewing: public,
        is_public_for_changing: public,
        is_visible_for: Vec::new(),
        is_editable_for: Vec::new(),
    }
}

impl Folder {
    /// Records a folder found on disk, with everything in it, for `owner`.
    pub fn scan(found: &ScannedFolder, owner: Uuid) -> (folder: Folder)
        ensures
            records_folder(folder@, *found, owner),
        decreases found,
    {
        let mut folders: Vec<Folder> = Vec::new();
        let mut i: usize = 0;
        while i < found.folders.len()
            invariant
                i <= found.folders@.len(),
                folders@.len() == i,
                forall|k: int|
                    0 <= k < i ==> records_folder(
                        #[trigger] folders@[k]@,
                        found.folders@[k],
                        owner,
                    ),
            decreases found.folders@.len() - i,
        {
            let sub: Folder = Folder::scan(&found.folders[i], owner);
            folders.push(sub);
            i += 1;
        }
        let mut files: Vec<Fil> = Vec::new();
        let mut j: usize = 0;
        while j < found.files.len()
            invariant
                j <= found.files@.len(),
                files@.len() == j,
                forall|k: int|
                    0 <= k < j ==> records_file(#[trigger] files@[k]@, found.files@[k], owner),
            decreases found.files@.len() - j,
        {
            let f: &ScannedFile = &found.files[j];
            let file: Fil = Fil::with_identity(
                f.name.clone(),
                f.path.clone(),
                scanned_permissions(owner, true),
                Uuid::new_v4(),
                f.modified,
            );
            files.push(file);
            j += 1;
        }
        let name: String = match file_name(found.path.as_str()) {
            Some(n) => n,
            None => String::new(),
        };
        let folder = Folder {
            uuid: Uuid::new_v4(),
            name,
            last_changed_at: found.modified,
            folders,
            files,
            path: found.path.clone(),
            is_locked: false,
            access: scanned_permissions(owner, false),
        };
        proof {
            lemma_folder_view(folder);
        }
        folder
    }

    /// A new empty folder below `parent_path`, changed now, under a fresh identifier.
    pub fn new(name: &str, parent_path: &str, access: AccessControl) -> (folder: Self)
        ensures
            crate::ids::is_v4(folder.uuid.bytes@),
            folder.last_changed_at.in_calendar(),
            folder@ == empty_folder(
                name@,
                parent_path@,
                access@,
                folder.uuid,
                folder.last_changed_at,
            ),
    {
        Folder::with_identity(name, parent_path, access, Uuid::new_v4(), Timestamp::now())
    }

    /// A new empty folder below `parent_path` with the given identifier and time of change.
    pub fn with_identity(
        name: &str,
        parent_path: &str,
        access: AccessControl,
        uuid: Uuid,
        last_changed_at: Timestamp,
    ) -> (folder: Self)
        ensures
            folder@ == empty_folder(name@, parent_path@, access@, uuid, last_changed_at),
            folder.uuid == uuid,
            folder.last_changed_at == last_changed_at,
    {
        let folder = Folder {
            uuid,
            name: name.to_owned(),
            last_changed_at,
            folders: Vec::new(),
            files: Vec::new(),
            path: join(parent_path, name),
            is_locked: false,
            access,
        };
        proof {
            lemma_folder_view(folder);
            assert(folder@.folders =~= Seq::empty());
            assert(folder@.files =~= Seq::empty());
        }
        folder
    }

    /// The folder with identifier `target`: this one, or the first below it.
    pub fn find_mut(&mut self, target: Uuid) -> (found: Option<&mut Folder>)
        ensures
            match found {
                Some(f) => old(self)@.search(Query::Folder(target)) is Some && {
                    let p = old(self)@.search(Query::Folder(target))->0;
                    f@ == old(self)@.at(p) && final(self)@ == old(self)@.put(p, final(f)@)
                },
                None => old(self)@.search(Query::Folder(target)) is None && *final(self) == *old(
                    self,
                ),
            },
    {
        let q = Query::Folder(target);
        match self.locate(&q) {
            Some(p) => {
                proof {
                    lemma_search_hits(self@, q);
                    assert(p@.take(p@.len() as int) =~= p@);
                }
                let n: usize = p.len();
                Some(self.descend(&p, n))
            },
            None => None,
        }
    }

    /// Copies of all files of the tree.
    pub fn list_files(&self) -> (files: Vec<Fil>)
        ensures
            fil_views(files@) == self@.listing(),
        decreases self,
    {
        proof {
            lemma_folder_view(*self);
        }
        let mut files: Vec<Fil> = copy_files(&self.files);
        let mut i: usize = 0;
        assert(fil_views(files@) =~= self@.files + self@.listing_below(0));
        while i < self.folders.len()
            invariant
                i <= self.folders@.len(),
                self@.folders.len() == self.folders@.len(),
                forall|k: int|
                    0 <= k < self.folders@.len() ==> #[trigger] self@.folders[k]
                        == self.folders@[k]@,
                fil_views(files@) == self@.files + self@.listing_below(i as nat),
            decreases self.folders@.len() - i,
        {
            let sub: &Folder = &self.folders[i];
            assert(self@.folders[i as int] == sub@);
            let mut more: Vec<Fil> = sub.list_files();
            let ghost before = files@;
            let ghost added = more@;
            files.append(&mut more);
            assert(fil_views(files@) =~= fil_views(before) + fil_views(added));
            i += 1;
            assert(fil_views(files@) =~= self@.files + self@.listing_below(i as nat));
        }
        files
    }

    /// The folder that holds the file `target`, where `client_uuid` may view the file.
    pub fn find_file_parent(&mut self, target: &Uuid, client_uuid: &Uuid) -> (found: Result<
        &mut Self,
        ErrorTransfer,
    >)
        ensures
            match found {
                Ok(f) => old(self)@.search(Query::VisibleFile(*target, *client_uuid)) is Some && {
                    let p = old(self)@.search(Query::VisibleFile(*target, *client_uuid))->0;
                    f@ == old(self)@.at(p) && final(self)@ == old(self)@.put(p, final(f)@)
                },
                Err(e) => old(self)@.search(Query::VisibleFile(*target, *client_uuid)) is None
                    && *final(self) == *old(self) && e == old(self)@.file_refusal(
                    *target,
                    *client_uuid,
                ),
            },
    {
        let q = Query::VisibleFile(*target, *client_uuid);
        match self.locate(&q) {
            Some(p) => {
                proof {
                    lemma_search_hits(self@, q);
                    assert(p@.take(p@.len() as int) =~= p@);
                }
                let n: usize = p.len();
                Ok(self.descend(&p, n))
            },
            None => Err(self.refusal(target, client_uuid)),
        }
    }

    /// The folder that holds the subfolder `target`, where `client_uuid` may view the subfolder.
    pub fn find_folder_parent(&mut self, target: &Uuid, client_uuid: &Uuid) -> (found: Result<
        &mut Self,
        MapError,
    >)
        ensures
            match found {
                Ok(f) => old(self)@.search(Query::VisibleFolder(*target, *client_uuid)) is Some && {
                    let p = old(self)@.search(Query::VisibleFolder(*target, *client_uuid))->0;
                    f@ == old(self)@.at(p) && final(self)@ == old(self)@.put(p, final(f)@)
                },
                Err(e) => old(self)@.search(Query::VisibleFolder(*target, *client_uuid)) is None
                    && *final(self) == *old(self) && e == MapError::InvalidFolderLocation,
            },
    {
        let q = Query::VisibleFolder(*target, *client_uuid);
        match self.locate(&q) {
            Some(p) => {
                proof {
                    lemma_search_hits(self@, q);
                    assert(p@.take(p@.len() as int) =~= p@);
                }
                let n: usize = p.len();
                Ok(self.descend(&p, n))
            },
            None => Err(MapError::InvalidFolderLocation),
        }
    }

    fn refusal(&self, target: &Uuid, client_uuid: &Uuid) -> (e: ErrorTransfer)
        requires
            self@.search(Query::VisibleFile(*target, *client_uuid)) is None,
        ensures
            e == self@.file_refusal(*target, *client_uuid),
    {
        match self.own_file(target) {
            Some(_) => ErrorTransfer::Forbidden,
            None => ErrorTransfer::NotFound,
        }
    }

    /// The folder that the first `n` steps of `path` lead to, the last of them first.
    pub(crate) fn peek(&self, path: &Vec<usize>, n: usize) -> (f: &Folder)
        requires
            n <= path@.len(),
            self@.leads(ints(path@.take(n as int)).reverse()),
        ensures
            f@ == self@.at(ints(path@.take(n as int)).reverse()),
        decreases n,
    {
        let ghost steps = ints(path@.take(n as int)).reverse();
        if n == 0 {
            return self;
        }
        let k: usize = path[n - 1];
        proof {
            lemma_folder_view(*self);
            assert(steps[0] == k as int);
            assert(steps.skip(1) =~= ints(path@.take(n - 1)).reverse());
            assert(self@.folders[k as int] == self.folders@[k as int]@);
        }
        self.folders[k].peek(path, n - 1)
    }

    /// The folder with identifier `target`, to read.
    pub fn find(&self, target: Uuid) -> (found: Option<&Folder>)
        ensures
            match found {
                Some(f) => self@.search(Query::Folder(target)) is Some && f@ == self@.at(
                    self@.search(Query::Folder(target))->0,
                ),
                None => self@.search(Query::Folder(target)) is None,
            },
    {
        let q = Query::Folder(target);
        match self.locate(&q) {
            Some(p) => {
                proof {
                    lemma_search_hits(self@, q);
                    assert(p@.take(p@.len() as int) =~= p@);
                }
                Some(self.peek(&p, p.len()))
            },
            None => None,
        }
    }

    /// A copy of the file `target`, where `client_uuid` may view it.
    pub fn find_file_clone(&self, target: &Uuid, client_uuid: &Uuid) -> (found: Result<
        Fil,
        ErrorTransfer,
    >)
        ensures
            match found {
                Ok(f) => self@.visible_file(*target, *client_uuid) == Some(f@),
                Err(e) => self@.visible_file(*target, *client_uuid) is None && e
                    == self@.file_refusal(*target, *client_uuid),
            },
    {
        let q = Query::VisibleFile(*target, *client_uuid);
        match self.locate(&q) {
            Some(p) => {
                proof {
                    lemma_search_hits(self@, q);
                    assert(p@.take(p@.len() as int) =~= p@);
                }
                let f: &Folder = self.peek(&p, p.len());
                proof {
                    lemma_folder_view(*f);
                }
                match f.own_file(target) {
                    Some(k) => Ok(f.files[k].clone()),
                    None => Err(ErrorTransfer::NotFound),
                }
            },
            None => Err(self.refusal(target, client_uuid)),
        }
    }
}

fn copy_files(files: &Vec<Fil>) -> (out: Vec<Fil>)
    ensures
        fil_views(out@) == fil_views(files@),
{
    let mut out: Vec<Fil> = Vec::new();
    let mut i: usize = 0;
    while i < files.len()
        invariant
            i <= files@.len(),
            out@.len() == i,
            forall|k: int| 0 <= k < i ==> #[trigger] out@[k]@ == files@[k]@,
        decreases files@.len() - i,
    {
        out.push(files[i].clone());
        i += 1;
    }
    assert(fil_views(out@) =~= fil_views(files@));
    out
}

/// A folder with nothing in it.
pub open spec fn empty_folder(
    name: Seq<char>,
    parent_path: Seq<char>,
    access: AccessView,
    uuid: Uuid,
    last_changed_at: Timestamp,
) -> FolderView {
    FolderView {
        uuid,
        name,
        last_changed_at,
        folders: Seq::empty(),
        files: Seq::empty(),
        path: joined(parent_path, name),
        is_locked: false,
        access,
    }
}

impl FolderView {
    /// The file that `user` gets when asking for `t`.
    pub open spec fn visible_file(self, t: Uuid, user: Uuid) -> Option<FilView> {
        match self.search(Query::VisibleFile(t, user)) {
            Some(p) => Some(self.at(p).files[first_file(self.at(p).files, t, 0)->0]),
            None => None,
        }
    }

    /// Why `user` does not get `t`: a hidden file is told from a missing one only where it lies in
    /// this very folder.
    pub open spec fn file_refusal(self, t: Uuid, user: Uuid) -> ErrorTransfer {
        if self.verdict(Query::VisibleFile(t, user)) is Hidden {
            ErrorTransfer::Forbidden
        } else {
            ErrorTransfer::NotFound
        }
    }
}

/// Why the tree was not changed.
#[derive(Clone, Copy, Debug)]
pub enum MapError {
    /// The tree could not be read or written.
    Io,
    /// The stored tree could not be understood.
    Json,
    FolderNotFound(Uuid),
    /// Another thread poisoned the lock by panicking while holding it.
    Poisoned,
    FolderAlreadyPresent,
    InvalidFolderLocation,
}

impl ScannedFolder {
    /// Whether a list of indices leads to a folder that was found.
    pub open spec fn leads(self, path: Seq<int>) -> bool
        decreases path.len(),
    {
        path.len() == 0 || (0 <= path[0] < self.folders@.len() && self.folders@[path[0]].leads(
            path.skip(1),
        ))
    }

    /// The found folder that a list of indices leads to.
    pub open spec fn at(self, path: Seq<int>) -> ScannedFolder
        decreases path.len(),
    {
        if path.len() == 0 {
            self
        } else {
            self.folders@[path[0]].at(path.skip(1))
        }
    }
}

/// A scan records every folder that was found in its place, under its path and time, and private to
/// its owner, and in it every file that was found, under its name, path and time, open to all, and
/// nothing else. Nothing is locked.
pub proof fn scans_record_what_was_found(
    f: FolderView,
    s: ScannedFolder,
    owner: Uuid,
    path: Seq<int>,
    k: int,
    user: Uuid,
)
    requires
        records_folder(f, s, owner),
    ensures
        f.leads(path) == s.leads(path),
        f.leads(path) ==> {
            let g = f.at(path);
            let found = s.at(path);
            &&& g.path == found.path@
            &&& g.last_changed_at == found.modified
            &&& file_name_of(found.path@) matches Some(n) ==> g.name == n
            &&& !g.is_locked
            &&& g.access.owner == owner
            &&& g.access.can_view(user) == (user == owner)
            &&& g.access.can_edit(user) == (user == owner)
            &&& g.folders.len() == found.folders@.len()
            &&& g.files.len() == found.files@.len()
            &&& 0 <= k < g.files.len() ==> {
                let x = g.files[k];
                &&& x.name == found.files@[k].name@
                &&& x.path == found.files@[k].path@
                &&& x.last_changed_at == found.files@[k].modified
                &&& !x.is_locked
                &&& x.access.owner == owner
                &&& x.access.can_view(user)
                &&& x.access.can_edit(user)
            }
        },
    decreases path.len(),
{
    if path.len() > 0 && 0 <= path[0] < s.folders@.len() {
        assert(records_folder(f.folders[path[0]], s.folders@[path[0]], owner));
        scans_record_what_was_found(
            f.folders[path[0]],
            s.folders@[path[0]],
            owner,
            path.skip(1),
            k,
            user,
        );
    } else if path.len() == 0 && 0 <= k < f.files.len() {
        assert(records_file(f.files[k], s.files@[k], owner));
    }
}

} // verus!
