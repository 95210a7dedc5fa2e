//! The part of the tree that a user may see, and the framing in which it is sent.

use vstd::prelude::*;

use crate::clock::Timestamp;
use crate::ids::Uuid;
use crate::mapper::{fil_views, lemma_folder_view, Fil, FilView, Folder, FolderView};
use crate::wire::{be_bytes, be_value, push_all, push_be, read_u32};

verus! {

/// A folder as a user sees it.
#[derive(Debug)]
pub struct FolderMap {
    pub uuid: Uuid,
    pub name: String,
    pub last_changed_at: Timestamp,
    pub folders: Vec<FolderMap>,
    pub files: Vec<FilMap>,
}

/// A file as a user sees it.
#[derive(Debug)]
pub struct FilMap {
    pub name: String,
    pub last_changed_at: Timestamp,
    pub uuid: Uuid,
    pub path: String,
}

#[verifier::ext_equal]
pub struct FolderMapView {
    pub uuid: Uuid,
    pub name: Seq<char>,
    pub last_changed_at: Timestamp,
    pub folders: Seq<FolderMapView>,
    pub files: Seq<FilMapView>,
}

#[verifier::ext_equal]
pub struct FilMapView {
    pub name: Seq<char>,
    pub last_changed_at: Timestamp,
    pub uuid: Uuid,
    pub path: Seq<char>,
}

impl View for FilMap {
    type V = FilMapView;

    open spec fn view(&self) -> FilMapView {
        FilMapView {
            name: self.name@,
            last_changed_at: self.last_changed_at,
            uuid: self.uuid,
            path: self.path@,
        }
    }
}

impl View for FolderMap {
    type V = FolderMapView;

    open spec fn view(&self) -> FolderMapView
        decreases self,
    {
        FolderMapView {
            uuid: self.uuid,
            name: self.name@,
            last_changed_at: self.last_changed_at,
            folders: Seq::new(
                self.folders@.len(),
                |i: int|
                    if 0 <= i < self.folders@.len() {
                        self.folders@[i].view()
                    } else {
                        arbitrary()
                    },
            ),
            files: Seq::new(self.files@.len(), |i: int| self.files@[i]@),
        }
    }
}

proof fn lemma_map_view(m: FolderMap)
    ensures
        m@.folders.len() == m.folders@.len(),
        forall|i: int| 0 <= i < m.folders@.len() ==> #[trigger] m@.folders[i] == m.folders@[i]@,
{
    reveal_with_fuel(<FolderMap as View>::view, 2);
}

/// What a user sees of a file.
pub open spec fn file_entry(f: FilView) -> FilMapView {
    FilMapView {
        name: f.name,
        last_changed_at: f.last_changed_at,
        uuid: f.uuid,
        path: f.path,
    }
}

/// The entries of the files that `user` may view, in order.
pub open spec fn file_entries(files: Seq<FilView>, user: Uuid) -> Seq<FilMapView> {
    files.filter(|f: FilView| f.access.can_view(user)).map_values(|f: FilView| file_entry(f))
}

/// What `user` sees of a folder: the files and subfolders that `user` may view, and of each
/// subfolder the same.
pub open spec fn client_map(f: FolderView, user: Uuid) -> FolderMapView
    decreases f, f.folders.len() + 1,
{
    FolderMapView {
        uuid: f.uuid,
        name: f.name,
        last_changed_at: f.last_changed_at,
        folders: client_maps(f, user, f.folders.len()),
        files: file_entries(f.files, user),
    }
}

/// What `user` sees of the first `n` subfolders of a folder.
pub open spec fn client_maps(f: FolderView, user: Uuid, n: nat) -> Seq<FolderMapView>
    decreases f, n,
{
    if n == 0 || n > f.folders.len() {
        Seq::empty()
    } else {
        let rest = client_maps(f, user, (n - 1) as nat);
        if f.folders[n - 1].access.can_view(user) {
            rest.push(client_map(f.folders[n - 1], user))
        } else {
            rest
        }
    }
}

proof fn lemma_entries_step(files: Seq<FilView>, user: Uuid, i: int)
    requires
        0 <= i < files.len(),
    ensures
        file_entries(files.take(i + 1), user) == (if files[i].access.can_view(user) {
            file_entries(files.take(i), user).push(file_entry(files[i]))
        } else {
            file_entries(files.take(i), user)
        }),
{
    reveal(Seq::filter);
    let keep = |f: FilView| f.access.can_view(user);
    assert(files.take(i + 1).drop_last() =~= files.take(i));
    if keep(files[i]) {
        let kept = files.take(i).filter(keep);
        assert(kept.push(files[i]).map_values(|f: FilView| file_entry(f)) =~= kept.map_values(
            |f: FilView| file_entry(f),
        ).push(file_entry(files[i])));
    }
}

fn entry_of(f: &Fil) -> (entry: FilMap)
    ensures
        entry@ == file_entry(f@),
{
    FilMap {
        name: f.name.clone(),
        last_changed_at: f.last_changed_at,
        uuid: f.uuid,
        path: f.path.clone(),
    }
}

fn entries_of(files: &Vec<Fil>, client_uuid: &Uuid) -> (out: Vec<FilMap>)
    ensures
        Seq::new(out@.len(), |i: int| out@[i]@) == file_entries(fil_views(files@), *client_uuid),
{
    let ghost all = fil_views(files@);
    let mut out: Vec<FilMap> = Vec::new();
    let mut i: usize = 0;
    proof {
        reveal(Seq::filter);
        assert(all.take(0) =~= Seq::empty());
        assert(file_entries(all.take(0), *client_uuid) =~= Seq::empty());
    }
    while i < files.len()
        invariant
            i <= files@.len(),
            all == fil_views(files@),
            out@.len() == file_entries(all.take(i as int), *client_uuid).len(),
            forall|k: int|
                0 <= k < out@.len() ==> #[trigger] out@[k]@ == file_entries(
                    all.take(i as int),
                    *client_uuid,
                )[k],
        decreases files@.len() - i,
    {
        proof {
            lemma_entries_step(all, *client_uuid, i as int);
        }
        if files[i].access.can_view(client_uuid) {
            out.push(entry_of(&files[i]));
        }
        i += 1;
    }
    proof {
        assert(all.take(i as int) =~= all);
        assert(Seq::new(out@.len(), |i: int| out@[i]@) =~= file_entries(all, *client_uuid));
    }
    out
}

/// What the user may see of `folder`.
pub fn build_client_map(folder: &Folder, client_uuid: Uuid) -> (map: FolderMap)
    ensures
        map@ == client_map(folder@, client_uuid),
    decreases folder,
{
    proof {
        lemma_folder_view(*folder);
    }
    let files: Vec<FilMap> = entries_of(&folder.files, &client_uuid);
    let mut folders: Vec<FolderMap> = Vec::new();
    let mut i: usize = 0;
    while i < folder.folders.len()
        invariant
            i <= folder.folders@.len(),
            folder@.folders.len() == folder.folders@.len(),
            forall|k: int|
                0 <= k < folder.folders@.len() ==> #[trigger] folder@.folders[k]
                    == folder.folders@[k]@,
            folders@.len() == client_maps(folder@, client_uuid, i as nat).len(),
            forall|k: int|
                0 <= k < folders@.len() ==> #[trigger] folders@[k]@ == client_maps(
                    folder@,
                    client_uuid,
                    i as nat,
                )[k],
        decreases folder.folders@.len() - i,
    {
        let sub: &Folder = &folder.folders[i];
        proof {
            lemma_folder_view(*sub);
            assert(folder@.folders[i as int] == sub@);
        }
        if sub.access.can_view(&client_uuid) {
            let seen: FolderMap = build_client_map(sub, client_uuid);
            folders.push(seen);
        }
        i += 1;
    }
    let map = FolderMap {
        uuid: folder.uuid,
        name: folder.name.clone(),
        last_changed_at: folder.last_changed_at,
        folders,
        files,
    };
    proof {
        lemma_map_view(map);
        assert(map@.folders =~= client_maps(folder@, client_uuid, folder@.folders.len()));
    }
    map
}

/// What the user may see of the tree; `None` where the user may not even view the root.
pub fn to_client_map(root: &Folder, client_uuid: Uuid) -> (map: Option<FolderMap>)
    ensures
        match map {
            Some(m) => root@.access.can_view(client_uuid) && m@ == client_map(root@, client_uuid),
            None => !root@.access.can_view(client_uuid),
        },
{
    proof {
        lemma_folder_view(*root);
    }
    if !root.access.can_view(&client_uuid) {
        return None;
    }
    Some(build_client_map(root, client_uuid))
}

/// A payload behind its length in four bytes.
pub open spec fn framed(payload: Seq<u8>) -> Seq<u8> {
    be_bytes(payload.len(), 4) + payload
}

/// Frames `payload` as its length in four bytes, then the bytes themselves.
pub fn send_framed(payload: &[u8]) -> (message: Vec<u8>)
    ensures
        message@ == framed(payload@),
{
    let mut message: Vec<u8> = Vec::new();
    push_be(&mut message, payload.len() as u64, 4);
    push_all(&mut message, payload);
    assert(message@ =~= framed(payload@));
    message
}

/// Reads a message that `send_framed` wrote: the length that the first four bytes announce, and
/// that many bytes behind them; `None` where the bytes end too soon.
pub fn recv_framed(bytes: &[u8]) -> (payload: Option<Vec<u8>>)
    ensures
        match payload {
            Some(p) => bytes@.len() >= 4 && bytes@.len() >= 4 + be_value(bytes@.take(4)) && p@
                == bytes@.subrange(4, 4 + be_value(bytes@.take(4)) as int),
            None => bytes@.len() < 4 || bytes@.len() < 4 + be_value(bytes@.take(4)),
        },
{
    if bytes.len() < 4 {
        return None;
    }
    let len: u32 = read_u32(bytes, 0);
    assert(bytes@.subrange(0, 4) =~= bytes@.take(4));
    if ((bytes.len() - 4) as u64) < len as u64 {
        return None;
    }
    Some(crate::wire::copy_range(bytes, 4, 4 + len as usize))
}

/// A framed payload of less than four gigabytes is read back whole, whatever follows it.
pub proof fn framing_roundtrip(payload: Seq<u8>, rest: Seq<u8>)
    requires
        payload.len() < 0x1_0000_0000,
    ensures
        ({
            let bytes = framed(payload) + rest;
            &&& bytes.len() >= 4 + be_value(bytes.take(4))
            &&& be_value(bytes.take(4)) == payload.len()
            &&& bytes.subrange(4, 4 + be_value(bytes.take(4)) as int) == payload
        }),
{
    let bytes = framed(payload) + rest;
    crate::wire::lemma_be_bytes_len(payload.len(), 4);
    crate::wire::lemma_u32_roundtrip(payload.len() as u32);
    assert(bytes.take(4) =~= be_bytes(payload.len(), 4));
    assert(bytes.subrange(4, 4 + payload.len() as int) =~= payload);
}

/// Whether a user sees a file entry somewhere in a map.
pub open spec fn shows_file(m: FolderMapView, e: FilMapView) -> bool
    decreases m,
{
    m.files.contains(e) || exists|i: int|
        0 <= i < m.folders.len() && shows_file(#[trigger] m.folders[i], e)
}

/// A map shows only files of the tree that the user may view.
pub proof fn maps_show_only_viewable_files(f: FolderView, user: Uuid, e: FilMapView)
    requires
        shows_file(client_map(f, user), e),
    ensures
        exists|x: FilView| #[trigger]
            f.listing().contains(x) && file_entry(x) == e && x.access.can_view(user),
    decreases f, f.folders.len() + 1,
{
    let m = client_map(f, user);
    let below = f.listing_below(f.folders.len());
    if m.files.contains(e) {
        let keep = |x: FilView| x.access.can_view(user);
        let k = choose|k: int| 0 <= k < m.files.len() && m.files[k] == e;
        let x = f.files.filter(keep)[k];
        assert(f.files.filter(keep).contains(x));
        f.files.lemma_filter_contains_rev(keep, x);
        f.files.lemma_filter_pred(keep, k);
        let j = choose|j: int| 0 <= j < f.files.len() && f.files[j] == x;
        assert((f.files + below)[j] == x);
        assert(f.listing().contains(x));
    } else {
        let i = choose|i: int| 0 <= i < m.folders.len() && shows_file(#[trigger] m.folders[i], e);
        lemma_maps_show(f, user, e, f.folders.len(), i);
        let x = choose|x: FilView| #[trigger]
            below.contains(x) && file_entry(x) == e && x.access.can_view(user);
        let j = choose|j: int| 0 <= j < below.len() && below[j] == x;
        assert((f.files + below)[f.files.len() + j] == x);
        assert(f.listing().contains(x));
    }
}

proof fn lemma_maps_show(f: FolderView, user: Uuid, e: FilMapView, n: nat, i: int)
    requires
        n <= f.folders.len(),
        0 <= i < client_maps(f, user, n).len(),
        shows_file(client_maps(f, user, n)[i], e),
    ensures
        exists|x: FilView| #[trigger]
            f.listing_below(n).contains(x) && file_entry(x) == e && x.access.can_view(user),
    decreases f, n,
{
    let rest = client_maps(f, user, (n - 1) as nat);
    let head = f.listing_below((n - 1) as nat);
    let tail = f.folders[n - 1].listing();
    if i < rest.len() {
        lemma_maps_show(f, user, e, (n - 1) as nat, i);
        let x = choose|x: FilView| #[trigger]
            head.contains(x) && file_entry(x) == e && x.access.can_view(user);
        let j = choose|j: int| 0 <= j < head.len() && head[j] == x;
        assert((head + tail)[j] == x);
        assert(f.listing_below(n).contains(x));
    } else {
        maps_show_only_viewable_files(f.folders[n - 1], user, e);
        let x = choose|x: FilView| #[trigger]
            tail.contains(x) && file_entry(x) == e && x.access.can_view(user);
        let j = choose|j: int| 0 <= j < tail.len() && tail[j] == x;
        assert((head + tail)[head.len() + j] == x);
        assert(f.listing_below(n).contains(x));
    }
}

/// Whether the user may view every folder on the way to `path`.
pub open spec fn open_way(f: FolderView, path: Seq<int>, user: Uuid) -> bool
    decreases path.len(),
{
    path.len() == 0 || (0 <= path[0] < f.folders.len() && f.folders[path[0]].access.can_view(user)
        && open_way(f.folders[path[0]], path.skip(1), user))
}

proof fn lemma_map_has(f: FolderView, user: Uuid, n: nat, k: int)
    requires
        0 <= k < n <= f.folders.len(),
        f.folders[k].access.can_view(user),
    ensures
        exists|i: int|
            0 <= i < client_maps(f, user, n).len() && #[trigger] client_maps(f, user, n)[i]
                == client_map(f.folders[k], user),
    decreases n,
{
    let rest = client_maps(f, user, (n - 1) as nat);
    let all = client_maps(f, user, n);
    if k < n - 1 {
        lemma_map_has(f, user, (n - 1) as nat, k);
        let i = choose|i: int|
            0 <= i < rest.len() && #[trigger] rest[i] == client_map(f.folders[k], user);
        assert(all[i] == rest[i]);
    } else {
        assert(all[rest.len() as int] == client_map(f.folders[k], user));
    }
}

/// A map shows every file that the user may view, where the user may also view the folders on the
/// way to it.
pub proof fn maps_show_all_reachable_files(
    f: FolderView,
    user: Uuid,
    path: Seq<int>,
    x: FilView,
)
    requires
        open_way(f, path, user),
        f.at(path).files.contains(x),
        x.access.can_view(user),
    ensures
        shows_file(client_map(f, user), file_entry(x)),
    decreases path.len(),
{
    let m = client_map(f, user);
    if path.len() == 0 {
        let keep = |y: FilView| y.access.can_view(user);
        let j = choose|j: int| 0 <= j < f.files.len() && f.files[j] == x;
        f.files.lemma_filter_contains(keep, j);
        let kept = f.files.filter(keep);
        let k = choose|k: int| 0 <= k < kept.len() && kept[k] == x;
        assert(m.files[k] == file_entry(x));
    } else {
        maps_show_all_reachable_files(f.folders[path[0]], user, path.skip(1), x);
        lemma_map_has(f, user, f.folders.len(), path[0]);
        let i = choose|i: int|
            0 <= i < m.folders.len() && #[trigger] m.folders[i] == client_map(
                f.folders[path[0]],
                user,
            );
        assert(shows_file(m.folders[i], file_entry(x)));
    }
}

impl FolderMapView {
    /// Whether a list of indices leads to a folder of the map.
    pub open spec fn leads(self, path: Seq<int>) -> bool
        decreases path.len(),
    {
        path.len() == 0 || (0 <= path[0] < self.folders.len() && self.folders[path[0]].leads(
            path.skip(1),
        ))
    }

    /// The folder of the map that a list of indices leads to.
    pub open spec fn at(self, path: Seq<int>) -> FolderMapView
        decreases path.len(),
    {
        if path.len() == 0 {
            self
        } else {
            self.folders[path[0]].at(path.skip(1))
        }
    }
}

/// How many of the first `n` subfolders a user may view.
pub open spec fn folders_viewable(f: FolderView, user: Uuid, n: nat) -> nat
    decreases n,
{
    if n == 0 {
        0
    } else {
        folders_viewable(f, user, (n - 1) as nat) + if f.folders[n - 1].access.can_view(user) {
            1nat
        } else {
            0nat
        }
    }
}

/// How many of the first `n` files a user may view.
pub open spec fn files_viewable(files: Seq<FilView>, user: Uuid, n: nat) -> nat
    decreases n,
{
    if n == 0 {
        0
    } else {
        files_viewable(files, user, (n - 1) as nat) + if files[n - 1].access.can_view(user) {
            1nat
        } else {
            0nat
        }
    }
}

/// Where in a map the folder at `path` is shown: in each folder on the way behind the subfolders
/// before it that the user may view.
pub open spec fn shown_way(f: FolderView, user: Uuid, path: Seq<int>) -> Seq<int>
    decreases path.len(),
{
    if path.len() == 0 {
        Seq::empty()
    } else {
        seq![folders_viewable(f, user, path[0] as nat) as int] + shown_way(
            f.folders[path[0]],
            user,
            path.skip(1),
        )
    }
}

/// Whether an entry of a map shows a folder: by its identifier, name and time of change, with as
/// many subfolders as the user may view, and with just the files that the user may view, each by
/// its name, time of change, identifier and path, in order.
pub open spec fn shows_folder(m: FolderMapView, f: FolderView, user: Uuid) -> bool {
    &&& m.uuid == f.uuid
    &&& m.name == f.name
    &&& m.last_changed_at == f.last_changed_at
    &&& m.folders.len() == folders_viewable(f, user, f.folders.len())
    &&& m.files.len() == files_viewable(f.files, user, f.files.len())
    &&& forall|k: int|
        0 <= k < f.files.len() && (#[trigger] f.files[k]).access.can_view(user) ==> {
            let e = m.files[files_viewable(f.files, user, k as nat) as int];
            &&& e.name == f.files[k].name
            &&& e.last_changed_at == f.files[k].last_changed_at
            &&& e.uuid == f.files[k].uuid
            &&& e.path == f.files[k].path
        }
}

/// Every folder that the user can reach through folders that the user may view is shown in its
/// place, as it is in the tree; and since each entry has just so many subfolders, no other is.
pub proof fn maps_show_folders_as_they_are(f: FolderView, user: Uuid, path: Seq<int>)
    requires
        open_way(f, path, user),
    ensures
        client_map(f, user).leads(shown_way(f, user, path)),
        shows_folder(client_map(f, user).at(shown_way(f, user, path)), f.at(path), user),
    decreases path.len(),
{
    let m = client_map(f, user);
    if path.len() == 0 {
        lemma_maps_len(f, user, f.folders.len());
        lemma_entries_at(f.files, user, f.files.len());
        assert(f.files.take(f.files.len() as int) =~= f.files);
    } else {
        let way = shown_way(f, user, path);
        let child = f.folders[path[0]];
        maps_show_folders_as_they_are(child, user, path.skip(1));
        lemma_maps_len(f, user, f.folders.len());
        lemma_maps_at(f, user, f.folders.len(), path[0]);
        assert(way.skip(1) =~= shown_way(child, user, path.skip(1)));
        assert(m.folders[way[0]] == client_map(child, user));
    }
}

proof fn lemma_maps_len(f: FolderView, user: Uuid, n: nat)
    requires
        n <= f.folders.len(),
    ensures
        client_maps(f, user, n).len() == folders_viewable(f, user, n),
    decreases n,
{
    if n > 0 {
        lemma_maps_len(f, user, (n - 1) as nat);
    }
}

proof fn lemma_maps_at(f: FolderView, user: Uuid, n: nat, k: int)
    requires
        0 <= k < n <= f.folders.len(),
        f.folders[k].access.can_view(user),
    ensures
        folders_viewable(f, user, k as nat) < client_maps(f, user, n).len(),
        client_maps(f, user, n)[folders_viewable(f, user, k as nat) as int] == client_map(
            f.folders[k],
            user,
        ),
    decreases n,
{
    lemma_maps_len(f, user, (n - 1) as nat);
    if k < n - 1 {
        lemma_maps_at(f, user, (n - 1) as nat, k);
    }
}

proof fn lemma_entries_at(files: Seq<FilView>, user: Uuid, n: nat)
    requires
        n <= files.len(),
    ensures
        file_entries(files.take(n as int), user).len() == files_viewable(files, user, n),
        forall|k: int|
            0 <= k < n && (#[trigger] files[k]).access.can_view(user) ==> 0 <= files_viewable(
                files,
                user,
                k as nat,
            ) < files_viewable(files, user, n) && file_entries(
                files.take(n as int),
                user,
            )[files_viewable(files, user, k as nat) as int] == file_entry(files[k]),
    decreases n,
{
    if n == 0 {
        reveal(Seq::filter);
        assert(file_entries(files.take(0), user) =~= Seq::empty());
    } else {
        lemma_entries_at(files, user, (n - 1) as nat);
        lemma_entries_step(files, user, n - 1);
    }
}

} // verus!
