//! What each change of the tree does to its folders: where files and folders are put, what is taken
//! away, and what stays as it is.

use vstd::prelude::*;
use vstd::seq_lib::lemma_multiset_commutative;

use crate::clock::Timestamp;
use crate::file_transfer::{finished, received_entry, Finish, TransferView};
use crate::ids::{uuid_of, Uuid};
use crate::manage_folder::{folder_creation, folder_deletion, folder_request_of};
use crate::map_laws::{
    bag, distinct_folders, holds, lemma_at_holds, lemma_create_distinct, lemma_delete_at,
    lemma_first_child_found, lemma_holds, lemma_put_bag,
};
use crate::mapper::{
    empty_folder, first_file, first_folder, lemma_first_file, lemma_first_folder,
    lemma_search_from_hits, lemma_search_hits, AccessView, FilView, FolderView, MapError, Query,
};
use crate::map_tracker::Signal;
use crate::paths::{file_name_of, joined};

verus! {

/// The folder of a tree that has identifier `x`.
pub open spec fn folder_of(f: FolderView, x: Uuid) -> FolderView {
    f.at(f.search(Query::Folder(x))->0)
}

/// The identifiers of a folder's subfolders, in order.
pub open spec fn child_ids(f: FolderView) -> Seq<Uuid> {
    f.folders.map_values(|c: FolderView| c.uuid)
}

/// Identifiers without `t`, in order.
pub open spec fn without_id(ids: Seq<Uuid>, t: Uuid) -> Seq<Uuid> {
    ids.filter(|u: Uuid| u != t)
}

/// Whether `b` is folder `a` with all that it had, but for a subfolder `t`.
pub open spec fn same_but_for(a: FolderView, b: FolderView, t: Uuid) -> bool {
    &&& b.uuid == a.uuid
    &&& b.name == a.name
    &&& b.path == a.path
    &&& b.files == a.files
    &&& b.access == a.access
    &&& b.is_locked == a.is_locked
    &&& b.last_changed_at == a.last_changed_at
    &&& child_ids(b) == without_id(child_ids(a), t)
}

/// Deleting a folder takes away that folder and what lies below it, and nothing else: every other
/// folder is still found, as it was but for the subfolder that is gone, no other folder appears,
/// and the files before are those after and those that lay in the deleted folder. Whoever may
/// change a folder can delete it, but for the root, where its directory can be removed.
pub proof fn deleting_takes_one_folder(f: FolderView, t: Uuid, client: Uuid, dir_removed: bool)
    requires
        distinct_folders(f),
    ensures
        match f.folder_deleted(t, client, dir_removed) {
            Ok(g) => {
                let gone = folder_of(f, t);
                &&& dir_removed && holds(f, t) && f.uuid != t && gone.uuid == t
                &&& gone.access.can_edit(client)
                &&& forall|x: Uuid| #[trigger] holds(g, x) <==> holds(f, x) && !holds(gone, x)
                &&& forall|x: Uuid| #[trigger]
                    holds(g, x) ==> same_but_for(folder_of(f, x), folder_of(g, x), t)
                &&& bag(g).add(bag(gone)) =~= bag(f)
            },
            Err(e) => if !holds(f, t) {
                e == MapError::FolderNotFound(t)
            } else {
                &&& f.uuid == t || !dir_removed || !folder_of(f, t).access.can_edit(client)
                &&& e == MapError::InvalidFolderLocation
            },
        },
{
    match f.folder_deleted(t, client, dir_removed) {
        Err(_) => {
            if holds(f, t) && f.uuid != t && folder_of(f, t).access.can_edit(client) {
                lemma_visible_found(f, t, client);
            }
        },
        Ok(g) => {
            let q = Query::VisibleFolder(t, client);
            lemma_search_hits(f, q);
            lemma_search_hits(f, Query::Folder(t));
            let p = f.search(q)->0;
            let h = f.at(p);
            lemma_first_folder(h.folders, t, 0);
            let k = first_folder(h.folders, t, 0)->0;
            lemma_delete_at(f, p, k, t);
            lemma_found_at(f, p, k, t);
            let gone = folder_of(f, t);
            assert forall|x: Uuid| #[trigger] holds(g, x) <==> holds(f, x) && !holds(gone, x) by {
                if holds(gone, x) {
                    lemma_gone(f, p, k, t, x);
                } else if holds(f, x) {
                    lemma_kept(f, p, k, t, x);
                }
            }
            assert forall|x: Uuid| #[trigger] holds(g, x) implies same_but_for(
                folder_of(f, x),
                folder_of(g, x),
                t,
            ) by {
                lemma_kept(f, p, k, t, x);
            }
            lemma_bag_without(f, p, k, t);
        },
    }
}

/// With distinct identifiers, what a subfolder holds is found there.
proof fn lemma_folder_step(f: FolderView, x: Uuid, i: int)
    requires
        distinct_folders(f),
        0 <= i < f.folders.len(),
        holds(f.folders[i], x),
    ensures
        f.uuid != x,
        holds(f, x),
        folder_of(f, x) == folder_of(f.folders[i], x),
{
    let q = Query::Folder(x);
    let rest = f.folders[i].search(q)->0;
    assert forall|j: int| 0 <= j < i implies #[trigger] f.folders[j].search(q) is None by {
        assert(!(holds(f.folders[j], x) && holds(f.folders[i], x)));
    }
    if f.uuid == x {
        assert(!holds(f.folders[i], f.uuid));
    }
    lemma_first_child_found(f, q, 0, i, rest);
    assert((seq![i] + rest).skip(1) =~= rest);
}

proof fn lemma_found_at(f: FolderView, p: Seq<int>, k: int, t: Uuid)
    requires
        distinct_folders(f),
        f.leads(p),
        0 <= k < f.at(p).folders.len(),
        f.at(p).folders[k].uuid == t,
    ensures
        holds(f, t),
        f.uuid != t,
        folder_of(f, t) == f.at(p).folders[k],
    decreases p.len(),
{
    let sub = f.at(p).folders[k];
    if p.len() == 0 {
        assert(sub.search(Query::Folder(t)) == Some(Seq::<int>::empty()));
        lemma_folder_step(f, t, k);
    } else {
        lemma_found_at(f.folders[p[0]], p.skip(1), k, t);
        lemma_folder_step(f, t, p[0]);
    }
}

proof fn lemma_gone(f: FolderView, p: Seq<int>, k: int, t: Uuid, x: Uuid)
    requires
        distinct_folders(f),
        f.leads(p),
        0 <= k < f.at(p).folders.len(),
        f.at(p).folders[k].uuid == t,
        holds(f.at(p).folders[k], x),
    ensures
        holds(f, x),
        f.uuid != x,
        !holds(f.put(p, f.at(p).without_folder(t)), x),
    decreases p.len(),
{
    let h = f.at(p);
    let g = f.put(p, h.without_folder(t));
    lemma_holds(g, x);
    if p.len() == 0 {
        lemma_folder_step(f, x, k);
        lemma_filter_is_remove(f, k, t);
        assert forall|j: int| 0 <= j < g.folders.len() implies !#[trigger] holds(
            g.folders[j],
            x,
        ) by {
            let i = if j < k {
                j
            } else {
                j + 1
            };
            assert(g.folders[j] == f.folders[i]);
            lemma_apart(f, i, k, x);
        }
    } else {
        let c = f.folders[p[0]];
        lemma_gone(c, p.skip(1), k, t, x);
        lemma_folder_step(f, x, p[0]);
        assert forall|j: int| 0 <= j < g.folders.len() implies !#[trigger] holds(
            g.folders[j],
            x,
        ) by {
            if j != p[0] {
                lemma_apart(f, j, p[0], x);
            }
        }
    }
}

/// Of two subfolders, only one holds an identifier.
proof fn lemma_apart(f: FolderView, i: int, j: int, x: Uuid)
    requires
        distinct_folders(f),
        0 <= i < f.folders.len(),
        0 <= j < f.folders.len(),
        i != j,
        holds(f.folders[j], x),
    ensures
        !holds(f.folders[i], x),
{
    if i < j {
        assert(!(holds(f.folders[i], x) && holds(f.folders[j], x)));
    } else {
        assert(!(holds(f.folders[j], x) && holds(f.folders[i], x)));
    }
}

proof fn lemma_kept(f: FolderView, p: Seq<int>, k: int, t: Uuid, x: Uuid)
    requires
        distinct_folders(f),
        f.leads(p),
        0 <= k < f.at(p).folders.len(),
        f.at(p).folders[k].uuid == t,
        holds(f, x),
        !holds(f.at(p).folders[k], x),
    ensures
        ({
            let g = f.put(p, f.at(p).without_folder(t));
            holds(g, x) && same_but_for(folder_of(f, x), folder_of(g, x), t)
        }),
    decreases p.len(),
{
    let h = f.at(p);
    let g = f.put(p, h.without_folder(t));
    lemma_delete_at(f, p, k, t);
    lemma_found_at(f, p, k, t);
    lemma_holds(f, x);
    if f.uuid == x {
        assert(g.uuid == x);
        assert(f.search(Query::Folder(x)) == Some(Seq::<int>::empty()));
        assert(g.search(Query::Folder(x)) == Some(Seq::<int>::empty()));
        if p.len() == 0 {
            lemma_ids_filter(f, t);
        } else {
            lemma_found_at(f.folders[p[0]], p.skip(1), k, t);
            assert forall|i: int| 0 <= i < child_ids(f).len() implies child_ids(f)[i] != t by {
                if i != p[0] {
                    lemma_apart(f, i, p[0], t);
                    lemma_holds(f.folders[i], t);
                }
            }
            lemma_filter_nothing(child_ids(f), t);
            let c = f.folders[p[0]];
            assert(c.put(p.skip(1), h.without_folder(t)).uuid == c.uuid);
            assert(child_ids(g) =~= child_ids(f));
        }
    } else {
        let i = choose|i: int| 0 <= i < f.folders.len() && #[trigger] holds(f.folders[i], x);
        lemma_folder_step(f, x, i);
        if p.len() == 0 {
            assert(i != k);
            lemma_filter_is_remove(f, k, t);
            let j = if i < k {
                i
            } else {
                i - 1
            };
            assert(g.folders[j] == f.folders[i]);
            lemma_folder_step(g, x, j);
            lemma_holds(f.folders[k], t);
            lemma_apart(f, i, k, t);
            lemma_same(f.folders[i], x, t);
        } else if i != p[0] {
            assert(g.folders[i] == f.folders[i]);
            lemma_folder_step(g, x, i);
            lemma_found_at(f.folders[p[0]], p.skip(1), k, t);
            lemma_apart(f, i, p[0], t);
            lemma_same(f.folders[i], x, t);
        } else {
            lemma_kept(f.folders[i], p.skip(1), k, t, x);
            lemma_folder_step(g, x, i);
        }
    }
}

/// A folder below which `t` is not found is the same but for `t`.
proof fn lemma_same(c: FolderView, x: Uuid, t: Uuid)
    requires
        holds(c, x),
        !holds(c, t),
    ensures
        same_but_for(folder_of(c, x), folder_of(c, x), t),
{
    let p = c.search(Query::Folder(x))->0;
    let d = folder_of(c, x);
    lemma_search_hits(c, Query::Folder(x));
    assert forall|i: int| 0 <= i < child_ids(d).len() implies child_ids(d)[i] != t by {
        if d.folders[i].uuid == t {
            lemma_holds(d.folders[i], t);
            lemma_holds(d, t);
            lemma_at_holds(c, p, t);
        }
    }
    lemma_filter_nothing(child_ids(d), t);
}

proof fn lemma_filter_nothing(s: Seq<Uuid>, t: Uuid)
    requires
        forall|i: int| 0 <= i < s.len() ==> s[i] != t,
    ensures
        without_id(s, t) == s,
    decreases s.len(),
{
    reveal(Seq::filter);
    if s.len() > 0 {
        lemma_filter_nothing(s.drop_last(), t);
        assert(s.drop_last().push(s.last()) =~= s);
    }
}

proof fn lemma_ids_filter(f: FolderView, t: Uuid)
    ensures
        child_ids(f.without_folder(t)) == without_id(child_ids(f), t),
    decreases f.folders.len(),
{
    reveal(Seq::filter);
    if f.folders.len() == 0 {
        assert(child_ids(f.without_folder(t)) =~= without_id(child_ids(f), t));
    } else {
        let rest = FolderView { folders: f.folders.drop_last(), ..f };
        lemma_ids_filter(rest, t);
        assert(child_ids(f).drop_last() =~= child_ids(rest));
        if f.folders.last().uuid != t {
            assert(f.without_folder(t).folders =~= rest.without_folder(t).folders.push(
                f.folders.last(),
            ));
            assert(child_ids(f.without_folder(t)) =~= child_ids(rest.without_folder(t)).push(
                f.folders.last().uuid,
            ));
        } else {
            assert(f.without_folder(t).folders =~= rest.without_folder(t).folders);
        }
    }
}

proof fn lemma_filter_is_remove(f: FolderView, k: int, t: Uuid)
    requires
        distinct_folders(f),
        0 <= k < f.folders.len(),
        f.folders[k].uuid == t,
    ensures
        f.without_folder(t).folders == f.folders.remove(k),
{
    lemma_holds(f.folders[k], t);
    assert forall|i: int| 0 <= i < f.folders.len() && i != k implies (
    #[trigger] f.folders[i]).uuid != t by {
        lemma_apart(f, i, k, t);
        lemma_holds(f.folders[i], t);
    }
    lemma_filter_one(f.folders, k, t);
}

proof fn lemma_filter_one(s: Seq<FolderView>, k: int, t: Uuid)
    requires
        0 <= k < s.len(),
        s[k].uuid == t,
        forall|i: int| 0 <= i < s.len() && i != k ==> (#[trigger] s[i]).uuid != t,
    ensures
        s.filter(|c: FolderView| c.uuid != t) == s.remove(k),
    decreases s.len(),
{
    reveal(Seq::filter);
    let rest = s.drop_last();
    if k == s.len() - 1 {
        lemma_filter_all(rest, t);
        assert(s.remove(k) =~= rest);
    } else {
        lemma_filter_one(rest, k, t);
        assert(s.remove(k) =~= rest.remove(k).push(s.last()));
    }
}

proof fn lemma_filter_all(s: Seq<FolderView>, t: Uuid)
    requires
        forall|i: int| 0 <= i < s.len() ==> (#[trigger] s[i]).uuid != t,
    ensures
        s.filter(|c: FolderView| c.uuid != t) == s,
    decreases s.len(),
{
    reveal(Seq::filter);
    if s.len() > 0 {
        lemma_filter_all(s.drop_last(), t);
        assert(s.drop_last().push(s.last()) =~= s);
    }
}

proof fn lemma_below_remove(f: FolderView, g: FolderView, k: int, n: nat)
    requires
        0 <= k < f.folders.len(),
        g.folders == f.folders.remove(k),
        n <= g.folders.len(),
    ensures
        n <= k ==> g.listing_below(n) == f.listing_below(n),
        n >= k ==> g.listing_below(n).to_multiset().add(bag(f.folders[k])) =~= f.listing_below(
            n + 1,
        ).to_multiset(),
    decreases n,
{
    if n > 0 {
        lemma_below_remove(f, g, k, (n - 1) as nat);
        lemma_multiset_commutative(
            g.listing_below((n - 1) as nat),
            g.folders[n - 1].listing(),
        );
    }
    lemma_multiset_commutative(f.listing_below(n), f.folders[n as int].listing());
}

proof fn lemma_bag_without(f: FolderView, p: Seq<int>, k: int, t: Uuid)
    requires
        distinct_folders(f),
        f.leads(p),
        0 <= k < f.at(p).folders.len(),
        f.at(p).folders[k].uuid == t,
    ensures
        bag(f.put(p, f.at(p).without_folder(t))).add(bag(f.at(p).folders[k])) =~= bag(f),
{
    let h = f.at(p);
    let without = h.without_folder(t);
    let g = f.put(p, without);
    lemma_distinct_at(f, p);
    lemma_filter_is_remove(h, k, t);
    lemma_below_remove(h, without, k, without.folders.len());
    lemma_multiset_commutative(h.files, h.listing_below(h.folders.len()));
    lemma_multiset_commutative(without.files, without.listing_below(without.folders.len()));
    lemma_put_bag(f, p, without);
    assert forall|x: FilView| #[trigger]
        bag(g).add(bag(h.folders[k])).count(x) == bag(f).count(x) by {
        assert(bag(g).add(bag(h)).count(x) == bag(f).add(bag(without)).count(x));
        let below = without.listing_below(without.folders.len()).to_multiset();
        assert(below.add(bag(h.folders[k])).count(x) == h.listing_below(
            h.folders.len(),
        ).to_multiset().count(x));
    }
}

proof fn lemma_distinct_at(f: FolderView, p: Seq<int>)
    requires
        distinct_folders(f),
        f.leads(p),
    ensures
        distinct_folders(f.at(p)),
    decreases p.len(),
{
    if p.len() > 0 {
        lemma_distinct_at(f.folders[p[0]], p.skip(1));
    }
}

proof fn lemma_visible_found(f: FolderView, t: Uuid, client: Uuid)
    requires
        distinct_folders(f),
        holds(f, t),
        f.uuid != t,
        folder_of(f, t).access.can_view(client),
    ensures
        f.search(Query::VisibleFolder(t, client)) is Some,
    decreases f,
{
    let q = Query::VisibleFolder(t, client);
    lemma_first_folder(f.folders, t, 0);
    lemma_holds(f, t);
    match first_folder(f.folders, t, 0) {
        Some(k) => {
            lemma_holds(f.folders[k], t);
            assert(f.folders[k].search(Query::Folder(t)) == Some(Seq::<int>::empty()));
            lemma_folder_step(f, t, k);
        },
        None => {
            let i = choose|i: int| 0 <= i < f.folders.len() && #[trigger] holds(f.folders[i], t);
            lemma_folder_step(f, t, i);
            lemma_visible_found(f.folders[i], t, client);
            lemma_search_from_hits(f, q, 0);
            if f.search_from(q, 0) is None {
                assert(f.folders[i].search(q) is None);
            }
        },
    }
}

/// Whether two states of a folder differ in its files and subfolders at most.
pub open spec fn same_head(a: FolderView, b: FolderView) -> bool {
    &&& b.uuid == a.uuid
    &&& b.name == a.name
    &&& b.path == a.path
    &&& b.access == a.access
    &&& b.is_locked == a.is_locked
    &&& b.last_changed_at == a.last_changed_at
}

/// Whether `g` is the tree `f` with `files` in folder `home`, and all else as it was.
pub open spec fn files_changed(
    f: FolderView,
    g: FolderView,
    home: Uuid,
    files: Seq<FilView>,
) -> bool {
    &&& forall|x: Uuid| #[trigger] holds(g, x) == holds(f, x)
    &&& forall|x: Uuid| #[trigger]
        holds(f, x) ==> {
            &&& same_head(folder_of(f, x), folder_of(g, x))
            &&& child_ids(folder_of(g, x)) == child_ids(folder_of(f, x))
            &&& folder_of(g, x).files == (if x == home {
                files
            } else {
                folder_of(f, x).files
            })
        }
}

proof fn lemma_put_files(f: FolderView, p: Seq<int>, files: Seq<FilView>)
    requires
        distinct_folders(f),
        f.leads(p),
    ensures
        ({
            let h = f.at(p);
            let g = f.put(p, FolderView { files, ..h });
            &&& holds(f, h.uuid)
            &&& folder_of(f, h.uuid) == h
            &&& distinct_folders(g)
            &&& files_changed(f, g, h.uuid, files)
        }),
    decreases p.len(),
{
    let h = f.at(p);
    let new = FolderView { files, ..h };
    let g = f.put(p, new);
    lemma_holds(h, h.uuid);
    if p.len() > 0 {
        lemma_put_files(f.folders[p[0]], p.skip(1), files);
        lemma_folder_step(f, h.uuid, p[0]);
        let c = f.folders[p[0]];
        assert(c.put(p.skip(1), new).uuid == c.uuid) by {
            assert(holds(c, c.uuid)) by {
                lemma_holds(c, c.uuid);
            }
        }
    } else {
        assert(f.search(Query::Folder(f.uuid)) == Some(Seq::<int>::empty()));
    }
    assert(forall|i: int, x: Uuid|
        0 <= i < f.folders.len() ==> #[trigger] holds(g.folders[i], x) == holds(f.folders[i], x));
    assert forall|x: Uuid| #[trigger] holds(g, x) == holds(f, x) by {
        lemma_holds(g, x);
        lemma_holds(f, x);
        if g.uuid != x {
            if holds(g, x) {
                let i = choose|i: int| 0 <= i < g.folders.len() && #[trigger] holds(
                    g.folders[i],
                    x,
                );
                assert(holds(f.folders[i], x));
            }
            if holds(f, x) {
                let i = choose|i: int| 0 <= i < f.folders.len() && #[trigger] holds(
                    f.folders[i],
                    x,
                );
                assert(holds(g.folders[i], x));
            }
        }
    }
    assert(distinct_folders(g)) by {
        assert forall|i: int| 0 <= i < g.folders.len() implies distinct_folders(
            #[trigger] g.folders[i],
        ) by {
            assert(distinct_folders(f.folders[i]));
        }
        assert forall|i: int| 0 <= i < g.folders.len() implies !#[trigger] holds(
            g.folders[i],
            g.uuid,
        ) by {
            assert(!holds(f.folders[i], f.uuid));
        }
        assert forall|i: int, j: int, x: Uuid| 0 <= i < j < g.folders.len() implies !(
        #[trigger] holds(g.folders[i], x) && #[trigger] holds(g.folders[j], x)) by {
            assert(!(holds(f.folders[i], x) && holds(f.folders[j], x)));
        }
    }
    assert forall|x: Uuid| #[trigger] holds(f, x) implies {
        &&& same_head(folder_of(f, x), folder_of(g, x))
        &&& child_ids(folder_of(g, x)) == child_ids(folder_of(f, x))
        &&& folder_of(g, x).files == (if x == h.uuid {
            files
        } else {
            folder_of(f, x).files
        })
    } by {
        lemma_holds(f, x);
        if f.uuid == x {
            assert(f.search(Query::Folder(x)) == Some(Seq::<int>::empty()));
            assert(g.search(Query::Folder(x)) == Some(Seq::<int>::empty()));
            assert(child_ids(g) =~= child_ids(f));
        } else {
            let i = choose|i: int| 0 <= i < f.folders.len() && #[trigger] holds(f.folders[i], x);
            lemma_folder_step(f, x, i);
            assert(holds(g.folders[i], x));
            lemma_folder_step(g, x, i);
            if p.len() > 0 && i != p[0] {
                lemma_apart(f, i, p[0], h.uuid);
            }
        }
    }
}

/// The folder that is meant: the one named, or the root where none is.
pub open spec fn home_of(f: FolderView, t: Option<Uuid>) -> Uuid {
    match t {
        Some(id) => id,
        None => f.uuid,
    }
}

/// Whether a subfolder has this name.
pub open spec fn name_taken(parent: FolderView, name: Option<Seq<char>>) -> bool {
    exists|i: int|
        0 <= i < parent.folders.len() && Some((#[trigger] parent.folders[i]).name) == name
}

/// A file is added to the folder that it was meant for, behind the files there, or to the root
/// where no folder is named, and to no other; all else stays. Only an unknown folder is refused.
pub proof fn added_files_lie_in_their_folder(f: FolderView, t: Option<Uuid>, file: FilView)
    requires
        distinct_folders(f),
    ensures
        ({
            let home = home_of(f, t);
            match f.added(t, file) {
                Ok(g) => {
                    &&& holds(f, home)
                    &&& files_changed(f, g, home, folder_of(f, home).files.push(file))
                    &&& distinct_folders(g)
                },
                Err(e) => !holds(f, home) && e == MapError::FolderNotFound(home),
            }
        }),
{
    let home = home_of(f, t);
    lemma_search_hits(f, Query::Folder(home));
    if f.added(t, file) is Ok {
        let p = match t {
            Some(id) => f.search(Query::Folder(id))->0,
            None => Seq::empty(),
        };
        let h = f.at(p);
        lemma_put_files(f, p, h.files.push(file));
        assert(h.with_file(file) == (FolderView { files: h.files.push(file), ..h }));
    }
}

/// A file is taken out of the folder in which it lies, and the files around it stay in order; all
/// else stays.
pub proof fn removed_files_leave_their_folder(f: FolderView, t: Uuid, user: Uuid)
    requires
        distinct_folders(f),
    ensures
        match f.file_removed(t, user) {
            Ok(g) => exists|home: Uuid, k: int|
                {
                    let files = folder_of(f, home).files;
                    &&& 0 <= k < files.len()
                    &&& (#[trigger] folder_of(f, home).files[k]).uuid == t
                    &&& files[k].access.can_view(user)
                    &&& files_changed(f, g, home, files.remove(k))
                },
            Err(_) => true,
        },
{
    let q = Query::VisibleFile(t, user);
    lemma_search_hits(f, q);
    match f.search(q) {
        None => {},
        Some(p) => {
            let h = f.at(p);
            let k = first_file(h.files, t, 0)->0;
            lemma_first_file(h.files, t, 0);
            lemma_put_files(f, p, h.files.remove(k));
            assert(h.without_file(k) == (FolderView { files: h.files.remove(k), ..h }));
            assert(folder_of(f, h.uuid).files[k].uuid == t);
        },
    }
}

/// A changed file stays where it is, and all else stays.
pub proof fn changed_files_stay_in_their_place(f: FolderView, t: Uuid, new: FilView)
    requires
        distinct_folders(f),
        f.file(t) is Some,
    ensures
        exists|home: Uuid, k: int|
            {
                let files = folder_of(f, home).files;
                &&& 0 <= k < files.len()
                &&& (#[trigger] folder_of(f, home).files[k]).uuid == t
                &&& Some(files[k]) == f.file(t)
                &&& files_changed(f, f.file_replaced(t, new), home, files.update(k, new))
            },
{
    let q = Query::File(t);
    lemma_search_hits(f, q);
    let p = f.search(q)->0;
    let h = f.at(p);
    let k = first_file(h.files, t, 0)->0;
    lemma_first_file(h.files, t, 0);
    lemma_put_files(f, p, h.files.update(k, new));
    assert(h.replaced_file(k, new) == (FolderView { files: h.files.update(k, new), ..h }));
    assert(folder_of(f, h.uuid).files[k].uuid == t);
}

/// Whether `g` is the tree `f` with one subfolder `new` more in folder `home`, behind those there,
/// and all else as it was.
pub open spec fn folder_added(f: FolderView, g: FolderView, home: Uuid, new: FolderView) -> bool {
    &&& forall|x: Uuid| #[trigger] holds(g, x) == (holds(f, x) || x == new.uuid)
    &&& folder_of(g, new.uuid) == new
    &&& forall|x: Uuid| #[trigger]
        holds(f, x) ==> {
            &&& same_head(folder_of(f, x), folder_of(g, x))
            &&& folder_of(g, x).files == folder_of(f, x).files
            &&& child_ids(folder_of(g, x)) == (if x == home {
                child_ids(folder_of(f, x)).push(new.uuid)
            } else {
                child_ids(folder_of(f, x))
            })
        }
}

proof fn lemma_put_folder(f: FolderView, p: Seq<int>, sub: FolderView)
    requires
        distinct_folders(f),
        f.leads(p),
        !holds(f, sub.uuid),
        sub.folders.len() == 0,
    ensures
        ({
            let h = f.at(p);
            let g = f.put(p, h.with_folder(sub));
            &&& holds(f, h.uuid)
            &&& folder_of(f, h.uuid) == h
            &&& folder_added(f, g, h.uuid, sub)
        }),
    decreases p.len(),
{
    let h = f.at(p);
    let new = h.with_folder(sub);
    let g = f.put(p, new);
    let n = f.folders.len() as int;
    lemma_create_distinct(f, p, sub);
    lemma_holds(h, h.uuid);
    lemma_holds(f, sub.uuid);
    lemma_holds(sub, sub.uuid);
    assert(sub.search(Query::Folder(sub.uuid)) == Some(Seq::<int>::empty()));
    if p.len() > 0 {
        let c = f.folders[p[0]];
        assert(!holds(c, sub.uuid));
        lemma_put_folder(c, p.skip(1), sub);
        lemma_folder_step(f, h.uuid, p[0]);
        lemma_holds(c, c.uuid);
        assert(holds(g.folders[p[0]], sub.uuid));
        lemma_folder_step(g, sub.uuid, p[0]);
    } else {
        assert(f.search(Query::Folder(f.uuid)) == Some(Seq::<int>::empty()));
        assert(g.folders[n] == sub);
        lemma_folder_step(g, sub.uuid, n);
    }
    assert forall|x: Uuid| #[trigger] holds(g, x) == (holds(f, x) || x == sub.uuid) by {
        lemma_holds(g, x);
        lemma_holds(f, x);
        if holds(f, x) && f.uuid != x {
            let i = choose|i: int| 0 <= i < n && #[trigger] holds(f.folders[i], x);
            assert(holds(g.folders[i], x));
        }
    }
    assert forall|x: Uuid| #[trigger] holds(f, x) implies {
        &&& same_head(folder_of(f, x), folder_of(g, x))
        &&& folder_of(g, x).files == folder_of(f, x).files
        &&& child_ids(folder_of(g, x)) == (if x == h.uuid {
            child_ids(folder_of(f, x)).push(sub.uuid)
        } else {
            child_ids(folder_of(f, x))
        })
    } by {
        lemma_holds(f, x);
        if f.uuid == x {
            assert(f.search(Query::Folder(x)) == Some(Seq::<int>::empty()));
            assert(g.search(Query::Folder(x)) == Some(Seq::<int>::empty()));
            if p.len() == 0 {
                assert(child_ids(g) =~= child_ids(f).push(sub.uuid));
            } else {
                assert(child_ids(g) =~= child_ids(f));
            }
        } else {
            let i = choose|i: int| 0 <= i < n && #[trigger] holds(f.folders[i], x);
            lemma_folder_step(f, x, i);
            assert(holds(g.folders[i], x));
            lemma_folder_step(g, x, i);
            if p.len() > 0 && i != p[0] {
                lemma_apart(f, i, p[0], h.uuid);
            }
        }
    }
}

/// A folder is created in the folder that was named, or in the root where none was, behind the
/// subfolders there, empty and unlocked, with the name that the text ends in, the path below its
/// parent's, the permissions, identifier and time that it was given; all else stays. In a named
/// folder this takes the right to change it, a name that no subfolder has, and a directory that
/// could be created; whatever is missing is told.
pub proof fn created_folders_lie_in_their_parent(
    f: FolderView,
    t: Option<Uuid>,
    name: Seq<char>,
    client: Uuid,
    access: AccessView,
    dir_created: bool,
    uuid: Uuid,
    now: Timestamp,
)
    requires
        distinct_folders(f),
        !holds(f, uuid),
    ensures
        ({
            let home = home_of(f, t);
            let parent = folder_of(f, home);
            let allowed = parent.access.can_edit(client);
            let taken = name_taken(parent, file_name_of(name));
            match f.folder_created(t, name, client, access, dir_created, uuid, now) {
                Ok(g) => {
                    let new = folder_of(g, uuid);
                    &&& holds(f, home)
                    &&& t is Some ==> allowed && !taken && dir_created
                    &&& folder_added(f, g, home, new)
                    &&& new.uuid == uuid
                    &&& Some(new.name) == file_name_of(name)
                    &&& new.path == joined(parent.path, new.name)
                    &&& new.access == access
                    &&& new.last_changed_at == now
                    &&& !new.is_locked
                    &&& new.files.len() == 0
                    &&& new.folders.len() == 0
                },
                Err(e) => if file_name_of(name) is None {
                    e == MapError::InvalidFolderLocation
                } else if !holds(f, home) {
                    e == MapError::FolderNotFound(home)
                } else if !allowed {
                    t is Some && e == MapError::InvalidFolderLocation
                } else if taken {
                    t is Some && e == MapError::FolderAlreadyPresent
                } else {
                    t is Some && !dir_created && e == MapError::InvalidFolderLocation
                },
            }
        }),
{
    let home = home_of(f, t);
    lemma_search_hits(f, Query::Folder(home));
    lemma_holds(f, f.uuid);
    let p = match t {
        Some(id) => f.search(Query::Folder(id))->0,
        None => Seq::empty(),
    };
    if t is Some && file_name_of(name) is Some && holds(f, home) {
        let parent = f.at(p);
        let n = file_name_of(name)->0;
        if parent.has_folder_named(n) {
            let i = choose|i: int|
                0 <= i < parent.folders.len() && (#[trigger] parent.folders[i]).name == n;
            assert(Some(parent.folders[i].name) == file_name_of(name));
        }
        if name_taken(parent, file_name_of(name)) {
            let i = choose|i: int|
                0 <= i < parent.folders.len() && Some((#[trigger] parent.folders[i]).name)
                    == file_name_of(name);
            assert(parent.folders[i].name == n);
        }
    }
    match f.folder_created(t, name, client, access, dir_created, uuid, now) {
        Ok(g) => {
            let h = f.at(p);
            let sub = empty_folder(file_name_of(name)->0, h.path, access, uuid, now);
            lemma_put_folder(f, p, sub);
            assert(g == f.put(p, h.with_folder(sub)));
        },
        Err(_) => {},
    }
}

/// A request to create a folder is answered as it went: with success where the folder that it named
/// is in the parent that it named, the user's own and open to everybody, and those who watch the
/// tree are told; otherwise nothing changes, nobody is told, and the answer says what is wrong with
/// the name, the parent, the user's rights or the directory.
pub proof fn folder_requests_are_answered(
    before: FolderView,
    message: Seq<u8>,
    offset: int,
    client: Uuid,
    dir_created: bool,
    uuid: Uuid,
    now: Timestamp,
    user: Uuid,
)
    requires
        distinct_folders(before),
        !holds(before, uuid),
    ensures
        ({
            let (after, code, signal) = folder_creation(
                before,
                message,
                offset,
                client,
                dir_created,
                uuid,
                now,
            );
            &&& code == 20 <==> signal == Signal::Changed
            &&& code != 20 ==> after == before && signal == Signal::Silent
            &&& match folder_request_of(message, offset) {
                None => code == 43,
                Some((home, name)) => {
                    let parent = folder_of(before, home);
                    if code == 20 {
                        let new = folder_of(after, uuid);
                        &&& holds(before, home)
                        &&& parent.access.can_edit(client)
                        &&& dir_created
                        &&& folder_added(before, after, home, new)
                        &&& Some(new.name) == file_name_of(name)
                        &&& new.path == joined(parent.path, new.name)
                        &&& new.last_changed_at == now
                        &&& new.access.owner == client
                        &&& new.access.can_view(user) && new.access.can_edit(user)
                    } else if file_name_of(name) is None {
                        code == 42
                    } else if !holds(before, home) {
                        code == 44
                    } else if !parent.access.can_edit(client) {
                        code == 42
                    } else if name_taken(parent, file_name_of(name)) {
                        code == 41
                    } else {
                        !dir_created && code == 42
                    }
                },
            }
        }),
{
    match folder_request_of(message, offset) {
        None => {},
        Some((home, name)) => {
            created_folders_lie_in_their_parent(
                before,
                Some(home),
                name,
                client,
                crate::manage_folder::open_access(client),
                dir_created,
                uuid,
                now,
            );
        },
    }
}

/// A request to delete a folder is answered as it went: with success where just that folder is gone
/// with all in it, and otherwise with what is wrong, where nothing changes and nobody is told.
pub proof fn folder_deletions_are_answered(
    before: FolderView,
    message: Seq<u8>,
    offset: int,
    client: Uuid,
    dir_removed: bool,
)
    requires
        distinct_folders(before),
    ensures
        ({
            let t = uuid_of(message.subrange(offset, offset + 16));
            let gone = folder_of(before, t);
            let (after, code, signal) = folder_deletion(
                before,
                message,
                offset,
                client,
                dir_removed,
            );
            &&& code == 20 <==> signal != Signal::Silent
            &&& code != 20 ==> after == before
            &&& code == 20 ==> {
                &&& signal == Signal::Woken
                &&& holds(before, t) && gone.access.can_edit(client) && dir_removed
                &&& forall|x: Uuid| #[trigger]
                    holds(after, x) <==> holds(before, x) && !holds(gone, x)
                &&& bag(after).add(bag(gone)) =~= bag(before)
            }
            &&& code == 44 <==> !holds(before, t)
            &&& code != 20 && holds(before, t) ==> code == 42 && (before.uuid == t || !dir_removed
                || !gone.access.can_edit(client))
        }),
{
    deleting_takes_one_folder(
        before,
        uuid_of(message.subrange(offset, offset + 16)),
        client,
        dir_removed,
    );
}

/// The directory that is created or removed is that of the folder which is created or deleted.
pub proof fn directories_are_those_of_their_folders(
    f: FolderView,
    t: Uuid,
    name: Seq<char>,
    client: Uuid,
)
    ensures
        match f.creatable(Some(t), name, client) {
            Ok(path) => holds(f, t) && path == Some(
                joined(folder_of(f, t).path, file_name_of(name)->0),
            ),
            Err(_) => true,
        },
        f.creatable(None, name, client) matches Ok(path) ==> path is None,
        match f.deletable(t, client) {
            Ok(path) => holds(f, t) && path == folder_of(f, t).path,
            Err(_) => true,
        },
{
}

/// A received file is put into the folder that it was meant for, behind the files there, and
/// nowhere else.
pub proof fn received_files_lie_in_their_folder(
    before: FolderView,
    file: TransferView,
    client: Uuid,
    parent: Option<Uuid>,
    uuid: Uuid,
    now: Timestamp,
)
    requires
        distinct_folders(before),
    ensures
        match finished(before, file, client, parent, uuid, now) {
            (after, Finish::Move) => {
                let home = home_of(before, parent);
                let files = folder_of(after, home).files;
                &&& holds(before, home)
                &&& files.len() == folder_of(before, home).files.len() + 1
                &&& files.last().uuid == uuid
                &&& files.last().path == file.storage_path
                &&& Some(files.last().name) == file_name_of(file.storage_path)
                &&& files_changed(
                    before,
                    after,
                    home,
                    folder_of(before, home).files.push(files.last()),
                )
            },
            (after, Finish::NotAdded(e)) => after == before && !holds(
                before,
                home_of(before, parent),
            ),
            (after, Finish::NoName) => after == before,
        },
{
    match file_name_of(file.storage_path) {
        None => {},
        Some(name) => {
            let entry = received_entry(name, file.storage_path, client, uuid, now);
            added_files_lie_in_their_folder(before, parent, entry);
        },
    }
}

} // verus!
