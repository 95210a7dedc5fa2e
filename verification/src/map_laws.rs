//! What every change of the tree keeps, and what a search finds after it.

use vstd::multiset::Multiset;
use vstd::prelude::*;
use vstd::seq_lib::lemma_multiset_commutative;

use crate::clock::Timestamp;
use crate::ids::Uuid;
use crate::mapper::{
    empty_folder, first_file, first_folder, lemma_first_file, lemma_first_folder,
    lemma_search_from_hits, lemma_search_hits, AccessView, FilView, FolderView, MapError, Query,
};
use crate::response::ErrorTransfer;

verus! {

/// All files of a tree, however they are spread over its folders.
pub open spec fn bag(f: FolderView) -> Multiset<FilView> {
    f.listing().to_multiset()
}

/// Whether no two files share an identifier.
pub open spec fn distinct_files(b: Multiset<FilView>) -> bool {
    &&& forall|x: FilView| #[trigger] b.count(x) <= 1
    &&& forall|x: FilView, y: FilView|
        b.contains(x) && b.contains(y) && #[trigger] x.uuid == #[trigger] y.uuid ==> x == y
}

/// Those who may edit may also view, and the owner may do both.
pub proof fn editors_may_view(a: AccessView, user: Uuid)
    ensures
        a.can_edit(user) ==> a.can_view(user),
        a.can_view(a.owner) && a.can_edit(a.owner),
{
}

/// Permissions are what they say: where something is not public, only the owner and those who are
/// listed may view it, and only the owner and the listed editors may change it; and all of them
/// may.
pub proof fn permissions_are_what_they_say(a: AccessView, user: Uuid)
    ensures
        a.is_public_for_viewing ==> a.can_view(user),
        a.is_public_for_changing ==> a.can_edit(user),
        a.is_visible_for.contains(user) ==> a.can_view(user),
        a.is_editable_for.contains(user) ==> a.can_edit(user) && a.can_view(user),
        a.can_edit(user) && !a.is_public_for_changing && a.owner != user
            ==> a.is_editable_for.contains(user),
        a.can_view(user) && !a.is_public_for_viewing && !a.is_public_for_changing && a.owner
            != user ==> a.is_visible_for.contains(user) || a.is_editable_for.contains(user),
{
}

proof fn lemma_below_update(f: FolderView, g: FolderView, k: int, c: FolderView, n: nat)
    requires
        0 <= k < f.folders.len(),
        g.folders == f.folders.update(k, c),
        n <= f.folders.len(),
    ensures
        n <= k ==> g.listing_below(n) == f.listing_below(n),
        n > k ==> g.listing_below(n).to_multiset().add(bag(f.folders[k]))
            =~= f.listing_below(n).to_multiset().add(bag(c)),
    decreases n,
{
    if n > 0 {
        let m = (n - 1) as nat;
        lemma_below_update(f, g, k, c, m);
        lemma_multiset_commutative(f.listing_below(m), f.folders[m as int].listing());
        lemma_multiset_commutative(g.listing_below(m), g.folders[m as int].listing());
        if n > k {
            let lg = g.listing_below(n).to_multiset();
            let lf = f.listing_below(n).to_multiset();
            assert forall|x: FilView|
                #[trigger] lg.add(bag(f.folders[k])).count(x) == lf.add(bag(c)).count(x) by {
                if m > k {
                    assert(g.listing_below(m).to_multiset().add(bag(f.folders[k])).count(x)
                        == f.listing_below(m).to_multiset().add(bag(c)).count(x));
                }
            }
        }
    }
}

/// Replacing a folder of the tree changes the files by just the difference between the two
/// folders.
pub proof fn lemma_put_bag(f: FolderView, p: Seq<int>, new: FolderView)
    requires
        f.leads(p),
    ensures
        bag(f.put(p, new)).add(bag(f.at(p))) =~= bag(f).add(bag(new)),
    decreases p.len(),
{
    if p.len() > 0 {
        let k = p[0];
        let old_child = f.folders[k];
        let new_child = old_child.put(p.skip(1), new);
        let g = f.put(p, new);
        lemma_put_bag(old_child, p.skip(1), new);
        lemma_below_update(f, g, k, new_child, f.folders.len());
        lemma_multiset_commutative(f.files, f.listing_below(f.folders.len()));
        lemma_multiset_commutative(g.files, g.listing_below(g.folders.len()));
        assert forall|x: FilView|
            #[trigger] bag(g).add(bag(f.at(p))).count(x) == bag(f).add(bag(new)).count(x) by {
            let lo = f.listing_below(f.folders.len()).to_multiset();
            let lg = g.listing_below(g.folders.len()).to_multiset();
            assert(lg.add(bag(old_child)).count(x) == lo.add(bag(new_child)).count(x));
            assert(bag(new_child).add(bag(f.at(p))).count(x) == bag(old_child).add(
                bag(new),
            ).count(x));
        }
    }
}

proof fn lemma_files_bag(f: FolderView, g: FolderView)
    requires
        f.folders == g.folders,
    ensures
        bag(f).add(g.files.to_multiset()) =~= bag(g).add(f.files.to_multiset()),
{
    lemma_below_same(f, g, f.folders.len());
    lemma_multiset_commutative(f.files, f.listing_below(f.folders.len()));
    lemma_multiset_commutative(g.files, g.listing_below(g.folders.len()));
}

proof fn lemma_below_same(f: FolderView, g: FolderView, n: nat)
    requires
        f.folders == g.folders,
    ensures
        f.listing_below(n) == g.listing_below(n),
    decreases n,
{
    if n > 0 && n <= f.folders.len() {
        lemma_below_same(f, g, (n - 1) as nat);
    }
}

/// Adding a file puts exactly that file into the tree, and changes no other.
pub proof fn adding_adds_one_file(f: FolderView, t: Option<Uuid>, file: FilView)
    ensures
        match f.added(t, file) {
            Ok(g) => bag(g) =~= bag(f).insert(file),
            Err(_) => true,
        },
{
    broadcast use vstd::seq_lib::group_to_multiset_ensures;

    match t {
        None => {
            lemma_files_bag(f, f.with_file(file));
            assert(bag(f.with_file(file)) =~= bag(f).insert(file)) by {
                lemma_cancel_insert(f, f.with_file(file), file);
            }
        },
        Some(id) => {
            let q = Query::Folder(id);
            lemma_search_hits(f, q);
            match f.search(q) {
                None => {},
                Some(p) => {
                    let h = f.at(p);
                    lemma_cancel_insert(h, h.with_file(file), file);
                    lemma_put_bag(f, p, h.with_file(file));
                    assert forall|x: FilView|
                        #[trigger] bag(f.put(p, h.with_file(file))).count(x) == bag(f).insert(
                            file,
                        ).count(x) by {
                        assert(bag(f.put(p, h.with_file(file))).add(bag(h)).count(x) == bag(f).add(
                            bag(h.with_file(file)),
                        ).count(x));
                    }
                },
            }
        },
    }
}

proof fn lemma_cancel_insert(f: FolderView, g: FolderView, file: FilView)
    requires
        g == f.with_file(file),
    ensures
        bag(g) =~= bag(f).insert(file),
{
    broadcast use vstd::seq_lib::group_to_multiset_ensures;

    lemma_files_bag(f, g);
    assert forall|x: FilView| #[trigger] bag(g).count(x) == bag(f).insert(file).count(x) by {
        assert(bag(f).add(g.files.to_multiset()).count(x) == bag(g).add(
            f.files.to_multiset(),
        ).count(x));
    }
}

proof fn lemma_below_contains(f: FolderView, k: int, n: nat, x: FilView)
    requires
        0 <= k < n <= f.folders.len(),
        f.folders[k].listing().contains(x),
    ensures
        f.listing_below(n).contains(x),
    decreases n,
{
    let head = f.listing_below((n - 1) as nat);
    let tail = f.folders[n - 1].listing();
    if k < n - 1 {
        lemma_below_contains(f, k, (n - 1) as nat, x);
        let i = choose|i: int| 0 <= i < head.len() && head[i] == x;
        assert((head + tail)[i] == x);
    } else {
        let i = choose|i: int| 0 <= i < tail.len() && tail[i] == x;
        assert((head + tail)[head.len() + i] == x);
    }
}

/// The files of every folder of the tree are files of the tree.
pub proof fn lemma_at_listed(f: FolderView, p: Seq<int>, i: int)
    requires
        f.leads(p),
        0 <= i < f.at(p).files.len(),
    ensures
        f.listing().contains(f.at(p).files[i]),
    decreases p.len(),
{
    let below = f.listing_below(f.folders.len());
    if p.len() == 0 {
        assert((f.files + below)[i] == f.files[i]);
    } else {
        let x = f.at(p).files[i];
        lemma_at_listed(f.folders[p[0]], p.skip(1), i);
        lemma_below_contains(f, p[0], f.folders.len(), x);
        let j = choose|j: int| 0 <= j < below.len() && below[j] == x;
        assert((f.files + below)[f.files.len() + j] == x);
    }
}

/// A search for a file fails only where no file of the tree has the identifier.
pub proof fn lemma_missing_file(f: FolderView, t: Uuid)
    requires
        f.search(Query::File(t)) is None,
    ensures
        forall|x: FilView| #[trigger] f.listing().contains(x) ==> x.uuid != t,
    decreases f, f.folders.len() + 1,
{
    let q = Query::File(t);
    let below = f.listing_below(f.folders.len());
    lemma_first_file(f.files, t, 0);
    lemma_search_from_hits(f, q, 0);
    lemma_missing_below(f, t, f.folders.len());
    assert forall|x: FilView| #[trigger] f.listing().contains(x) implies x.uuid != t by {
        let i = choose|i: int| 0 <= i < f.listing().len() && f.listing()[i] == x;
        if i >= f.files.len() {
            assert(below[i - f.files.len()] == x);
            assert(below.contains(x));
        }
    }
}

proof fn lemma_missing_below(f: FolderView, t: Uuid, n: nat)
    requires
        n <= f.folders.len(),
        forall|k: int|
            0 <= k < f.folders.len() ==> #[trigger] f.folders[k].search(Query::File(t)) is None,
    ensures
        forall|x: FilView| #[trigger] f.listing_below(n).contains(x) ==> x.uuid != t,
    decreases f, n,
{
    if n > 0 {
        let head = f.listing_below((n - 1) as nat);
        let tail = f.folders[n - 1].listing();
        lemma_missing_below(f, t, (n - 1) as nat);
        assert(f.folders[n - 1].search(Query::File(t)) is None);
        lemma_missing_file(f.folders[n - 1], t);
        assert forall|x: FilView| #[trigger] f.listing_below(n).contains(x) implies x.uuid != t by {
            let i = choose|i: int| 0 <= i < (head + tail).len() && (head + tail)[i] == x;
            if i < head.len() {
                assert(head[i] == x);
                assert(head.contains(x));
            } else {
                assert(tail[i - head.len()] == x);
                assert(tail.contains(x));
            }
        }
    }
}

/// A file can be found by its identifier just where some file of the tree has it, and what is
/// found is such a file.
pub proof fn found_files_are_listed(f: FolderView, t: Uuid)
    ensures
        match f.file(t) {
            Some(x) => f.listing().contains(x) && x.uuid == t,
            None => forall|x: FilView| #[trigger] f.listing().contains(x) ==> x.uuid != t,
        },
{
    let q = Query::File(t);
    lemma_search_hits(f, q);
    match f.search(q) {
        Some(p) => {
            lemma_first_file(f.at(p).files, t, 0);
            lemma_at_listed(f, p, first_file(f.at(p).files, t, 0)->0);
        },
        None => {
            lemma_missing_file(f, t);
        },
    }
}

/// A user gets only files of the tree, with the identifier asked for, that the user may view.
pub proof fn visible_files_are_allowed(f: FolderView, t: Uuid, user: Uuid)
    ensures
        match f.visible_file(t, user) {
            Some(x) => f.listing().contains(x) && x.uuid == t && x.access.can_view(user),
            None => true,
        },
{
    let q = Query::VisibleFile(t, user);
    lemma_search_hits(f, q);
    match f.search(q) {
        Some(p) => {
            lemma_first_file(f.at(p).files, t, 0);
            lemma_at_listed(f, p, first_file(f.at(p).files, t, 0)->0);
        },
        None => {},
    }
}

proof fn lemma_contains_count(s: Seq<FilView>, x: FilView)
    ensures
        s.contains(x) <==> s.to_multiset().contains(x),
{
    broadcast use vstd::seq_lib::group_to_multiset_ensures;

}

/// Removing takes away exactly one file: the one that the user would have been given.
pub proof fn removing_removes_one_file(f: FolderView, t: Uuid, user: Uuid)
    ensures
        match f.file_removed(t, user) {
            Ok(g) => f.visible_file(t, user) is Some && bag(f).contains(
                f.visible_file(t, user)->0,
            ) && bag(g) =~= bag(f).remove(f.visible_file(t, user)->0),
            Err(e) => f.visible_file(t, user) is None && e == f.file_refusal(t, user),
        },
{
    broadcast use vstd::seq_lib::group_to_multiset_ensures;

    let q = Query::VisibleFile(t, user);
    lemma_search_hits(f, q);
    match f.search(q) {
        None => {},
        Some(p) => {
            let h = f.at(p);
            let k = first_file(h.files, t, 0)->0;
            lemma_first_file(h.files, t, 0);
            lemma_at_listed(f, p, k);
            let x = h.files[k];
            let g = h.without_file(k);
            lemma_contains_count(f.listing(), x);
            lemma_files_bag(h, g);
            lemma_put_bag(f, p, g);
            assert(h.files.contains(x));
            assert(h.files.to_multiset().count(x) > 0);
            assert forall|y: FilView|
                #[trigger] bag(f.put(p, g)).count(y) == bag(f).remove(x).count(y) by {
                assert(bag(f.put(p, g)).add(bag(h)).count(y) == bag(f).add(bag(g)).count(y));
                assert(bag(h).add(g.files.to_multiset()).count(y) == bag(g).add(
                    h.files.to_multiset(),
                ).count(y));
                assert(g.files.to_multiset() == h.files.to_multiset().remove(x));
            }
        },
    }
}

/// Changing a file in place changes that file and no other.
pub proof fn replacing_changes_one_file(f: FolderView, t: Uuid, new: FilView)
    requires
        f.file(t) is Some,
    ensures
        bag(f.file_replaced(t, new)) =~= bag(f).remove(f.file(t)->0).insert(new),
{
    broadcast use vstd::seq_lib::group_to_multiset_ensures;

    let q = Query::File(t);
    lemma_search_hits(f, q);
    let p = f.search(q)->0;
    let h = f.at(p);
    let k = first_file(h.files, t, 0)->0;
    lemma_first_file(h.files, t, 0);
    lemma_at_listed(f, p, k);
    let x = h.files[k];
    let g = h.replaced_file(k, new);
    lemma_contains_count(f.listing(), x);
    lemma_files_bag(h, g);
    lemma_put_bag(f, p, g);
    assert(h.files.contains(x));
    lemma_update_bag(h.files, k, new);
    assert forall|y: FilView|
        #[trigger] bag(f.put(p, g)).count(y) == bag(f).remove(x).insert(new).count(y) by {
        assert(bag(f.put(p, g)).add(bag(h)).count(y) == bag(f).add(bag(g)).count(y));
        assert(bag(h).add(g.files.to_multiset()).count(y) == bag(g).add(
            h.files.to_multiset(),
        ).count(y));
    }
}

proof fn lemma_update_bag(s: Seq<FilView>, k: int, new: FilView)
    requires
        0 <= k < s.len(),
    ensures
        s.update(k, new).to_multiset() =~= s.to_multiset().remove(s[k]).insert(new),
        s.to_multiset().count(s[k]) > 0,
{
    broadcast use vstd::seq_lib::group_to_multiset_ensures;

    let u = s.update(k, new);
    assert(u.remove(k) =~= s.remove(k));
    assert(s.contains(s[k]));
    assert(u[k] == new);
    assert(u.contains(new));
    assert(u.to_multiset().remove(new) == s.to_multiset().remove(s[k]));
}

proof fn lemma_open_below(
    f: FolderView,
    q: Query,
    p: Seq<int>,
    new: FolderView,
    rest: Seq<int>,
)
    requires
        f.leads(p),
        new.search(q) == Some(rest),
        f.search(q) is None,
        p.len() > 0 ==> f.put(p, new).verdict(q) is Open,
        q is Folder || q is File || q is VisibleFile,
        f.search(Query::Folder(q->Folder_0)) is None || q !is Folder,
        q matches Query::VisibleFile(t, _) ==> f.search(Query::File(t)) is None,
    ensures
        f.put(p, new).search(q) == Some(p + rest),
    decreases p.len(),
{
    if p.len() == 0 {
        assert(p + rest =~= rest);
    } else {
        let k = p[0];
        let g = f.put(p, new);
        let c = f.folders[k];
        assert(f.verdict(q) is Open) by {
            lemma_search_hits(f, q);
            if q is VisibleFile {
                lemma_search_hits(f, Query::File(q->VisibleFile_0));
            }
        }
        lemma_search_from_hits(f, q, 0);
        assert(c.search(q) is None);
        if q is VisibleFile {
            let qf = Query::File(q->VisibleFile_0);
            assert(f.verdict(qf) is Open);
            lemma_search_from_hits(f, qf, 0);
            assert(c.search(qf) is None);
        }
        if p.len() > 1 {
            lemma_search_hits(c, q);
            assert(c.put(p.skip(1), new).verdict(q) is Open) by {
                let d = c.put(p.skip(1), new);
                assert(d.files == c.files && d.uuid == c.uuid);
                if q is VisibleFile {
                    lemma_search_hits(c, Query::File(q->VisibleFile_0));
                }
            }
        }
        lemma_open_below(c, q, p.skip(1), new, rest);
        lemma_first_child_found(g, q, 0, k, p.skip(1) + rest);
        assert(seq![k] + (p.skip(1) + rest) =~= p + rest);
    }
}

/// The first subfolder in which a search succeeds is where it ends.
pub proof fn lemma_first_child_found(g: FolderView, q: Query, i: int, k: int, rest: Seq<int>)
    requires
        0 <= i <= k < g.folders.len(),
        forall|j: int| i <= j < k ==> #[trigger] g.folders[j].search(q) is None,
        g.folders[k].search(q) == Some(rest),
    ensures
        g.search_from(q, i) == Some(seq![k] + rest),
    decreases k - i,
{
    if i < k {
        assert(g.folders[i].search(q) is None);
        lemma_first_child_found(g, q, i + 1, k, rest);
    }
}

proof fn lemma_first_in_push(files: Seq<FilView>, t: Uuid, file: FilView, i: int)
    requires
        0 <= i <= files.len(),
        forall|j: int| i <= j < files.len() ==> files[j].uuid != t,
        file.uuid == t,
    ensures
        first_file(files.push(file), t, i) == Some(files.len() as int),
    decreases files.len() - i,
{
    if i < files.len() {
        lemma_first_in_push(files, t, file, i + 1);
    }
}

/// What is added is found: a user who may view the new file gets it by its identifier, wherever in
/// the tree it was put.
pub proof fn added_file_is_found(f: FolderView, t: Option<Uuid>, file: FilView, user: Uuid)
    requires
        f.file(file.uuid) is None,
        file.access.can_view(user),
    ensures
        match f.added(t, file) {
            Ok(g) => g.visible_file(file.uuid, user) == Some(file),
            Err(e) => t is Some && e == MapError::FolderNotFound(t->0),
        },
{
    match f.added(t, file) {
        Err(_) => {},
        Ok(g) => {
            let p = match t {
                None => Seq::<int>::empty(),
                Some(id) => f.search(Query::Folder(id))->0,
            };
            if t is Some {
                lemma_search_hits(f, Query::Folder(t->0));
            }
            let h = f.at(p);
            let new = h.with_file(file);
            assert(g == f.put(p, new));
            let q = Query::VisibleFile(file.uuid, user);
            let qf = Query::File(file.uuid);
            lemma_missing_file(f, file.uuid);
            lemma_visible_needs_file(f, file.uuid, user);
            assert forall|j: int| 0 <= j < h.files.len() implies h.files[j].uuid != file.uuid by {
                lemma_at_listed(f, p, j);
            }
            lemma_first_in_push(h.files, file.uuid, file, 0);
            if p.len() > 0 {
                lemma_search_hits(f, qf);
                assert(g.files == f.files);
            }
            lemma_open_below(f, q, p, new, Seq::empty());
            assert(p + Seq::<int>::empty() =~= p);
            lemma_put_at(f, p, new);
        },
    }
}

/// A replaced folder is what the path leads to afterwards.
pub proof fn lemma_put_at(f: FolderView, p: Seq<int>, new: FolderView)
    requires
        f.leads(p),
    ensures
        f.put(p, new).leads(p),
        f.put(p, new).at(p) == new,
    decreases p.len(),
{
    if p.len() > 0 {
        lemma_put_at(f.folders[p[0]], p.skip(1), new);
    }
}

proof fn lemma_visible_needs_file(f: FolderView, t: Uuid, user: Uuid)
    requires
        f.search(Query::File(t)) is None,
    ensures
        f.search(Query::VisibleFile(t, user)) is None,
{
    let q = Query::VisibleFile(t, user);
    lemma_search_hits(f, q);
    match f.search(q) {
        None => {},
        Some(p) => {
            let k = first_file(f.at(p).files, t, 0)->0;
            lemma_first_file(f.at(p).files, t, 0);
            lemma_at_listed(f, p, k);
            lemma_missing_file(f, t);
        },
    }
}

/// Distinct identifiers stay distinct when a file with a new identifier is added.
pub proof fn adding_keeps_files_distinct(f: FolderView, t: Option<Uuid>, file: FilView)
    requires
        distinct_files(bag(f)),
        f.file(file.uuid) is None,
    ensures
        match f.added(t, file) {
            Ok(g) => distinct_files(bag(g)),
            Err(_) => true,
        },
{
    adding_adds_one_file(f, t, file);
    lemma_missing_file(f, file.uuid);
    match f.added(t, file) {
        Err(_) => {},
        Ok(g) => {
            lemma_contains_count(f.listing(), file);
            assert forall|x: FilView| #[trigger] bag(g).count(x) <= 1 by {
                lemma_contains_count(f.listing(), x);
            }
            assert forall|x: FilView, y: FilView|
                bag(g).contains(x) && bag(g).contains(y) && #[trigger] x.uuid
                    == #[trigger] y.uuid implies x == y by {
                lemma_contains_count(f.listing(), x);
                lemma_contains_count(f.listing(), y);
            }
        },
    }
}

/// Distinct identifiers stay distinct when a file is removed, and the removed file can be found no
/// more.
pub proof fn removed_file_is_gone(f: FolderView, t: Uuid, user: Uuid)
    requires
        distinct_files(bag(f)),
    ensures
        match f.file_removed(t, user) {
            Ok(g) => distinct_files(bag(g)) && g.file(t) is None && g.visible_file(t, user) is None,
            Err(_) => true,
        },
{
    removing_removes_one_file(f, t, user);
    visible_files_are_allowed(f, t, user);
    match f.file_removed(t, user) {
        Err(_) => {},
        Ok(g) => {
            let x = f.visible_file(t, user)->0;
            assert forall|y: FilView| #[trigger] bag(g).count(y) <= 1 by {
                assert(bag(f).count(y) <= 1);
            }
            assert forall|a: FilView, b: FilView|
                bag(g).contains(a) && bag(g).contains(b) && #[trigger] a.uuid
                    == #[trigger] b.uuid implies a == b by {
                assert(bag(f).contains(a) && bag(f).contains(b));
            }
            found_files_are_listed(g, t);
            if g.file(t) is Some {
                let y = g.file(t)->0;
                lemma_contains_count(g.listing(), y);
                assert(bag(g).contains(y));
                assert(bag(f).contains(y));
                assert(x.uuid == y.uuid);
                assert(bag(f).count(x) <= 1);
            }
            lemma_visible_needs_file(g, t, user);
        },
    }
}

/// With distinct identifiers, a user gets a file just where it exists and the user may view it.
pub proof fn viewers_get_their_files(f: FolderView, t: Uuid, user: Uuid)
    requires
        distinct_files(bag(f)),
    ensures
        f.visible_file(t, user) == (match f.file(t) {
            Some(x) if x.access.can_view(user) => Some(x),
            _ => None,
        }),
{
    visible_files_are_allowed(f, t, user);
    found_files_are_listed(f, t);
    match f.file(t) {
        None => {
            lemma_visible_needs_file(f, t, user);
        },
        Some(x) => {
            lemma_contains_count(f.listing(), x);
            match f.visible_file(t, user) {
                Some(y) => {
                    lemma_contains_count(f.listing(), y);
                    assert(x.uuid == y.uuid);
                },
                None => {
                    if x.access.can_view(user) {
                        lemma_search_hits(f, Query::File(t));
                        let p = f.search(Query::File(t))->0;
                        lemma_first_file(f.at(p).files, t, 0);
                        lemma_visible_search(f, t, user);
                    }
                },
            }
        },
    }
}

proof fn lemma_visible_search(f: FolderView, t: Uuid, user: Uuid)
    requires
        f.search(Query::File(t)) is Some,
        f.file(t)->0.access.can_view(user),
    ensures
        f.search(Query::VisibleFile(t, user)) is Some,
    decreases f, f.folders.len() + 1,
{
    let q = Query::File(t);
    if f.verdict(q) is Open {
        lemma_visible_search_from(f, t, user, 0);
    }
}

proof fn lemma_visible_search_from(f: FolderView, t: Uuid, user: Uuid, i: int)
    requires
        0 <= i,
        f.search_from(Query::File(t), i) is Some,
        ({
            let h = f.at(f.search_from(Query::File(t), i)->0);
            h.files[first_file(h.files, t, 0)->0].access.can_view(user)
        }),
    ensures
        f.search_from(Query::VisibleFile(t, user), i) is Some,
    decreases f, f.folders.len() - i,
{
    let q = Query::File(t);
    match f.folders[i].search(q) {
        Some(p) => {
            assert((seq![i] + p).skip(1) =~= p);
            lemma_visible_search(f.folders[i], t, user);
        },
        None => {
            if f.folders[i].search(Query::VisibleFile(t, user)) is None {
                lemma_visible_search_from(f, t, user, i + 1);
            }
        },
    }
}

proof fn lemma_put_search_file(f: FolderView, t: Uuid, new: FilView)
    requires
        f.search(Query::File(t)) is Some,
        new.uuid == t,
    ensures
        f.file_replaced(t, new).search(Query::File(t)) == f.search(Query::File(t)),
        f.file_replaced(t, new).file(t) == Some(new),
{
    let q = Query::File(t);
    let p = f.search(q)->0;
    lemma_search_hits(f, q);
    let h = f.at(p);
    let k = first_file(h.files, t, 0)->0;
    lemma_first_file(h.files, t, 0);
    let g = h.replaced_file(k, new);
    lemma_first_file(g.files, t, 0);
    assert(g.files[k].uuid == t);
    assert forall|j: int| 0 <= j < k implies g.files[j].uuid != t by {
        assert(g.files[j] == h.files[j]);
    }
    assert(first_file(g.files, t, 0) == Some(k));
    lemma_put_search(f, q, g);
    lemma_put_at(f, p, g);
}

proof fn lemma_put_search(f: FolderView, q: Query, new: FolderView)
    requires
        q is File,
        f.search(q) is Some,
        new.verdict(q) is Hit,
    ensures
        f.put(f.search(q)->0, new).search(q) == f.search(q),
    decreases f, f.folders.len() + 1,
{
    if f.verdict(q) is Open {
        lemma_put_search_from(f, q, new, 0);
    }
}

proof fn lemma_put_search_from(f: FolderView, q: Query, new: FolderView, i: int)
    requires
        q is File,
        0 <= i,
        f.search_from(q, i) is Some,
        new.verdict(q) is Hit,
    ensures
        f.put(f.search_from(q, i)->0, new).search_from(q, i) == f.search_from(q, i),
        f.search_from(q, i)->0.len() > 0,
        f.search_from(q, i)->0[0] >= i,
    decreases f, f.folders.len() - i,
{
    match f.folders[i].search(q) {
        Some(p) => {
            let full = seq![i] + p;
            assert(full.skip(1) =~= p);
            lemma_put_search(f.folders[i], q, new);
            assert(f.put(full, new).folders[i].search(q) == Some(p));
        },
        None => {
            lemma_put_search_from(f, q, new, i + 1);
            let full = f.search_from(q, i + 1)->0;
            lemma_search_from_hits(f, q, i + 1);
            assert(f.put(full, new).folders[i] == f.folders[i]);
        },
    }
}

/// What is changed in a file is read back: after a file has been replaced by one with the same
/// identifier, that identifier finds the new one.
pub proof fn replaced_file_is_found(f: FolderView, t: Uuid, new: FilView)
    requires
        f.file(t) is Some,
        new.uuid == t,
    ensures
        f.file_replaced(t, new).file(t) == Some(new),
{
    lemma_put_search_file(f, t, new);
}

/// Whether some folder of the tree, `f` itself among them, has identifier `t`.
pub open spec fn holds(f: FolderView, t: Uuid) -> bool {
    f.search(Query::Folder(t)) is Some
}

/// Whether no two folders of the tree share an identifier.
pub open spec fn distinct_folders(f: FolderView) -> bool
    decreases f,
{
    &&& forall|i: int| 0 <= i < f.folders.len() ==> distinct_folders(#[trigger] f.folders[i])
    &&& forall|i: int|
        0 <= i < f.folders.len() ==> !#[trigger] holds(f.folders[i], f.uuid)
    &&& forall|i: int, j: int, t: Uuid|
        0 <= i < j < f.folders.len() ==> !(#[trigger] holds(f.folders[i], t) && #[trigger] holds(
            f.folders[j],
            t,
        ))
}

/// A folder holds an identifier where it has it itself or a subfolder holds it.
pub proof fn lemma_holds(f: FolderView, t: Uuid)
    ensures
        holds(f, t) <==> (f.uuid == t || exists|i: int|
            0 <= i < f.folders.len() && #[trigger] holds(f.folders[i], t)),
{
    let q = Query::Folder(t);
    lemma_search_from_hits(f, q, 0);
    if f.uuid != t {
        if f.search(q) is Some {
            lemma_child_holds(f, t, 0);
        } else {
            assert forall|i: int| 0 <= i < f.folders.len() implies !#[trigger] holds(
                f.folders[i],
                t,
            ) by {
                assert(f.folders[i].search(q) is None);
            }
        }
    }
}

proof fn lemma_child_holds(f: FolderView, t: Uuid, i: int)
    requires
        0 <= i,
        f.search_from(Query::Folder(t), i) is Some,
    ensures
        exists|k: int| 0 <= k < f.folders.len() && #[trigger] holds(f.folders[k], t),
    decreases f.folders.len() - i,
{
    if f.folders[i].search(Query::Folder(t)) is Some {
        assert(holds(f.folders[i], t));
    } else {
        lemma_child_holds(f, t, i + 1);
    }
}

/// What a folder of the tree holds, the tree holds.
pub proof fn lemma_at_holds(f: FolderView, p: Seq<int>, t: Uuid)
    requires
        f.leads(p),
        holds(f.at(p), t),
    ensures
        holds(f, t),
    decreases p.len(),
{
    if p.len() > 0 {
        lemma_at_holds(f.folders[p[0]], p.skip(1), t);
        lemma_holds(f, t);
    }
}

proof fn lemma_below_push(f: FolderView, sub: FolderView, n: nat)
    requires
        n <= f.folders.len(),
    ensures
        f.with_folder(sub).listing_below(n) == f.listing_below(n),
    decreases n,
{
    if n > 0 {
        lemma_below_push(f, sub, (n - 1) as nat);
    }
}

proof fn lemma_push_empty(f: FolderView, sub: FolderView)
    requires
        sub.folders.len() == 0,
        sub.files.len() == 0,
    ensures
        f.with_folder(sub).listing() =~= f.listing(),
{
    let g = f.with_folder(sub);
    lemma_below_push(f, sub, f.folders.len());
    assert(sub.listing() =~= Seq::empty());
    assert(g.listing_below(g.folders.len()) =~= f.listing_below(f.folders.len()));
}

/// A created folder is found under its identifier, inside its parent, empty and with the
/// permissions it was created with, and the files of the tree stay as they are.
pub proof fn created_folder_is_found(
    f: FolderView,
    t: Option<Uuid>,
    name: Seq<char>,
    client: Uuid,
    access: AccessView,
    dir_created: bool,
    uuid: Uuid,
    now: Timestamp,
)
    requires
        !holds(f, uuid),
    ensures
        match f.folder_created(t, name, client, access, dir_created, uuid, now) {
            Ok(g) => holds(g, uuid) && ({
                let found = g.at(g.search(Query::Folder(uuid))->0);
                &&& found.folders.len() == 0 && found.files.len() == 0
                &&& found.access == access
                &&& found.name == crate::paths::file_name_of(name)->0
                &&& found.path == crate::paths::joined(
                    f.at(
                        match t {
                            None => Seq::<int>::empty(),
                            Some(id) => f.search(Query::Folder(id))->0,
                        },
                    ).path,
                    found.name,
                )
            }) && bag(g) =~= bag(f),
            Err(_) => true,
        },
{
    match f.folder_created(t, name, client, access, dir_created, uuid, now) {
        Err(_) => {},
        Ok(g) => {
            let p = match t {
                None => Seq::<int>::empty(),
                Some(id) => f.search(Query::Folder(id))->0,
            };
            if t is Some {
                lemma_search_hits(f, Query::Folder(t->0));
            }
            let h = f.at(p);
            let sub = empty_folder(
                crate::paths::file_name_of(name)->0,
                h.path,
                access,
                uuid,
                now,
            );
            let new = h.with_folder(sub);
            assert(g == f.put(p, new));
            lemma_fresh_child_found(f, p, sub);
            lemma_push_empty(h, sub);
            lemma_put_bag(f, p, new);
            assert forall|x: FilView| #[trigger] bag(g).count(x) == bag(f).count(x) by {
                assert(bag(g).add(bag(h)).count(x) == bag(f).add(bag(new)).count(x));
            }
        },
    }
}

proof fn lemma_fresh_child_found(f: FolderView, p: Seq<int>, sub: FolderView)
    requires
        f.leads(p),
        !holds(f, sub.uuid),
    ensures
        ({
            let h = f.at(p);
            let g = f.put(p, h.with_folder(sub));
            let q = Query::Folder(sub.uuid);
            g.search(q) is Some && g.at(g.search(q)->0) == sub
        }),
{
    let q = Query::Folder(sub.uuid);
    let h = f.at(p);
    let new = h.with_folder(sub);
    let k = h.folders.len() as int;
    if holds(h, sub.uuid) {
        lemma_at_holds(f, p, sub.uuid);
    }
    lemma_holds(h, sub.uuid);
    assert(sub.search(q) == Some(Seq::<int>::empty()));
    assert forall|j: int| 0 <= j < k implies #[trigger] new.folders[j].search(q) is None by {
        assert(!holds(h.folders[j], sub.uuid));
    }
    assert(new.folders[k] == sub);
    lemma_first_child_found(new, q, 0, k, Seq::empty());
    assert(seq![k] + Seq::<int>::empty() =~= seq![k]);
    assert(new.search(q) == Some(seq![k]));
    lemma_search_hits(f, q);
    lemma_open_below(f, q, p, new, seq![k]);
    lemma_put_at(f, p, new);
    let g = f.put(p, new);
    lemma_at_append(g, p, seq![k]);
    assert(seq![k].skip(1) =~= Seq::<int>::empty());
    assert(new.at(seq![k]) == sub) by {
        reveal_with_fuel(FolderView::at, 2);
    }
}

proof fn lemma_at_append(f: FolderView, p: Seq<int>, rest: Seq<int>)
    ensures
        f.at(p + rest) == f.at(p).at(rest),
    decreases p.len(),
{
    if p.len() == 0 {
        assert(p + rest =~= rest);
    } else {
        assert((p + rest).skip(1) =~= p.skip(1) + rest);
        lemma_at_append(f.folders[p[0]], p.skip(1), rest);
    }
}

/// With distinct identifiers, a deleted folder is found no more, and nothing else appears in the
/// tree; the identifiers stay distinct.
pub proof fn deleted_folder_is_gone(f: FolderView, t: Uuid, client: Uuid, dir_removed: bool)
    requires
        distinct_folders(f),
    ensures
        match f.folder_deleted(t, client, dir_removed) {
            Ok(g) => !holds(g, t) && (forall|x: Uuid| #[trigger] holds(g, x) ==> holds(f, x))
                && distinct_folders(g),
            Err(_) => true,
        },
{
    match f.folder_deleted(t, client, dir_removed) {
        Err(_) => {},
        Ok(g) => {
            let q = Query::VisibleFolder(t, client);
            lemma_search_hits(f, q);
            let p = f.search(q)->0;
            let h = f.at(p);
            lemma_first_folder(h.folders, t, 0);
            lemma_delete_at(f, p, first_folder(h.folders, t, 0)->0, t);
        },
    }
}

/// What deleting the subfolder at an index of a folder of the tree leaves.
pub proof fn lemma_delete_at(f: FolderView, p: Seq<int>, k: int, t: Uuid)
    requires
        distinct_folders(f),
        f.leads(p),
        0 <= k < f.at(p).folders.len(),
        f.at(p).folders[k].uuid == t,
    ensures
        ({
            let g = f.put(p, f.at(p).without_folder(t));
            !holds(g, t) && (forall|x: Uuid| #[trigger] holds(g, x) ==> holds(f, x))
                && distinct_folders(g)
        }),
    decreases p.len(),
{
    let h = f.at(p);
    let g = f.put(p, h.without_folder(t));
    if p.len() == 0 {
        lemma_delete_here(f, k, t);
    } else {
        let i0 = p[0];
        let c = f.folders[i0];
        let d = c.put(p.skip(1), h.without_folder(t));
        lemma_delete_at(c, p.skip(1), k, t);
        assert(holds(c, t)) by {
            lemma_holds(h.folders[k], t);
            lemma_holds(h, t);
            lemma_at_holds(c, p.skip(1), t);
        }
        lemma_holds(g, t);
        assert(f.uuid != t);
        assert forall|i: int| 0 <= i < g.folders.len() implies !#[trigger] holds(
            g.folders[i],
            t,
        ) by {
            if i != i0 {
                assert(g.folders[i] == f.folders[i]);
                if i < i0 {
                    assert(!(holds(f.folders[i], t) && holds(f.folders[i0], t)));
                } else {
                    assert(!(holds(f.folders[i0], t) && holds(f.folders[i], t)));
                }
            }
        }
        assert forall|x: Uuid| #[trigger] holds(g, x) implies holds(f, x) by {
            lemma_holds(g, x);
            lemma_holds(f, x);
            if g.uuid != x {
                let i = choose|i: int| 0 <= i < g.folders.len() && #[trigger] holds(
                    g.folders[i],
                    x,
                );
                assert(holds(f.folders[i], x));
            }
        }
        assert forall|i: int| 0 <= i < g.folders.len() implies distinct_folders(
            #[trigger] g.folders[i],
        ) by {
            assert(distinct_folders(f.folders[i]));
        }
        assert forall|i: int| 0 <= i < g.folders.len() implies !#[trigger] holds(
            g.folders[i],
            g.uuid,
        ) by {
            assert(!holds(f.folders[i], f.uuid));
        }
        assert forall|i: int, j: int, x: Uuid| 0 <= i < j < g.folders.len() implies !(
        #[trigger] holds(g.folders[i], x) && #[trigger] holds(g.folders[j], x)) by {
            assert(!(holds(f.folders[i], x) && holds(f.folders[j], x)));
        }
    }
}

proof fn lemma_delete_here(f: FolderView, k: int, t: Uuid)
    requires
        distinct_folders(f),
        0 <= k < f.folders.len(),
        f.folders[k].uuid == t,
    ensures
        ({
            let g = f.without_folder(t);
            !holds(g, t) && (forall|x: Uuid| #[trigger] holds(g, x) ==> holds(f, x))
                && distinct_folders(g)
        }),
{
    let g = f.without_folder(t);
    let keep = |c: FolderView| c.uuid != t;
    let from = lemma_filter_origin(f.folders, keep);
    lemma_holds(f.folders[k], t);
    assert(holds(f.folders[k], t));
    lemma_holds(g, t);
    assert forall|i: int| 0 <= i < g.folders.len() implies !#[trigger] holds(g.folders[i], t) by {
        let j = from[i];
        assert(g.folders[i] == f.folders[j] && j != k);
        if j < k {
            assert(!(holds(f.folders[j], t) && holds(f.folders[k], t)));
        } else {
            assert(!(holds(f.folders[k], t) && holds(f.folders[j], t)));
        }
    }
    assert(!holds(f.folders[k], f.uuid));
    assert forall|x: Uuid| #[trigger] holds(g, x) implies holds(f, x) by {
        lemma_holds(g, x);
        lemma_holds(f, x);
        if g.uuid != x {
            let i = choose|i: int| 0 <= i < g.folders.len() && #[trigger] holds(g.folders[i], x);
            assert(holds(f.folders[from[i]], x));
        }
    }
    assert forall|i: int| 0 <= i < g.folders.len() implies distinct_folders(
        #[trigger] g.folders[i],
    ) by {
        assert(distinct_folders(f.folders[from[i]]));
    }
    assert forall|i: int| 0 <= i < g.folders.len() implies !#[trigger] holds(
        g.folders[i],
        g.uuid,
    ) by {
        assert(!holds(f.folders[from[i]], f.uuid));
    }
    assert forall|i: int, j: int, x: Uuid| 0 <= i < j < g.folders.len() implies !(#[trigger] holds(
        g.folders[i],
        x,
    ) && #[trigger] holds(g.folders[j], x)) by {
        assert(!(holds(f.folders[from[i]], x) && holds(f.folders[from[j]], x)));
    }
}

/// Where each kept element stood before.
proof fn lemma_filter_origin(s: Seq<FolderView>, keep: spec_fn(FolderView) -> bool) -> (from: Seq<
    int,
>)
    ensures
        from.len() == s.filter(keep).len(),
        forall|i: int|
            0 <= i < from.len() ==> 0 <= #[trigger] from[i] < s.len() && s.filter(keep)[i]
                == s[from[i]] && keep(s[from[i]]),
        forall|i: int, j: int| 0 <= i < j < from.len() ==> #[trigger] from[i] < #[trigger] from[j],
    decreases s.len(),
{
    reveal(Seq::filter);
    if s.len() == 0 {
        Seq::empty()
    } else {
        let before = lemma_filter_origin(s.drop_last(), keep);
        if keep(s.last()) {
            before.push(s.len() - 1)
        } else {
            before
        }
    }
}

/// Identifiers of folders stay distinct when a folder with a new identifier is created.
pub proof fn creating_keeps_folders_distinct(
    f: FolderView,
    t: Option<Uuid>,
    name: Seq<char>,
    client: Uuid,
    access: AccessView,
    dir_created: bool,
    uuid: Uuid,
    now: Timestamp,
)
    requires
        distinct_folders(f),
        !holds(f, uuid),
    ensures
        match f.folder_created(t, name, client, access, dir_created, uuid, now) {
            Ok(g) => distinct_folders(g),
            Err(_) => true,
        },
{
    match f.folder_created(t, name, client, access, dir_created, uuid, now) {
        Err(_) => {},
        Ok(g) => {
            let p = match t {
                None => Seq::<int>::empty(),
                Some(id) => f.search(Query::Folder(id))->0,
            };
            if t is Some {
                lemma_search_hits(f, Query::Folder(t->0));
            }
            let sub = empty_folder(
                crate::paths::file_name_of(name)->0,
                f.at(p).path,
                access,
                uuid,
                now,
            );
            lemma_create_distinct(f, p, sub);
        },
    }
}

/// What putting a new empty folder into a folder of the tree leaves.
pub proof fn lemma_create_distinct(f: FolderView, p: Seq<int>, sub: FolderView)
    requires
        distinct_folders(f),
        f.leads(p),
        !holds(f, sub.uuid),
        sub.folders.len() == 0,
    ensures
        ({
            let g = f.put(p, f.at(p).with_folder(sub));
            distinct_folders(g) && forall|x: Uuid| #[trigger] holds(g, x) ==> holds(f, x) || x
                == sub.uuid
        }),
    decreases p.len(),
{
    let g = f.put(p, f.at(p).with_folder(sub));
    lemma_holds(f, sub.uuid);
    assert forall|x: Uuid| x != sub.uuid implies !#[trigger] holds(sub, x) by {
        lemma_holds(sub, x);
    }
    if p.len() > 0 {
        assert(!holds(f.folders[p[0]], sub.uuid));
        lemma_create_distinct(f.folders[p[0]], p.skip(1), sub);
    }
    assert forall|x: Uuid| #[trigger] holds(g, x) implies holds(f, x) || x == sub.uuid by {
        lemma_holds(g, x);
        lemma_holds(f, x);
        if g.uuid != x {
            let i = choose|i: int| 0 <= i < g.folders.len() && #[trigger] holds(g.folders[i], x);
            if i < f.folders.len() {
                assert(holds(f.folders[i], x) || x == sub.uuid);
            }
        }
    }
    assert forall|i: int| 0 <= i < g.folders.len() implies distinct_folders(
        #[trigger] g.folders[i],
    ) by {
        if i < f.folders.len() {
            assert(distinct_folders(f.folders[i]));
        }
    }
    assert forall|i: int| 0 <= i < g.folders.len() implies !#[trigger] holds(
        g.folders[i],
        g.uuid,
    ) by {
        if i < f.folders.len() {
            assert(!holds(f.folders[i], f.uuid));
        }
    }
    assert forall|i: int, j: int, x: Uuid| 0 <= i < j < g.folders.len() implies !(#[trigger] holds(
        g.folders[i],
        x,
    ) && #[trigger] holds(g.folders[j], x)) by {
        assert(i < f.folders.len());
        assert(!holds(f.folders[i], sub.uuid));
        if j < f.folders.len() {
            assert(!holds(f.folders[j], sub.uuid));
            assert(!(holds(f.folders[i], x) && holds(f.folders[j], x)));
        }
    }
}

/// Distinct identifiers stay distinct when a file is changed and keeps its identifier.
pub proof fn replacing_keeps_files_distinct(f: FolderView, t: Uuid, new: FilView)
    requires
        distinct_files(bag(f)),
        f.file(t) is Some,
        new.uuid == t,
    ensures
        distinct_files(bag(f.file_replaced(t, new))),
{
    let x = f.file(t)->0;
    let g = f.file_replaced(t, new);
    replacing_changes_one_file(f, t, new);
    found_files_are_listed(f, t);
    lemma_contains_count(f.listing(), x);
    assert(bag(f).contains(x) && bag(f).count(x) <= 1);
    assert forall|y: FilView| #[trigger] bag(g).count(y) <= 1 by {
        assert(bag(f).count(y) <= 1);
        if y == new && bag(f).contains(y) {
            assert(y.uuid == x.uuid);
            assert(y == x);
        }
    }
    assert forall|a: FilView, b: FilView|
        bag(g).contains(a) && bag(g).contains(b) && #[trigger] a.uuid == #[trigger] b.uuid implies a
            == b by {
        if a != new && b != new {
            assert(bag(f).contains(a) && bag(f).contains(b));
        } else if a != new {
            assert(bag(f).contains(a) && a.uuid == x.uuid);
            assert(a == x);
            assert(bag(f).remove(x).count(x) == 0);
        } else if b != new {
            assert(bag(f).contains(b) && b.uuid == x.uuid);
            assert(b == x);
            assert(bag(f).remove(x).count(x) == 0);
        }
    }
}

/// With distinct identifiers, what is found under one is one file.
pub proof fn lemma_same_file(f: FolderView, x: FilView, y: Option<FilView>)
    requires
        distinct_files(bag(f)),
        f.listing().contains(x),
    ensures
        y matches Some(z) ==> f.listing().contains(z) && z.uuid == x.uuid ==> z == x,
{
    match y {
        Some(z) => {
            lemma_contains_count(f.listing(), x);
            lemma_contains_count(f.listing(), z);
        },
        None => {},
    }
}

/// A user who does not get a file is told that it is forbidden just where it lies hidden in the
/// root itself, and otherwise that there is none.
pub proof fn refusals_tell_hidden_from_missing(f: FolderView, t: Uuid, user: Uuid)
    requires
        f.visible_file(t, user) is None,
    ensures
        (forall|k: int| 0 <= k < f.files.len() ==> (#[trigger] f.files[k]).uuid != t)
            ==> f.file_refusal(t, user) == ErrorTransfer::NotFound,
        (exists|k: int| 0 <= k < f.files.len() && (#[trigger] f.files[k]).uuid == t)
            ==> f.file_refusal(t, user) == ErrorTransfer::Forbidden,
{
    lemma_first_file(f.files, t, 0);
    lemma_search_hits(f, Query::VisibleFile(t, user));
}

} // verus!
