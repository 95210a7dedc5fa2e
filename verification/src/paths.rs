//! Slash-separated paths, kept as text.

use vstd::prelude::*;
use vstd::string::{StrSliceExecFns, StringExecFns};

verus! {

/// Where the last piece of a path begins: behind its last slash, or at its start.
pub open spec fn tail_start(p: Seq<char>) -> nat
    decreases p.len(),
{
    if p.len() == 0 || p.last() == '/' {
        p.len()
    } else {
        tail_start(p.drop_last())
    }
}

/// The pieces between the slashes of a path.
pub open spec fn pieces(p: Seq<char>) -> Seq<Seq<char>>
    decreases p.len(),
{
    let t = tail_start(p);
    if t == 0 || t > p.len() {
        seq![p]
    } else {
        pieces(p.take(t - 1)).push(p.skip(t as int))
    }
}

/// Whether piece `i` names a step. A leading empty piece is the root and a leading dot the current
/// folder; elsewhere empty pieces and dots say nothing.
pub open spec fn is_step(ps: Seq<Seq<char>>, i: int) -> bool {
    if i == 0 {
        ps.len() > 1 || ps[0].len() > 0
    } else {
        ps[i].len() > 0 && ps[i] != "."@
    }
}

pub open spec fn steps(ps: Seq<Seq<char>>, n: nat) -> Seq<Seq<char>>
    decreases n,
{
    if n == 0 {
        Seq::empty()
    } else {
        let rest = steps(ps, (n - 1) as nat);
        if is_step(ps, n - 1) {
            rest.push(ps[n - 1])
        } else {
            rest
        }
    }
}

/// Index of the first piece from `i` on that names a step, or the number of pieces.
pub open spec fn next_step(ps: Seq<Seq<char>>, i: int) -> int
    decreases ps.len() - i,
{
    if i >= ps.len() {
        ps.len() as int
    } else if is_step(ps, i) {
        i
    } else {
        next_step(ps, i + 1)
    }
}

/// Where the last step among the first `n` pieces ends.
pub open spec fn steps_end(ps: Seq<Seq<char>>, n: nat) -> nat
    decreases n,
{
    if n == 0 || is_step(ps, n - 1) {
        n
    } else {
        steps_end(ps, (n - 1) as nat)
    }
}

/// Pieces with slashes between them.
pub open spec fn with_slashes(ps: Seq<Seq<char>>) -> Seq<char>
    decreases ps.len(),
{
    if ps.len() == 0 {
        Seq::empty()
    } else if ps.len() == 1 {
        ps[0]
    } else {
        with_slashes(ps.drop_last()) + "/"@ + ps.last()
    }
}

/// The text of a path from the first step at piece `i` or later to its last step, as it stands.
pub open spec fn text_from(ps: Seq<Seq<char>>, i: int) -> Seq<char> {
    let from = next_step(ps, i);
    let to = steps_end(ps, ps.len());
    if from < to {
        with_slashes(ps.subrange(from, to as int))
    } else {
        Seq::empty()
    }
}

/// The steps of a path. The root is the empty step.
pub open spec fn components(p: Seq<char>) -> Seq<Seq<char>> {
    steps(pieces(p), pieces(p).len())
}

/// The last step of a path, unless that is the root or a dotted step.
pub open spec fn file_name_of(p: Seq<char>) -> Option<Seq<char>> {
    let c = components(p);
    if c.len() == 0 || c.last().len() == 0 || c.last() == "."@ || c.last() == ".."@ {
        None
    } else {
        Some(c.last())
    }
}

/// Index of the last dot of a name, or -1.
pub open spec fn last_dot(name: Seq<char>) -> int
    decreases name.len(),
{
    if name.len() == 0 {
        -1
    } else if name.last() == '.' {
        name.len() - 1
    } else {
        last_dot(name.drop_last())
    }
}

/// The file name without its extension. A dot in front hides a file and starts no extension.
pub open spec fn file_stem_of(p: Seq<char>) -> Option<Seq<char>> {
    match file_name_of(p) {
        None => None,
        Some(name) => if last_dot(name) <= 0 {
            Some(name)
        } else {
            Some(name.take(last_dot(name)))
        },
    }
}

/// What follows the last dot of the file name.
pub open spec fn extension_of(p: Seq<char>) -> Option<Seq<char>> {
    match file_name_of(p) {
        None => None,
        Some(name) => if last_dot(name) <= 0 {
            None
        } else {
            Some(name.skip(last_dot(name) + 1))
        },
    }
}

/// `name` below `base`; an absolute `name` replaces `base`.
pub open spec fn joined(base: Seq<char>, name: Seq<char>) -> Seq<char> {
    if name.len() > 0 && name[0] == '/' {
        name
    } else if base.len() == 0 || base.last() == '/' {
        base + name
    } else {
        base + "/"@ + name
    }
}

pub open spec fn views(v: Seq<String>) -> Seq<Seq<char>> {
    Seq::new(v.len(), |i: int| v[i]@)
}

proof fn lemma_tail_start(p: Seq<char>)
    ensures
        tail_start(p) <= p.len(),
        tail_start(p) > 0 ==> p[tail_start(p) - 1] == '/',
        forall|i: int| tail_start(p) <= i < p.len() ==> p[i] != '/',
    decreases p.len(),
{
    if p.len() == 0 || p.last() == '/' {
    } else {
        let rest = p.drop_last();
        lemma_tail_start(rest);
        assert forall|i: int| tail_start(p) <= i < p.len() implies p[i] != '/' by {
            if i < rest.len() {
                assert(rest[i] != '/');
            }
        }
    }
}

fn find_tail(p: &str, len: usize) -> (t: usize)
    requires
        len <= p@.len(),
    ensures
        t == tail_start(p@.take(len as int)),
        t <= len,
    decreases len,
{
    proof {
        lemma_tail_start(p@.take(len as int));
    }
    if len == 0 {
        return 0;
    }
    if p.get_char(len - 1) == '/' {
        return len;
    }
    assert(p@.take(len as int).drop_last() =~= p@.take(len - 1));
    find_tail(p, len - 1)
}

pub(crate) fn split(p: &str, len: usize) -> (ps: Vec<String>)
    requires
        len <= p@.len(),
    ensures
        views(ps@) == pieces(p@.take(len as int)),
        ps@.len() > 0,
    decreases len,
{
    let t: usize = find_tail(p, len);
    let tail: String = p.substring_char(t, len).to_owned();
    let ghost whole = p@.take(len as int);
    if t == 0 {
        let mut ps: Vec<String> = Vec::new();
        ps.push(tail);
        assert(tail@ =~= whole);
        assert(views(ps@) =~= seq![whole]);
        ps
    } else {
        let mut ps: Vec<String> = split(p, t - 1);
        let ghost before = views(ps@);
        ps.push(tail);
        assert(whole.take(t - 1) =~= p@.take(t - 1));
        assert(whole.skip(t as int) =~= tail@);
        assert(views(ps@) =~= before.push(tail@));
        ps
    }
}

/// Whether a piece names a step.
fn step_here(ps: &Vec<String>, i: usize) -> (yes: bool)
    requires
        i < ps@.len(),
    ensures
        yes == is_step(views(ps@), i as int),
{
    assert(views(ps@)[i as int] == ps@[i as int]@);
    if i == 0 {
        ps.len() > 1 || !ps[0].as_str().is_empty()
    } else {
        !ps[i].as_str().is_empty() && !same_text(ps[i].as_str(), ".")
    }
}

/// Index of the first piece from `i` on that names a step, or the number of pieces.
pub(crate) fn find_step(ps: &Vec<String>, i: usize) -> (k: usize)
    requires
        i <= ps@.len(),
    ensures
        k == next_step(views(ps@), i as int),
        i <= k <= ps@.len(),
    decreases ps@.len() - i,
{
    if i >= ps.len() || step_here(ps, i) {
        return i;
    }
    find_step(ps, i + 1)
}

/// The text of a path, given by its pieces, from piece `i` on.
pub(crate) fn rest_from(ps: &Vec<String>, i: usize) -> (rest: String)
    requires
        i <= ps@.len(),
    ensures
        rest@ == text_from(views(ps@), i as int),
{
    let from: usize = find_step(ps, i);
    let mut to: usize = ps.len();
    let ghost all = views(ps@);
    while to > 0 && !step_here(ps, to - 1)
        invariant
            to <= ps@.len(),
            all == views(ps@),
            steps_end(all, to as nat) == steps_end(all, ps@.len()),
        decreases to,
    {
        to -= 1;
    }
    let mut rest: String = String::new();
    let mut k: usize = from;
    if from < to {
        assert(all.subrange(from as int, from as int) =~= Seq::<Seq<char>>::empty());
    }
    while k < to
        invariant
            from <= to ==> from <= k <= to,
            from > to ==> k == from,
            to <= ps@.len(),
            all == views(ps@),
            from < to ==> rest@ == with_slashes(all.subrange(from as int, k as int)),
            from >= to ==> rest@ == Seq::<char>::empty(),
        decreases to - k,
    {
        let ghost seen = all.subrange(from as int, k as int);
        let ghost more = all.subrange(from as int, k + 1);
        assert(more.drop_last() =~= seen);
        assert(more.last() == ps@[k as int]@);
        if k > from {
            rest.append("/");
        }
        rest.append(ps[k].as_str());
        assert(k == from ==> rest@ =~= more[0]);
        k += 1;
    }
    rest
}

/// The steps of a path.
fn split_steps(p: &str) -> (c: Vec<String>)
    ensures
        views(c@) == components(p@),
{
    let len: usize = p.unicode_len();
    assert(p@.take(len as int) =~= p@);
    let ps: Vec<String> = split(p, len);
    let ghost seen = views(ps@);
    let mut c: Vec<String> = Vec::new();
    let mut i: usize = 0;
    assert(views(c@) =~= steps(seen, 0));
    while i < ps.len()
        invariant
            i <= ps@.len(),
            seen == views(ps@),
            views(c@) == steps(seen, i as nat),
        decreases ps@.len() - i,
    {
        assert(seen[i as int] == ps@[i as int]@);
        if step_here(&ps, i) {
            let ghost before = views(c@);
            c.push(ps[i].clone());
            assert(views(c@) =~= before.push(seen[i as int]));
        }
        i += 1;
    }
    c
}

/// Whether two texts are equal.
pub fn same_text(a: &str, b: &str) -> (same: bool)
    ensures
        same == (a@ == b@),
{
    a.to_owned() == b.to_owned()
}

/// The last step of a path; `None` for the root and for paths that end in `..`.
pub fn file_name(p: &str) -> (name: Option<String>)
    ensures
        match name {
            Some(n) => file_name_of(p@) == Some(n@),
            None => file_name_of(p@) is None,
        },
{
    let c: Vec<String> = split_steps(p);
    let ghost seen = views(c@);
    if c.len() == 0 {
        return None;
    }
    let last: &String = &c[c.len() - 1];
    assert(seen.last() == last@);
    if last.as_str().is_empty() || same_text(last.as_str(), ".") || same_text(last.as_str(), "..") {
        return None;
    }
    Some(last.clone())
}

fn find_dot(name: &str, len: usize) -> (d: Option<usize>)
    requires
        len <= name@.len(),
    ensures
        match d {
            Some(i) => i == last_dot(name@.take(len as int)) && i < len,
            None => last_dot(name@.take(len as int)) == -1,
        },
    decreases len,
{
    if len == 0 {
        return None;
    }
    if name.get_char(len - 1) == '.' {
        return Some(len - 1);
    }
    assert(name@.take(len as int).drop_last() =~= name@.take(len - 1));
    find_dot(name, len - 1)
}

/// The file name without its extension.
pub fn file_stem(p: &str) -> (stem: Option<String>)
    ensures
        match stem {
            Some(s) => file_stem_of(p@) == Some(s@),
            None => file_stem_of(p@) is None,
        },
{
    match file_name(p) {
        None => None,
        Some(name) => {
            let len: usize = name.as_str().unicode_len();
            assert(name@.take(len as int) =~= name@);
            match find_dot(name.as_str(), len) {
                Some(d) if d > 0 => {
                    assert(name@.subrange(0, d as int) =~= name@.take(d as int));
                    Some(name.as_str().substring_char(0, d).to_owned())
                },
                _ => Some(name),
            }
        },
    }
}

/// Whether the path's extension is `ext`.
pub fn has_extension(p: &str, ext: &str) -> (yes: bool)
    ensures
        yes == (extension_of(p@) == Some(ext@)),
{
    match file_name(p) {
        None => false,
        Some(name) => {
            let len: usize = name.as_str().unicode_len();
            assert(name@.take(len as int) =~= name@);
            match find_dot(name.as_str(), len) {
                Some(d) if d > 0 => {
                    assert(name@.subrange(d + 1, len as int) =~= name@.skip(d + 1));
                    same_text(name.as_str().substring_char(d + 1, len), ext)
                },
                _ => false,
            }
        },
    }
}

/// `name` below `base`.
pub fn join(base: &str, name: &str) -> (path: String)
    ensures
        path@ == joined(base@, name@),
{
    if !name.is_empty() && name.get_char(0) == '/' {
        return name.to_owned();
    }
    let len: usize = base.unicode_len();
    let mut path: String = base.to_owned();
    if len > 0 && base.get_char(len - 1) != '/' {
        path.append("/");
    }
    path.append(name);
    path
}

/// Whether a text holds no slash.
pub open spec fn slashless(s: Seq<char>) -> bool {
    forall|i: int| 0 <= i < s.len() ==> s[i] != '/'
}

/// A file name holds no slash and is not empty, `.` or `..`: it can only name something directly
/// inside the folder that it is joined to.
pub proof fn file_name_is_one_step(p: Seq<char>)
    ensures
        match file_name_of(p) {
            Some(n) => n.len() > 0 && n != "."@ && n != ".."@ && slashless(n),
            None => true,
        },
{
    lemma_pieces_slashless(p);
    let ps = pieces(p);
    lemma_steps_slashless(ps, ps.len());
}

proof fn lemma_pieces_slashless(p: Seq<char>)
    ensures
        forall|k: int| 0 <= k < pieces(p).len() ==> slashless(#[trigger] pieces(p)[k]),
    decreases p.len(),
{
    lemma_tail_start(p);
    let t = tail_start(p);
    if t > 0 {
        let rest = p.take(t - 1);
        lemma_pieces_slashless(rest);
        assert forall|k: int| 0 <= k < pieces(p).len() implies slashless(
            #[trigger] pieces(p)[k],
        ) by {
            if k < pieces(rest).len() {
                assert(slashless(pieces(rest)[k]));
            }
        }
    }
}

proof fn lemma_steps_slashless(ps: Seq<Seq<char>>, n: nat)
    requires
        n <= ps.len(),
        forall|k: int| 0 <= k < ps.len() ==> slashless(#[trigger] ps[k]),
    ensures
        forall|k: int| 0 <= k < steps(ps, n).len() ==> slashless(#[trigger] steps(ps, n)[k]),
    decreases n,
{
    if n > 0 {
        let rest = steps(ps, (n - 1) as nat);
        lemma_steps_slashless(ps, (n - 1) as nat);
        assert forall|k: int| 0 <= k < steps(ps, n).len() implies slashless(
            #[trigger] steps(ps, n)[k],
        ) by {
            if k < rest.len() {
                assert(slashless(rest[k]));
            } else {
                assert(slashless(ps[n - 1]));
            }
        }
    }
}

proof fn lemma_tail_of_slashless(p: Seq<char>, s: Seq<char>)
    requires
        slashless(s),
    ensures
        tail_start(p.push('/') + s) == p.len() + 1,
    decreases s.len(),
{
    let whole = p.push('/') + s;
    if s.len() == 0 {
        assert(whole =~= p.push('/'));
    } else {
        assert(whole.drop_last() =~= p.push('/') + s.drop_last());
        lemma_tail_of_slashless(p, s.drop_last());
    }
}

/// One more step behind a slash is one more piece.
pub proof fn lemma_pieces_push(p: Seq<char>, s: Seq<char>)
    requires
        slashless(s),
    ensures
        pieces(p.push('/') + s) == pieces(p).push(s),
{
    let whole = p.push('/') + s;
    lemma_tail_of_slashless(p, s);
    assert(whole.take(p.len() as int) =~= p);
    assert(whole.skip(p.len() as int + 1) =~= s);
}

/// A path without a slash is its own single piece.
pub proof fn lemma_pieces_single(s: Seq<char>)
    requires
        slashless(s),
    ensures
        pieces(s) == seq![s],
    decreases s.len(),
{
    lemma_tail_start(s);
    if tail_start(s) > 0 {
        assert(s[tail_start(s) - 1] == '/');
    }
}

/// What lies directly in the temporary directory has three steps: the current directory, the
/// temporary one, and its own name.
pub proof fn lemma_temp_components(name: Seq<char>)
    requires
        slashless(name),
        name.len() > 0,
        name != "."@,
    ensures
        pieces("./temp/"@ + name) == seq!["."@, "temp"@, name],
        components("./temp/"@ + name) == seq!["."@, "temp"@, name],
{
    reveal_strlit("./temp/");
    reveal_strlit(".");
    reveal_strlit("temp");
    lemma_pieces_single("."@);
    lemma_pieces_push("."@, "temp"@);
    let temp = "."@.push('/') + "temp"@;
    lemma_pieces_push(temp, name);
    assert("./temp/"@ + name =~= temp.push('/') + name);
    let ps = pieces("./temp/"@ + name);
    assert(ps =~= seq!["."@, "temp"@, name]);
    assert("temp"@ != "."@) by {
        assert("temp"@.len() != "."@.len());
    }
    reveal_with_fuel(steps, 4);
    assert(components("./temp/"@ + name) =~= seq!["."@, "temp"@, name]);
}

/// The pieces of a path directly in the temporary directory are its steps, and what lies below
/// that directory is the name.
pub proof fn lemma_temp_pieces(name: Seq<char>)
    requires
        slashless(name),
        name.len() > 0,
        name != "."@,
    ensures
        ({
            let ps = seq!["."@, "temp"@, name];
            &&& next_step(ps, 0) == 0
            &&& next_step(ps, 1) == 1
            &&& text_from(ps, 2) == name
        }),
{
    reveal_strlit(".");
    reveal_strlit("temp");
    let ps = seq!["."@, "temp"@, name];
    assert(is_step(ps, 0) && is_step(ps, 2));
    assert("temp"@.len() != "."@.len());
    assert(is_step(ps, 1));
    assert(ps.subrange(2, 3) =~= seq![name]);
}

proof fn lemma_last_dot_of(name: Seq<char>, ext: Seq<char>)
    requires
        forall|i: int| 0 <= i < ext.len() ==> ext[i] != '.',
    ensures
        last_dot(name.push('.') + ext) == name.len(),
    decreases ext.len(),
{
    let whole = name.push('.') + ext;
    if ext.len() == 0 {
        assert(whole =~= name.push('.'));
    } else {
        assert(whole.drop_last() =~= name.push('.') + ext.drop_last());
        lemma_last_dot_of(name, ext.drop_last());
    }
}

/// What is kept beside the temporary file `name` has that name as its stem.
pub proof fn lemma_config_stem(name: Seq<char>)
    requires
        slashless(name),
        name.len() > 0,
    ensures
        file_stem_of("./temp/"@ + name + ".config"@) == Some(name),
        extension_of("./temp/"@ + name + ".config"@) == Some("config"@),
{
    reveal_strlit("config");
    reveal_strlit(".config");
    reveal_strlit(".");
    reveal_strlit("..");
    let full = name + ".config"@;
    let ext = ".config"@.skip(1);
    assert(full =~= name.push('.') + ext);
    assert(slashless(full)) by {
        assert forall|i: int| 0 <= i < full.len() implies full[i] != '/' by {
            if i < name.len() {
                assert(full[i] == name[i]);
            } else {
                assert(full[i] == ".config"@[i - name.len()]);
            }
        }
    }
    assert("./temp/"@ + name + ".config"@ =~= "./temp/"@ + full);
    assert(full != "."@) by {
        assert(full.len() > 1);
    }
    assert(full != ".."@) by {
        assert(full.len() > 2);
    }
    lemma_temp_components(full);
    lemma_last_dot_of(name, ext);
    assert(full.take(name.len() as int) =~= name);
    assert(full.skip(name.len() as int + 1) =~= "config"@);
}

/// What stands between a folder's path and a name in it.
pub open spec fn separator(base: Seq<char>) -> Seq<char> {
    if base.len() == 0 || base.last() == '/' {
        Seq::empty()
    } else {
        "/"@
    }
}

/// A thing that is called by the last step of some path lies directly inside the folder that it is
/// put into, under just that name.
pub proof fn names_lie_directly_inside(base: Seq<char>, p: Seq<char>)
    ensures
        match file_name_of(p) {
            Some(n) => joined(base, n) == base + separator(base) + n && file_name_of(
                joined(base, n),
            ) == Some(n),
            None => true,
        },
{
    file_name_is_one_step(p);
    match file_name_of(p) {
        None => {},
        Some(n) => {
            reveal_strlit("/");
            let path = joined(base, n);
            assert(path =~= base + separator(base) + n);
            if base.len() == 0 {
                assert(path =~= n);
                lemma_pieces_single(n);
                assert(steps(pieces(n), 0) =~= Seq::<Seq<char>>::empty());
            } else {
                let folder = if base.last() == '/' {
                    base.drop_last()
                } else {
                    base
                };
                assert(path =~= folder.push('/') + n);
                lemma_pieces_push(folder, n);
            }
            let ps = pieces(path);
            assert(ps.last() == n);
            assert(is_step(ps, ps.len() - 1));
            assert(components(path).last() == n);
        },
    }
}

} // verus!
