//! Public links: tokens that stand for a file, each with a time. The time is looked at where links
//! are cleaned up or a file is looked up at a given time; a link found by its token alone does not
//! depend on it.

use vstd::prelude::*;

use crate::ids::{uuid_of, Uuid};
use crate::mapper::{Folder, FolderView};
use crate::response::{Code, ErrorTransfer, TransferSuccess};
use crate::wire::{be_value, push_all, read_i64, signed, CHUNK_SIZE};

verus! {

/// A token for a file, and when it stops to work, in seconds since 1970.
#[derive(Debug)]
pub struct PublicLink {
    pub file_name: String,
    pub file_uuid: Uuid,
    pub valid_until: i64,
    pub token: Uuid,
}

#[verifier::ext_equal]
pub struct LinkView {
    pub file_name: Seq<char>,
    pub file_uuid: Uuid,
    pub valid_until: i64,
    pub token: Uuid,
}

impl View for PublicLink {
    type V = LinkView;

    open spec fn view(&self) -> LinkView {
        LinkView {
            file_name: self.file_name@,
            file_uuid: self.file_uuid,
            valid_until: self.valid_until,
            token: self.token,
        }
    }
}

impl Clone for PublicLink {
    fn clone(&self) -> (copy: Self)
        ensures
            copy@ == self@,
    {
        PublicLink {
            file_name: self.file_name.clone(),
            file_uuid: self.file_uuid,
            valid_until: self.valid_until,
            token: self.token,
        }
    }
}

impl PublicLink {
    pub fn new(file_uuid: Uuid, valid_until: i64, token: Uuid, file_name: String) -> (link:
        PublicLink)
        ensures
            link@ == (LinkView { file_name: file_name@, file_uuid, valid_until, token }),
    {
        PublicLink { file_name, file_uuid, valid_until, token }
    }
}

/// All public links.
#[derive(Debug)]
pub struct LinkDatabase {
    pub links: Vec<PublicLink>,
}

pub open spec fn link_views(links: Seq<PublicLink>) -> Seq<LinkView> {
    Seq::new(links.len(), |i: int| links[i]@)
}

impl View for LinkDatabase {
    type V = Seq<LinkView>;

    open spec fn view(&self) -> Seq<LinkView> {
        link_views(self.links@)
    }
}

/// The first link with this token, from index `i` on.
pub open spec fn link_of(links: Seq<LinkView>, token: Uuid, i: int) -> Option<LinkView>
    decreases links.len() - i,
{
    if i < 0 || i >= links.len() {
        None
    } else if links[i].token == token {
        Some(links[i])
    } else {
        link_of(links, token, i + 1)
    }
}

/// The links that still work at time `now`, in order.
pub open spec fn valid_at(links: Seq<LinkView>, now: i64) -> Seq<LinkView> {
    links.filter(|l: LinkView| now < l.valid_until)
}

proof fn lemma_valid_step(s: Seq<LinkView>, now: i64, i: int)
    requires
        0 <= i < s.len(),
    ensures
        valid_at(s.take(i + 1), now) == (if now < s[i].valid_until {
            valid_at(s.take(i), now).push(s[i])
        } else {
            valid_at(s.take(i), now)
        }),
{
    reveal(Seq::filter);
    assert(s.take(i + 1).drop_last() =~= s.take(i));
}

impl LinkDatabase {
    fn find(&self, token: &Uuid) -> (found: Option<&PublicLink>)
        ensures
            match found {
                Some(l) => link_of(self@, *token, 0) == Some(l@),
                None => link_of(self@, *token, 0) is None,
            },
    {
        let mut i: usize = 0;
        while i < self.links.len()
            invariant
                i <= self.links@.len(),
                link_of(self@, *token, 0) == link_of(self@, *token, i as int),
            decreases self.links@.len() - i,
        {
            assert(self@[i as int] == self.links@[i as int]@);
            if self.links[i].token == *token {
                return Some(&self.links[i]);
            }
            i += 1;
        }
        None
    }

    /// The name of the file that a token stands for.
    pub fn get_filename(&self, uuid: &Uuid) -> (name: Result<String, String>)
        ensures
            match name {
                Ok(n) => link_of(self@, *uuid, 0) is Some && n@ == (link_of(
                    self@,
                    *uuid,
                    0,
                )->0).file_name,
                Err(e) => link_of(self@, *uuid, 0) is None && e@ == "no token"@,
            },
    {
        match self.find(uuid) {
            Some(l) => Ok(l.file_name.clone()),
            None => Err("no token".to_owned()),
        }
    }

    /// A copy of the link with this token.
    pub fn get_link_from_token(&self, token: &Uuid) -> (link: Result<PublicLink, String>)
        ensures
            match link {
                Ok(l) => link_of(self@, *token, 0) == Some(l@),
                Err(e) => link_of(self@, *token, 0) is None && e@ == "no token"@,
            },
    {
        match self.find(token) {
            Some(l) => Ok(l.clone()),
            None => Err("no token".to_owned()),
        }
    }

    /// Adds a link.
    pub fn add(&mut self, link: PublicLink)
        ensures
            final(self)@ == old(self)@.push(link@),
    {
        let ghost before = self@;
        self.links.push(link);
        assert(self@ =~= before.push(link@));
    }

    /// Drops the links that no longer work at time `now`.
    pub fn cleanup(&mut self, now: i64)
        ensures
            final(self)@ == valid_at(old(self)@, now),
    {
        let ghost before = self.links@;
        let ghost all = self@;
        let ghost mut seen: int = 0;
        let mut i: usize = 0;
        proof {
            reveal(Seq::filter);
            assert(all.take(0) =~= Seq::empty());
        }
        while i < self.links.len()
            invariant
                0 <= i <= self.links@.len(),
                0 <= seen <= all.len(),
                self.links@.len() - i == all.len() - seen,
                all == link_views(before),
                forall|k: int|
                    i <= k < self.links@.len() ==> #[trigger] self.links@[k] == before[seen + k
                        - i],
                i == valid_at(all.take(seen), now).len(),
                forall|k: int|
                    0 <= k < i ==> #[trigger] self.links@[k]@ == valid_at(all.take(seen), now)[k],
            decreases self.links@.len() - i,
        {
            proof {
                assert(self.links@[i as int] == before[seen]);
                assert(all[seen] == before[seen]@);
                lemma_valid_step(all, now, seen);
            }
            if now < self.links[i].valid_until {
                i += 1;
            } else {
                self.links.remove(i);
            }
            proof {
                seen = seen + 1;
            }
        }
        proof {
            assert(all.take(seen) =~= all);
            assert(self@ =~= valid_at(all, now));
        }
    }

    /// The file that a token stands for at time `now`. Links that no longer work are dropped.
    pub fn get_file_uuid(&mut self, token: &Uuid, now: i64) -> (id: Option<Uuid>)
        ensures
            final(self)@ == valid_at(old(self)@, now),
            id == (match link_of(valid_at(old(self)@, now), *token, 0) {
                Some(l) => Some(l.file_uuid),
                None => None,
            }),
    {
        self.cleanup(now);
        match self.find(token) {
            Some(link) => Some(link.file_uuid),
            None => None,
        }
    }
}

/// What a request for a link comes to: one link more, to the file asked for, under the token that
/// is handed out; or nothing, where the user does not get the file.
pub open spec fn shares(
    message: Seq<u8>,
    offset: int,
    root: FolderView,
    client: Uuid,
    before: Seq<LinkView>,
    after: Seq<LinkView>,
    token: Result<Uuid, ErrorTransfer>,
) -> bool {
    let file = uuid_of(message.subrange(offset, offset + 16));
    match root.visible_file(file, client) {
        Some(f) => token is Ok && after == before.push(
            LinkView {
                file_name: f.name,
                file_uuid: file,
                valid_until: signed(
                    be_value(message.subrange(offset + 16, offset + 24)),
                ) as i64,
                token: token->Ok_0,
            },
        ),
        None => token == Err::<Uuid, ErrorTransfer>(root.file_refusal(file, client)) && after
            == before,
    }
}

/// Puts a link to the file that `first_message` asks for under a fresh token. Gives the token, or
/// the reason against it.
pub fn share_link(
    first_message: &[u8; CHUNK_SIZE],
    offset: usize,
    root: &Folder,
    client_uuid: &Uuid,
    links: &mut LinkDatabase,
) -> (token: Result<Uuid, ErrorTransfer>)
    requires
        offset + 24 <= CHUNK_SIZE,
    ensures
        shares(
            first_message@,
            offset as int,
            root@,
            *client_uuid,
            old(links)@,
            final(links)@,
            token,
        ),
        token matches Ok(t) ==> crate::ids::is_v4(t.bytes@),
{
    share_link_as(first_message, offset, root, client_uuid, links, Uuid::new_v4())
}

/// Puts a link to the file that `first_message` asks for under the given token.
pub fn share_link_as(
    first_message: &[u8; CHUNK_SIZE],
    offset: usize,
    root: &Folder,
    client_uuid: &Uuid,
    links: &mut LinkDatabase,
    token: Uuid,
) -> (shared: Result<Uuid, ErrorTransfer>)
    requires
        offset + 24 <= CHUNK_SIZE,
    ensures
        shares(
            first_message@,
            offset as int,
            root@,
            *client_uuid,
            old(links)@,
            final(links)@,
            shared,
        ),
        shared matches Ok(t) ==> t == token,
{
    let message: &[u8] = first_message.as_slice();
    let file_uuid: Uuid = Uuid::read(message, offset);
    match root.find_file_clone(&file_uuid, client_uuid) {
        Err(e) => Err(e),
        Ok(fil) => {
            let valid_until: i64 = read_i64(message, offset + 16);
            links.add(PublicLink::new(file_uuid, valid_until, token, fil.name));
            Ok(token)
        },
    }
}

/// The answer to a request for a link, given whether the links could be saved.
pub fn share_reply(token: Result<Uuid, ErrorTransfer>, saved: bool) -> (reply: Vec<u8>)
    ensures
        reply@ == (match token {
            Ok(t) if saved => seq![20u8] + t.bytes@,
            Ok(_) => seq![50u8],
            Err(e) => seq![e.code()],
        }),
{
    let mut reply: Vec<u8> = Vec::new();
    match token {
        Ok(t) => {
            if saved {
                reply.push(TransferSuccess::Success.get_code());
                push_all(&mut reply, t.bytes.as_slice());
            } else {
                reply.push(ErrorTransfer::InternalServerError.get_code());
            }
        },
        Err(e) => {
            reply.push(e.get_code());
        },
    }
    reply
}

proof fn lemma_link(links: Seq<LinkView>, token: Uuid, i: int)
    requires
        0 <= i <= links.len(),
    ensures
        match link_of(links, token, i) {
            Some(l) => l.token == token && links.contains(l),
            None => forall|k: int| i <= k < links.len() ==> (#[trigger] links[k]).token != token,
        },
    decreases links.len() - i,
{
    if i < links.len() {
        if links[i].token == token {
            assert(links.contains(links[i]));
        } else {
            lemma_link(links, token, i + 1);
        }
    }
}

/// A token that finds no link is the token of none.
pub proof fn lemma_fresh_token(links: Seq<LinkView>, token: Uuid)
    requires
        link_of(links, token, 0) is None,
    ensures
        forall|k: int| 0 <= k < links.len() ==> (#[trigger] links[k]).token != token,
{
    lemma_link(links, token, 0);
}

proof fn lemma_link_push(links: Seq<LinkView>, l: LinkView, token: Uuid, i: int)
    requires
        0 <= i <= links.len(),
    ensures
        link_of(links.push(l), token, i) == (match link_of(links, token, i) {
            Some(m) => Some(m),
            None => if l.token == token {
                Some(l)
            } else {
                None
            },
        }),
    decreases links.len() - i,
{
    if i < links.len() {
        if links[i].token != token {
            lemma_link_push(links, l, token, i + 1);
        }
    } else {
        assert(link_of(links.push(l), token, i + 1) is None);
    }
}

/// Looked up at some time, a token leads to a file only before its own time is over, and it leads
/// nowhere only where all of its links are over.
pub proof fn expired_links_lead_nowhere(links: Seq<LinkView>, token: Uuid, now: i64)
    ensures
        match link_of(valid_at(links, now), token, 0) {
            Some(l) => links.contains(l) && l.token == token && now < l.valid_until,
            None => forall|k: int|
                0 <= k < links.len() && (#[trigger] links[k]).token == token
                    ==> links[k].valid_until <= now,
        },
{
    let keep = |l: LinkView| now < l.valid_until;
    let kept = valid_at(links, now);
    lemma_link(kept, token, 0);
    match link_of(kept, token, 0) {
        Some(l) => {
            links.lemma_filter_contains_rev(keep, l);
            let i = choose|i: int| 0 <= i < kept.len() && kept[i] == l;
            links.lemma_filter_pred(keep, i);
        },
        None => {
            assert forall|k: int|
                0 <= k < links.len() && (#[trigger] links[k]).token == token implies
                    links[k].valid_until <= now by {
                if now < links[k].valid_until {
                    links.lemma_filter_contains(keep, k);
                    let j = choose|j: int| 0 <= j < kept.len() && kept[j] == links[k];
                    assert(kept[j].token == token);
                }
            }
        },
    }
}

/// A link under a new token leads to its file until its time is over.
pub proof fn shared_link_leads_to_its_file(links: Seq<LinkView>, l: LinkView, now: i64)
    requires
        link_of(links, l.token, 0) is None,
        now < l.valid_until,
    ensures
        link_of(valid_at(links.push(l), now), l.token, 0) == Some(l),
{
    reveal(Seq::filter);
    assert(links.push(l).drop_last() =~= links);
    let kept = valid_at(links, now);
    expired_links_lead_nowhere(links, l.token, now);
    lemma_link(links, l.token, 0);
    lemma_link_push(kept, l, l.token, 0);
    match link_of(kept, l.token, 0) {
        Some(m) => {
            let i = choose|i: int| 0 <= i < links.len() && links[i] == m;
            assert(links[i].token == l.token);
        },
        None => {},
    }
}

/// Cleaning up twice is cleaning up at the later of the two times.
pub proof fn cleanup_keeps_the_later_time(links: Seq<LinkView>, first: i64, second: i64)
    requires
        first <= second,
    ensures
        valid_at(valid_at(links, first), second) == valid_at(links, second),
    decreases links.len(),
{
    reveal(Seq::filter);
    if links.len() > 0 {
        cleanup_keeps_the_later_time(links.drop_last(), first, second);
        let l = links.last();
        if first < l.valid_until {
            let kept = valid_at(links.drop_last(), first);
            assert(kept.push(l).drop_last() =~= kept);
        }
    }
}

/// What is shared can be fetched: under the new token lies the file that the user asked to share,
/// which is in the tree and which the user may view.
pub proof fn shared_files_can_be_fetched(
    message: Seq<u8>,
    offset: int,
    root: FolderView,
    client: Uuid,
    before: Seq<LinkView>,
    after: Seq<LinkView>,
    token: Uuid,
)
    requires
        shares(message, offset, root, client, before, after, Ok(token)),
        link_of(before, token, 0) is None,
    ensures
        ({
            let file = uuid_of(message.subrange(offset, offset + 16));
            &&& link_of(after, token, 0) is Some
            &&& (link_of(after, token, 0)->0).file_uuid == file
            &&& root.file(file) is Some
            &&& root.visible_file(file, client) is Some
            &&& (root.visible_file(file, client)->0).access.can_view(client)
            &&& (link_of(after, token, 0)->0).file_name == (root.visible_file(
                file,
                client,
            )->0).name
        }),
{
    let file = uuid_of(message.subrange(offset, offset + 16));
    let link = after.last();
    lemma_link_push(before, link, token, 0);
    crate::map_laws::visible_files_are_allowed(root, file, client);
    crate::map_laws::found_files_are_listed(root, file);
}

/// Whoever may view a file can share it; whoever may not is refused, and the links stay as they
/// are.
pub proof fn viewers_can_share(
    message: Seq<u8>,
    offset: int,
    root: FolderView,
    client: Uuid,
    before: Seq<LinkView>,
    after: Seq<LinkView>,
    token: Result<Uuid, ErrorTransfer>,
)
    requires
        shares(message, offset, root, client, before, after, token),
        crate::map_laws::distinct_files(crate::map_laws::bag(root)),
    ensures
        match root.file(uuid_of(message.subrange(offset, offset + 16))) {
            Some(f) => (token is Ok) == f.access.can_view(client),
            None => token is Err,
        },
        token is Err ==> after == before,
        token is Ok ==> after.len() == before.len() + 1,
{
    let file = uuid_of(message.subrange(offset, offset + 16));
    crate::map_laws::visible_files_are_allowed(root, file, client);
    crate::map_laws::found_files_are_listed(root, file);
    match root.file(file) {
        Some(f) => {
            if f.access.can_view(client) {
                crate::map_laws::viewers_get_their_files(root, file, client);
            } else {
                crate::map_laws::lemma_same_file(root, f, root.visible_file(file, client));
            }
        },
        None => {},
    }
}

} // verus!
