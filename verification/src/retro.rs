//! Recent posts that a new reference catches.
use vstd::prelude::*;

use crate::handler::{DetectionReason, Reason};
use crate::hashstore::{format_extension, hashed, safe_filename, AddError, ReferenceStore};
use crate::recent::{matched_posts, unexpired, unmatched, Post, RecentMedia};

verus! {

/// The recent posts of one author in one server that match a new reference.
#[derive(Debug)]
pub struct RetroGroup {
    /// The first of them.
    pub post: Post,
    /// The channels and messages of the others.
    pub others: Vec<(u64, u64)>,
    /// The least of their distances.
    pub distance: u32,
}

/// What a [`RetroGroup`] says.
#[verifier::ext_equal]
pub struct Group {
    pub post: Post,
    pub others: Seq<(u64, u64)>,
    pub distance: u32,
}

impl View for RetroGroup {
    type V = Group;

    open spec fn view(&self) -> Group {
        Group { post: self.post, others: self.others@, distance: self.distance }
    }
}

/// What each of a list of groups says.
pub open spec fn group_views(groups: Seq<RetroGroup>) -> Seq<Group> {
    groups.map_values(|g: RetroGroup| g@)
}

/// The two posts are by one author in one server.
pub open spec fn same_author(a: Post, b: Post) -> bool {
    a.guild_id == b.guild_id && a.author_id == b.author_id
}

/// The position of the first group of a post's author, or the number of groups.
pub open spec fn group_index(groups: Seq<Group>, post: Post) -> int
    decreases groups.len(),
{
    if groups.len() == 0 || same_author(groups[0].post, post) {
        0
    } else {
        1 + group_index(groups.drop_first(), post)
    }
}

/// A group with one more post.
pub open spec fn joined_by(group: Group, post: Post, distance: u32) -> Group {
    Group {
        post: group.post,
        others: group.others.push((post.channel_id, post.message_id)),
        distance: if distance < group.distance {
            distance
        } else {
            group.distance
        },
    }
}

/// The groups with one more post: in its author's group, or in a new one.
pub open spec fn with_post(groups: Seq<Group>, post: Post, distance: u32) -> Seq<Group> {
    let at = group_index(groups, post);
    if at < groups.len() {
        groups.update(at, joined_by(groups[at], post, distance))
    } else {
        groups.push(Group { post, others: Seq::empty(), distance })
    }
}

/// The matching posts by server and author, in the order of their first posts.
pub open spec fn grouped(matches: Seq<(Post, u32)>) -> Seq<Group>
    decreases matches.len(),
{
    if matches.len() == 0 {
        Seq::empty()
    } else {
        with_post(grouped(matches.drop_last()), matches.last().0, matches.last().1)
    }
}

fn find_group(groups: &Vec<RetroGroup>, post: &Post) -> (r: usize)
    ensures
        r == group_index(group_views(groups@), *post),
        r <= groups@.len(),
{
    let ghost views = group_views(groups@);
    let mut i: usize = 0;
    assert(views.skip(0) =~= views);
    while i < groups.len()
        invariant
            views == group_views(groups@),
            i <= groups@.len(),
            group_index(views, *post) == i + group_index(views.skip(i as int), *post),
        decreases groups@.len() - i,
    {
        assert(views.skip(i as int)[0] == groups@[i as int]@);
        if groups[i].post.guild_id == post.guild_id && groups[i].post.author_id
            == post.author_id {
            return i;
        }
        assert(views.skip(i as int).drop_first() =~= views.skip(i + 1));
        i += 1;
    }
    i
}

/// Groups the matching posts by server and author: one who posted in several
/// channels is sanctioned and logged once.
pub fn group_matches(matches: &[(Post, u32)]) -> (r: Vec<RetroGroup>)
    ensures
        group_views(r@) == grouped(matches@),
{
    let mut groups: Vec<RetroGroup> = Vec::new();
    assert(group_views(groups@) =~= grouped(matches@.take(0)));
    for i in 0..matches.len()
        invariant
            group_views(groups@) == grouped(matches@.take(i as int)),
    {
        assert(matches@.take(i + 1).drop_last() =~= matches@.take(i as int));
        let (post, distance) = matches[i];
        let ghost before = group_views(groups@);
        let at = find_group(&groups, &post);
        if at < groups.len() {
            let ghost group = groups@[at as int]@;
            groups[at].others.push((post.channel_id, post.message_id));
            if distance < groups[at].distance {
                groups[at].distance = distance;
            }
            assert(groups@[at as int]@ =~= joined_by(group, post, distance));
            assert(group_views(groups@) =~= before.update(
                at as int,
                joined_by(group, post, distance),
            ));
        } else {
            let fresh = RetroGroup { post, others: Vec::new(), distance };
            assert(fresh@.others =~= Seq::<(u64, u64)>::empty());
            groups.push(fresh);
            assert(group_views(groups@) =~= before.push(fresh@));
        }
    }
    assert(matches@.take(matches@.len() as int) =~= matches@);
    groups
}

/// The reason for handling a group, by the reference that caught it.
pub fn retro_reason(group: &RetroGroup, reference: &str) -> (r: DetectionReason)
    requires
        group.others@.len() < usize::MAX,
    ensures
        r@ == (Reason::RetroMatch {
            reference: reference@,
            distance: group.distance,
            messages: (group.others@.len() + 1) as usize,
        }),
{
    DetectionReason::RetroMatch {
        reference: reference.to_owned(),
        distance: group.distance,
        messages: group.others.len() + 1,
    }
}

/// What adding a reference leads to.
#[derive(Debug)]
pub struct AddedReference {
    /// How many recent posts match it.
    pub retro_matches: usize,
    /// These posts, by server and author.
    pub groups: Vec<RetroGroup>,
}

/// Adds an image as a reference, for every server, and takes out the recent posts
/// that match it: those that got through before it was one. Nothing changes where
/// the name is not safe or the image cannot be hashed under it. An image whose
/// format only its name tells becomes a reference, but no posts are looked for.
pub fn add_reference(
    store: &mut ReferenceStore,
    recent: &mut RecentMedia,
    filename: &str,
    bytes: &[u8],
    threshold: u32,
    now: u128,
) -> (r: Result<AddedReference, AddError>)
    requires
        old(store).wf(),
        old(recent).wf(),
    ensures
        final(store).wf(),
        final(recent).wf(),
        final(recent).age_limit() == old(recent).age_limit(),
        final(recent).count_limit() == old(recent).count_limit(),
        match r {
            Ok(added) => {
                &&& safe_filename(filename@)
                &&& hashed(bytes@, Seq::empty()) matches Some(hash)
                &&& hashed(bytes@, format_extension(filename@)) == Some(hash)
                &&& final(store)@ == old(store)@.insert(filename@, hash)
                &&& final(recent)@ == unmatched(
                    unexpired(old(recent)@, now, old(recent).age_limit()),
                    hash,
                    threshold,
                )
                &&& added.retro_matches == matched_posts(
                    unexpired(old(recent)@, now, old(recent).age_limit()),
                    hash,
                    threshold,
                ).len()
                &&& group_views(added.groups@) == grouped(
                    matched_posts(
                        unexpired(old(recent)@, now, old(recent).age_limit()),
                        hash,
                        threshold,
                    ),
                )
            },
            Err(AddError::InvalidFilename) => {
                &&& !safe_filename(filename@)
                &&& final(store)@ == old(store)@
                &&& final(recent)@ == old(recent)@
            },
            Err(AddError::Image(_)) => {
                &&& safe_filename(filename@)
                &&& final(recent)@ == old(recent)@
                &&& match hashed(bytes@, format_extension(filename@)) {
                    Some(stored) => hashed(bytes@, Seq::empty()) is None && final(store)@ == old(
                        store,
                    )@.insert(filename@, stored),
                    None => final(store)@ == old(store)@,
                }
            },
        },
{
    match store.add_from_bytes(filename, bytes) {
        Ok(()) => {},
        Err(e) => {
            return Err(e);
        },
    }
    let hash = match store.hash_bytes(bytes) {
        Ok(hash) => hash,
        Err(e) => {
            return Err(AddError::Image(e));
        },
    };
    let matches = recent.take_matches(&hash, threshold, now);
    let groups = group_matches(matches.as_slice());
    Ok(AddedReference { retro_matches: matches.len(), groups })
}

/// How many posts the groups hold together.
pub open spec fn posts_in(groups: Seq<Group>) -> nat
    decreases groups.len(),
{
    if groups.len() == 0 {
        0
    } else {
        posts_in(groups.drop_last()) + 1 + groups.last().others.len()
    }
}

/// No two groups are of one author in one server.
pub open spec fn one_group_each(groups: Seq<Group>) -> bool {
    forall|i: int, j: int|
        0 <= i < j < groups.len() ==> !same_author(
            (#[trigger] groups[i]).post,
            (#[trigger] groups[j]).post,
        )
}

proof fn group_index_is_first(groups: Seq<Group>, post: Post)
    ensures
        0 <= group_index(groups, post) <= groups.len(),
        group_index(groups, post) < groups.len() ==> same_author(
            groups[group_index(groups, post)].post,
            post,
        ),
        forall|i: int|
            0 <= i < group_index(groups, post) ==> !same_author((#[trigger] groups[i]).post, post),
    decreases groups.len(),
{
    if groups.len() > 0 && !same_author(groups[0].post, post) {
        group_index_is_first(groups.drop_first(), post);
        assert forall|i: int| 0 <= i < group_index(groups, post) implies !same_author(
            (#[trigger] groups[i]).post,
            post,
        ) by {
            if i > 0 {
                assert(groups[i] == groups.drop_first()[i - 1]);
            }
        }
    }
}

proof fn posts_in_updated(groups: Seq<Group>, at: int, group: Group)
    requires
        0 <= at < groups.len(),
        group.others.len() == groups[at].others.len() + 1,
    ensures
        posts_in(groups.update(at, group)) == posts_in(groups) + 1,
    decreases groups.len(),
{
    let after = groups.update(at, group);
    if at == groups.len() - 1 {
        assert(after.drop_last() =~= groups.drop_last());
    } else {
        posts_in_updated(groups.drop_last(), at, group);
        assert(after.drop_last() =~= groups.drop_last().update(at, group));
        assert(after.last() == groups.last());
    }
}

/// Every matching post is handled once, and every author is sanctioned and logged
/// once in each server.
pub proof fn groups_hold_every_match(matches: Seq<(Post, u32)>)
    ensures
        posts_in(grouped(matches)) == matches.len(),
        one_group_each(grouped(matches)),
    decreases matches.len(),
{
    if matches.len() > 0 {
        groups_hold_every_match(matches.drop_last());
        let before = grouped(matches.drop_last());
        let after = grouped(matches);
        let (post, distance) = matches.last();
        let at = group_index(before, post);
        group_index_is_first(before, post);
        if at < before.len() {
            posts_in_updated(before, at, joined_by(before[at], post, distance));
            assert forall|i: int, j: int| 0 <= i < j < after.len() implies !same_author(
                (#[trigger] after[i]).post,
                (#[trigger] after[j]).post,
            ) by {
                assert(after[i].post == before[i].post);
                assert(after[j].post == before[j].post);
            }
        } else {
            assert(after.drop_last() =~= before);
            assert forall|i: int, j: int| 0 <= i < j < after.len() implies !same_author(
                (#[trigger] after[i]).post,
                (#[trigger] after[j]).post,
            ) by {
                assert(after[i] == before[i]);
                if j < before.len() {
                    assert(after[j] == before[j]);
                }
            }
        }
    }
}

/// The matches of one author in one server.
pub open spec fn matches_of(matches: Seq<(Post, u32)>, guild: u64, author: u64) -> Seq<(Post, u32)>
    decreases matches.len(),
{
    if matches.len() == 0 {
        Seq::empty()
    } else {
        let init = matches_of(matches.drop_last(), guild, author);
        let (post, distance) = matches.last();
        if post.guild_id == guild && post.author_id == author {
            init.push((post, distance))
        } else {
            init
        }
    }
}

/// The group is that of these matches: it names the first, the others in their order,
/// and the least distance of all.
pub open spec fn is_group_of(group: Group, matches: Seq<(Post, u32)>) -> bool {
    &&& matches.len() > 0
    &&& group.post == matches[0].0
    &&& group.others.len() == matches.len() - 1
    &&& forall|k: int|
        0 < k < matches.len() ==> group.others[k - 1] == ((#[trigger] matches[k]).0.channel_id,
            matches[k].0.message_id)
    &&& forall|k: int| 0 <= k < matches.len() ==> group.distance <= (#[trigger] matches[k]).1
    &&& exists|k: int| 0 <= k < matches.len() && group.distance == (#[trigger] matches[k]).1
}

proof fn group_of_author(matches: Seq<(Post, u32)>, who: Post)
    ensures
        ({
            let groups = grouped(matches);
            let own = matches_of(matches, who.guild_id, who.author_id);
            let at = group_index(groups, who);
            &&& own.len() == 0 <==> at == groups.len()
            &&& own.len() > 0 ==> 0 <= at < groups.len() && is_group_of(groups[at], own)
            &&& forall|k: int|
                0 <= k < own.len() ==> (#[trigger] own[k]).0.guild_id == who.guild_id
                    && own[k].0.author_id == who.author_id
        }),
    decreases matches.len(),
{
    if matches.len() > 0 {
        let init = matches.drop_last();
        let (post, distance) = matches.last();
        let before = grouped(init);
        let after = grouped(matches);
        let own_before = matches_of(init, who.guild_id, who.author_id);
        let own = matches_of(matches, who.guild_id, who.author_id);
        group_of_author(init, who);
        group_index_is_first(before, post);
        group_index_is_first(before, who);
        group_index_is_first(after, who);
        let to = group_index(before, post);
        let at = group_index(before, who);
        let now = group_index(after, who);
        if same_author(post, who) {
            assert(at == to) by {
                if at < to {
                    assert(same_author(before[at].post, who));
                }
                if to < at {
                    assert(same_author(before[to].post, post));
                }
            }
            if to < before.len() {
                assert(forall|i: int|
                    0 <= i < before.len() ==> (#[trigger] after[i]).post == before[i].post);
                assert(now == at) by {
                    if now < at {
                        assert(same_author(after[now].post, who));
                        assert(!same_author(before[now].post, who));
                    }
                    if at < now {
                        assert(!same_author(after[at].post, who));
                    }
                }
                let group = after[now];
                assert(group == joined_by(before[at], post, distance));
                assert forall|k: int| 0 < k < own.len() implies group.others[k - 1] == (
                    (#[trigger] own[k]).0.channel_id,
                    own[k].0.message_id,
                ) by {
                    if k < own_before.len() {
                        assert(own[k] == own_before[k]);
                    }
                }
                assert forall|k: int| 0 <= k < own.len() implies group.distance <= (
                #[trigger] own[k]).1 by {
                    if k < own_before.len() {
                        assert(own[k] == own_before[k]);
                    }
                }
                let k = choose|k: int|
                    0 <= k < own_before.len() && before[at].distance == (#[trigger] own_before[k]).1;
                assert(own[k] == own_before[k]);
                assert(own[own.len() - 1].1 == distance);
                assert(own[0] == own_before[0]);
            } else {
                assert(now == before.len()) by {
                    if now < before.len() {
                        assert(after[now] == before[now]);
                    }
                    if now > before.len() {
                        assert(!same_author(after[before.len() as int].post, who));
                    }
                }
                assert(own[0] == (post, distance));
            }
        } else {
            if to < before.len() {
                assert(forall|i: int|
                    0 <= i < before.len() ==> (#[trigger] after[i]).post == before[i].post);
                assert(now == at) by {
                    if now < at {
                        assert(same_author(after[now].post, who));
                        assert(!same_author(before[now].post, who));
                    }
                    if at < now {
                        assert(!same_author(after[at].post, who));
                    }
                }
                if at < before.len() {
                    assert(at != to);
                    assert(after[at] == before[at]);
                }
            } else {
                if at < before.len() {
                    assert(now == at) by {
                        if now < at {
                            assert(after[now] == before[now]);
                        }
                        if at < now {
                            assert(after[at] == before[at]);
                            assert(!same_author(after[at].post, who));
                        }
                    }
                    assert(after[at] == before[at]);
                } else {
                    assert(now == after.len()) by {
                        if now < before.len() {
                            assert(after[now] == before[now]);
                        }
                    }
                }
            }
        }
    }
}

/// The matches of one author in one server make one group, whichever they are: it names
/// all of them in their order and the least of their distances. Every match is in such
/// a group.
pub proof fn an_authors_matches_are_one_group(matches: Seq<(Post, u32)>, i: int)
    requires
        0 <= i < matches.len(),
    ensures
        exists|g: int|
            0 <= g < grouped(matches).len() && is_group_of(
                #[trigger] grouped(matches)[g],
                matches_of(matches, matches[i].0.guild_id, matches[i].0.author_id),
            ),
        matches_of(matches, matches[i].0.guild_id, matches[i].0.author_id).contains(matches[i]),
{
    group_of_author(matches, matches[i].0);
    own_matches_are_kept(matches, i);
}

proof fn own_matches_are_kept(matches: Seq<(Post, u32)>, i: int)
    requires
        0 <= i < matches.len(),
    ensures
        matches_of(matches, matches[i].0.guild_id, matches[i].0.author_id).contains(matches[i]),
    decreases matches.len(),
{
    let own = matches_of(matches, matches[i].0.guild_id, matches[i].0.author_id);
    if i == matches.len() - 1 {
        assert(own[own.len() - 1] == matches[i]);
    } else {
        let init = matches.drop_last();
        own_matches_are_kept(init, i);
        let before = matches_of(init, matches[i].0.guild_id, matches[i].0.author_id);
        let k = choose|k: int| 0 <= k < before.len() && before[k] == matches[i];
        assert(own[k] == matches[i]);
    }
}

} // verus!
