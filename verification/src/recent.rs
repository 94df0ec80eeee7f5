//! The images of the last minutes that triggered nothing.
use std::collections::VecDeque;

use vstd::prelude::*;

use crate::hashstore::{least_distance, ImageVariants, Variants};
use crate::lists::has_value;

verus! {

/// Where an image was posted: enough to delete it and sanction its author later.
#[derive(Debug, Clone, Copy, PartialEq, Eq, Structural)]
pub struct Post {
    pub guild_id: u64,
    pub channel_id: u64,
    pub message_id: u64,
    pub author_id: u64,
}

/// Milliseconds from 1970 to the instant that Discord's ids count from.
pub const DISCORD_EPOCH: u64 = 1420070400000;

/// When a message was created, in seconds since 1970: its id counts milliseconds
/// in all but its lowest 22 bits.
pub open spec fn created_at(message_id: u64) -> int {
    (message_id / 0x40_0000 + DISCORD_EPOCH) as int / 1000
}

/// When a message was created, in seconds since 1970.
pub fn message_time(message_id: u64) -> (r: u64)
    ensures
        r == created_at(message_id),
{
    (message_id / 0x40_0000 + DISCORD_EPOCH) / 1000
}

#[derive(Debug)]
struct Entry {
    post: Post,
    hash: ImageVariants,
    at: u128,
}

/// A remembered image: where it was posted, its hashes, and when it was recorded
/// (in nanoseconds of a clock that never goes back).
#[verifier::ext_equal]
pub struct Memory {
    pub post: Post,
    pub hash: Variants,
    pub at: u128,
}

/// The hashes of recent images that triggered no detection, oldest first.
///
/// A reference that is added minutes into a scam wave also catches the posts that
/// got through before it existed. Only hashes are held, never images, and both
/// their age and their number are bounded.
#[derive(Debug)]
pub struct RecentMedia {
    entries: VecDeque<Entry>,
    max_age: u128,
    max_entries: usize,
}

spec fn memory_of(e: Entry) -> Memory {
    Memory { post: e.post, hash: e.hash@, at: e.at }
}

spec fn memories(entries: Seq<Entry>) -> Seq<Memory> {
    entries.map_values(|e: Entry| memory_of(e))
}

/// An image recorded at `at` is too old at `now`.
pub open spec fn too_old(at: u128, now: u128, max_age: u128) -> bool {
    now - at > max_age
}

/// What is left when the oldest images have been dropped as far as they are too old.
pub open spec fn unexpired(entries: Seq<Memory>, now: u128, max_age: u128) -> Seq<Memory>
    decreases entries.len(),
{
    if entries.len() > 0 && too_old(entries[0].at, now, max_age) {
        unexpired(entries.drop_first(), now, max_age)
    } else {
        entries
    }
}

/// What is left when the oldest images have been dropped so that there is room
/// for one more among `max_entries`.
pub open spec fn with_room(entries: Seq<Memory>, max_entries: nat) -> Seq<Memory>
    decreases entries.len(),
{
    if entries.len() > 0 && entries.len() >= max_entries {
        with_room(entries.drop_first(), max_entries)
    } else {
        entries
    }
}

/// The image is within `threshold` of the reference.
pub open spec fn matches_reference(m: Memory, reference: Variants, threshold: u32) -> bool {
    least_distance(m.hash.all, reference.all) <= threshold
}

/// The images that are not within `threshold` of the reference.
pub open spec fn unmatched(entries: Seq<Memory>, reference: Variants, threshold: u32) -> Seq<Memory>
    decreases entries.len(),
{
    if entries.len() == 0 {
        entries
    } else {
        let init = unmatched(entries.drop_last(), reference, threshold);
        if matches_reference(entries.last(), reference, threshold) {
            init
        } else {
            init.push(entries.last())
        }
    }
}

/// A list of posts names a message.
pub open spec fn names_message(posts: Seq<(Post, u32)>, message_id: u64) -> bool {
    exists|i: int| 0 <= i < posts.len() && (#[trigger] posts[i]).0.message_id == message_id
}

/// The posts whose images are within `threshold` of the reference, each message
/// once, with the distance of the first of its images that is.
pub open spec fn matched_posts(entries: Seq<Memory>, reference: Variants, threshold: u32) -> Seq<
    (Post, u32),
>
    decreases entries.len(),
{
    if entries.len() == 0 {
        Seq::empty()
    } else {
        let init = matched_posts(entries.drop_last(), reference, threshold);
        let last = entries.last();
        if matches_reference(last, reference, threshold) && !names_message(
            init,
            last.post.message_id,
        ) {
            init.push((last.post, least_distance(last.hash.all, reference.all) as u32))
        } else {
            init
        }
    }
}

/// The images whose messages are not in a list.
pub open spec fn without_messages(entries: Seq<Memory>, messages: Seq<u64>) -> Seq<Memory>
    decreases entries.len(),
{
    if entries.len() == 0 {
        entries
    } else {
        let init = without_messages(entries.drop_last(), messages);
        if messages.contains(entries.last().post.message_id) {
            init
        } else {
            init.push(entries.last())
        }
    }
}

/// The post is the author's, in that server, and its message was created within
/// `window` seconds before or after the one in the middle.
pub open spec fn in_window(post: Post, guild: u64, author: u64, center: u64, window: u64) -> bool {
    &&& post.guild_id == guild
    &&& post.author_id == author
    &&& window <= i64::MAX
    &&& -window <= created_at(post.message_id) - created_at(center) <= window
}

/// The images of one author in one server around a message.
pub open spec fn author_posts(
    entries: Seq<Memory>,
    guild: u64,
    author: u64,
    center: u64,
    window: u64,
) -> Seq<(Post, Variants)>
    decreases entries.len(),
{
    if entries.len() == 0 {
        Seq::empty()
    } else {
        let init = author_posts(entries.drop_last(), guild, author, center, window);
        let last = entries.last();
        if in_window(last.post, guild, author, center, window) {
            init.push((last.post, last.hash))
        } else {
            init
        }
    }
}

/// The views of a list of posts with their images.
pub open spec fn post_views(posts: Seq<(Post, ImageVariants)>) -> Seq<(Post, Variants)> {
    posts.map_values(|p: (Post, ImageVariants)| (p.0, p.1@))
}

impl View for RecentMedia {
    type V = Seq<Memory>;

    closed spec fn view(&self) -> Seq<Memory> {
        memories(self.entries@)
    }
}

impl RecentMedia {
    /// How long an image is remembered, in nanoseconds.
    pub closed spec fn age_limit(&self) -> u128 {
        self.max_age
    }

    /// How many images are remembered.
    pub closed spec fn count_limit(&self) -> usize {
        self.max_entries
    }

    /// No more images are held than may be.
    pub open spec fn wf(&self) -> bool {
        self@.len() <= self.count_limit()
    }

    /// A memory that holds nothing yet.
    pub fn new(max_age: u128, max_entries: usize) -> (r: RecentMedia)
        ensures
            r.wf(),
            r@ == Seq::<Memory>::empty(),
            r.age_limit() == max_age,
            r.count_limit() == max_entries,
    {
        let r = RecentMedia { entries: VecDeque::new(), max_age, max_entries };
        assert(r@ =~= Seq::<Memory>::empty());
        r
    }

    /// Drops the oldest images as far as they are too old.
    fn expire(&mut self, now: u128)
        ensures
            final(self)@ == unexpired(old(self)@, now, old(self).age_limit()),
            final(self)@.len() <= old(self)@.len(),
            final(self).age_limit() == old(self).age_limit(),
            final(self).count_limit() == old(self).count_limit(),
    {
        let ghost start = self@;
        while self.entries.len() > 0 && now > self.entries[0].at && now - self.entries[0].at
            > self.max_age
            invariant
                self.max_age == old(self).max_age,
                self.max_entries == old(self).max_entries,
                self@.len() <= start.len(),
                unexpired(self@, now, self.max_age) == unexpired(start, now, self.max_age),
            decreases self.entries@.len(),
        {
            let ghost before = self@;
            self.entries.pop_front();
            assert(self@ =~= before.drop_first());
        }
    }

    /// Remembers an image. The oldest ones make room for it.
    pub fn record(&mut self, post: Post, hash: ImageVariants, now: u128)
        requires
            old(self).wf(),
        ensures
            final(self).wf(),
            final(self)@ == if old(self).count_limit() == 0 || old(self).age_limit() == 0 {
                old(self)@
            } else {
                with_room(
                    unexpired(old(self)@, now, old(self).age_limit()),
                    old(self).count_limit() as nat,
                ).push(Memory { post, hash: hash@, at: now })
            },
            final(self).age_limit() == old(self).age_limit(),
            final(self).count_limit() == old(self).count_limit(),
    {
        if self.max_entries == 0 || self.max_age == 0 {
            return ;
        }
        self.expire(now);
        let ghost kept = self@;
        let ghost limit = self.max_entries as nat;
        while self.entries.len() >= self.max_entries
            invariant
                self.max_entries > 0,
                self.max_age == old(self).max_age,
                self.max_entries == old(self).max_entries,
                limit == self.max_entries,
                with_room(self@, limit) == with_room(kept, limit),
            decreases self.entries@.len(),
        {
            let ghost before = self@;
            self.entries.pop_front();
            assert(self@ =~= before.drop_first());
        }
        let ghost before = self@;
        self.entries.push_back(Entry { post, hash, at: now });
        assert(self@ =~= before.push(Memory { post, hash: hash@, at: now }));
    }

    /// Takes out the images within `threshold` of a reference and returns their
    /// posts, one for each message, with the distance.
    pub fn take_matches(&mut self, reference: &ImageVariants, threshold: u32, now: u128) -> (r: Vec<
        (Post, u32),
    >)
        requires
            old(self).wf(),
        ensures
            final(self).wf(),
            r@ == matched_posts(
                unexpired(old(self)@, now, old(self).age_limit()),
                reference@,
                threshold,
            ),
            final(self)@ == unmatched(
                unexpired(old(self)@, now, old(self).age_limit()),
                reference@,
                threshold,
            ),
            final(self).age_limit() == old(self).age_limit(),
            final(self).count_limit() == old(self).count_limit(),
    {
        self.expire(now);
        let ghost all = self@;
        let mut matched: Vec<(Post, u32)> = Vec::new();
        let mut kept: VecDeque<Entry> = VecDeque::new();
        assert(memories(kept@) =~= unmatched(all.take(0), reference@, threshold));
        let ghost mut done: nat = 0;
        while self.entries.len() > 0
            invariant
                self.max_age == old(self).max_age,
                self.max_entries == old(self).max_entries,
                done <= all.len(),
                self@ == all.skip(done as int),
                matched@ == matched_posts(all.take(done as int), reference@, threshold),
                memories(kept@) == unmatched(all.take(done as int), reference@, threshold),
            decreases self.entries@.len(),
        {
            let ghost left = self@;
            assert(left.len() == self.entries@.len() && left.len() == all.len() - done);
            assert(left[0] == all[done as int]);
            match self.entries.pop_front() {
                Some(e) => {
                    assert(self@ =~= left.drop_first());
                    assert(all.take(done as int + 1).drop_last() =~= all.take(done as int));
                    assert(memory_of(e) == left[0]);
                    let distance = e.hash.min_dist(reference);
                    if distance > threshold {
                        let ghost before = memories(kept@);
                        kept.push_back(e);
                        assert(memories(kept@) =~= before.push(memory_of(e)));
                    } else {
                        if !named(&matched, e.post.message_id) {
                            matched.push((e.post, distance));
                        }
                    }
                    proof {
                        done = done + 1;
                        assert(self@ =~= all.skip(done as int));
                    }
                },
                None => {},
            }
        }
        assert(all.take(done as int) =~= all);
        self.entries = kept;
        proof {
            unmatched_is_shorter(all, reference@, threshold);
        }
        matched
    }

    /// The remembered images of one author in one server whose messages were
    /// created within `window` seconds of one message. They stay remembered.
    pub fn author_window(
        &mut self,
        guild: u64,
        author: u64,
        center: u64,
        window: u64,
        now: u128,
    ) -> (r: Vec<(Post, ImageVariants)>)
        requires
            old(self).wf(),
        ensures
            final(self).wf(),
            final(self)@ == unexpired(old(self)@, now, old(self).age_limit()),
            post_views(r@) == author_posts(final(self)@, guild, author, center, window),
            final(self).age_limit() == old(self).age_limit(),
            final(self).count_limit() == old(self).count_limit(),
    {
        self.expire(now);
        let middle = message_time(center);
        let mut found: Vec<(Post, ImageVariants)> = Vec::new();
        assert(post_views(found@) =~= author_posts(self@.take(0), guild, author, center, window));
        for i in 0..self.entries.len()
            invariant
                middle == created_at(center),
                post_views(found@) == author_posts(
                    self@.take(i as int),
                    guild,
                    author,
                    center,
                    window,
                ),
        {
            assert(self@.take(i + 1).drop_last() =~= self@.take(i as int));
            let e = &self.entries[i];
            assert(self@[i as int] == memory_of(*e));
            let time = message_time(e.post.message_id);
            let apart = if time >= middle { time - middle } else { middle - time };
            if e.post.guild_id == guild && e.post.author_id == author && window <= i64::MAX as u64
                && apart <= window {
                let ghost before = post_views(found@);
                let copy = e.hash.clone();
                found.push((e.post, copy));
                assert(post_views(found@) =~= before.push((e.post, copy@)));
            }
        }
        assert(self@.take(self@.len() as int) =~= self@);
        found
    }

    /// Forgets the images of these messages. They were handled, and must not be
    /// acted on again.
    pub fn forget(&mut self, messages: &[u64])
        requires
            old(self).wf(),
        ensures
            final(self).wf(),
            final(self)@ == without_messages(old(self)@, messages@),
            final(self).age_limit() == old(self).age_limit(),
            final(self).count_limit() == old(self).count_limit(),
    {
        let ghost all = self@;
        let mut kept: VecDeque<Entry> = VecDeque::new();
        assert(memories(kept@) =~= without_messages(all.take(0), messages@));
        let ghost mut done: nat = 0;
        while self.entries.len() > 0
            invariant
                self.max_age == old(self).max_age,
                self.max_entries == old(self).max_entries,
                done <= all.len(),
                self@ == all.skip(done as int),
                memories(kept@) == without_messages(all.take(done as int), messages@),
            decreases self.entries@.len(),
        {
            let ghost left = self@;
            assert(left.len() == self.entries@.len() && left.len() == all.len() - done);
            assert(left[0] == all[done as int]);
            match self.entries.pop_front() {
                Some(e) => {
                    assert(self@ =~= left.drop_first());
                    assert(all.take(done as int + 1).drop_last() =~= all.take(done as int));
                    assert(memory_of(e) == left[0]);
                    if !has_value(messages, e.post.message_id) {
                        let ghost before = memories(kept@);
                        kept.push_back(e);
                        assert(memories(kept@) =~= before.push(memory_of(e)));
                    }
                    proof {
                        done = done + 1;
                        assert(self@ =~= all.skip(done as int));
                    }
                },
                None => {},
            }
        }
        assert(all.take(done as int) =~= all);
        self.entries = kept;
        proof {
            without_messages_is_shorter(all, messages@);
        }
    }
}

/// Whether a list of posts names a message.
fn named(posts: &Vec<(Post, u32)>, message_id: u64) -> (r: bool)
    ensures
        r == names_message(posts@, message_id),
{
    for i in 0..posts.len()
        invariant
            forall|k: int| 0 <= k < i ==> (#[trigger] posts@[k]).0.message_id != message_id,
    {
        if posts[i].0.message_id == message_id {
            return true;
        }
    }
    false
}

proof fn unmatched_is_shorter(entries: Seq<Memory>, reference: Variants, threshold: u32)
    ensures
        unmatched(entries, reference, threshold).len() <= entries.len(),
    decreases entries.len(),
{
    if entries.len() > 0 {
        unmatched_is_shorter(entries.drop_last(), reference, threshold);
    }
}

proof fn without_messages_is_shorter(entries: Seq<Memory>, messages: Seq<u64>)
    ensures
        without_messages(entries, messages).len() <= entries.len(),
    decreases entries.len(),
{
    if entries.len() > 0 {
        without_messages_is_shorter(entries.drop_last(), messages);
    }
}

proof fn unexpired_is_a_tail(entries: Seq<Memory>, now: u128, max_age: u128) -> (dropped: int)
    ensures
        0 <= dropped <= entries.len(),
        unexpired(entries, now, max_age) == entries.skip(dropped),
    decreases entries.len(),
{
    if entries.len() > 0 && too_old(entries[0].at, now, max_age) {
        let rest = unexpired_is_a_tail(entries.drop_first(), now, max_age);
        assert(entries.drop_first().skip(rest) =~= entries.skip(rest + 1));
        rest + 1
    } else {
        assert(entries.skip(0) =~= entries);
        0
    }
}

proof fn nothing_matches(entries: Seq<Memory>, reference: Variants, threshold: u32)
    requires
        forall|i: int|
            0 <= i < entries.len() ==> !matches_reference(
                #[trigger] entries[i],
                reference,
                threshold,
            ),
    ensures
        matched_posts(entries, reference, threshold) == Seq::<(Post, u32)>::empty(),
    decreases entries.len(),
{
    if entries.len() > 0 {
        nothing_matches(entries.drop_last(), reference, threshold);
        assert(entries.last() == entries[entries.len() - 1]);
    }
}

proof fn unmatched_entries_do_not_match(entries: Seq<Memory>, reference: Variants, threshold: u32)
    ensures
        forall|i: int|
            0 <= i < unmatched(entries, reference, threshold).len() ==> !matches_reference(
                #[trigger] unmatched(entries, reference, threshold)[i],
                reference,
                threshold,
            ),
    decreases entries.len(),
{
    if entries.len() > 0 {
        let init = unmatched(entries.drop_last(), reference, threshold);
        let all = unmatched(entries, reference, threshold);
        unmatched_entries_do_not_match(entries.drop_last(), reference, threshold);
        assert forall|i: int| 0 <= i < all.len() implies !matches_reference(
            #[trigger] all[i],
            reference,
            threshold,
        ) by {
            if i < init.len() {
                assert(all[i] == init[i]);
            }
        }
    }
}

/// A post is taken once: after the matches of a reference have been taken, taking
/// its matches again, at any time, finds nothing.
pub proof fn matches_are_taken_once(
    entries: Seq<Memory>,
    reference: Variants,
    threshold: u32,
    later: u128,
    max_age: u128,
)
    ensures
        matched_posts(
            unexpired(unmatched(entries, reference, threshold), later, max_age),
            reference,
            threshold,
        ) == Seq::<(Post, u32)>::empty(),
{
    let kept = unmatched(entries, reference, threshold);
    unmatched_entries_do_not_match(entries, reference, threshold);
    let dropped = unexpired_is_a_tail(kept, later, max_age);
    nothing_matches(kept.skip(dropped), reference, threshold);
}

/// The matches name exactly the messages that hold an image within the threshold,
/// and each of them once.
pub proof fn matches_name_each_message_once(
    entries: Seq<Memory>,
    reference: Variants,
    threshold: u32,
)
    ensures
        forall|message_id: u64|
            #![trigger names_message(matched_posts(entries, reference, threshold), message_id)]
            names_message(matched_posts(entries, reference, threshold), message_id) <==> exists|
                i: int,
            |
                0 <= i < entries.len() && (#[trigger] entries[i]).post.message_id == message_id
                    && matches_reference(entries[i], reference, threshold),
        forall|i: int, j: int|
            0 <= i < j < matched_posts(entries, reference, threshold).len() ==> (
            #[trigger] matched_posts(entries, reference, threshold)[i]).0.message_id != (
            #[trigger] matched_posts(entries, reference, threshold)[j]).0.message_id,
    decreases entries.len(),
{
    if entries.len() > 0 {
        let init = entries.drop_last();
        let last = entries.last();
        matches_name_each_message_once(init, reference, threshold);
        let found = matched_posts(init, reference, threshold);
        let all = matched_posts(entries, reference, threshold);
        assert forall|m: u64|
            #![trigger names_message(all, m)]
            names_message(all, m) <==> exists|i: int|
                0 <= i < entries.len() && (#[trigger] entries[i]).post.message_id == m
                    && matches_reference(entries[i], reference, threshold) by {
            if names_message(all, m) {
                let i = choose|i: int|
                    0 <= i < all.len() && (#[trigger] all[i]).0.message_id == m;
                if i < found.len() {
                    assert(found[i] == all[i]);
                    assert(names_message(found, m));
                    let k = choose|k: int|
                        0 <= k < init.len() && (#[trigger] init[k]).post.message_id == m
                            && matches_reference(init[k], reference, threshold);
                    assert(entries[k] == init[k]);
                } else {
                    assert(entries[entries.len() - 1] == last);
                }
            }
            if exists|i: int|
                0 <= i < entries.len() && (#[trigger] entries[i]).post.message_id == m
                    && matches_reference(entries[i], reference, threshold) {
                let k = choose|k: int|
                    0 <= k < entries.len() && (#[trigger] entries[k]).post.message_id == m
                        && matches_reference(entries[k], reference, threshold);
                if k < init.len() {
                    assert(init[k] == entries[k]);
                    assert(names_message(found, m));
                    let i = choose|i: int|
                        0 <= i < found.len() && (#[trigger] found[i]).0.message_id == m;
                    assert(all[i] == found[i]);
                } else if names_message(found, m) {
                    let i = choose|i: int|
                        0 <= i < found.len() && (#[trigger] found[i]).0.message_id == m;
                    assert(all[i] == found[i]);
                } else {
                    assert(all[found.len() as int].0.message_id == m);
                }
            }
        }
        assert forall|i: int, j: int| 0 <= i < j < all.len() implies (
        #[trigger] all[i]).0.message_id != (#[trigger] all[j]).0.message_id by {
            assert(found[i] == all[i]);
            if j < found.len() {
                assert(found[j] == all[j]);
            }
        }
    }
}

proof fn forgotten_entries_are_gone(entries: Seq<Memory>, messages: Seq<u64>)
    ensures
        forall|i: int|
            0 <= i < without_messages(entries, messages).len() ==> !messages.contains(
                (#[trigger] without_messages(entries, messages)[i]).post.message_id,
            ),
    decreases entries.len(),
{
    if entries.len() > 0 {
        let init = without_messages(entries.drop_last(), messages);
        let all = without_messages(entries, messages);
        forgotten_entries_are_gone(entries.drop_last(), messages);
        assert forall|i: int| 0 <= i < all.len() implies !messages.contains(
            (#[trigger] all[i]).post.message_id,
        ) by {
            if i < init.len() {
                assert(all[i] == init[i]);
            }
        }
    }
}

/// A message that was forgotten is never among the matches of a reference again.
pub proof fn forgotten_messages_do_not_match(
    entries: Seq<Memory>,
    messages: Seq<u64>,
    message_id: u64,
    reference: Variants,
    threshold: u32,
    later: u128,
    max_age: u128,
)
    requires
        messages.contains(message_id),
    ensures
        !names_message(
            matched_posts(
                unexpired(without_messages(entries, messages), later, max_age),
                reference,
                threshold,
            ),
            message_id,
        ),
{
    let kept = without_messages(entries, messages);
    forgotten_entries_are_gone(entries, messages);
    let dropped = unexpired_is_a_tail(kept, later, max_age);
    let left = kept.skip(dropped);
    matches_name_each_message_once(left, reference, threshold);
    if names_message(matched_posts(left, reference, threshold), message_id) {
        let i = choose|i: int|
            0 <= i < left.len() && (#[trigger] left[i]).post.message_id == message_id
                && matches_reference(left[i], reference, threshold);
        assert(left[i] == kept[i + dropped]);
    }
}

/// The images are in the order in which they were recorded.
pub open spec fn in_time_order(entries: Seq<Memory>) -> bool {
    forall|i: int, j: int|
        0 <= i < j < entries.len() ==> (#[trigger] entries[i]).at <= (#[trigger] entries[j]).at
}

proof fn room_is_a_tail(entries: Seq<Memory>, max_entries: nat) -> (dropped: int)
    ensures
        0 <= dropped <= entries.len(),
        with_room(entries, max_entries) == entries.skip(dropped),
    decreases entries.len(),
{
    if entries.len() > 0 && entries.len() >= max_entries {
        let rest = room_is_a_tail(entries.drop_first(), max_entries);
        assert(entries.drop_first().skip(rest) =~= entries.skip(rest + 1));
        rest + 1
    } else {
        assert(entries.skip(0) =~= entries);
        0
    }
}

/// Recording with a clock that does not go back keeps the images in the order of
/// time.
pub proof fn recording_keeps_time_order(
    entries: Seq<Memory>,
    new: Memory,
    max_age: u128,
    max_entries: nat,
)
    requires
        in_time_order(entries),
        forall|i: int| 0 <= i < entries.len() ==> (#[trigger] entries[i]).at <= new.at,
    ensures
        in_time_order(with_room(unexpired(entries, new.at, max_age), max_entries).push(new)),
{
    let old = unexpired_is_a_tail(entries, new.at, max_age);
    let kept = entries.skip(old);
    let surplus = room_is_a_tail(kept, max_entries);
    let left = kept.skip(surplus);
    let after = left.push(new);
    assert forall|i: int, j: int| 0 <= i < j < after.len() implies (#[trigger] after[i]).at <= (
    #[trigger] after[j]).at by {
        assert(after[i] == entries[i + old + surplus]);
        if j < left.len() {
            assert(after[j] == entries[j + old + surplus]);
        }
    }
}

proof fn unmatched_keeps_order(entries: Seq<Memory>, reference: Variants, threshold: u32)
    requires
        in_time_order(entries),
    ensures
        in_time_order(unmatched(entries, reference, threshold)),
        entries.len() > 0 ==> forall|i: int|
            0 <= i < unmatched(entries, reference, threshold).len() ==> (#[trigger] unmatched(
                entries,
                reference,
                threshold,
            )[i]).at <= entries.last().at,
    decreases entries.len(),
{
    if entries.len() > 0 {
        let init = entries.drop_last();
        let before = unmatched(init, reference, threshold);
        let after = unmatched(entries, reference, threshold);
        assert(in_time_order(init)) by {
            assert forall|i: int, j: int| 0 <= i < j < init.len() implies (
            #[trigger] init[i]).at <= (#[trigger] init[j]).at by {
                assert(init[i] == entries[i] && init[j] == entries[j]);
            }
        }
        unmatched_keeps_order(init, reference, threshold);
        assert forall|i: int| 0 <= i < before.len() implies (#[trigger] before[i]).at
            <= entries.last().at by {
            if init.len() > 0 {
                assert(before[i].at <= init.last().at);
                assert(init.last() == entries[entries.len() - 2]);
                assert(entries.last() == entries[entries.len() - 1]);
            }
        }
        assert forall|i: int| 0 <= i < after.len() implies (#[trigger] after[i]).at
            <= entries.last().at by {
            if i < before.len() {
                assert(after[i] == before[i]);
            }
        }
        assert forall|i: int, j: int| 0 <= i < j < after.len() implies (#[trigger] after[i]).at
            <= (#[trigger] after[j]).at by {
            assert(after[i] == before[i]);
            if j < before.len() {
                assert(after[j] == before[j]);
            }
        }
    }
}

proof fn forgetting_keeps_order(entries: Seq<Memory>, messages: Seq<u64>)
    requires
        in_time_order(entries),
    ensures
        in_time_order(without_messages(entries, messages)),
        entries.len() > 0 ==> forall|i: int|
            0 <= i < without_messages(entries, messages).len() ==> (#[trigger] without_messages(
                entries,
                messages,
            )[i]).at <= entries.last().at,
    decreases entries.len(),
{
    if entries.len() > 0 {
        let init = entries.drop_last();
        let before = without_messages(init, messages);
        let after = without_messages(entries, messages);
        assert(in_time_order(init)) by {
            assert forall|i: int, j: int| 0 <= i < j < init.len() implies (
            #[trigger] init[i]).at <= (#[trigger] init[j]).at by {
                assert(init[i] == entries[i] && init[j] == entries[j]);
            }
        }
        forgetting_keeps_order(init, messages);
        assert forall|i: int| 0 <= i < before.len() implies (#[trigger] before[i]).at
            <= entries.last().at by {
            if init.len() > 0 {
                assert(before[i].at <= init.last().at);
                assert(init.last() == entries[entries.len() - 2]);
                assert(entries.last() == entries[entries.len() - 1]);
            }
        }
        assert forall|i: int| 0 <= i < after.len() implies (#[trigger] after[i]).at
            <= entries.last().at by {
            if i < before.len() {
                assert(after[i] == before[i]);
            }
        }
        assert forall|i: int, j: int| 0 <= i < j < after.len() implies (#[trigger] after[i]).at
            <= (#[trigger] after[j]).at by {
            assert(after[i] == before[i]);
            if j < before.len() {
                assert(after[j] == before[j]);
            }
        }
    }
}

/// Taking matches out and forgetting messages keeps the images in the order of
/// time.
pub proof fn removing_keeps_time_order(
    entries: Seq<Memory>,
    reference: Variants,
    threshold: u32,
    messages: Seq<u64>,
    now: u128,
    max_age: u128,
)
    requires
        in_time_order(entries),
    ensures
        in_time_order(unmatched(unexpired(entries, now, max_age), reference, threshold)),
        in_time_order(without_messages(entries, messages)),
{
    let dropped = unexpired_is_a_tail(entries, now, max_age);
    let left = entries.skip(dropped);
    assert forall|i: int, j: int| 0 <= i < j < left.len() implies (#[trigger] left[i]).at <= (
    #[trigger] left[j]).at by {
        assert(left[i] == entries[i + dropped] && left[j] == entries[j + dropped]);
    }
    unmatched_keeps_order(left, reference, threshold);
    forgetting_keeps_order(entries, messages);
}

/// Where the images are in the order of time, none that is left is too old.
pub proof fn nothing_old_is_left(entries: Seq<Memory>, now: u128, max_age: u128)
    requires
        in_time_order(entries),
    ensures
        forall|i: int|
            0 <= i < unexpired(entries, now, max_age).len() ==> !too_old(
                (#[trigger] unexpired(entries, now, max_age)[i]).at,
                now,
                max_age,
            ),
    decreases entries.len(),
{
    if entries.len() > 0 && too_old(entries[0].at, now, max_age) {
        nothing_old_is_left(entries.drop_first(), now, max_age);
        assert(unexpired(entries, now, max_age) == unexpired(entries.drop_first(), now, max_age));
    } else {
        assert(unexpired(entries, now, max_age) == entries);
        assert forall|i: int| 0 <= i < entries.len() implies !too_old(
            (#[trigger] entries[i]).at,
            now,
            max_age,
        ) by {
            assert(entries[0].at <= entries[i].at);
        }
    }
}

/// What is found around a message is that author's, in that server, and within
/// the window; and all of it is found.
pub proof fn window_holds_the_authors_posts(
    entries: Seq<Memory>,
    guild: u64,
    author: u64,
    center: u64,
    window: u64,
)
    ensures
        forall|i: int|
            0 <= i < author_posts(entries, guild, author, center, window).len() ==> in_window(
                (#[trigger] author_posts(entries, guild, author, center, window)[i]).0,
                guild,
                author,
                center,
                window,
            ),
        forall|k: int|
            0 <= k < entries.len() && in_window(
                (#[trigger] entries[k]).post,
                guild,
                author,
                center,
                window,
            ) ==> author_posts(entries, guild, author, center, window).contains(
                (entries[k].post, entries[k].hash),
            ),
    decreases entries.len(),
{
    if entries.len() > 0 {
        let init = entries.drop_last();
        window_holds_the_authors_posts(init, guild, author, center, window);
        let found = author_posts(init, guild, author, center, window);
        let all = author_posts(entries, guild, author, center, window);
        assert forall|k: int|
            0 <= k < entries.len() && in_window(
                (#[trigger] entries[k]).post,
                guild,
                author,
                center,
                window,
            ) implies all.contains((entries[k].post, entries[k].hash)) by {
            if k < init.len() {
                assert(init[k] == entries[k]);
                let i = choose|i: int|
                    0 <= i < found.len() && found[i] == (entries[k].post, entries[k].hash);
                assert(all[i] == found[i]);
            } else {
                assert(all[all.len() - 1] == (entries[k].post, entries[k].hash));
            }
        }
    }
}

/// A message was created when its id says: the milliseconds since the start of 2015
/// that stand above its lowest 22 bits, to the second.
pub proof fn message_times_come_from_the_id(milliseconds: u64, low: u64)
    requires
        milliseconds < 0x400_0000_0000,
        low < 0x40_0000,
    ensures
        created_at((milliseconds * 0x40_0000 + low) as u64) == (1420070400000 + milliseconds) / 1000,
{
    assert((milliseconds * 0x40_0000 + low) / 0x40_0000 == milliseconds);
}

/// Only what is older than the greatest age is forgotten, and all of it: what is left is
/// the end of the list, from the first image that is not too old.
pub proof fn only_old_images_expire(entries: Seq<Memory>, now: u128, max_age: u128)
    requires
        in_time_order(entries),
    ensures
        ({
            let kept = unexpired(entries, now, max_age);
            let gone = entries.len() - kept.len();
            &&& 0 <= gone
            &&& kept == entries.skip(gone)
            &&& forall|i: int| 0 <= i < gone ==> now - (#[trigger] entries[i]).at > max_age
            &&& forall|i: int|
                gone <= i < entries.len() ==> now - (#[trigger] entries[i]).at <= max_age
        }),
    decreases entries.len(),
{
    if entries.len() > 0 && now - entries[0].at > max_age {
        let rest = entries.drop_first();
        only_old_images_expire(rest, now, max_age);
        let kept = unexpired(entries, now, max_age);
        let gone = entries.len() - kept.len();
        assert(kept =~= entries.skip(gone));
        assert forall|i: int| 0 <= i < gone implies now - (#[trigger] entries[i]).at > max_age by {
            if i > 0 {
                assert(rest[i - 1] == entries[i]);
            }
        }
        assert forall|i: int| gone <= i < entries.len() implies now - (#[trigger] entries[i]).at
            <= max_age by {
            assert(rest[i - 1] == entries[i]);
        }
    } else {
        assert(entries.skip(0) =~= entries);
    }
}

/// Room for one more image is made by giving up the oldest, and no more of them than
/// must go.
pub proof fn the_oldest_make_room(entries: Seq<Memory>, max_entries: nat)
    requires
        max_entries > 0,
    ensures
        entries.len() < max_entries ==> with_room(entries, max_entries) == entries,
        entries.len() >= max_entries ==> with_room(entries, max_entries) == entries.skip(
            entries.len() - max_entries + 1,
        ),
    decreases entries.len(),
{
    if entries.len() >= max_entries {
        the_oldest_make_room(entries.drop_first(), max_entries);
        if entries.drop_first().len() >= max_entries {
            assert(entries.drop_first().skip(entries.len() - 1 - max_entries + 1)
                =~= entries.skip(entries.len() - max_entries + 1));
        } else {
            assert(entries.drop_first() =~= entries.skip(entries.len() - max_entries + 1));
        }
    }
}

/// What a new reference leaves is what is farther from it than the threshold, and
/// nothing else of it is lost.
pub proof fn only_matches_are_taken(
    entries: Seq<Memory>,
    reference: Variants,
    threshold: u32,
    m: Memory,
)
    ensures
        unmatched(entries, reference, threshold).contains(m) <==> entries.contains(m)
            && least_distance(m.hash.all, reference.all) > threshold,
    decreases entries.len(),
{
    if entries.len() > 0 {
        let init = entries.drop_last();
        let before = unmatched(init, reference, threshold);
        let after = unmatched(entries, reference, threshold);
        only_matches_are_taken(init, reference, threshold, m);
        if after.contains(m) {
            let k = choose|k: int| 0 <= k < after.len() && after[k] == m;
            if k < before.len() {
                assert(before[k] == m);
                let i = choose|i: int| 0 <= i < init.len() && init[i] == m;
                assert(entries[i] == m);
            } else {
                assert(entries[entries.len() - 1] == m);
            }
        }
        if entries.contains(m) && least_distance(m.hash.all, reference.all) > threshold {
            let i = choose|i: int| 0 <= i < entries.len() && entries[i] == m;
            if i < init.len() {
                assert(init[i] == m);
                let k = choose|k: int| 0 <= k < before.len() && before[k] == m;
                assert(after[k] == m);
            } else {
                assert(after[after.len() - 1] == m);
            }
        }
    }
}

/// Every remembered image within the threshold of a new reference is found: its message
/// is among those that are returned.
pub proof fn every_close_image_is_found(
    entries: Seq<Memory>,
    reference: Variants,
    threshold: u32,
    i: int,
)
    requires
        0 <= i < entries.len(),
        least_distance(entries[i].hash.all, reference.all) <= threshold,
    ensures
        exists|k: int|
            0 <= k < matched_posts(entries, reference, threshold).len() && (
            #[trigger] matched_posts(entries, reference, threshold)[k]).0.message_id
                == entries[i].post.message_id,
{
    matches_name_each_message_once(entries, reference, threshold);
    assert(matches_reference(entries[i], reference, threshold));
    assert(names_message(
        matched_posts(entries, reference, threshold),
        entries[i].post.message_id,
    ));
}

/// What is returned for a new reference are posts of remembered images within the
/// threshold, each with the distance of its image.
pub proof fn found_posts_are_close(
    entries: Seq<Memory>,
    reference: Variants,
    threshold: u32,
    k: int,
)
    requires
        0 <= k < matched_posts(entries, reference, threshold).len(),
    ensures
        ({
            let (post, distance) = matched_posts(entries, reference, threshold)[k];
            distance <= threshold && exists|i: int|
                0 <= i < entries.len() && (#[trigger] entries[i]).post == post && least_distance(
                    entries[i].hash.all,
                    reference.all,
                ) == distance
        }),
    decreases entries.len(),
{
    if entries.len() > 0 {
        let init = entries.drop_last();
        let before = matched_posts(init, reference, threshold);
        if k < before.len() {
            found_posts_are_close(init, reference, threshold, k);
            let (post, distance) = before[k];
            let i = choose|i: int|
                0 <= i < init.len() && (#[trigger] init[i]).post == post && least_distance(
                    init[i].hash.all,
                    reference.all,
                ) == distance;
            assert(entries[i] == init[i]);
        } else {
            assert(entries[entries.len() - 1] == entries.last());
        }
    }
}

/// Forgetting messages takes out their images, and no others.
pub proof fn only_named_messages_are_forgotten(
    entries: Seq<Memory>,
    messages: Seq<u64>,
    m: Memory,
)
    ensures
        without_messages(entries, messages).contains(m) <==> entries.contains(m)
            && !messages.contains(m.post.message_id),
    decreases entries.len(),
{
    if entries.len() > 0 {
        let init = entries.drop_last();
        let before = without_messages(init, messages);
        let after = without_messages(entries, messages);
        only_named_messages_are_forgotten(init, messages, m);
        if after.contains(m) {
            let k = choose|k: int| 0 <= k < after.len() && after[k] == m;
            if k < before.len() {
                assert(before[k] == m);
                let i = choose|i: int| 0 <= i < init.len() && init[i] == m;
                assert(entries[i] == m);
            } else {
                assert(entries[entries.len() - 1] == m);
            }
        }
        if entries.contains(m) && !messages.contains(m.post.message_id) {
            let i = choose|i: int| 0 <= i < entries.len() && entries[i] == m;
            if i < init.len() {
                assert(init[i] == m);
                let k = choose|k: int| 0 <= k < before.len() && before[k] == m;
                assert(after[k] == m);
            } else {
                assert(after[after.len() - 1] == m);
            }
        }
    }
}

/// An author's window holds the posts of that author in that server whose messages were
/// created within so many seconds of the one in the middle, before it or after it, and
/// it holds them all.
pub proof fn a_window_reaches_both_ways(
    entries: Seq<Memory>,
    guild: u64,
    author: u64,
    center: u64,
    window: u64,
    post: Post,
    hash: Variants,
)
    requires
        window <= i64::MAX,
    ensures
        author_posts(entries, guild, author, center, window).contains((post, hash)) <==> (exists|
            i: int,
        |
            0 <= i < entries.len() && (#[trigger] entries[i]).post == post && entries[i].hash
                == hash) && post.guild_id == guild && post.author_id == author && created_at(
            post.message_id,
        ) <= created_at(center) + window && created_at(center) <= created_at(post.message_id)
            + window,
    decreases entries.len(),
{
    if entries.len() > 0 {
        let init = entries.drop_last();
        let before = author_posts(init, guild, author, center, window);
        let after = author_posts(entries, guild, author, center, window);
        a_window_reaches_both_ways(init, guild, author, center, window, post, hash);
        let item = (post, hash);
        if before.contains(item) {
            let k = choose|k: int| 0 <= k < before.len() && before[k] == item;
            assert(after[k] == item);
        }
        if after.contains(item) {
            let k = choose|k: int| 0 <= k < after.len() && after[k] == item;
            if k < before.len() {
                assert(before[k] == item);
                let i = choose|i: int|
                    0 <= i < init.len() && (#[trigger] init[i]).post == post && init[i].hash == hash;
                assert(entries[i] == init[i]);
            } else {
                assert(entries[entries.len() - 1] == entries.last());
            }
        }
        if exists|i: int|
            0 <= i < entries.len() && (#[trigger] entries[i]).post == post && entries[i].hash
                == hash {
            let i = choose|i: int|
                0 <= i < entries.len() && (#[trigger] entries[i]).post == post && entries[i].hash
                    == hash;
            if i < init.len() {
                assert(init[i] == entries[i]);
            } else if in_window(post, guild, author, center, window) {
                assert(after[after.len() - 1] == item);
            }
        }
    } else {
        assert(!author_posts(entries, guild, author, center, window).contains((post, hash)));
    }
}

} // verus!
