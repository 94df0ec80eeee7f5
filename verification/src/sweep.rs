//! The other posts of an author who was flagged.
use vstd::prelude::*;

use crate::hashstore::{least_distance, ImageVariants, ReferenceStore, Variants};
use crate::lists::at_most;
use crate::recent::{post_views, Post};

verus! {

/// The most posts whose text is read again for one detection.
pub const MAX_OCR_SWEEP: usize = 10;

/// The seconds around a flagged message within which its author's other posts are
/// looked at, or `None` where they are not.
pub fn sweep_window(retro_scan_minutes: u64) -> (r: Option<u64>)
    requires
        retro_scan_minutes * 60 <= u64::MAX,
    ensures
        r == if retro_scan_minutes == 0 {
            None
        } else {
            Some((retro_scan_minutes * 60) as u64)
        },
{
    if retro_scan_minutes == 0 {
        None
    } else {
        Some(retro_scan_minutes * 60)
    }
}

/// Some reference is within the threshold of an image.
pub open spec fn is_known(
    references: Map<Seq<char>, Variants>,
    hash: Variants,
    threshold: u32,
) -> bool {
    exists|name: Seq<char>| #[trigger]
        references.contains_key(name) && least_distance(hash.all, references[name].all) <= threshold
}

/// What an author's other posts are compared with.
#[verifier::ext_equal]
pub struct SweepTerms {
    /// The flagged message.
    pub message_id: u64,
    /// The posts that are part of the detection already.
    pub already: Seq<(u64, u64)>,
    /// The flagged image, where it can be hashed.
    pub flagged: Option<Variants>,
    pub references: Map<Seq<char>, Variants>,
    pub threshold: u32,
}

/// A list of posts names a message.
pub open spec fn lists_message(posts: Seq<(u64, u64)>, message_id: u64) -> bool {
    exists|i: int| 0 <= i < posts.len() && (#[trigger] posts[i]).1 == message_id
}

/// The image is the flagged one again, or a known one.
pub open spec fn sweep_hit(hash: Variants, terms: SweepTerms) -> bool {
    ||| match terms.flagged {
        Some(flagged) => least_distance(flagged.all, hash.all) <= terms.threshold,
        None => false,
    }
    ||| is_known(terms.references, hash, terms.threshold)
}

/// A list without an item.
pub open spec fn without_item(items: Seq<(u64, u64)>, item: (u64, u64)) -> Seq<(u64, u64)>
    decreases items.len(),
{
    if items.len() == 0 {
        items
    } else {
        let init = without_item(items.drop_last(), item);
        if items.last() == item {
            init
        } else {
            init.push(items.last())
        }
    }
}

/// The posts that match, and those whose text is still to be read.
pub open spec fn swept_so_far(entries: Seq<(Post, Variants)>, terms: SweepTerms) -> (
    Seq<(u64, u64)>,
    Seq<(u64, u64)>,
)
    decreases entries.len(),
{
    if entries.len() == 0 {
        (Seq::empty(), Seq::empty())
    } else {
        let (matched, unread) = swept_so_far(entries.drop_last(), terms);
        let (post, hash) = entries.last();
        let key = (post.channel_id, post.message_id);
        if post.message_id == terms.message_id || lists_message(terms.already, post.message_id)
            || matched.contains(key) {
            (matched, unread)
        } else if sweep_hit(hash, terms) {
            (matched.push(key), without_item(unread, key))
        } else if unread.contains(key) {
            (matched, unread)
        } else {
            (matched, unread.push(key))
        }
    }
}

/// An author's other posts: those that match, and those whose text is to be read.
#[derive(Debug)]
pub struct SweepPlan {
    pub matched: Vec<(u64, u64)>,
    pub to_read: Vec<(u64, u64)>,
}

fn has_post(posts: &Vec<(u64, u64)>, key: (u64, u64)) -> (r: bool)
    ensures
        r == posts@.contains(key),
{
    for i in 0..posts.len()
        invariant
            forall|k: int| 0 <= k < i ==> posts@[k] != key,
    {
        if posts[i].0 == key.0 && posts[i].1 == key.1 {
            assert(posts@[i as int] == key);
            return true;
        }
    }
    false
}

fn names_post(posts: &[(u64, u64)], message_id: u64) -> (r: bool)
    ensures
        r == lists_message(posts@, message_id),
{
    for i in 0..posts.len()
        invariant
            forall|k: int| 0 <= k < i ==> (#[trigger] posts@[k]).1 != message_id,
    {
        if posts[i].1 == message_id {
            return true;
        }
    }
    false
}

fn drop_post(posts: &Vec<(u64, u64)>, key: (u64, u64)) -> (r: Vec<(u64, u64)>)
    ensures
        r@ == without_item(posts@, key),
{
    let mut kept: Vec<(u64, u64)> = Vec::new();
    assert(kept@ =~= without_item(posts@.take(0), key));
    for i in 0..posts.len()
        invariant
            kept@ == without_item(posts@.take(i as int), key),
    {
        assert(posts@.take(i + 1).drop_last() =~= posts@.take(i as int));
        let item = posts[i];
        if item.0 != key.0 || item.1 != key.1 {
            kept.push(item);
        }
    }
    assert(posts@.take(posts@.len() as int) =~= posts@);
    kept
}

/// What an author's other posts are compared with.
pub open spec fn sweep_terms(
    post: Post,
    already: Seq<(u64, u64)>,
    flagged: Option<ImageVariants>,
    references: Map<Seq<char>, Variants>,
    threshold: u32,
) -> SweepTerms {
    SweepTerms {
        message_id: post.message_id,
        already,
        flagged: match flagged {
            Some(f) => Some(f@),
            None => None,
        },
        references,
        threshold,
    }
}

fn within(store: &ReferenceStore, hash: &ImageVariants, threshold: u32) -> (r: bool)
    requires
        store.wf(),
    ensures
        r == is_known(store@, hash@, threshold),
{
    match store.best_match(hash) {
        Some(m) => {
            if m.distance <= threshold {
                assert(store@.contains_key(m.filename@));
                true
            } else {
                assert forall|name: Seq<char>| #[trigger] store@.contains_key(name) implies
                    least_distance(hash@.all, store@[name].all) > threshold by {}
                false
            }
        },
        None => false,
    }
}

/// Looks at an author's other recent posts in a server once one is flagged: a
/// compromised account rarely posts just one image. Each is compared with the
/// flagged image and with the references. The text of the others is read, but of
/// no more than a few: their messages have to be fetched again.
pub fn sweep_author(
    store: &ReferenceStore,
    entries: &[(Post, ImageVariants)],
    post: &Post,
    already: &[(u64, u64)],
    flagged: &Option<ImageVariants>,
    threshold: u32,
) -> (r: SweepPlan)
    requires
        store.wf(),
    ensures
        ({
            let terms = sweep_terms(*post, already@, *flagged, store@, threshold);
            let (matched, unread) = swept_so_far(post_views(entries@), terms);
            r.matched@ == matched && r.to_read@ == at_most(unread, MAX_OCR_SWEEP as int)
        }),
{
    let ghost terms = sweep_terms(*post, already@, *flagged, store@, threshold);
    let ghost all = post_views(entries@);
    let mut matched: Vec<(u64, u64)> = Vec::new();
    let mut unread: Vec<(u64, u64)> = Vec::new();
    for i in 0..entries.len()
        invariant
            store.wf(),
            terms == sweep_terms(*post, already@, *flagged, store@, threshold),
            all == post_views(entries@),
            (matched@, unread@) == swept_so_far(all.take(i as int), terms),
    {
        assert(all.take(i + 1).drop_last() =~= all.take(i as int));
        let other = &entries[i].0;
        let hash = &entries[i].1;
        assert(all.take(i + 1).last() == (*other, hash@));
        let key = (other.channel_id, other.message_id);
        if !(other.message_id == post.message_id || names_post(already, other.message_id)
            || has_post(&matched, key)) {
            let same = match flagged {
                Some(f) => f.min_dist(hash) <= threshold,
                None => false,
            };
            if same || within(store, hash, threshold) {
                unread = drop_post(&unread, key);
                matched.push(key);
            } else if !has_post(&unread, key) {
                unread.push(key);
            }
        }
    }
    assert(all.take(all.len() as int) =~= all);
    if unread.len() > MAX_OCR_SWEEP {
        unread.truncate(MAX_OCR_SWEEP);
    }
    SweepPlan { matched, to_read: unread }
}

/// The posts whose text is a scam's, of those that were read.
pub open spec fn read_hits(read: Seq<(u64, u64)>, hits: Seq<bool>) -> Seq<(u64, u64)>
    decreases read.len(),
{
    if read.len() == 0 {
        read
    } else {
        let init = read_hits(read.drop_last(), hits);
        if read.len() <= hits.len() && hits[read.len() - 1] {
            init.push(read.last())
        } else {
            init
        }
    }
}

impl SweepPlan {
    /// All the posts that matched, once it is known which of those that were read
    /// hold a scam's text.
    pub fn finish(self, hits: &[bool]) -> (r: Vec<(u64, u64)>)
        ensures
            r@ == self.matched@ + read_hits(self.to_read@, hits@),
    {
        let mut all = self.matched;
        let ghost matched = all@;
        let ghost read = self.to_read@;
        assert(all@ =~= matched + read_hits(read.take(0), hits@));
        for i in 0..self.to_read.len()
            invariant
                read == self.to_read@,
                all@ == matched + read_hits(read.take(i as int), hits@),
        {
            assert(read.take(i + 1).drop_last() =~= read.take(i as int));
            let ghost before = all@;
            if i < hits.len() && hits[i] {
                all.push(self.to_read[i]);
                assert(all@ =~= before.push(read[i as int]));
            }
            assert(all@ =~= matched + read_hits(read.take(i + 1), hits@));
        }
        assert(read.take(read.len() as int) =~= read);
        all
    }
}

/// A list of posts names only messages that may be deleted: not the flagged one,
/// and none that is part of the detection already.
pub open spec fn only_others(posts: Seq<(u64, u64)>, terms: SweepTerms) -> bool {
    forall|i: int|
        0 <= i < posts.len() ==> (#[trigger] posts[i]).1 != terms.message_id && !lists_message(
            terms.already,
            posts[i].1,
        )
}

proof fn dropping_keeps_the_rest(items: Seq<(u64, u64)>, item: (u64, u64))
    ensures
        !without_item(items, item).contains(item),
        forall|i: int|
            0 <= i < without_item(items, item).len() ==> items.contains(
                #[trigger] without_item(items, item)[i],
            ),
        items.no_duplicates() ==> without_item(items, item).no_duplicates(),
    decreases items.len(),
{
    if items.len() > 0 {
        let rest = items.drop_last();
        let init = without_item(rest, item);
        let all = without_item(items, item);
        dropping_keeps_the_rest(rest, item);
        assert forall|i: int| 0 <= i < all.len() implies items.contains(#[trigger] all[i]) by {
            if i < init.len() {
                assert(all[i] == init[i]);
                let k = choose|k: int| 0 <= k < rest.len() && rest[k] == init[i];
                assert(items[k] == all[i]);
            } else {
                assert(items[items.len() - 1] == all[i]);
            }
        }
        assert forall|i: int| 0 <= i < all.len() implies all[i] != item by {
            if i < init.len() {
                assert(all[i] == init[i]);
                assert(init.contains(init[i]));
            }
        }
        if items.no_duplicates() {
            assert(rest.no_duplicates()) by {
                assert forall|i: int, j: int|
                    0 <= i < rest.len() && 0 <= j < rest.len() && i != j implies rest[i]
                    != rest[j] by {
                    assert(items[i] != items[j]);
                }
            }
            assert forall|i: int, j: int|
                0 <= i < all.len() && 0 <= j < all.len() && i != j implies all[i] != all[j] by {
                if i < init.len() && j < init.len() {
                    assert(all[i] == init[i] && all[j] == init[j]);
                } else {
                    let low = if i < j {
                        i
                    } else {
                        j
                    };
                    assert(all[low] == init[low]);
                    let k = choose|k: int| 0 <= k < rest.len() && rest[k] == init[low];
                    assert(items[k] == init[low]);
                    assert(items[k] != items[items.len() - 1]);
                }
            }
        }
    }
}

/// The posts that a sweep finds are the author's others: never the flagged one or
/// one that is handled already, and none of them twice.
pub proof fn sweeps_find_only_others(entries: Seq<(Post, Variants)>, terms: SweepTerms)
    ensures
        only_others(swept_so_far(entries, terms).0, terms),
        only_others(swept_so_far(entries, terms).1, terms),
        swept_so_far(entries, terms).0.no_duplicates(),
        swept_so_far(entries, terms).1.no_duplicates(),
        forall|key: (u64, u64)| #[trigger]
            swept_so_far(entries, terms).0.contains(key) ==> !swept_so_far(
                entries,
                terms,
            ).1.contains(key),
    decreases entries.len(),
{
    if entries.len() > 0 {
        sweeps_find_only_others(entries.drop_last(), terms);
        let (matched, unread) = swept_so_far(entries.drop_last(), terms);
        let (post, hash) = entries.last();
        let key = (post.channel_id, post.message_id);
        let after = swept_so_far(entries, terms);
        if post.message_id == terms.message_id || lists_message(terms.already, post.message_id)
            || matched.contains(key) {
        } else if sweep_hit(hash, terms) {
            dropping_keeps_the_rest(unread, key);
            assert forall|i: int| 0 <= i < after.1.len() implies (
            #[trigger] after.1[i]).1 != terms.message_id && !lists_message(
                terms.already,
                after.1[i].1,
            ) by {
                assert(unread.contains(after.1[i]));
                let k = choose|k: int| 0 <= k < unread.len() && unread[k] == after.1[i];
                assert(unread[k].1 != terms.message_id);
            }
            assert forall|i: int| 0 <= i < after.0.len() implies (
            #[trigger] after.0[i]).1 != terms.message_id && !lists_message(
                terms.already,
                after.0[i].1,
            ) by {
                if i < matched.len() {
                    assert(after.0[i] == matched[i]);
                }
            }
            assert forall|k: (u64, u64)| #[trigger] after.0.contains(k) implies !after.1.contains(
                k,
            ) by {
                if k != key {
                    let i = choose|i: int| 0 <= i < after.0.len() && after.0[i] == k;
                    assert(matched[i] == k);
                    assert(matched.contains(k));
                    if after.1.contains(k) {
                        let j = choose|j: int| 0 <= j < after.1.len() && after.1[j] == k;
                        assert(unread.contains(after.1[j]));
                    }
                }
            }
        } else if !unread.contains(key) {
            assert forall|i: int| 0 <= i < after.1.len() implies (
            #[trigger] after.1[i]).1 != terms.message_id && !lists_message(
                terms.already,
                after.1[i].1,
            ) by {
                if i < unread.len() {
                    assert(after.1[i] == unread[i]);
                }
            }
            assert forall|k: (u64, u64)| #[trigger] after.0.contains(k) implies !after.1.contains(
                k,
            ) by {
                assert(matched.contains(k));
                if after.1.contains(k) {
                    let j = choose|j: int| 0 <= j < after.1.len() && after.1[j] == k;
                    if j < unread.len() {
                        assert(unread[j] == k);
                        assert(unread.contains(k));
                    }
                }
            }
        }
    }
}

/// The `i`-th of an author's posts has this channel and message, and its image is within
/// the threshold of the flagged one or of a reference.
pub open spec fn close_at(
    entries: Seq<(Post, Variants)>,
    terms: SweepTerms,
    key: (u64, u64),
    i: int,
) -> bool {
    &&& posted_at(entries, key, i)
    &&& {
        ||| terms.flagged matches Some(flagged) && least_distance(flagged.all, entries[i].1.all)
            <= terms.threshold
        ||| exists|name: Seq<char>| #[trigger]
            terms.references.contains_key(name) && least_distance(
                entries[i].1.all,
                terms.references[name].all,
            ) <= terms.threshold
    }
}

/// The `i`-th of an author's posts has this channel and message.
pub open spec fn posted_at(entries: Seq<(Post, Variants)>, key: (u64, u64), i: int) -> bool {
    0 <= i < entries.len() && entries[i].0.channel_id == key.0 && entries[i].0.message_id == key.1
}

proof fn kept_items(items: Seq<(u64, u64)>, item: (u64, u64), other: (u64, u64))
    ensures
        without_item(items, item).contains(other) <==> items.contains(other) && other != item,
    decreases items.len(),
{
    if items.len() > 0 {
        let init = items.drop_last();
        let before = without_item(init, item);
        let after = without_item(items, item);
        kept_items(init, item, other);
        if after.contains(other) {
            let k = choose|k: int| 0 <= k < after.len() && after[k] == other;
            if k < before.len() {
                assert(before[k] == other);
                let i = choose|i: int| 0 <= i < init.len() && init[i] == other;
                assert(items[i] == other);
            } else {
                assert(items[items.len() - 1] == other);
            }
        }
        if items.contains(other) && other != item {
            let i = choose|i: int| 0 <= i < items.len() && items[i] == other;
            if i < init.len() {
                assert(init[i] == other);
                let k = choose|k: int| 0 <= k < before.len() && before[k] == other;
                assert(after[k] == other);
            } else {
                assert(after[after.len() - 1] == other);
            }
        }
    }
}

proof fn pushed_items(items: Seq<(u64, u64)>, item: (u64, u64), other: (u64, u64))
    ensures
        items.push(item).contains(other) <==> items.contains(other) || other == item,
{
    let after = items.push(item);
    if items.contains(other) {
        let k = choose|k: int| 0 <= k < items.len() && items[k] == other;
        assert(after[k] == other);
    }
    if other == item {
        assert(after[items.len() as int] == other);
    }
    if after.contains(other) {
        let k = choose|k: int| 0 <= k < after.len() && after[k] == other;
        if k < items.len() {
            assert(items[k] == other);
        }
    }
}

/// Of an author's other posts, those with an image within the threshold of the flagged
/// one or of a reference are found, all of them and no others. Those with none are left
/// to be read, all of them and no others. The flagged post, and those that are part of
/// the detection already, are neither.
pub proof fn every_other_post_is_found_or_left(
    entries: Seq<(Post, Variants)>,
    terms: SweepTerms,
    key: (u64, u64),
)
    ensures
        ({
            let (matched, unread) = swept_so_far(entries, terms);
            let other = key.1 != terms.message_id && forall|i: int|
                0 <= i < terms.already.len() ==> (#[trigger] terms.already[i]).1 != key.1;
            let found = exists|i: int| #[trigger] close_at(entries, terms, key, i);
            &&& matched.contains(key) <==> other && found
            &&& unread.contains(key) <==> other && !found && exists|i: int| #[trigger]
                posted_at(entries, key, i)
        }),
    decreases entries.len(),
{
    let (matched, unread) = swept_so_far(entries, terms);
    if entries.len() == 0 {
        assert(!matched.contains(key) && !unread.contains(key));
    } else {
        let init = entries.drop_last();
        let last = entries.len() - 1;
        let (before, left) = swept_so_far(init, terms);
        let (post, hash) = entries.last();
        let item = (post.channel_id, post.message_id);
        every_other_post_is_found_or_left(init, terms, key);
        assert(lists_message(terms.already, key.1) <==> !(forall|i: int|
            0 <= i < terms.already.len() ==> (#[trigger] terms.already[i]).1 != key.1));
        pushed_items(before, item, key);
        pushed_items(left, item, key);
        kept_items(left, item, key);
        if exists|i: int| #[trigger] close_at(init, terms, key, i) {
            let i = choose|i: int| #[trigger] close_at(init, terms, key, i);
            assert(close_at(entries, terms, key, i));
        }
        if exists|i: int| #[trigger] posted_at(init, key, i) {
            let i = choose|i: int| #[trigger] posted_at(init, key, i);
            assert(posted_at(entries, key, i));
        }
        if exists|i: int| #[trigger] close_at(entries, terms, key, i) {
            let i = choose|i: int| #[trigger] close_at(entries, terms, key, i);
            if i < last {
                assert(close_at(init, terms, key, i));
            } else {
                assert(sweep_hit(hash, terms));
            }
        }
        if exists|i: int| #[trigger] posted_at(entries, key, i) {
            let i = choose|i: int| #[trigger] posted_at(entries, key, i);
            if i < last {
                assert(posted_at(init, key, i));
            }
        }
        if key == item {
            assert(posted_at(entries, key, last));
            if sweep_hit(hash, terms) {
                assert(close_at(entries, terms, key, last));
            }
        }
    }
}

/// At most ten posts are read again for one detection, the first ones, and those whose
/// text is a scam's are found, all of them and no others.
pub proof fn read_posts_are_found_by_their_text(
    unread: Seq<(u64, u64)>,
    hits: Seq<bool>,
    key: (u64, u64),
)
    ensures
        ({
            let read = at_most(unread, MAX_OCR_SWEEP as int);
            &&& read.len() <= 10
            &&& unread.len() <= 10 ==> read == unread
            &&& unread.len() > 10 ==> read == unread.take(10)
        }),
        read_hits(unread, hits).contains(key) <==> exists|i: int|
            0 <= i < unread.len() && i < hits.len() && #[trigger] hits[i] && unread[i] == key,
    decreases unread.len(),
{
    if unread.len() > 0 {
        let init = unread.drop_last();
        read_posts_are_found_by_their_text(init, hits, key);
        pushed_items(read_hits(init, hits), unread.last(), key);
        if read_hits(init, hits).contains(key) {
            let i = choose|i: int|
                0 <= i < init.len() && i < hits.len() && #[trigger] hits[i] && init[i] == key;
            assert(hits[i] && unread[i] == key);
        }
        if exists|i: int|
            0 <= i < unread.len() && i < hits.len() && #[trigger] hits[i] && unread[i] == key {
            let i = choose|i: int|
                0 <= i < unread.len() && i < hits.len() && #[trigger] hits[i] && unread[i] == key;
            if i < init.len() {
                assert(hits[i] && init[i] == key);
            }
        }
    }
}

/// A sweep goes by what it is given: the flagged message, the posts that are part of the
/// detection already, the flagged image where it can be hashed, the references and the
/// threshold.
pub proof fn sweeps_go_by_what_they_are_given(
    post: Post,
    already: Seq<(u64, u64)>,
    flagged: ImageVariants,
    references: Map<Seq<char>, Variants>,
    threshold: u32,
)
    ensures
        ({
            let terms = sweep_terms(post, already, Some(flagged), references, threshold);
            &&& terms.message_id == post.message_id
            &&& terms.already == already
            &&& terms.flagged == Some(flagged@)
            &&& terms.references == references
            &&& terms.threshold == threshold
            &&& sweep_terms(post, already, None, references, threshold) == (SweepTerms {
                flagged: None,
                ..terms
            })
        }),
{
}

} // verus!
