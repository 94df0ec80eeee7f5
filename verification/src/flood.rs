//! One image in many channels: the mark of a compromised account.
use vstd::prelude::*;

use crate::hashstore::ImageHash;
use crate::images::{base64_bytes, base64_text, hamming};
use crate::lists::has_text;
use crate::rows::{signed, signed_value};
use crate::text::{
    decimal, decimal_reads_back, decimal_text, parse_u64, parsed_u64, same_text, texts,
};

verus! {

/// A row of the table of posted images. Ids are decimal text, the hash is base64
/// text, and an empty message id stands for one that is unknown or was handed out
/// for deletion already.
#[derive(Debug)]
pub struct FloodRow {
    /// The row's key, or 0 where the row was not stored yet.
    pub id: i64,
    pub guild_id: String,
    pub user_id: String,
    pub channel_id: String,
    pub message_id: String,
    pub hash: String,
    /// When the image was posted, in seconds since 1970.
    pub ts: i64,
}

/// The contents of a [`FloodRow`].
#[verifier::ext_equal]
pub struct StoredPost {
    pub id: i64,
    pub guild_id: Seq<char>,
    pub user_id: Seq<char>,
    pub channel_id: Seq<char>,
    pub message_id: Seq<char>,
    pub hash: Seq<char>,
    pub ts: i64,
}

impl View for FloodRow {
    type V = StoredPost;

    open spec fn view(&self) -> StoredPost {
        StoredPost {
            id: self.id,
            guild_id: self.guild_id@,
            user_id: self.user_id@,
            channel_id: self.channel_id@,
            message_id: self.message_id@,
            hash: self.hash@,
            ts: self.ts,
        }
    }
}

/// The contents of a table.
pub open spec fn posts_of(rows: Seq<FloodRow>) -> Seq<StoredPost> {
    rows.map_values(|r: FloodRow| r@)
}

/// What a post is compared with: the same image by one user in one server.
#[verifier::ext_equal]
pub struct Sought {
    pub guild_id: Seq<char>,
    pub user_id: Seq<char>,
    pub cutoff: int,
    pub hash: Seq<u8>,
    pub threshold: u32,
}

/// The post is that user's, in that server, recent enough, and of (a variant of)
/// that image.
pub open spec fn reposts(post: StoredPost, sought: Sought) -> bool {
    &&& post.guild_id == sought.guild_id
    &&& post.user_id == sought.user_id
    &&& post.ts >= sought.cutoff
    &&& match base64_bytes(post.hash) {
        Some(hash) => hamming(sought.hash, hash) <= sought.threshold,
        None => false,
    }
}

/// The posts that are recent enough.
pub open spec fn recent_posts(posts: Seq<StoredPost>, cutoff: int) -> Seq<StoredPost>
    decreases posts.len(),
{
    if posts.len() == 0 {
        posts
    } else {
        let init = recent_posts(posts.drop_last(), cutoff);
        if posts.last().ts >= cutoff {
            init.push(posts.last())
        } else {
            init
        }
    }
}

/// The channels that the image was posted in.
pub open spec fn channels_hit(posts: Seq<StoredPost>, sought: Sought) -> Set<Seq<char>>
    decreases posts.len(),
{
    if posts.len() == 0 {
        Set::empty()
    } else {
        let init = channels_hit(posts.drop_last(), sought);
        if reposts(posts.last(), sought) {
            init.insert(posts.last().channel_id)
        } else {
            init
        }
    }
}

/// The channel and the message of a post, where both are known.
pub open spec fn place(post: StoredPost) -> Option<(u64, u64)> {
    match (parsed_u64(post.channel_id), parsed_u64(post.message_id)) {
        (Some(c), Some(m)) => if c != 0 && m != 0 {
            Some((c, m))
        } else {
            None
        },
        _ => None,
    }
}

/// The places of the image's posts but for one message.
pub open spec fn earlier_posts(posts: Seq<StoredPost>, sought: Sought, message: Seq<char>) -> Seq<
    (u64, u64),
>
    decreases posts.len(),
{
    if posts.len() == 0 {
        Seq::empty()
    } else {
        let init = earlier_posts(posts.drop_last(), sought, message);
        let last = posts.last();
        if reposts(last, sought) && last.message_id != message && place(last) is Some {
            init.push(place(last)->0)
        } else {
            init
        }
    }
}

/// The table after the image's posts were handed out for deletion.
pub open spec fn handed_out(posts: Seq<StoredPost>, sought: Sought) -> Seq<StoredPost> {
    posts.map_values(
        |p: StoredPost|
            if reposts(p, sought) {
                StoredPost { message_id: Seq::empty(), ..p }
            } else {
                p
            },
    )
}

/// A flood that crossed the threshold.
#[derive(Debug, PartialEq)]
pub struct FloodHit {
    /// Distinct channels hit by (a variant of) the same image.
    pub channels: usize,
    /// The channels and messages of the earlier posts of that image, not the one
    /// that crossed the threshold: they have to be deleted too.
    pub earlier_messages: Vec<(u64, u64)>,
}

/// Detects one user posting one image, known or not, in several channels of one
/// server within a short time. A user who is in several servers is not flagged
/// for posting in two of them.
#[derive(Debug)]
pub struct FloodDetector {
    window_seconds: i64,
    same_image_threshold: u32,
    min_channels: usize,
}

impl FloodDetector {
    /// The seconds within which posts count together.
    pub closed spec fn window(&self) -> int {
        self.window_seconds as int
    }

    /// The distance within which two hashes are of the same image.
    pub closed spec fn threshold(&self) -> u32 {
        self.same_image_threshold
    }

    /// The number of channels that makes a flood.
    pub closed spec fn channels_needed(&self) -> usize {
        self.min_channels
    }

    /// What a post at `now` is compared with.
    pub open spec fn sought(&self, guild: u64, user: u64, hash: Seq<u8>, now: i64) -> Sought {
        Sought {
            guild_id: decimal(guild as nat),
            user_id: decimal(user as nat),
            cutoff: now - self.window(),
            hash,
            threshold: self.threshold(),
        }
    }

    /// A detector with these limits. The window is held with a sign.
    pub fn new(window_seconds: u64, same_image_threshold: u32, min_channels: usize) -> (r:
        FloodDetector)
        ensures
            r.window() == signed_value(window_seconds),
            r.threshold() == same_image_threshold,
            r.channels_needed() == min_channels,
    {
        FloodDetector {
            window_seconds: signed(window_seconds),
            same_image_threshold,
            min_channels,
        }
    }

    /// Whether the time before which posts do not count can be held.
    pub fn window_fits(&self, now: i64) -> (r: bool)
        ensures
            r == (i64::MIN <= now - self.window() <= i64::MAX),
    {
        let cutoff: i128 = now as i128 - self.window_seconds as i128;
        cutoff >= i64::MIN as i128 && cutoff <= i64::MAX as i128
    }

    /// The time before which posts do not count any more.
    pub fn cutoff(&self, now: i64) -> (r: i64)
        requires
            i64::MIN <= now - self.window() <= i64::MAX,
        ensures
            r == now - self.window(),
    {
        now - self.window_seconds
    }

    /// Takes the posts that do not count any more out of the table.
    pub fn sweep(&self, table: &mut Vec<FloodRow>, now: i64)
        requires
            i64::MIN <= now - self.window() <= i64::MAX,
        ensures
            posts_of(final(table)@) == recent_posts(posts_of(old(table)@), now - self.window()),
    {
        let cutoff = self.cutoff(now);
        let mut rows: Vec<FloodRow> = Vec::new();
        std::mem::swap(&mut rows, table);
        let ghost all = posts_of(rows@);
        assert(posts_of(table@) =~= recent_posts(all.take(0), cutoff as int));
        for row in it: rows
            invariant
                all == posts_of(it.seq()),
                posts_of(table@) == recent_posts(all.take(it.index() as int), cutoff as int),
        {
            let ghost before = posts_of(table@);
            let ghost i = it.index() as int;
            assert(all[i] == row@);
            assert(all.take(i + 1).drop_last() =~= all.take(i));
            if row.ts >= cutoff {
                table.push(row);
                assert(posts_of(table@) =~= before.push(row@));
            }
        }
        assert(all.take(all.len() as int) =~= all);
    }

    /// Records an image post. Where the image is now in enough channels, returns
    /// how many, with the earlier posts.
    ///
    /// A post is handed out once: its message id is cleared, so that a later post
    /// of the same flood does not name messages that are gone.
    pub fn record_and_check(
        &self,
        table: &mut Vec<FloodRow>,
        guild: u64,
        user: u64,
        channel: u64,
        message: u64,
        hash: &ImageHash,
        now: i64,
    ) -> (r: Option<FloodHit>)
        requires
            i64::MIN <= now - self.window() <= i64::MAX,
        ensures
            ({
                let posting = Posting { guild, user, channel, message, hash: hash@, now };
                let posts = posts_of(old(table)@);
                &&& posts_of(final(table)@) == table_after(*self, posts, posting)
                &&& match r {
                    Some(hit) => answer_to(*self, posts, posting) == Some(
                        (hit.channels as nat, hit.earlier_messages@),
                    ),
                    None => answer_to(*self, posts, posting) is None,
                }
            }),
            base64_bytes(base64_text(hash@)) == Some(hash@),
    {
        let guild_id = decimal_text(guild);
        let user_id = decimal_text(user);
        let message_id = decimal_text(message);
        let cutoff = self.cutoff(now);
        let ghost sought = self.sought(guild, user, hash@, now);
        self.sweep(table, now);
        table.push(row_of(guild, user, channel, message, hash, now));
        let ghost posts = posts_of(table@);
        assert(posts =~= recorded(
            posts_of(old(table)@),
            sought,
            decimal(channel as nat),
            decimal(message as nat),
            now,
        ));

        let mut channels: Vec<String> = Vec::new();
        let mut matched: Vec<bool> = Vec::new();
        let mut earlier_messages: Vec<(u64, u64)> = Vec::new();
        for i in 0..table.len()
            invariant
                posts == posts_of(table@),
                sought == self.sought(guild, user, hash@, now),
                sought.cutoff == cutoff,
                guild_id@ == sought.guild_id,
                user_id@ == sought.user_id,
                message_id@ == decimal(message as nat),
                channels_hit(posts.take(i as int), sought).finite(),
                channels_hit(posts.take(i as int), sought).len() == channels@.len(),
                forall|c: Seq<char>| #[trigger]
                    texts(channels@).contains(c) <==> channels_hit(
                        posts.take(i as int),
                        sought,
                    ).contains(c),
                earlier_messages@ == earlier_posts(
                    posts.take(i as int),
                    sought,
                    message_id@,
                ),
                matched@.len() == i,
                forall|k: int| 0 <= k < i ==> matched@[k] == reposts(#[trigger] posts[k], sought),
        {
            let ghost seen = posts.take(i as int);
            assert(posts.take(i + 1).drop_last() =~= seen);
            let row = &table[i];
            assert(posts[i as int] == row@);
            assert(posts.take(i + 1).last() == row@);
            let ghost held = channels@;
            let same = same_text(row.guild_id.as_str(), guild_id.as_str()) && same_text(
                row.user_id.as_str(),
                user_id.as_str(),
            ) && row.ts >= cutoff && match hash.dist_to_text(row.hash.as_str()) {
                Some(distance) => distance <= self.same_image_threshold,
                None => false,
            };
            assert(same == reposts(row@, sought));
            matched.push(same);
            if same {
                if !same_text(row.message_id.as_str(), message_id.as_str()) {
                    if let (Some(c), Some(m)) = (
                        parse_u64(row.channel_id.as_str()),
                        parse_u64(row.message_id.as_str()),
                    ) {
                        if c != 0 && m != 0 {
                            earlier_messages.push((c, m));
                        }
                    }
                }
                let known = has_text(channels.as_slice(), row.channel_id.as_str());
                if !known {
                    channels.push(row.channel_id.clone());
                    assert(texts(channels@) =~= texts(held).push(row.channel_id@));
                    assert forall|c: Seq<char>| #[trigger]
                        texts(channels@).contains(c) <==> texts(held).contains(c) || c
                            == row.channel_id@ by {
                        if texts(held).contains(c) {
                            let k = choose|k: int| 0 <= k < held.len() && texts(held)[k] == c;
                            assert(texts(channels@)[k] == c);
                        }
                        if c == row.channel_id@ {
                            assert(texts(channels@)[held.len() as int] == c);
                        }
                    }
                } else {
                    assert(channels_hit(seen, sought).insert(row.channel_id@) =~= channels_hit(
                        seen,
                        sought,
                    ));
                }
            }
        }
        assert(posts.take(posts.len() as int) =~= posts);

        if channels.len() < self.min_channels {
            return None;
        }
        for i in 0..matched.len()
            invariant
                table@.len() == posts.len(),
                matched@.len() == posts.len(),
                forall|k: int|
                    0 <= k < posts.len() ==> matched@[k] == reposts(#[trigger] posts[k], sought),
                forall|k: int|
                    0 <= k < posts.len() ==> (#[trigger] table@[k])@ == if k < i && reposts(
                        posts[k],
                        sought,
                    ) {
                        StoredPost { message_id: Seq::empty(), ..posts[k] }
                    } else {
                        posts[k]
                    },
        {
            assert(table@[i as int]@ == posts[i as int]);
            if matched[i] {
                table[i].message_id = String::new();
                assert(table@[i as int]@.message_id =~= Seq::<char>::empty());
            }
        }
        assert(posts_of(table@) =~= handed_out(posts, sought));
        Some(FloodHit { channels: channels.len(), earlier_messages })
    }
}

/// A post that is not stored yet.
pub open spec fn new_post(
    guild_id: Seq<char>,
    user_id: Seq<char>,
    channel_id: Seq<char>,
    message_id: Seq<char>,
    hash: Seq<u8>,
    ts: i64,
) -> StoredPost {
    StoredPost { id: 0, guild_id, user_id, channel_id, message_id, hash: base64_text(hash), ts }
}

/// The row for a post that is not stored yet.
pub fn row_of(guild: u64, user: u64, channel: u64, message: u64, hash: &ImageHash, now: i64) -> (r:
    FloodRow)
    ensures
        r@ == new_post(
            decimal(guild as nat),
            decimal(user as nat),
            decimal(channel as nat),
            decimal(message as nat),
            hash@,
            now,
        ),
        base64_bytes(r@.hash) == Some(hash@),
{
    FloodRow {
        id: 0,
        guild_id: decimal_text(guild),
        user_id: decimal_text(user),
        channel_id: decimal_text(channel),
        message_id: decimal_text(message),
        hash: hash.to_base64(),
        ts: now,
    }
}

/// The table after a post was recorded in it.
pub open spec fn recorded(
    posts: Seq<StoredPost>,
    sought: Sought,
    channel: Seq<char>,
    message: Seq<char>,
    now: i64,
) -> Seq<StoredPost> {
    recent_posts(posts, sought.cutoff).push(
        new_post(sought.guild_id, sought.user_id, channel, message, sought.hash, now),
    )
}

/// An image that is posted.
#[verifier::ext_equal]
pub struct Posting {
    pub guild: u64,
    pub user: u64,
    pub channel: u64,
    pub message: u64,
    pub hash: Seq<u8>,
    pub now: i64,
}

/// What a posted image is compared with.
pub open spec fn sought_by(d: FloodDetector, p: Posting) -> Sought {
    d.sought(p.guild, p.user, p.hash, p.now)
}

/// The table once the posted image is recorded in it.
pub open spec fn table_with(d: FloodDetector, posts: Seq<StoredPost>, p: Posting) -> Seq<
    StoredPost,
> {
    recorded(posts, sought_by(d, p), decimal(p.channel as nat), decimal(p.message as nat), p.now)
}

/// What is answered to a posted image: where it is in enough channels, how many
/// they are, and the earlier posts.
pub open spec fn answer_to(d: FloodDetector, posts: Seq<StoredPost>, p: Posting) -> Option<
    (nat, Seq<(u64, u64)>),
> {
    let all = table_with(d, posts, p);
    let channels = channels_hit(all, sought_by(d, p)).len();
    if channels < d.channels_needed() {
        None
    } else {
        Some((channels, earlier_posts(all, sought_by(d, p), decimal(p.message as nat))))
    }
}

/// The table after a posted image was answered to: where it is a flood, the image's
/// posts are handed out.
pub open spec fn table_after(d: FloodDetector, posts: Seq<StoredPost>, p: Posting) -> Seq<
    StoredPost,
> {
    if answer_to(d, posts, p) is None {
        table_with(d, posts, p)
    } else {
        handed_out(table_with(d, posts, p), sought_by(d, p))
    }
}

proof fn channels_are_finite(posts: Seq<StoredPost>, sought: Sought)
    ensures
        channels_hit(posts, sought).finite(),
    decreases posts.len(),
{
    if posts.len() > 0 {
        channels_are_finite(posts.drop_last(), sought);
    }
}

/// The channels that count are those of the user's posts of the image in that
/// server within the window, and no others.
pub proof fn channels_are_those_of_the_reposts(posts: Seq<StoredPost>, sought: Sought)
    ensures
        forall|c: Seq<char>| #[trigger]
            channels_hit(posts, sought).contains(c) <==> exists|i: int|
                0 <= i < posts.len() && reposts(#[trigger] posts[i], sought) && posts[i].channel_id
                    == c,
    decreases posts.len(),
{
    if posts.len() > 0 {
        let init = posts.drop_last();
        channels_are_those_of_the_reposts(init, sought);
        assert forall|c: Seq<char>| #[trigger]
            channels_hit(posts, sought).contains(c) <==> exists|i: int|
                0 <= i < posts.len() && reposts(#[trigger] posts[i], sought) && posts[i].channel_id
                    == c by {
            if channels_hit(init, sought).contains(c) {
                let i = choose|i: int|
                    0 <= i < init.len() && reposts(#[trigger] init[i], sought)
                        && init[i].channel_id == c;
                assert(posts[i] == init[i]);
            }
            if reposts(posts.last(), sought) && posts.last().channel_id == c {
                assert(posts[posts.len() - 1].channel_id == c);
            }
            if exists|i: int|
                0 <= i < posts.len() && reposts(#[trigger] posts[i], sought) && posts[i].channel_id
                    == c {
                let i = choose|i: int|
                    0 <= i < posts.len() && reposts(#[trigger] posts[i], sought)
                        && posts[i].channel_id == c;
                if i < init.len() {
                    assert(init[i] == posts[i]);
                }
            }
        }
    }
}

/// Posts in other servers do not count: where the user's other posts are all in
/// other servers, one more post is in one channel.
pub proof fn other_servers_do_not_count(
    posts: Seq<StoredPost>,
    sought: Sought,
    channel: Seq<char>,
    message: Seq<char>,
    now: i64,
)
    requires
        forall|i: int|
            0 <= i < posts.len() ==> (#[trigger] posts[i]).guild_id != sought.guild_id,
    ensures
        channels_hit(recorded(posts, sought, channel, message, now), sought).len() <= 1,
{
    let all = recorded(posts, sought, channel, message, now);
    let kept = recent_posts(posts, sought.cutoff);
    recent_posts_are_the_late_ones(posts, sought.cutoff);
    channels_are_those_of_the_reposts(all, sought);
    assert forall|c: Seq<char>| channels_hit(all, sought).contains(c) implies c == channel by {
        let i = choose|i: int|
            0 <= i < all.len() && reposts(#[trigger] all[i], sought) && all[i].channel_id == c;
        if i < kept.len() {
            assert(all[i] == kept[i]);
            assert(kept.contains(kept[i]));
            let k = choose|k: int| 0 <= k < posts.len() && posts[k] == kept[i];
            assert(posts[k].guild_id != sought.guild_id);
        }
    }
    channels_are_finite(all, sought);
    let only = Set::<Seq<char>>::empty().insert(channel);
    assert(channels_hit(all, sought).subset_of(only));
    vstd::set_lib::lemma_len_subset(channels_hit(all, sought), only);
}

/// Cleaning up keeps the posts within the window, and no others.
pub proof fn recent_posts_are_the_late_ones(posts: Seq<StoredPost>, cutoff: int)
    ensures
        forall|p: StoredPost| #[trigger]
            recent_posts(posts, cutoff).contains(p) <==> posts.contains(p) && p.ts >= cutoff,
    decreases posts.len(),
{
    if posts.len() > 0 {
        let init = posts.drop_last();
        let before = recent_posts(init, cutoff);
        let after = recent_posts(posts, cutoff);
        recent_posts_are_the_late_ones(init, cutoff);
        assert forall|p: StoredPost| #[trigger]
            after.contains(p) <==> posts.contains(p) && p.ts >= cutoff by {
            if posts.contains(p) && p.ts >= cutoff {
                let i = choose|i: int| 0 <= i < posts.len() && posts[i] == p;
                if i < init.len() {
                    assert(init[i] == p);
                    assert(before.contains(p));
                    let k = choose|k: int| 0 <= k < before.len() && before[k] == p;
                    assert(after[k] == p);
                } else {
                    assert(after[after.len() - 1] == p);
                }
            }
            if after.contains(p) {
                let k = choose|k: int| 0 <= k < after.len() && after[k] == p;
                if k < before.len() {
                    assert(before[k] == p);
                    assert(before.contains(p));
                    let i = choose|i: int| 0 <= i < init.len() && init[i] == p;
                    assert(posts[i] == p);
                } else {
                    assert(posts[posts.len() - 1] == p);
                }
            }
        }
    }
}

/// What is handed out is every other post of the image whose place is known, and
/// nothing else.
pub proof fn every_known_post_is_handed_out(
    posts: Seq<StoredPost>,
    sought: Sought,
    message: Seq<char>,
)
    ensures
        forall|at: (u64, u64)| #[trigger]
            earlier_posts(posts, sought, message).contains(at) <==> exists|i: int|
                0 <= i < posts.len() && reposts(#[trigger] posts[i], sought)
                    && posts[i].message_id != message && place(posts[i]) == Some(at),
    decreases posts.len(),
{
    if posts.len() > 0 {
        let init = posts.drop_last();
        let before = earlier_posts(init, sought, message);
        let after = earlier_posts(posts, sought, message);
        every_known_post_is_handed_out(init, sought, message);
        assert forall|at: (u64, u64)| #[trigger]
            after.contains(at) <==> exists|i: int|
                0 <= i < posts.len() && reposts(#[trigger] posts[i], sought)
                    && posts[i].message_id != message && place(posts[i]) == Some(at) by {
            if after.contains(at) {
                let k = choose|k: int| 0 <= k < after.len() && after[k] == at;
                if k < before.len() {
                    assert(before[k] == at);
                    assert(before.contains(at));
                    let i = choose|i: int|
                        0 <= i < init.len() && reposts(#[trigger] init[i], sought)
                            && init[i].message_id != message && place(init[i]) == Some(at);
                    assert(posts[i] == init[i]);
                } else {
                    assert(posts[posts.len() - 1] == posts.last());
                }
            }
            if exists|i: int|
                0 <= i < posts.len() && reposts(#[trigger] posts[i], sought)
                    && posts[i].message_id != message && place(posts[i]) == Some(at) {
                let i = choose|i: int|
                    0 <= i < posts.len() && reposts(#[trigger] posts[i], sought)
                        && posts[i].message_id != message && place(posts[i]) == Some(at);
                if i < init.len() {
                    assert(init[i] == posts[i]);
                    assert(before.contains(at));
                    let k = choose|k: int| 0 <= k < before.len() && before[k] == at;
                    assert(after[k] == at);
                } else {
                    assert(after[after.len() - 1] == at);
                }
            }
        }
    }
}

/// The posts that are not the image's.
pub open spec fn other_posts(posts: Seq<StoredPost>, sought: Sought) -> Seq<StoredPost>
    decreases posts.len(),
{
    if posts.len() == 0 {
        posts
    } else {
        let init = other_posts(posts.drop_last(), sought);
        if reposts(posts.last(), sought) {
            init
        } else {
            init.push(posts.last())
        }
    }
}

proof fn only_others_are_left(
    posts: Seq<StoredPost>,
    sought: Sought,
    later: Sought,
    message: Seq<char>,
)
    ensures
        earlier_posts(
            recent_posts(handed_out(posts, sought), later.cutoff),
            later,
            message,
        ) == earlier_posts(recent_posts(other_posts(posts, sought), later.cutoff), later, message),
    decreases posts.len(),
{
    if posts.len() == 0 {
        assert(handed_out(posts, sought) =~= other_posts(posts, sought));
    } else {
        let init = posts.drop_last();
        let cleared = handed_out(posts, sought);
        only_others_are_left(init, sought, later, message);
        assert(cleared.drop_last() =~= handed_out(init, sought));
        let kept = recent_posts(handed_out(init, sought), later.cutoff);
        assert(kept.push(cleared.last()).drop_last() =~= kept);
        if !reposts(posts.last(), sought) {
            let others = other_posts(init, sought);
            assert(others.push(posts.last()).drop_last() =~= others);
            let late = recent_posts(others, later.cutoff);
            assert(late.push(posts.last()).drop_last() =~= late);
        }
    }
}

/// A post of a flood is handed out once. Once the posts of an image were handed out,
/// whatever image is posted next, and by whomever, what is handed out is found among
/// the other posts.
pub proof fn posts_are_handed_out_once(
    posts: Seq<StoredPost>,
    sought: Sought,
    later: Sought,
    channel: Seq<char>,
    message: Seq<char>,
    now: i64,
)
    ensures
        earlier_posts(
            recorded(handed_out(posts, sought), later, channel, message, now),
            later,
            message,
        ) == earlier_posts(
            recorded(other_posts(posts, sought), later, channel, message, now),
            later,
            message,
        ),
{
    only_others_are_left(posts, sought, later, message);
    let new = new_post(later.guild_id, later.user_id, channel, message, later.hash, now);
    let cleared = recent_posts(handed_out(posts, sought), later.cutoff);
    let others = recent_posts(other_posts(posts, sought), later.cutoff);
    assert(cleared.push(new).drop_last() =~= cleared);
    assert(others.push(new).drop_last() =~= others);
}

/// The table after the first `j` of a list of posted images, where it was empty
/// before them.
pub open spec fn table_of(d: FloodDetector, history: Seq<Posting>, j: nat) -> Seq<StoredPost>
    decreases j,
{
    if j == 0 {
        Seq::empty()
    } else {
        table_after(d, table_of(d, history, (j - 1) as nat), history[j - 1])
    }
}

/// The `k`-th posted image stays in the table while those before the `j`-th come in.
pub open spec fn stays(d: FloodDetector, history: Seq<Posting>, k: int, j: int) -> bool {
    forall|i: int|
        k < i < j ==> history[k].now >= (#[trigger] history[i]).now - d.window()
}

/// The `k`-th posted image counts with the `j`-th: the same user posted it in the
/// same server within the window, and it is (a variant of) the same image.
pub open spec fn counts_with(d: FloodDetector, history: Seq<Posting>, k: int, j: int) -> bool {
    &&& stays(d, history, k, j)
    &&& history[k].now >= history[j].now - d.window()
    &&& history[k].guild == history[j].guild
    &&& history[k].user == history[j].user
    &&& hamming(history[j].hash, history[k].hash) <= d.threshold()
}

/// The channels of those of the first `n` posted images that count with the `j`-th.
pub open spec fn flooded_channels(d: FloodDetector, history: Seq<Posting>, j: int, n: nat) -> Set<
    u64,
> {
    Set::new(
        |c: u64|
            exists|k: int|
                0 <= k < n && #[trigger] counts_with(d, history, k, j) && history[k].channel == c,
    )
}

/// The `j`-th posted image is a flood: those that count with it, itself among them,
/// are in enough channels.
pub open spec fn is_flood(d: FloodDetector, history: Seq<Posting>, j: int) -> bool {
    flooded_channels(d, history, j, (j + 1) as nat).len() >= d.channels_needed()
}

/// The `k`-th posted image counted with a flood before the `j`-th.
pub open spec fn used_up(d: FloodDetector, history: Seq<Posting>, k: int, j: int) -> bool {
    exists|i: int|
        k <= i < j && #[trigger] counts_with(d, history, k, i) && is_flood(d, history, i)
}

/// The `k`-th posted image is one of the earlier ones of the `j`-th: it counts with
/// it, is in another message, and counted with no flood before.
pub open spec fn is_earlier(d: FloodDetector, history: Seq<Posting>, k: int, j: int) -> bool {
    &&& counts_with(d, history, k, j)
    &&& history[k].message != history[j].message
    &&& !used_up(d, history, k, j)
}

/// The channels and messages of those of the first `n` posted images that are
/// earlier ones of the `j`-th.
pub open spec fn earlier_ones(d: FloodDetector, history: Seq<Posting>, j: int, n: nat) -> Seq<
    (u64, u64),
>
    decreases n,
{
    if n == 0 {
        Seq::empty()
    } else {
        let init = earlier_ones(d, history, j, (n - 1) as nat);
        if is_earlier(d, history, n - 1, j) {
            init.push((history[n - 1].channel, history[n - 1].message))
        } else {
            init
        }
    }
}

/// Each posted image is in a channel and a message that have an id, and its hash can
/// be read back from its text.
pub open spec fn is_history(history: Seq<Posting>) -> bool {
    forall|k: int|
        0 <= k < history.len() ==> {
            &&& (#[trigger] history[k]).channel != 0
            &&& history[k].message != 0
            &&& base64_bytes(base64_text(history[k].hash)) == Some(history[k].hash)
        }
}

/// A posted image as it is recorded.
spec fn recorded_post(p: Posting) -> StoredPost {
    new_post(
        decimal(p.guild as nat),
        decimal(p.user as nat),
        decimal(p.channel as nat),
        decimal(p.message as nat),
        p.hash,
        p.now,
    )
}

/// The row of the `k`-th posted image before the `used`-th comes in.
spec fn row_at(d: FloodDetector, history: Seq<Posting>, k: int, used: int) -> StoredPost {
    if used_up(d, history, k, used) {
        StoredPost { message_id: Seq::empty(), ..recorded_post(history[k]) }
    } else {
        recorded_post(history[k])
    }
}

/// The rows of those of the first `n` posted images that stay while those before the
/// `kept`-th come in.
spec fn rows_at(d: FloodDetector, history: Seq<Posting>, n: nat, kept: int, used: int) -> Seq<
    StoredPost,
>
    decreases n,
{
    if n == 0 {
        Seq::empty()
    } else {
        let init = rows_at(d, history, (n - 1) as nat, kept, used);
        if stays(d, history, n - 1, kept) {
            init.push(row_at(d, history, n - 1, used))
        } else {
            init
        }
    }
}

proof fn stays_one_longer(d: FloodDetector, history: Seq<Posting>, k: int, j: int)
    requires
        0 <= k <= j < history.len(),
    ensures
        stays(d, history, k, j + 1) <==> stays(d, history, k, j) && (k < j ==> history[k].now
            >= history[j].now - d.window()),
{
    if stays(d, history, k, j + 1) && k < j {
        assert(history[k].now >= history[j].now - d.window());
    }
}

proof fn late_rows_are_kept(d: FloodDetector, history: Seq<Posting>, n: nat, j: int)
    requires
        n <= j < history.len(),
    ensures
        recent_posts(rows_at(d, history, n, j, j), sought_by(d, history[j]).cutoff) == rows_at(
            d,
            history,
            n,
            j + 1,
            j,
        ),
    decreases n,
{
    if n > 0 {
        late_rows_are_kept(d, history, (n - 1) as nat, j);
        stays_one_longer(d, history, n - 1, j);
        let init = rows_at(d, history, (n - 1) as nat, j, j);
        assert(init.push(row_at(d, history, n - 1, j)).drop_last() =~= init);
    }
}

/// The row of a posted image counts where the posted image does.
proof fn row_counts(d: FloodDetector, history: Seq<Posting>, k: int, j: int)
    requires
        is_history(history),
        0 <= k <= j < history.len(),
    ensures
        counts_with(d, history, k, j) <==> stays(d, history, k, j + 1) && reposts(
            row_at(d, history, k, j),
            sought_by(d, history[j]),
        ),
{
    stays_one_longer(d, history, k, j);
    decimal_reads_back(history[k].guild);
    decimal_reads_back(history[j].guild);
    decimal_reads_back(history[k].user);
    decimal_reads_back(history[j].user);
    assert(base64_bytes(base64_text(history[k].hash)) == Some(history[k].hash));
}

proof fn channels_of_rows(d: FloodDetector, history: Seq<Posting>, n: nat, j: int)
    requires
        is_history(history),
        n <= j + 1,
        0 <= j < history.len(),
    ensures
        ({
            let hit = channels_hit(rows_at(d, history, n, j + 1, j), sought_by(d, history[j]));
            let flooded = flooded_channels(d, history, j, n);
            &&& hit.finite()
            &&& flooded.finite()
            &&& hit.len() == flooded.len()
            &&& forall|c: u64| #[trigger]
                flooded.contains(c) <==> hit.contains(decimal(c as nat))
        }),
    decreases n,
{
    let sought = sought_by(d, history[j]);
    let rows = rows_at(d, history, n, j + 1, j);
    let flooded = flooded_channels(d, history, j, n);
    if n == 0 {
        assert(flooded =~= Set::empty());
    } else {
        let k = n - 1;
        let before = flooded_channels(d, history, j, k as nat);
        let init = rows_at(d, history, k as nat, j + 1, j);
        channels_of_rows(d, history, k as nat, j);
        row_counts(d, history, k, j);
        assert(init.push(row_at(d, history, k, j)).drop_last() =~= init);
        if counts_with(d, history, k, j) {
            let channel = history[k].channel;
            assert(flooded =~= before.insert(channel)) by {
                assert forall|c: u64| flooded.contains(c) <==> before.insert(channel).contains(c) by {
                    if before.contains(c) {
                        let i = choose|i: int|
                            0 <= i < k && #[trigger] counts_with(d, history, i, j)
                                && history[i].channel == c;
                        assert(counts_with(d, history, i, j));
                    }
                }
            }
            assert forall|c: u64| #[trigger]
                flooded.contains(c) <==> channels_hit(rows, sought).contains(decimal(c as nat)) by {
                decimal_reads_back(c);
                decimal_reads_back(channel);
            }
        } else {
            assert(flooded =~= before) by {
                assert forall|c: u64| flooded.contains(c) <==> before.contains(c) by {
                    if before.contains(c) {
                        let i = choose|i: int|
                            0 <= i < k && #[trigger] counts_with(d, history, i, j)
                                && history[i].channel == c;
                        assert(counts_with(d, history, i, j));
                    }
                }
            }
        }
    }
}

proof fn earlier_rows(d: FloodDetector, history: Seq<Posting>, n: nat, j: int)
    requires
        is_history(history),
        n <= j + 1,
        0 <= j < history.len(),
    ensures
        earlier_posts(
            rows_at(d, history, n, j + 1, j),
            sought_by(d, history[j]),
            decimal(history[j].message as nat),
        ) == earlier_ones(d, history, j, n),
    decreases n,
{
    if n > 0 {
        let k = n - 1;
        let init = rows_at(d, history, k as nat, j + 1, j);
        earlier_rows(d, history, k as nat, j);
        row_counts(d, history, k, j);
        assert(init.push(row_at(d, history, k, j)).drop_last() =~= init);
        decimal_reads_back(history[k].channel);
        decimal_reads_back(history[k].message);
        decimal_reads_back(history[j].message);
        assert(history[k].channel != 0);
    }
}

proof fn used_up_one_later(d: FloodDetector, history: Seq<Posting>, k: int, j: int)
    requires
        0 <= k <= j < history.len(),
    ensures
        used_up(d, history, k, j + 1) <==> used_up(d, history, k, j) || (counts_with(
            d,
            history,
            k,
            j,
        ) && is_flood(d, history, j)),
{
    if used_up(d, history, k, j) {
        let i = choose|i: int|
            k <= i < j && #[trigger] counts_with(d, history, k, i) && is_flood(d, history, i);
        assert(counts_with(d, history, k, i));
    }
}

proof fn rows_are_used_up(d: FloodDetector, history: Seq<Posting>, n: nat, j: int)
    requires
        is_history(history),
        n <= j + 1,
        0 <= j < history.len(),
    ensures
        rows_at(d, history, n, j + 1, j + 1) == if is_flood(d, history, j) {
            handed_out(rows_at(d, history, n, j + 1, j), sought_by(d, history[j]))
        } else {
            rows_at(d, history, n, j + 1, j)
        },
    decreases n,
{
    let sought = sought_by(d, history[j]);
    let rows = rows_at(d, history, n, j + 1, j);
    if n == 0 {
        assert(handed_out(rows, sought) =~= rows);
    } else {
        let k = n - 1;
        let init = rows_at(d, history, k as nat, j + 1, j);
        rows_are_used_up(d, history, k as nat, j);
        row_counts(d, history, k, j);
        used_up_one_later(d, history, k, j);
        if stays(d, history, k, j + 1) {
            assert(handed_out(rows, sought) =~= handed_out(init, sought).push(
                handed_out(rows, sought).last(),
            ));
        }
    }
}

/// The table holds the posted images that stay, and the messages of those that were
/// not used up.
proof fn table_follows_the_history(d: FloodDetector, history: Seq<Posting>, j: nat)
    requires
        is_history(history),
        j <= history.len(),
    ensures
        table_of(d, history, j) == rows_at(d, history, j, j as int, j as int),
        j < history.len() ==> table_with(d, table_of(d, history, j), history[j as int]) == rows_at(
            d,
            history,
            j + 1,
            (j + 1) as int,
            j as int,
        ),
    decreases j,
{
    if j > 0 {
        let last = (j - 1) as nat;
        table_follows_the_history(d, history, last);
        channels_of_rows(d, history, j, last as int);
        rows_are_used_up(d, history, j, last as int);
    }
    if j < history.len() {
        late_rows_are_kept(d, history, j, j as int);
    }
}

/// What is answered to each posted image follows from those before it alone. It is a
/// flood exactly where the images that count with it, itself among them, are in
/// enough different channels. What is handed out is each of them that is in another
/// message and counted with no flood before.
pub proof fn answers_follow_the_history(d: FloodDetector, history: Seq<Posting>, j: int)
    requires
        is_history(history),
        0 <= j < history.len(),
    ensures
        answer_to(d, table_of(d, history, j as nat), history[j]) == if is_flood(d, history, j) {
            Some(
                (
                    flooded_channels(d, history, j, (j + 1) as nat).len(),
                    earlier_ones(d, history, j, (j + 1) as nat),
                ),
            )
        } else {
            None
        },
{
    table_follows_the_history(d, history, j as nat);
    channels_of_rows(d, history, (j + 1) as nat, j);
    earlier_rows(d, history, (j + 1) as nat, j);
}

/// No posted image is handed out for two floods, and one that is no flood uses up
/// none.
pub proof fn posted_images_are_used_up_once(
    d: FloodDetector,
    history: Seq<Posting>,
    k: int,
    i: int,
    j: int,
)
    requires
        0 <= k <= i < j < history.len(),
    ensures
        counts_with(d, history, k, i) && is_flood(d, history, i) ==> !is_earlier(d, history, k, j),
        !is_flood(d, history, i) ==> (used_up(d, history, k, i + 1) <==> used_up(
            d,
            history,
            k,
            i,
        )),
{
    used_up_one_later(d, history, k, i);
}

} // verus!
