//! From a message to a sanction: what is scanned, what a detection is, and what
//! is done about it.
use vstd::prelude::*;

use crate::commands;
use crate::commands::{any_role_listed, has_a_role};
use crate::config::{Action, Config, GuildConfig};
use crate::embeds::{
    row_texts, ButtonRow, ButtonText, EmbedField, EmbedText, FieldText, LogEmbed,
};
use crate::flood::FloodHit;
use crate::hashstore::{
    hashed, image_matches_itself, is_best_match, match_view, ImageVariants, MatchResult,
    ReferenceStore, Variants,
};
use crate::linkimage::{first_urls, passing_urls, urls_in, LinkImageFetcher};
use crate::lists::{at_most, has_value};
use crate::mentions::{channel_mention, mention_channel, mention_user, user_mention};
use crate::ocr::OcrMatch;
use crate::recent::Post;
use crate::review;
use crate::review::{reference_rows, unconfirmed_rows, ADD_REFERENCE_MENU, BUTTON_PREFIX};
use crate::rows::{signed, signed_value};
use crate::text::{
    ascii_alphanumeric, chars_of, decimal, decimal_text, ends_with, ends_with_text,
    is_ascii_alphanumeric, join, joined, same_text, starts_with, starts_with_text, string_of, texts,
};
use crate::unicode::{lowercase, to_lowercase};

verus! {

/// Why an image was detected.
#[derive(Debug, PartialEq)]
pub enum DetectionReason {
    KnownReference { reference: String, distance: u32 },
    CrossChannelFlood { channels: usize },
    ScamText { score: u32, matched: Vec<String> },
    /// A post from before the reference existed.
    RetroMatch { reference: String, distance: u32, messages: usize },
}

/// What a [`DetectionReason`] says.
#[verifier::ext_equal]
pub enum Reason {
    KnownReference { reference: Seq<char>, distance: u32 },
    CrossChannelFlood { channels: usize },
    ScamText { score: u32, matched: Seq<Seq<char>> },
    RetroMatch { reference: Seq<char>, distance: u32, messages: usize },
}

impl View for DetectionReason {
    type V = Reason;

    open spec fn view(&self) -> Reason {
        match self {
            DetectionReason::KnownReference { reference, distance } => Reason::KnownReference {
                reference: reference@,
                distance: *distance,
            },
            DetectionReason::CrossChannelFlood { channels } => Reason::CrossChannelFlood {
                channels: *channels,
            },
            DetectionReason::ScamText { score, matched } => Reason::ScamText {
                score: *score,
                matched: texts(matched@),
            },
            DetectionReason::RetroMatch { reference, distance, messages } => Reason::RetroMatch {
                reference: reference@,
                distance: *distance,
                messages: *messages,
            },
        }
    }
}

/// The headline of a detection.
pub open spec fn title_of(reason: Reason) -> Seq<char> {
    match reason {
        Reason::KnownReference { .. } => "🚨 Image matches a known scam"@,
        Reason::CrossChannelFlood { .. } => "🚨 Same image posted across multiple channels"@,
        Reason::ScamText { .. } => "🚨 Image text matches a known scam pattern"@,
        Reason::RetroMatch { .. } => "🚨 Recent post matches a newly added scam reference"@,
    }
}

/// The most phrases that a description names.
pub const MAX_NAMED_PHRASES: usize = 8;

/// Each of a list of phrases between backticks.
pub open spec fn quoted(phrases: Seq<Seq<char>>) -> Seq<Seq<char>> {
    phrases.map_values(|p: Seq<char>| "`"@ + p + "`"@)
}

/// A list of phrases in words: the first few, and how many more there are.
pub open spec fn phrase_list(phrases: Seq<Seq<char>>) -> Seq<char> {
    let named = joined(quoted(at_most(phrases, MAX_NAMED_PHRASES as int)), ", "@);
    if phrases.len() > MAX_NAMED_PHRASES {
        named + " (+"@ + decimal((phrases.len() - MAX_NAMED_PHRASES) as nat) + " more)"@
    } else {
        named
    }
}

/// A detection in words.
pub open spec fn description_of(reason: Reason) -> Seq<char> {
    match reason {
        Reason::KnownReference { reference, distance } => "Matches reference `"@ + reference
            + "` (hash distance: "@ + decimal(distance as nat) + ")."@,
        Reason::CrossChannelFlood { channels } => "The same image was posted in "@ + decimal(
            channels as nat,
        )
            + " different channels in a short time — a typical sign of a compromised account auto-spamming."@,
        Reason::ScamText { score, matched } => "Text read from the image (OCR) scored "@ + decimal(
            score as nat,
        ) + ". Matched: "@ + phrase_list(matched) + "."@,
        Reason::RetroMatch { reference, distance, messages } => decimal(messages as nat)
            + " post(s) from the last few minutes match `"@ + reference + "` (hash distance: "@
            + decimal(distance as nat)
            + "), added as a reference after they were posted."@,
    }
}

/// The buttons under a detection: one that a reference caused can only be wrong
/// by that reference, and any other can be confirmed or dismissed.
pub open spec fn buttons_for(reason: Reason, author: u64) -> Seq<Seq<ButtonText>> {
    match reason {
        Reason::KnownReference { reference, .. } => reference_rows(Some(author), reference),
        Reason::RetroMatch { reference, .. } => reference_rows(Some(author), reference),
        Reason::CrossChannelFlood { .. } => unconfirmed_rows(author),
        Reason::ScamText { .. } => unconfirmed_rows(author),
    }
}

/// A list of phrases in words: the first few, and how many more there are.
fn name_phrases(phrases: &Vec<String>) -> (r: String)
    ensures
        r@ == phrase_list(texts(phrases@)),
{
    let count: usize = if phrases.len() <= MAX_NAMED_PHRASES {
        phrases.len()
    } else {
        MAX_NAMED_PHRASES
    };
    let ghost named = at_most(texts(phrases@), MAX_NAMED_PHRASES as int);
    assert(named =~= texts(phrases@).take(count as int));
    let mut marked: Vec<String> = Vec::new();
    assert(texts(marked@) =~= quoted(named.take(0)));
    for i in 0..count
        invariant
            count <= phrases@.len(),
            named == texts(phrases@).take(count as int),
            texts(marked@) == quoted(named.take(i as int)),
    {
        let ghost before = texts(marked@);
        let mut mark = "`".to_owned();
        mark.append(phrases[i].as_str());
        mark.append("`");
        marked.push(mark);
        assert(named[i as int] == phrases@[i as int]@);
        assert(texts(marked@) =~= before.push(mark@));
        assert(quoted(named.take(i + 1)) =~= before.push("`"@ + named[i as int] + "`"@));
    }
    assert(named.take(count as int) =~= named);
    let mut text = join(marked.as_slice(), ", ");
    if phrases.len() > MAX_NAMED_PHRASES {
        text.append(" (+");
        text.append(decimal_text((phrases.len() - MAX_NAMED_PHRASES) as u64).as_str());
        text.append(" more)");
    }
    text
}

impl DetectionReason {
    /// The headline of the detection.
    pub fn title(&self) -> (r: &'static str)
        ensures
            r@ == title_of(self@),
    {
        match self {
            DetectionReason::KnownReference { .. } => "🚨 Image matches a known scam",
            DetectionReason::CrossChannelFlood { .. } => "🚨 Same image posted across multiple channels",
            DetectionReason::ScamText { .. } => "🚨 Image text matches a known scam pattern",
            DetectionReason::RetroMatch { .. } => "🚨 Recent post matches a newly added scam reference",
        }
    }

    /// The detection in words.
    pub fn description(&self) -> (r: String)
        ensures
            r@ == description_of(self@),
    {
        match self {
            DetectionReason::KnownReference { reference, distance } => {
                let mut text = "Matches reference `".to_owned();
                text.append(reference.as_str());
                text.append("` (hash distance: ");
                text.append(decimal_text(*distance as u64).as_str());
                text.append(").");
                text
            },
            DetectionReason::CrossChannelFlood { channels } => {
                let mut text = "The same image was posted in ".to_owned();
                text.append(decimal_text(*channels as u64).as_str());
                text.append(
                    " different channels in a short time — a typical sign of a compromised account auto-spamming.",
                );
                text
            },
            DetectionReason::ScamText { score, matched } => {
                let mut text = "Text read from the image (OCR) scored ".to_owned();
                text.append(decimal_text(*score as u64).as_str());
                text.append(". Matched: ");
                text.append(name_phrases(matched).as_str());
                text.append(".");
                text
            },
            DetectionReason::RetroMatch { reference, distance, messages } => {
                let mut text = decimal_text(*messages as u64);
                text.append(" post(s) from the last few minutes match `");
                text.append(reference.as_str());
                text.append("` (hash distance: ");
                text.append(decimal_text(*distance as u64).as_str());
                text.append("), added as a reference after they were posted.");
                text
            },
        }
    }

    /// The buttons under the log message of the detection.
    pub fn review_buttons(&self, author: u64) -> (r: Vec<ButtonRow>)
        ensures
            row_texts(r@) == buttons_for(self@, author),
    {
        match self {
            DetectionReason::KnownReference { reference, .. } => review::reference_buttons(
                Some(author),
                reference.as_str(),
            ),
            DetectionReason::RetroMatch { reference, .. } => review::reference_buttons(
                Some(author),
                reference.as_str(),
            ),
            DetectionReason::CrossChannelFlood { .. } => review::unconfirmed_detection_buttons(
                author,
            ),
            DetectionReason::ScamText { .. } => review::unconfirmed_detection_buttons(author),
        }
    }
}

/// What is done with a message.
#[derive(Debug, PartialEq, Eq)]
pub enum Route {
    Ignore,
    /// It is a command: what follows the prefix.
    Command(String),
    /// Its images are scanned, unless its author has an exempt role.
    Scan,
}

/// What is done with a message, as a value to compare with.
pub enum RouteText {
    Ignore,
    Command(Seq<char>),
    Scan,
}

impl View for Route {
    type V = RouteText;

    open spec fn view(&self) -> RouteText {
        match self {
            Route::Ignore => RouteText::Ignore,
            Route::Command(rest) => RouteText::Command(rest@),
            Route::Scan => RouteText::Scan,
        }
    }
}

/// What is known of a message.
#[derive(Debug)]
pub struct MessageFacts {
    pub in_server: bool,
    pub author_is_bot: bool,
    pub content: String,
    pub channel_id: u64,
    /// How many files are attached to it, and to each message that it forwards.
    pub attachments: Vec<usize>,
}

/// Some file is attached.
pub open spec fn has_files(counts: Seq<usize>) -> bool {
    exists|i: int| 0 <= i < counts.len() && #[trigger] counts[i] > 0
}

/// What is done with a message.
pub open spec fn route_of(
    msg: MessageFacts,
    prefix: Seq<char>,
    links_enabled: bool,
    exempt_channels: Seq<u64>,
) -> RouteText {
    if !msg.in_server || msg.author_is_bot {
        RouteText::Ignore
    } else if starts_with_text(msg.content@, prefix) {
        RouteText::Command(msg.content@.skip(prefix.len() as int))
    } else if !has_files(msg.attachments@) && !links_enabled {
        RouteText::Ignore
    } else if exempt_channels.contains(msg.channel_id) {
        RouteText::Ignore
    } else {
        RouteText::Scan
    }
}

fn any_files(counts: &Vec<usize>) -> (r: bool)
    ensures
        r == has_files(counts@),
{
    for i in 0..counts.len()
        invariant
            forall|k: int| 0 <= k < i ==> #[trigger] counts@[k] == 0,
    {
        if counts[i] > 0 {
            return true;
        }
    }
    false
}

fn after_prefix(content: &str, prefix: &str) -> (r: String)
    requires
        starts_with_text(content@, prefix@),
    ensures
        r@ == content@.skip(prefix@.len() as int),
{
    let chars = chars_of(content);
    let skipped: usize = chars_of(prefix).len();
    let mut rest: Vec<char> = Vec::new();
    assert(rest@ =~= chars@.subrange(skipped as int, skipped as int));
    for i in skipped..chars.len()
        invariant
            skipped <= chars@.len(),
            rest@ == chars@.subrange(skipped as int, i as int),
    {
        rest.push(chars[i]);
        assert(rest@ =~= chars@.subrange(skipped as int, i + 1));
    }
    assert(rest@ =~= content@.skip(skipped as int));
    string_of(rest.as_slice())
}

/// What is done with a message: nothing outside servers or for bots, a command
/// where it starts with the prefix, and else a scan where there may be an image
/// and the channel is not exempt.
pub fn route(msg: &MessageFacts, cfg: &Config, guild: &GuildConfig) -> (r: Route)
    ensures
        r@ == route_of(*msg, cfg.bot.prefix@, cfg.links.enabled, guild.exempt_channel_ids@),
{
    if !msg.in_server || msg.author_is_bot {
        Route::Ignore
    } else if starts_with(msg.content.as_str(), cfg.bot.prefix.as_str()) {
        Route::Command(after_prefix(msg.content.as_str(), cfg.bot.prefix.as_str()))
    } else if !any_files(&msg.attachments) && !cfg.links.enabled {
        Route::Ignore
    } else if has_value(guild.exempt_channel_ids.as_slice(), msg.channel_id) {
        Route::Ignore
    } else {
        Route::Scan
    }
}

/// Whether one of an author's roles is exempt. An author whose roles are not
/// known is not.
pub fn author_is_exempt(guild: &GuildConfig, roles: Option<&Vec<u64>>) -> (r: bool)
    ensures
        r == match roles {
            Some(roles) => has_a_role(roles@, guild.exempt_role_ids@),
            None => false,
        },
{
    match roles {
        Some(roles) => any_role_listed(roles.as_slice(), guild.exempt_role_ids.as_slice()),
        None => false,
    }
}

/// The name ends like that of an image file.
pub open spec fn image_name(lower: Seq<char>) -> bool {
    ||| ends_with_text(lower, ".png"@)
    ||| ends_with_text(lower, ".jpg"@)
    ||| ends_with_text(lower, ".jpeg"@)
    ||| ends_with_text(lower, ".webp"@)
    ||| ends_with_text(lower, ".gif"@)
    ||| ends_with_text(lower, ".bmp"@)
}

/// Whether a name in lower case ends like that of an image file.
pub fn is_image_name(lower: &str) -> (r: bool)
    ensures
        r == image_name(lower@),
{
    ends_with(lower, ".png") || ends_with(lower, ".jpg") || ends_with(lower, ".jpeg") || ends_with(
        lower,
        ".webp",
    ) || ends_with(lower, ".gif") || ends_with(lower, ".bmp")
}

/// Whether an attached file is an image: by its content type, or by its name
/// where it has none.
pub fn is_image_attachment(content_type: Option<&str>, filename: &str) -> (r: bool)
    ensures
        r == match content_type {
            Some(c) => starts_with_text(c@, "image/"@),
            None => image_name(lowercase(filename@)),
        },
{
    match content_type {
        Some(c) => starts_with(c, "image/"),
        None => is_image_name(to_lowercase(filename).as_str()),
    }
}

/// What is known of an attached file.
#[derive(Debug)]
pub struct AttachmentFacts {
    pub filename: String,
    pub content_type: Option<String>,
    pub size: u32,
}

/// The attached file is an image.
pub open spec fn is_image_file(file: AttachmentFacts) -> bool {
    match file.content_type {
        Some(c) => starts_with_text(c@, "image/"@),
        None => image_name(lowercase(file.filename@)),
    }
}

fn file_is_image(file: &AttachmentFacts) -> (r: bool)
    ensures
        r == is_image_file(*file),
{
    match &file.content_type {
        Some(c) => is_image_attachment(Some(c.as_str()), file.filename.as_str()),
        None => is_image_attachment(None, file.filename.as_str()),
    }
}

/// The positions of the images among attached files.
pub open spec fn image_positions(files: Seq<AttachmentFacts>) -> Seq<usize>
    decreases files.len(),
{
    if files.len() == 0 {
        Seq::empty()
    } else {
        let init = image_positions(files.drop_last());
        if is_image_file(files.last()) {
            init.push((files.len() - 1) as usize)
        } else {
            init
        }
    }
}

/// The positions of the images that may become references among attached files,
/// with the extensions to store them under.
pub open spec fn reference_positions(files: Seq<AttachmentFacts>) -> Seq<(usize, Seq<char>)>
    decreases files.len(),
{
    if files.len() == 0 {
        Seq::empty()
    } else {
        let init = reference_positions(files.drop_last());
        let file = files.last();
        if is_image_file(file) && file.size <= commands::MAX_REFERENCE_BYTES {
            init.push(((files.len() - 1) as usize, review::stored_extension(file.filename@)))
        } else {
            init
        }
    }
}

/// The URLs that are looked at in a list of texts, one text after the other.
pub open spec fn urls_of_texts(contents: Seq<Seq<char>>, allowed: Seq<Seq<char>>) -> Seq<Seq<char>>
    decreases contents.len(),
{
    if contents.len() == 0 {
        Seq::empty()
    } else {
        urls_of_texts(contents.drop_last(), allowed) + first_urls(
            passing_urls(urls_in(contents.last()), allowed),
        )
    }
}

fn urls_in_texts(contents: &[String], links: &LinkImageFetcher) -> (r: Vec<String>)
    ensures
        texts(r@) == urls_of_texts(texts(contents@), links@),
{
    let mut urls: Vec<String> = Vec::new();
    assert(texts(urls@) =~= Seq::empty());
    for i in 0..contents.len()
        invariant
            texts(urls@) == urls_of_texts(texts(contents@).take(i as int), links@),
    {
        assert(texts(contents@).take(i + 1).drop_last() =~= texts(contents@).take(i as int));
        let ghost before = texts(urls@);
        let mut more = links.extract_urls(contents[i].as_str());
        let ghost found = texts(more@);
        urls.append(&mut more);
        assert(texts(urls@) =~= before + found);
    }
    assert(texts(contents@).take(contents@.len() as int) =~= texts(contents@));
    urls
}

/// The images of a message that are scanned, in this order.
#[derive(Debug)]
pub struct ScanPlan {
    /// The positions of attached images.
    pub files: Vec<usize>,
    /// The links that are fetched.
    pub urls: Vec<String>,
}

/// The images of a message that are scanned: the attached ones, then the linked
/// ones, where links are looked at. The files and the texts are those of the
/// message, and then those of the messages that it forwards.
pub fn scan_plan(
    files: &[AttachmentFacts],
    contents: &[String],
    links_enabled: bool,
    links: &LinkImageFetcher,
) -> (r: ScanPlan)
    ensures
        r.files@ == image_positions(files@),
        texts(r.urls@) == if links_enabled {
            urls_of_texts(texts(contents@), links@)
        } else {
            Seq::empty()
        },
{
    let mut positions: Vec<usize> = Vec::new();
    for i in 0..files.len()
        invariant
            positions@ == image_positions(files@.take(i as int)),
    {
        assert(files@.take(i + 1).drop_last() =~= files@.take(i as int));
        if file_is_image(&files[i]) {
            positions.push(i);
        }
    }
    assert(files@.take(files@.len() as int) =~= files@);
    let urls = if links_enabled {
        urls_in_texts(contents, links)
    } else {
        Vec::new()
    };
    assert(!links_enabled ==> texts(urls@) =~= Seq::empty());
    ScanPlan { files: positions, urls }
}

/// An image of a message that is scanned.
#[derive(Debug, Clone, Copy, PartialEq, Eq, Structural)]
pub enum ScanItem {
    /// The attached file at this position.
    File(usize),
    /// The link at this position among those that are fetched.
    Link(usize),
}

/// The image of a message that is scanned after `done` others: none once one was
/// detected, else the next attached one, else the next linked one.
pub open spec fn next_item(files: Seq<usize>, links: nat, done: nat, detected: bool) -> Option<
    ScanItem,
> {
    if detected {
        None
    } else if done < files.len() {
        Some(ScanItem::File(files[done as int]))
    } else if done < files.len() + links {
        Some(ScanItem::Link((done - files.len()) as usize))
    } else {
        None
    }
}

/// The image of a message that is scanned after `done` others, where `detected`
/// says whether the last of them was detected. The first detection ends it.
pub fn scan_step(plan: &ScanPlan, done: usize, detected: bool) -> (r: Option<ScanItem>)
    ensures
        r == next_item(plan.files@, plan.urls@.len(), done as nat, detected),
{
    if detected {
        None
    } else if done < plan.files.len() {
        Some(ScanItem::File(plan.files[done]))
    } else if done - plan.files.len() < plan.urls.len() {
        Some(ScanItem::Link(done - plan.files.len()))
    } else {
        None
    }
}

/// The images of a message in the order in which they are scanned.
pub open spec fn scan_items(files: Seq<usize>, links: nat) -> Seq<ScanItem> {
    files.map_values(|i: usize| ScanItem::File(i)) + Seq::new(
        links,
        |i: int| ScanItem::Link(i as usize),
    )
}

/// The images that are scanned after `done` others, where `outcomes` says of each
/// image whether it is detected.
pub open spec fn scanned(files: Seq<usize>, links: nat, outcomes: Seq<bool>, done: nat) -> Seq<
    ScanItem,
>
    decreases files.len() + links - done,
{
    match next_item(files, links, done, done > 0 && outcomes[done - 1]) {
        Some(item) => seq![item] + scanned(files, links, outcomes, done + 1),
        None => Seq::empty(),
    }
}

proof fn scanned_from(files: Seq<usize>, links: nat, outcomes: Seq<bool>, done: nat)
    requires
        done <= files.len() + links,
    ensures
        ({
            let items = scan_items(files, links);
            let end = done + scanned(files, links, outcomes, done).len();
            &&& end <= items.len()
            &&& scanned(files, links, outcomes, done) == items.subrange(done as int, end as int)
            &&& forall|i: int| 0 < i && done <= i < end ==> !#[trigger] outcomes[i - 1]
            &&& end < items.len() ==> end > 0 && outcomes[end - 1]
        }),
    decreases files.len() + links - done,
{
    let items = scan_items(files, links);
    if let Some(item) = next_item(files, links, done, done > 0 && outcomes[done - 1]) {
        scanned_from(files, links, outcomes, done + 1);
        assert(item == items[done as int]);
        let end = done + scanned(files, links, outcomes, done).len();
        assert(scanned(files, links, outcomes, done) =~= items.subrange(done as int, end as int));
    } else {
        assert(scanned(files, links, outcomes, done) =~= items.subrange(done as int, done as int));
    }
}

/// The first detection ends a message: its images are scanned in their order, none
/// but the last of those that are scanned is detected, and where some are left out
/// that one is.
pub proof fn first_detection_ends_a_message(files: Seq<usize>, links: nat, outcomes: Seq<bool>)
    ensures
        ({
            let items = scan_items(files, links);
            let seen = scanned(files, links, outcomes, 0);
            &&& seen.len() <= items.len()
            &&& seen == items.take(seen.len() as int)
            &&& forall|i: int| 0 <= i < seen.len() - 1 ==> !#[trigger] outcomes[i]
            &&& seen.len() < items.len() ==> seen.len() > 0 && outcomes[seen.len() - 1]
        }),
{
    scanned_from(files, links, outcomes, 0);
    let seen = scanned(files, links, outcomes, 0);
    assert forall|i: int| 0 <= i < seen.len() - 1 implies !#[trigger] outcomes[i] by {
        assert(!outcomes[(i + 1) - 1]);
    }
}

/// The extension that linked images are stored under.
pub const LINKED_EXTENSION: &'static str = "png";

/// The images of a message that become references, in this order.
#[derive(Debug)]
pub struct CollectPlan {
    /// The positions of attached images, and the extensions to store them under.
    pub files: Vec<(usize, String)>,
    /// The links that are fetched, to be stored under [`LINKED_EXTENSION`].
    pub urls: Vec<String>,
}

/// Positions and extensions.
pub open spec fn position_views(files: Seq<(usize, String)>) -> Seq<(usize, Seq<char>)> {
    files.map_values(|f: (usize, String)| (f.0, f.1@))
}

/// The images of a message that become references where it is picked: the
/// attached ones within the size limit, then the linked ones, where links are
/// looked at.
pub fn collect_plan(
    files: &[AttachmentFacts],
    contents: &[String],
    links_enabled: bool,
    links: &LinkImageFetcher,
) -> (r: CollectPlan)
    ensures
        position_views(r.files@) == reference_positions(files@),
        texts(r.urls@) == if links_enabled {
            urls_of_texts(texts(contents@), links@)
        } else {
            Seq::empty()
        },
{
    let mut positions: Vec<(usize, String)> = Vec::new();
    assert(position_views(positions@) =~= reference_positions(files@.take(0)));
    for i in 0..files.len()
        invariant
            position_views(positions@) == reference_positions(files@.take(i as int)),
    {
        assert(files@.take(i + 1).drop_last() =~= files@.take(i as int));
        let ghost before = position_views(positions@);
        if file_is_image(&files[i]) && commands::fits_reference(files[i].size) {
            let extension = review::extension_of(files[i].filename.as_str());
            positions.push((i, extension));
            assert(position_views(positions@) =~= before.push((i, extension@)));
        }
    }
    assert(files@.take(files@.len() as int) =~= files@);
    let urls = if links_enabled {
        urls_in_texts(contents, links)
    } else {
        Vec::new()
    };
    assert(!links_enabled ==> texts(urls@) =~= Seq::empty());
    CollectPlan { files: positions, urls }
}

/// The character may stand in the name of an evidence file.
pub open spec fn plain_char(c: char) -> bool {
    is_ascii_alphanumeric(c) || c == '.' || c == '_' || c == '-'
}

/// A name with an underscore for every other character.
pub open spec fn cleaned(name: Seq<char>) -> Seq<char> {
    name.map_values(
        |c: char|
            if plain_char(c) {
                c
            } else {
                '_'
            },
    )
}

/// The name of an evidence file.
pub open spec fn evidence_name(name: Seq<char>) -> Seq<char> {
    if name.len() == 0 {
        "evidence.png"@
    } else {
        cleaned(name)
    }
}

/// The name of an evidence file: plain characters only, and never none.
pub fn sanitize_filename(name: &str) -> (r: String)
    ensures
        r@ == evidence_name(name@),
{
    let chars = chars_of(name);
    if chars.len() == 0 {
        return "evidence.png".to_owned();
    }
    let mut clean: Vec<char> = Vec::new();
    assert(clean@ =~= cleaned(name@.take(0)));
    for i in 0..chars.len()
        invariant
            chars@ == name@,
            clean@ == cleaned(name@.take(i as int)),
    {
        let c = chars[i];
        let ghost before = clean@;
        if ascii_alphanumeric(c) || c == '.' || c == '_' || c == '-' {
            clean.push(c);
        } else {
            clean.push('_');
        }
        assert(cleaned(name@.take(i + 1)) =~= before.push(clean@.last()));
    }
    assert(name@.take(name@.len() as int) =~= name@);
    string_of(clean.as_slice())
}

/// What an image is checked for next.
#[derive(Debug)]
pub enum NextCheck {
    /// It was detected, together with these other posts.
    Detected { reason: DetectionReason, others: Vec<(u64, u64)> },
    /// Whether it floods the server's channels.
    Flood,
    /// Whether its text is a scam's.
    Text,
    /// Nothing: it is remembered as harmless.
    Remember,
}

/// What an image is checked for next, as a value to compare with.
#[verifier::ext_equal]
pub enum CheckStep {
    Detected { reason: Reason, others: Seq<(u64, u64)> },
    Flood,
    Text,
    Remember,
}

impl View for NextCheck {
    type V = CheckStep;

    open spec fn view(&self) -> CheckStep {
        match self {
            NextCheck::Detected { reason, others } => CheckStep::Detected {
                reason: reason@,
                others: others@,
            },
            NextCheck::Flood => CheckStep::Flood,
            NextCheck::Text => CheckStep::Text,
            NextCheck::Remember => CheckStep::Remember,
        }
    }
}

/// What follows the comparison with the references.
pub open spec fn step_after_match(
    best: Option<(Seq<char>, u32)>,
    threshold: u32,
    flood_on: bool,
    text_on: bool,
) -> CheckStep {
    match best {
        Some((reference, distance)) => if distance < threshold {
            CheckStep::Detected {
                reason: Reason::KnownReference { reference, distance },
                others: Seq::empty(),
            }
        } else {
            step_without_match(flood_on, text_on)
        },
        None => step_without_match(flood_on, text_on),
    }
}

/// What follows where no reference is close.
pub open spec fn step_without_match(flood_on: bool, text_on: bool) -> CheckStep {
    if flood_on {
        CheckStep::Flood
    } else {
        step_after_flood(None, text_on)
    }
}

/// What follows the check for a flood.
pub open spec fn step_after_flood(hit: Option<(usize, Seq<(u64, u64)>)>, text_on: bool) -> CheckStep {
    match hit {
        Some((channels, others)) => CheckStep::Detected {
            reason: Reason::CrossChannelFlood { channels },
            others,
        },
        None => if text_on {
            CheckStep::Text
        } else {
            step_after_text(None)
        },
    }
}

/// What follows the reading of the text.
pub open spec fn step_after_text(found: Option<(u32, Seq<Seq<char>>)>) -> CheckStep {
    match found {
        Some((score, matched)) => CheckStep::Detected {
            reason: Reason::ScamText { score, matched },
            others: Seq::empty(),
        },
        None => CheckStep::Remember,
    }
}

/// What follows the comparison with the references: a detection where one is
/// close, else the check for a flood, if there is one.
pub fn after_match(best: Option<MatchResult>, threshold: u32, flood_on: bool, text_on: bool) -> (r:
    NextCheck)
    ensures
        r@ == step_after_match(match_view(best), threshold, flood_on, text_on),
{
    if let Some(m) = best {
        if m.distance < threshold {
            let others: Vec<(u64, u64)> = Vec::new();
            assert(others@ =~= Seq::empty());
            return NextCheck::Detected {
                reason: DetectionReason::KnownReference {
                    reference: m.filename,
                    distance: m.distance,
                },
                others,
            };
        }
    }
    if flood_on {
        NextCheck::Flood
    } else {
        after_flood(None, text_on)
    }
}

/// What follows the check for a flood: a detection with the earlier posts, else
/// the reading of the text, if there is one.
pub fn after_flood(hit: Option<FloodHit>, text_on: bool) -> (r: NextCheck)
    ensures
        r@ == step_after_flood(
            (match hit {
                Some(hit) => Some((hit.channels, hit.earlier_messages@)),
                None => None,
            }),
            text_on,
        ),
{
    match hit {
        Some(hit) => NextCheck::Detected {
            reason: DetectionReason::CrossChannelFlood { channels: hit.channels },
            others: hit.earlier_messages,
        },
        None => if text_on {
            NextCheck::Text
        } else {
            after_text(None)
        },
    }
}

/// What follows the reading of the text: a detection where it is a scam's. An
/// image that passed every check is remembered, for references that come later.
pub fn after_text(found: Option<OcrMatch>) -> (r: NextCheck)
    ensures
        r@ == step_after_text(
            match found {
                Some(m) => Some((m.score, texts(m.matched@))),
                None => None,
            },
        ),
{
    match found {
        Some(m) => {
            let others: Vec<(u64, u64)> = Vec::new();
            assert(others@ =~= Seq::empty());
            NextCheck::Detected {
                reason: DetectionReason::ScamText { score: m.score, matched: m.matched },
                others,
            }
        },
        None => NextCheck::Remember,
    }
}

/// Hashes an image and compares it with the references. `None` where it cannot be
/// hashed, and is not checked at all.
pub fn evaluate_image(store: &ReferenceStore, bytes: &[u8], cfg: &Config, text_on: bool) -> (r:
    Option<(ImageVariants, NextCheck)>)
    requires
        store.wf(),
    ensures
        match r {
            Some((hash, next)) => {
                &&& hashed(bytes@, Seq::empty()) == Some(hash@)
                &&& exists|best: Option<(Seq<char>, u32)>| #[trigger]
                    is_best_match(store@, hash@, best) && next@ == step_after_match(
                        best,
                        cfg.detection.match_threshold,
                        cfg.flood.enabled,
                        text_on,
                    )
            },
            None => hashed(bytes@, Seq::empty()) is None,
        },
{
    match store.hash_bytes(bytes) {
        Ok(hash) => {
            let best = store.best_match(&hash);
            let ghost best_view = match_view(best);
            let next = after_match(
                best,
                cfg.detection.match_threshold,
                cfg.flood.enabled,
                text_on,
            );
            assert(is_best_match(store@, hash@, best_view));
            Some((hash, next))
        },
        Err(_) => None,
    }
}

/// The messages of a list of posts.
pub open spec fn messages_of(posts: Seq<(u64, u64)>) -> Seq<u64> {
    posts.map_values(|p: (u64, u64)| p.1)
}

/// The messages that a detection handles: the flagged one first. They are
/// forgotten as recent posts, so that no later reference acts on them again.
pub fn handled_messages(post: &Post, others: &[(u64, u64)]) -> (r: Vec<u64>)
    ensures
        r@ == seq![post.message_id] + messages_of(others@),
{
    let mut handled: Vec<u64> = Vec::new();
    handled.push(post.message_id);
    assert(handled@ =~= seq![post.message_id] + messages_of(others@.take(0)));
    for i in 0..others.len()
        invariant
            handled@ == seq![post.message_id] + messages_of(others@.take(i as int)),
    {
        handled.push(others[i].1);
        assert(handled@ =~= seq![post.message_id] + messages_of(others@.take(i + 1)));
    }
    assert(others@.take(others@.len() as int) =~= others@);
    handled
}

fn push_posts(list: &mut Vec<(u64, u64)>, more: &[(u64, u64)])
    ensures
        final(list)@ == old(list)@ + more@,
{
    let ghost before = list@;
    assert(list@ =~= before + more@.take(0));
    for i in 0..more.len()
        invariant
            list@ == before + more@.take(i as int),
    {
        list.push(more[i]);
        assert(list@ =~= before + more@.take(i + 1));
    }
    assert(more@.take(more@.len() as int) =~= more@);
}

/// The posts that a detection deletes: the flagged one first, or none where it is
/// only logged.
pub open spec fn targets_of(action: Action, post: Post, others: Seq<(u64, u64)>) -> Seq<
    (u64, u64),
> {
    if action == Action::LogOnly {
        Seq::empty()
    } else {
        seq![(post.channel_id, post.message_id)] + others
    }
}

/// The posts that a detection deletes: the flagged one first, or none where it is
/// only logged.
pub fn delete_targets(action: Action, post: &Post, others: &[(u64, u64)]) -> (r: Vec<(u64, u64)>)
    ensures
        r@ == targets_of(action, *post, others@),
{
    let mut targets: Vec<(u64, u64)> = Vec::new();
    if action == Action::LogOnly {
        assert(targets@ =~= Seq::empty());
        return targets;
    }
    targets.push((post.channel_id, post.message_id));
    assert(targets@ =~= seq![(post.channel_id, post.message_id)]);
    push_posts(&mut targets, others);
    targets
}

/// What a detection leads to.
#[derive(Debug)]
pub struct DetectionPlan {
    /// The messages that are forgotten as recent posts.
    pub handled: Vec<u64>,
    /// The channels and messages that are deleted.
    pub targets: Vec<(u64, u64)>,
    /// What is done to the author.
    pub sanction: Option<Sanction>,
}

/// What a detection leads to, by the server's settings: the flagged post, the
/// other posts that are part of it, and those that a look at the author's others
/// found are handled together.
pub fn on_detection(
    guild: &GuildConfig,
    post: &Post,
    others: &[(u64, u64)],
    swept: &[(u64, u64)],
) -> (r: DetectionPlan)
    ensures
        r.handled@ == seq![post.message_id] + messages_of(others@ + swept@),
        r.targets@ == targets_of(guild.action, *post, others@ + swept@),
        r.sanction == sanction_by(guild.action, guild.timeout_minutes),
{
    let mut all: Vec<(u64, u64)> = Vec::new();
    push_posts(&mut all, others);
    push_posts(&mut all, swept);
    assert(all@ =~= others@ + swept@);
    DetectionPlan {
        handled: handled_messages(post, all.as_slice()),
        targets: delete_targets(guild.action, post, all.as_slice()),
        sanction: sanction_of(guild),
    }
}

/// What was done to messages, in words.
pub open spec fn deleted_text(action: Action, deleted: nat, swept: nat) -> Seq<char> {
    let base = if action == Action::LogOnly || deleted == 0 {
        "No action (log-only mode)"@
    } else if deleted == 1 {
        "Message deleted"@
    } else {
        decimal(deleted) + " messages deleted"@
    };
    if action != Action::LogOnly && swept > 0 {
        base + " (incl. "@ + decimal(swept)
            + " other post(s) by this author found around that time)"@
    } else {
        base
    }
}

/// What was done to messages, in words: how many were deleted, and how many of
/// the posts were found by looking at the author's others.
pub fn action_text(action: Action, deleted: usize, swept: usize) -> (r: String)
    ensures
        r@ == deleted_text(action, deleted as nat, swept as nat),
{
    let mut text = if action == Action::LogOnly || deleted == 0 {
        "No action (log-only mode)".to_owned()
    } else if deleted == 1 {
        "Message deleted".to_owned()
    } else {
        let mut count = decimal_text(deleted as u64);
        count.append(" messages deleted");
        count
    };
    if action != Action::LogOnly && swept > 0 {
        text.append(" (incl. ");
        text.append(decimal_text(swept as u64).as_str());
        text.append(" other post(s) by this author found around that time)");
    }
    text
}

/// What is done to the author of a scam.
#[derive(Debug, Clone, Copy, PartialEq, Eq, Structural)]
pub enum Sanction {
    Timeout { minutes: u64 },
    Kick,
    Ban,
}

/// What is done to the author of a scam.
pub open spec fn sanction_by(action: Action, timeout_minutes: u64) -> Option<Sanction> {
    match action {
        Action::LogOnly => None,
        Action::DeleteOnly => None,
        Action::DeleteTimeout => Some(Sanction::Timeout { minutes: timeout_minutes }),
        Action::DeleteKick => Some(Sanction::Kick),
        Action::DeleteBan => Some(Sanction::Ban),
    }
}

/// What is done to the author of a scam, by the server's settings.
pub fn sanction_of(guild: &GuildConfig) -> (r: Option<Sanction>)
    ensures
        r == sanction_by(guild.action, guild.timeout_minutes),
{
    match guild.action {
        Action::LogOnly => None,
        Action::DeleteOnly => None,
        Action::DeleteTimeout => Some(Sanction::Timeout { minutes: guild.timeout_minutes }),
        Action::DeleteKick => Some(Sanction::Kick),
        Action::DeleteBan => Some(Sanction::Ban),
    }
}

/// The reason that is given for a kick or a ban.
pub fn sanction_reason() -> (r: &'static str)
    ensures
        r@ == "Account likely compromised: scam automatically detected"@,
{
    "Account likely compromised: scam automatically detected"
}

/// When a timeout ends, in seconds since 1970, where that can be held. The
/// minutes count with a sign.
pub fn timeout_until(now: i64, minutes: u64) -> (r: Option<i64>)
    ensures
        r == if i64::MIN <= now + signed_value(minutes) * 60 <= i64::MAX {
            Some((now + signed_value(minutes) * 60) as i64)
        } else {
            None
        },
{
    let end: i128 = now as i128 + signed(minutes) as i128 * 60;
    if end >= i64::MIN as i128 && end <= i64::MAX as i128 {
        Some(end as i64)
    } else {
        None
    }
}

/// A sanction in words.
pub open spec fn sanction_text(sanction: Sanction) -> Seq<char> {
    match sanction {
        Sanction::Timeout { minutes } => "timeout "@ + decimal(minutes as nat) + " min"@,
        Sanction::Kick => "member kicked"@,
        Sanction::Ban => "member banned"@,
    }
}

/// What became of a sanction.
#[derive(Debug)]
pub enum SanctionOutcome {
    /// There was none to take, or the member could not be found.
    NotTaken,
    Taken(Sanction),
    /// It failed, and why.
    Failed(String),
}

/// What was done, in words.
pub open spec fn taken_text(
    action: Action,
    deleted: nat,
    swept: nat,
    outcome: SanctionOutcome,
) -> Seq<char> {
    let done = deleted_text(action, deleted, swept);
    match outcome {
        SanctionOutcome::NotTaken => done,
        SanctionOutcome::Taken(sanction) => done + " + "@ + sanction_text(sanction),
        SanctionOutcome::Failed(error) => done + " (sanction failed: "@ + error@ + ")"@,
    }
}

/// What was done, in words: the messages that were deleted, and what became of the
/// sanction.
pub fn action_taken(
    action: Action,
    deleted: usize,
    swept: usize,
    outcome: &SanctionOutcome,
) -> (r: String)
    ensures
        r@ == taken_text(action, deleted as nat, swept as nat, *outcome),
{
    let mut text = action_text(action, deleted, swept);
    match outcome {
        SanctionOutcome::NotTaken => {},
        SanctionOutcome::Taken(sanction) => {
            text.append(" + ");
            text.append(sanction_words(*sanction).as_str());
        },
        SanctionOutcome::Failed(error) => {
            text.append(" (sanction failed: ");
            text.append(error.as_str());
            text.append(")");
        },
    }
    text
}

fn sanction_words(sanction: Sanction) -> (r: String)
    ensures
        r@ == sanction_text(sanction),
{
    match sanction {
        Sanction::Timeout { minutes } => {
            let mut text = "timeout ".to_owned();
            text.append(decimal_text(minutes).as_str());
            text.append(" min");
            text
        },
        Sanction::Kick => "member kicked".to_owned(),
        Sanction::Ban => "member banned".to_owned(),
    }
}

/// The log message of a detection.
pub open spec fn detection_embed(
    post: Post,
    filename: Seq<char>,
    reason: Reason,
    action_taken: Seq<char>,
) -> EmbedText {
    EmbedText {
        title: Some(title_of(reason)),
        description: Some(description_of(reason)),
        colour: (220u8, 50u8, 47u8),
        fields: seq![
            FieldText {
                name: "Author"@,
                value: user_mention(post.author_id) + " (`"@ + decimal(post.author_id as nat)
                    + "`)"@,
                inline: true,
            },
            FieldText { name: "Channel"@, value: channel_mention(post.channel_id), inline: true },
            FieldText { name: "Action taken"@, value: action_taken, inline: false },
        ],
        attachment: evidence_name(filename),
        timestamp: true,
    }
}

/// The log message of a detection, with its buttons. `None` where the server has
/// no log channel.
pub fn detection_log(
    guild: &GuildConfig,
    post: &Post,
    filename: &str,
    reason: &DetectionReason,
    action_taken: &str,
) -> (r: Option<(LogEmbed, Vec<ButtonRow>)>)
    ensures
        match r {
            Some((embed, rows)) => {
                &&& guild.log_channel_id != 0
                &&& embed@ == detection_embed(*post, filename@, reason@, action_taken@)
                &&& row_texts(rows@) == buttons_for(reason@, post.author_id)
            },
            None => guild.log_channel_id == 0,
        },
{
    if guild.log_channel_id == 0 {
        return None;
    }
    let mut author = mention_user(post.author_id);
    author.append(" (`");
    author.append(decimal_text(post.author_id).as_str());
    author.append("`)");
    let channel = mention_channel(post.channel_id);
    let mut fields: Vec<EmbedField> = Vec::new();
    fields.push(EmbedField { name: "Author".to_owned(), value: author, inline: true });
    fields.push(EmbedField { name: "Channel".to_owned(), value: channel, inline: true });
    fields.push(
        EmbedField {
            name: "Action taken".to_owned(),
            value: action_taken.to_owned(),
            inline: false,
        },
    );
    let embed = LogEmbed {
        title: Some(reason.title().to_owned()),
        description: Some(reason.description()),
        colour: (220, 50, 47),
        fields,
        attachment: sanitize_filename(filename),
        timestamp: true,
    };
    assert(embed@.fields =~= detection_embed(*post, filename@, reason@, action_taken@).fields);
    assert(embed@ =~= detection_embed(*post, filename@, reason@, action_taken@));
    Some((embed, reason.review_buttons(post.author_id)))
}

/// The seconds between two cleanups of the posted images: twice the window, but
/// not less than two minutes.
pub fn sweep_interval(window_seconds: u64) -> (r: u64)
    requires
        window_seconds * 2 <= u64::MAX,
    ensures
        r == if window_seconds < 60 {
            120
        } else {
            window_seconds * 2
        },
{
    if window_seconds < 60 {
        120
    } else {
        window_seconds * 2
    }
}

/// What kind of interaction came in.
#[derive(Debug, Clone, Copy, PartialEq, Eq, Structural)]
pub enum InteractionKind {
    Command,
    Autocomplete,
    Component,
    Other,
}

/// What answers an interaction.
#[derive(Debug, Clone, Copy, PartialEq, Eq, Structural)]
pub enum InteractionRoute {
    Config,
    ConfigAutocomplete,
    AddReferenceMenu,
    ReviewButton,
    Ignore,
}

/// What answers an interaction, by its kind and by the name of its command or the
/// id of its button.
pub open spec fn interaction_route(kind: InteractionKind, name: Seq<char>) -> InteractionRoute {
    match kind {
        InteractionKind::Command => if name == "config"@ {
            InteractionRoute::Config
        } else if name == ADD_REFERENCE_MENU@ {
            InteractionRoute::AddReferenceMenu
        } else {
            InteractionRoute::Ignore
        },
        InteractionKind::Autocomplete => if name == "config"@ {
            InteractionRoute::ConfigAutocomplete
        } else {
            InteractionRoute::Ignore
        },
        InteractionKind::Component => if starts_with_text(name, BUTTON_PREFIX@) {
            InteractionRoute::ReviewButton
        } else {
            InteractionRoute::Ignore
        },
        InteractionKind::Other => InteractionRoute::Ignore,
    }
}

/// What answers an interaction, by its kind and by the name of its command or the
/// id of its button.
pub fn route_interaction(kind: InteractionKind, name: &str) -> (r: InteractionRoute)
    ensures
        r == interaction_route(kind, name@),
{
    match kind {
        InteractionKind::Command => if same_text(name, "config") {
            InteractionRoute::Config
        } else if same_text(name, ADD_REFERENCE_MENU) {
            InteractionRoute::AddReferenceMenu
        } else {
            InteractionRoute::Ignore
        },
        InteractionKind::Autocomplete => if same_text(name, "config") {
            InteractionRoute::ConfigAutocomplete
        } else {
            InteractionRoute::Ignore
        },
        InteractionKind::Component => if review::is_review_button(name) {
            InteractionRoute::ReviewButton
        } else {
            InteractionRoute::Ignore
        },
        InteractionKind::Other => InteractionRoute::Ignore,
    }
}

/// The checks run in their order: a close reference ends them, a flood is looked
/// for only where none is close, and text is read only where no flood is found.
pub proof fn checks_run_in_order(
    best: Option<(Seq<char>, u32)>,
    threshold: u32,
    flood_on: bool,
    text_on: bool,
    hit: Option<(usize, Seq<(u64, u64)>)>,
)
    ensures
        step_after_match(best, threshold, flood_on, text_on) is Detected <==> (best matches Some(
            (_, distance),
        ) && distance < threshold),
        step_after_match(best, threshold, flood_on, text_on) is Flood ==> flood_on,
        step_after_match(best, threshold, flood_on, text_on) is Text ==> !flood_on && text_on,
        step_after_match(best, threshold, flood_on, text_on) is Remember ==> !flood_on && !text_on,
        step_after_flood(hit, text_on) is Text <==> hit is None && text_on,
        step_after_flood(hit, text_on) is Remember <==> hit is None && !text_on,
{
}

/// An image that is a reference is detected when it is posted, before anything
/// else is checked, unless the threshold lets nothing match.
pub proof fn reference_images_are_detected(
    references: Map<Seq<char>, Variants>,
    filename: Seq<char>,
    bytes: Seq<u8>,
    best: Option<(Seq<char>, u32)>,
    threshold: u32,
    flood_on: bool,
    text_on: bool,
)
    requires
        threshold > 0,
        references.contains_key(filename),
        hashed(bytes, Seq::empty()) == Some(references[filename]),
        is_best_match(references, references[filename], best),
    ensures
        best matches Some((reference, distance)) && distance == 0 && step_after_match(
            best,
            threshold,
            flood_on,
            text_on,
        ) == (CheckStep::Detected {
            reason: Reason::KnownReference { reference, distance },
            others: Seq::empty(),
        }),
{
    let hash = references[filename];
    assert(hash.all[0] == hash.primary);
    image_matches_itself(hash);
}

/// What is deleted is what is handled: the same messages, in the same order.
pub proof fn deleted_messages_are_handled(post: Post, others: Seq<(u64, u64)>)
    ensures
        messages_of(seq![(post.channel_id, post.message_id)] + others) == seq![post.message_id]
            + messages_of(others),
{
    assert(messages_of(seq![(post.channel_id, post.message_id)] + others)
        =~= seq![post.message_id] + messages_of(others));
}

/// The name of an evidence file is plain, whatever the file was called.
pub proof fn evidence_names_are_plain(name: Seq<char>)
    ensures
        evidence_name(name).len() > 0,
        forall|i: int|
            0 <= i < evidence_name(name).len() ==> plain_char(#[trigger] evidence_name(name)[i]),
{
    reveal_strlit("evidence.png");
}

/// A command is a command whatever comes with it: in a server, what follows the
/// prefix in a message of a user is handed on, whatever is attached, wherever it was
/// posted and whether links are looked at.
pub proof fn prefixed_messages_are_commands(
    msg: MessageFacts,
    prefix: Seq<char>,
    rest: Seq<char>,
    links_enabled: bool,
    exempt_channels: Seq<u64>,
)
    requires
        msg.in_server,
        !msg.author_is_bot,
        msg.content@ == prefix + rest,
    ensures
        route_of(msg, prefix, links_enabled, exempt_channels) == RouteText::Command(rest),
{
    assert(msg.content@.subrange(0, prefix.len() as int) =~= prefix);
    assert(msg.content@.skip(prefix.len() as int) =~= rest);
}

/// Nothing else is a command, and nothing is done outside servers or for bots. Any
/// other message is scanned unless its channel is exempt, or nothing is attached and
/// links are not looked at.
pub proof fn other_messages_are_scanned(
    msg: MessageFacts,
    prefix: Seq<char>,
    links_enabled: bool,
    exempt_channels: Seq<u64>,
)
    requires
        forall|rest: Seq<char>| #[trigger] (prefix + rest) != msg.content@,
    ensures
        ({
            let route = route_of(msg, prefix, links_enabled, exempt_channels);
            let attached = exists|i: int|
                0 <= i < msg.attachments@.len() && #[trigger] msg.attachments@[i] != 0;
            &&& route is Scan <==> msg.in_server && !msg.author_is_bot && (attached
                || links_enabled) && !exempt_channels.contains(msg.channel_id)
            &&& route is Ignore <==> !(route is Scan)
        }),
{
    if starts_with_text(msg.content@, prefix) {
        let rest = msg.content@.skip(prefix.len() as int);
        assert(prefix + rest =~= msg.content@);
    }
}

/// A message outside servers, or of a bot, leads to nothing.
pub proof fn bots_and_direct_messages_are_ignored(
    msg: MessageFacts,
    prefix: Seq<char>,
    links_enabled: bool,
    exempt_channels: Seq<u64>,
)
    requires
        !msg.in_server || msg.author_is_bot,
    ensures
        route_of(msg, prefix, links_enabled, exempt_channels) is Ignore,
{
}

/// A flood is a detection with all of its earlier posts, in their order, and with its
/// number of channels, whether text is read or not.
pub proof fn floods_are_detected_whole(
    channels: usize,
    earlier: Seq<(u64, u64)>,
    text_on: bool,
)
    ensures
        step_after_flood(Some((channels, earlier)), text_on) matches CheckStep::Detected {
            reason,
            others,
        } && others.len() == earlier.len() && (forall|i: int|
            0 <= i < earlier.len() ==> #[trigger] others[i] == earlier[i]) && reason == (
        Reason::CrossChannelFlood { channels }),
        step_after_flood(None, text_on) == if text_on {
            CheckStep::Text
        } else {
            CheckStep::Remember
        },
{
}

/// A close reference is a detection that names the reference and the distance, and
/// that has no other posts. One that is not close leads on as none does: to the look
/// for a flood where there is one, else to the reading of the text, else to nothing.
pub proof fn close_references_are_detected(
    reference: Seq<char>,
    distance: u32,
    threshold: u32,
    flood_on: bool,
    text_on: bool,
)
    ensures
        ({
            let step = step_after_match(Some((reference, distance)), threshold, flood_on, text_on);
            let none = step_after_match(None, threshold, flood_on, text_on);
            &&& distance < threshold ==> (step matches CheckStep::Detected { reason, others }
                && reason == (Reason::KnownReference { reference, distance }) && others.len() == 0)
            &&& distance >= threshold ==> step == none
            &&& none is Flood <==> flood_on
            &&& none is Text <==> !flood_on && text_on
            &&& none is Remember <==> !flood_on && !text_on
        }),
{
}

/// Scam text is a detection that names its score and every phrase that was found. An
/// image without any is remembered.
pub proof fn scam_text_is_detected(score: u32, matched: Seq<Seq<char>>)
    ensures
        step_after_text(Some((score, matched))) matches CheckStep::Detected { reason, others }
            && reason == (Reason::ScamText { score, matched }) && others.len() == 0,
        step_after_text(None) is Remember,
{
}

/// Every action but logging deletes the flagged post and all the others, so that the
/// messages deleted are exactly those handled. Logging deletes none.
pub proof fn every_action_but_logging_deletes(
    action: Action,
    post: Post,
    others: Seq<(u64, u64)>,
)
    ensures
        ({
            let targets = targets_of(action, post, others);
            &&& (action is LogOnly) ==> targets.len() == 0
            &&& !(action is LogOnly) ==> {
                &&& targets.len() == 1 + others.len()
                &&& targets[0] == (post.channel_id, post.message_id)
                &&& forall|i: int| 0 <= i < others.len() ==> targets[1 + i] == #[trigger] others[i]
                &&& messages_of(targets) == seq![post.message_id] + messages_of(others)
            }
        }),
        forall|i: int|
            0 <= i < others.len() ==> messages_of(others)[i] == (#[trigger] others[i]).1,
        messages_of(others).len() == others.len(),
{
    assert(messages_of(seq![(post.channel_id, post.message_id)] + others)
        =~= seq![post.message_id] + messages_of(others));
}

/// Each action has its own sanction: a timeout of the server's length, a kick or a
/// ban. Deleting and logging alone have none.
pub proof fn sanctions_follow_the_action(minutes: u64)
    ensures
        sanction_by(Action::LogOnly, minutes) is None,
        sanction_by(Action::DeleteOnly, minutes) is None,
        sanction_by(Action::DeleteTimeout, minutes) matches Some(Sanction::Timeout { minutes: m })
            && m == minutes,
        sanction_by(Action::DeleteKick, minutes) is Some,
        sanction_by(Action::DeleteKick, minutes)->0 is Kick,
        sanction_by(Action::DeleteBan, minutes) is Some,
        sanction_by(Action::DeleteBan, minutes)->0 is Ban,
{
}

/// A file is an image by its content type, and where it has none by the end of its
/// name in lower case.
pub proof fn images_are_told_by_type_then_by_name(file: AttachmentFacts, kind: Seq<char>)
    ensures
        file.content_type matches Some(c) && c@ == "image/"@ + kind ==> is_image_file(file),
        file.content_type matches Some(c) && (forall|rest: Seq<char>| #[trigger]
            ("image/"@ + rest) != c@) ==> !is_image_file(file),
        file.content_type is None ==> (is_image_file(file) <==> exists|stem: Seq<char>| #[trigger]
            named_as_image(stem, lowercase(file.filename@))),
{
    let start = "image/"@;
    if let Some(c) = file.content_type {
        if c@ == start + kind {
            assert(c@.subrange(0, start.len() as int) =~= start);
        }
        if starts_with_text(c@, start) {
            let rest = c@.skip(start.len() as int);
            assert(start + rest =~= c@);
        }
    } else {
        let name = lowercase(file.filename@);
        if image_name(name) {
            if ends_with_text(name, ".png"@) {
                ends_split(name, ".png"@);
            } else if ends_with_text(name, ".jpg"@) {
                ends_split(name, ".jpg"@);
            } else if ends_with_text(name, ".jpeg"@) {
                ends_split(name, ".jpeg"@);
            } else if ends_with_text(name, ".webp"@) {
                ends_split(name, ".webp"@);
            } else if ends_with_text(name, ".gif"@) {
                ends_split(name, ".gif"@);
            } else {
                ends_split(name, ".bmp"@);
            }
        }
        if exists|stem: Seq<char>| #[trigger] named_as_image(stem, name) {
            let stem = choose|stem: Seq<char>| #[trigger] named_as_image(stem, name);
            ends_join(stem, ".png"@);
            ends_join(stem, ".jpg"@);
            ends_join(stem, ".jpeg"@);
            ends_join(stem, ".webp"@);
            ends_join(stem, ".gif"@);
            ends_join(stem, ".bmp"@);
        }
    }
}

/// The name is the stem with the ending of an image file.
pub open spec fn named_as_image(stem: Seq<char>, name: Seq<char>) -> bool {
    ||| name == stem + ".png"@
    ||| name == stem + ".jpg"@
    ||| name == stem + ".jpeg"@
    ||| name == stem + ".webp"@
    ||| name == stem + ".gif"@
    ||| name == stem + ".bmp"@
}

proof fn ends_split(name: Seq<char>, end: Seq<char>)
    requires
        ends_with_text(name, end),
        end == ".png"@ || end == ".jpg"@ || end == ".jpeg"@ || end == ".webp"@ || end == ".gif"@
            || end == ".bmp"@,
    ensures
        exists|stem: Seq<char>| #[trigger] named_as_image(stem, name),
{
    let stem = name.take(name.len() - end.len());
    assert(stem + end =~= name) by {
        let tail = name.subrange(name.len() - end.len(), name.len() as int);
        assert(tail == end);
        assert forall|i: int| 0 <= i < end.len() implies end[i] == name[name.len() - end.len() + i] by {
            assert(tail[i] == end[i]);
        }
    }
    assert(named_as_image(stem, name));
}

proof fn ends_join(stem: Seq<char>, end: Seq<char>)
    ensures
        ends_with_text(stem + end, end),
{
    let name = stem + end;
    assert(name.subrange(name.len() - end.len(), name.len() as int) =~= end);
}

/// The images of a message that are scanned are all of the attached images, each
/// once and in their order.
pub proof fn every_attached_image_is_scanned(files: Seq<AttachmentFacts>)
    requires
        files.len() <= usize::MAX,
    ensures
        forall|i: int|
            0 <= i < files.len() ==> (image_positions(files).contains(i as usize)
                <==> is_image_file(#[trigger] files[i])),
        forall|k: int|
            0 <= k < image_positions(files).len() ==> (#[trigger] image_positions(files)[k])
                < files.len(),
        forall|k: int, l: int|
            0 <= k < l < image_positions(files).len() ==> (#[trigger] image_positions(files)[k]) < (
            #[trigger] image_positions(files)[l]),
    decreases files.len(),
{
    if files.len() > 0 {
        let init = files.drop_last();
        let before = image_positions(init);
        let after = image_positions(files);
        every_attached_image_is_scanned(init);
        assert forall|i: int| 0 <= i < files.len() implies (after.contains(i as usize)
            <==> is_image_file(#[trigger] files[i])) by {
            if i < init.len() {
                assert(init[i] == files[i]);
                if before.contains(i as usize) {
                    let k = choose|k: int| 0 <= k < before.len() && before[k] == i as usize;
                    assert(after[k] == i as usize);
                }
                if after.contains(i as usize) {
                    let k = choose|k: int| 0 <= k < after.len() && after[k] == i as usize;
                    if k < before.len() {
                        assert(before[k] == i as usize);
                    }
                }
            } else {
                if is_image_file(files[i]) {
                    assert(after[after.len() - 1] == i as usize);
                } else {
                    assert(after == before);
                    if after.contains(i as usize) {
                        let k = choose|k: int| 0 <= k < before.len() && before[k] == i as usize;
                        assert(before[k] < init.len());
                    }
                }
            }
        }
    }
}

/// The images that may become references are the attached images of at most 15 MiB,
/// each once and in their order, under their own extensions.
pub proof fn every_attached_image_within_the_limit_is_collected(files: Seq<AttachmentFacts>)
    requires
        files.len() <= usize::MAX,
    ensures
        forall|i: int|
            0 <= i < files.len() ==> (reference_positions(files).contains(
                (i as usize, review::stored_extension(files[i].filename@)),
            ) <==> is_image_file(#[trigger] files[i]) && files[i].size <= 15728640),
        forall|k: int|
            0 <= k < reference_positions(files).len() ==> (#[trigger] reference_positions(
                files,
            )[k]).0 < files.len(),
        forall|k: int, l: int|
            0 <= k < l < reference_positions(files).len() ==> (#[trigger] reference_positions(
                files,
            )[k]).0 < (#[trigger] reference_positions(files)[l]).0,
    decreases files.len(),
{
    if files.len() > 0 {
        let init = files.drop_last();
        let before = reference_positions(init);
        let after = reference_positions(files);
        every_attached_image_within_the_limit_is_collected(init);
        assert forall|i: int| 0 <= i < files.len() implies (after.contains(
            (i as usize, review::stored_extension(files[i].filename@)),
        ) <==> is_image_file(#[trigger] files[i]) && files[i].size <= 15728640) by {
            let item = (i as usize, review::stored_extension(files[i].filename@));
            if i < init.len() {
                assert(init[i] == files[i]);
                if before.contains(item) {
                    let k = choose|k: int| 0 <= k < before.len() && before[k] == item;
                    assert(after[k] == item);
                }
                if after.contains(item) {
                    let k = choose|k: int| 0 <= k < after.len() && after[k] == item;
                    if k < before.len() {
                        assert(before[k] == item);
                    }
                }
            } else {
                if is_image_file(files[i]) && files[i].size <= 15728640 {
                    assert(after[after.len() - 1] == item);
                } else {
                    assert(after == before);
                    if after.contains(item) {
                        let k = choose|k: int| 0 <= k < before.len() && before[k] == item;
                        assert(before[k].0 < init.len());
                    }
                }
            }
        }
    }
}

/// The links of every text are looked at, one text after the other.
pub proof fn every_text_is_searched_for_links(
    before: Seq<Seq<char>>,
    content: Seq<char>,
    allowed: Seq<Seq<char>>,
)
    ensures
        urls_of_texts(before.push(content), allowed) == urls_of_texts(before, allowed)
            + urls_of_texts(seq![content], allowed),
        urls_of_texts(seq![content], allowed) == first_urls(
            passing_urls(urls_in(content), allowed),
        ),
{
    let one = seq![content];
    assert(before.push(content).drop_last() =~= before);
    assert(one.drop_last() =~= Seq::empty());
    assert(urls_of_texts(one.drop_last(), allowed) =~= Seq::empty());
    assert(urls_of_texts(one, allowed) =~= first_urls(passing_urls(urls_in(content), allowed)));
}

/// An evidence name keeps plain characters where they stand, and has an underscore
/// for each other one.
pub proof fn evidence_names_keep_plain_characters(name: Seq<char>, i: int)
    requires
        0 <= i < name.len(),
    ensures
        evidence_name(name).len() == name.len(),
        ({
            let c = name[i];
            let plain = 'a' <= c <= 'z' || 'A' <= c <= 'Z' || '0' <= c <= '9' || c == '.' || c
                == '_' || c == '-';
            evidence_name(name)[i] == if plain {
                c
            } else {
                '_'
            }
        }),
{
}

/// A detection that a reference caused can be undone by removing that reference, and
/// any other can be confirmed or dismissed: the buttons say so when they are read.
pub proof fn buttons_fit_the_reason(reason: Reason, author: u64)
    requires
        author != 0,
    ensures
        ({
            let rows = buttons_for(reason, author);
            let reference = match reason {
                Reason::KnownReference { reference, .. } => Some(reference),
                Reason::RetroMatch { reference, .. } => Some(reference),
                _ => None,
            };
            match reference {
                Some(reference) => rows.len() == 0 || (rows.len() == 1 && rows[0].len() == 1 && {
                    let asked = review::asked_by_button(rows[0][0].custom_id);
                    &&& asked.kind is RemoveReference
                    &&& asked.author == Some(author)
                    &&& asked.reference == Some(reference)
                }),
                None => rows.len() == 1 && rows[0].len() == 2 && {
                    let first = review::asked_by_button(rows[0][0].custom_id);
                    let second = review::asked_by_button(rows[0][1].custom_id);
                    &&& first.kind is Add
                    &&& first.author == Some(author)
                    &&& second.kind is Dismiss
                    &&& second.author == Some(author)
                },
            }
        }),
{
    review::author_buttons_read_back(author);
    match reason {
        Reason::KnownReference { reference, .. } => {
            review::reference_button_reads_back(Some(author), reference);
        },
        Reason::RetroMatch { reference, .. } => {
            review::reference_button_reads_back(Some(author), reference);
        },
        _ => {},
    }
}

/// Each kind of interaction is answered by its own: the command and its suggestions by
/// the settings, the menu by adding references, and buttons of the bot by the review.
pub proof fn interactions_reach_their_answer(name: Seq<char>, rest: Seq<char>)
    ensures
        interaction_route(InteractionKind::Command, "config"@) is Config,
        interaction_route(InteractionKind::Autocomplete, "config"@) is ConfigAutocomplete,
        interaction_route(InteractionKind::Command, ADD_REFERENCE_MENU@) is AddReferenceMenu,
        interaction_route(InteractionKind::Component, BUTTON_PREFIX@ + rest) is ReviewButton,
        name != "config"@ ==> interaction_route(InteractionKind::Autocomplete, name) is Ignore,
        name != "config"@ && name != ADD_REFERENCE_MENU@ ==> interaction_route(
            InteractionKind::Command,
            name,
        ) is Ignore,
        interaction_route(InteractionKind::Other, name) is Ignore,
        (forall|tail: Seq<char>| #[trigger] (BUTTON_PREFIX@ + tail) != name) ==> interaction_route(
            InteractionKind::Component,
            name,
        ) is Ignore,
{
    reveal_strlit("config");
    reveal_strlit("Add to scam references");
    let prefix = BUTTON_PREFIX@;
    assert((prefix + rest).subrange(0, prefix.len() as int) =~= prefix);
    if starts_with_text(name, prefix) {
        let tail = name.skip(prefix.len() as int);
        assert(prefix + tail =~= name);
    }
}

/// What was done counts the messages that were deleted, and tells nothing deleted
/// from something.
pub proof fn deletions_are_told(action: Action, deleted: nat)
    requires
        !(action is LogOnly),
    ensures
        deleted_text(action, 0, 0) == "No action (log-only mode)"@,
        deleted_text(action, 1, 0) == "Message deleted"@,
        deleted > 1 ==> deleted_text(action, deleted, 0) == decimal(deleted)
            + " messages deleted"@,
        deleted_text(Action::LogOnly, deleted, deleted) == "No action (log-only mode)"@,
{
}

/// A description names the first eight phrases, each between backticks, and counts
/// those that it leaves out.
pub proof fn phrases_are_named_or_counted(phrases: Seq<Seq<char>>)
    ensures
        phrases.len() <= 8 ==> phrase_list(phrases) == joined(quoted(phrases), ", "@),
        phrases.len() > 8 ==> phrase_list(phrases) == joined(quoted(phrases.take(8)), ", "@)
            + " (+"@ + decimal((phrases.len() - 8) as nat) + " more)"@,
        quoted(phrases).len() == phrases.len(),
        forall|i: int|
            0 <= i < phrases.len() ==> #[trigger] quoted(phrases)[i] == seq!['`'] + phrases[i]
                + seq!['`'],
{
    reveal_strlit("`");
    assert("`"@ =~= seq!['`']);
}

/// A description names what was found: the reference and the distance, the number of
/// channels, the score and the phrases, or the number of posts.
pub proof fn descriptions_name_what_was_found(
    reference: Seq<char>,
    distance: u32,
    channels: usize,
    score: u32,
    matched: Seq<Seq<char>>,
    messages: usize,
)
    ensures
        description_of(Reason::KnownReference { reference, distance }) == "Matches reference `"@
            + reference + "` (hash distance: "@ + decimal(distance as nat) + ")."@,
        description_of(Reason::CrossChannelFlood { channels }) == "The same image was posted in "@
            + decimal(channels as nat)
            + " different channels in a short time — a typical sign of a compromised account auto-spamming."@,
        description_of(Reason::ScamText { score, matched })
            == "Text read from the image (OCR) scored "@ + decimal(score as nat) + ". Matched: "@
            + phrase_list(matched) + "."@,
        description_of(Reason::RetroMatch { reference, distance, messages }) == decimal(
            messages as nat,
        ) + " post(s) from the last few minutes match `"@ + reference + "` (hash distance: "@
            + decimal(distance as nat) + "), added as a reference after they were posted."@,
{
}

/// The log message of a detection tells its author, its channel and what was done, and
/// shows the evidence under a plain name.
pub proof fn logs_tell_who_where_and_what(
    post: Post,
    filename: Seq<char>,
    reason: Reason,
    action_taken: Seq<char>,
)
    ensures
        ({
            let embed = detection_embed(post, filename, reason, action_taken);
            &&& embed.title == Some(title_of(reason))
            &&& embed.description == Some(description_of(reason))
            &&& embed.attachment == evidence_name(filename)
            &&& embed.fields.len() == 3
            &&& embed.fields[0].value == user_mention(post.author_id) + " (`"@ + decimal(
                post.author_id as nat,
            ) + "`)"@
            &&& embed.fields[1].value == channel_mention(post.channel_id)
            &&& embed.fields[2].value == action_taken
        }),
{
}

/// What was done ends in what became of the sanction: nothing where there was none, the
/// sanction where it was taken, and the error where it failed.
pub proof fn sanctions_are_told(action: Action, deleted: nat, swept: nat, minutes: u64, error: String)
    ensures
        ({
            let done = deleted_text(action, deleted, swept);
            &&& taken_text(action, deleted, swept, SanctionOutcome::NotTaken) == done
            &&& taken_text(
                action,
                deleted,
                swept,
                SanctionOutcome::Taken(Sanction::Timeout { minutes }),
            ) == done + " + "@ + ("timeout "@ + decimal(minutes as nat) + " min"@)
            &&& taken_text(action, deleted, swept, SanctionOutcome::Taken(Sanction::Kick)) == done
                + " + "@ + "member kicked"@
            &&& taken_text(action, deleted, swept, SanctionOutcome::Taken(Sanction::Ban)) == done
                + " + "@ + "member banned"@
            &&& taken_text(action, deleted, swept, SanctionOutcome::Failed(error)) == done
                + " (sanction failed: "@ + error@ + ")"@
        }),
        !(action is LogOnly) && swept > 0 ==> deleted_text(action, deleted, swept) == deleted_text(
            action,
            deleted,
            0,
        ) + " (incl. "@ + decimal(swept) + " other post(s) by this author found around that time)"@,
{
}

} // verus!
