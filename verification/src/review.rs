//! Human review: references added by hand, and the buttons under log messages.
use vstd::prelude::*;

use crate::commands;
use crate::commands::{may_manage, MemberFacts, MAX_REFERENCE_BYTES};
use crate::config::{Action, GuildConfig};
use crate::embeds::{
    embed_texts, row_texts, Button, ButtonLook, ButtonRow, ButtonText, EmbedField, EmbedText,
    FieldText, LogEmbed,
};
use crate::hashstore::safe_filename;
use crate::lists::at_most;
use crate::mentions::{mention_user, user_mention};
use crate::paths;
use crate::paths::path_extension;
use crate::text::{
    ascii_alphanumeric, byte_len, chars_of, decimal, decimal_is_digits, decimal_reads_back,
    decimal_text, is_ascii_alphanumeric, is_digit, longer_than, numeral, parse_u64,
    parsed_u64, same_text, starts_with, starts_with_text, string_of, texts,
};

verus! {

/// The name of the message command that adds references.
pub const ADD_REFERENCE_MENU: &'static str = "Add to scam references";

/// What the id of every button starts with. The rest says all that a click needs,
/// so buttons keep working across restarts:
/// `antiscam:add:<user>` makes the shown image a reference,
/// `antiscam:dismiss:<user>` lifts the author's timeout, and
/// `antiscam:rmref:<user>:<file>` removes that reference too.
/// The user is the flagged author, or 0 for none.
pub const BUTTON_PREFIX: &'static str = "antiscam:";

/// The most bytes of a button's id.
pub const MAX_CUSTOM_ID: usize = 100;

/// Whether a button is one of these.
pub fn is_review_button(custom_id: &str) -> (r: bool)
    ensures
        r == starts_with_text(custom_id@, BUTTON_PREFIX@),
{
    starts_with(custom_id, BUTTON_PREFIX)
}

/// The id of a button that speaks of an author alone.
pub open spec fn author_button_id(kind: Seq<char>, author: u64) -> Seq<char> {
    BUTTON_PREFIX@ + kind + ":"@ + decimal(author as nat)
}

/// The id of the button that removes a reference.
pub open spec fn reference_button_id(author: Option<u64>, reference: Seq<char>) -> Seq<char> {
    author_button_id(
        "rmref"@,
        match author {
            Some(id) => id,
            None => 0,
        },
    ) + ":"@ + reference
}

/// The buttons under a detection whose image is no reference yet.
pub open spec fn unconfirmed_rows(author: u64) -> Seq<Seq<ButtonText>> {
    seq![
        seq![
            ButtonText {
                custom_id: author_button_id("add"@, author),
                label: "➕ Scam: add to references"@,
                look: ButtonLook::Success,
            },
            ButtonText {
                custom_id: author_button_id("dismiss"@, author),
                label: "✖ False positive"@,
                look: ButtonLook::Secondary,
            },
        ],
    ]
}

/// A text of at most `max` characters, cut where it is longer.
pub open spec fn truncated(s: Seq<char>, max: int) -> Seq<char> {
    if s.len() <= max {
        s
    } else {
        s.take(max - 1) + "…"@
    }
}

/// The button under a detection that a reference caused. A reference whose name
/// is too long for an id gets none.
pub open spec fn reference_rows(author: Option<u64>, reference: Seq<char>) -> Seq<Seq<ButtonText>> {
    let custom_id = reference_button_id(author, reference);
    if byte_len(custom_id) > MAX_CUSTOM_ID {
        Seq::empty()
    } else {
        seq![
            seq![
                ButtonText {
                    custom_id,
                    label: "✖ False positive: remove "@ + truncated(reference, 40),
                    look: ButtonLook::Danger,
                },
            ],
        ]
    }
}

fn author_id(kind: &str, author: u64) -> (r: String)
    ensures
        r@ == author_button_id(kind@, author),
{
    let mut id = BUTTON_PREFIX.to_owned();
    id.append(kind);
    id.append(":");
    id.append(decimal_text(author).as_str());
    id
}

/// The buttons under a detection whose image is no reference yet: it can be
/// confirmed, and becomes one, or dismissed.
pub fn unconfirmed_detection_buttons(author: u64) -> (r: Vec<ButtonRow>)
    ensures
        row_texts(r@) == unconfirmed_rows(author),
{
    let mut buttons: Vec<Button> = Vec::new();
    buttons.push(
        Button {
            custom_id: author_id("add", author),
            label: "➕ Scam: add to references".to_owned(),
            look: ButtonLook::Success,
        },
    );
    buttons.push(
        Button {
            custom_id: author_id("dismiss", author),
            label: "✖ False positive".to_owned(),
            look: ButtonLook::Secondary,
        },
    );
    let row = ButtonRow { buttons };
    assert(row@ =~= unconfirmed_rows(author)[0]);
    let mut rows: Vec<ButtonRow> = Vec::new();
    rows.push(row);
    assert(row_texts(rows@) =~= unconfirmed_rows(author));
    rows
}

/// The button under a detection, or an addition by hand, that a reference caused:
/// a false positive there means that the reference is bad.
pub fn reference_buttons(author: Option<u64>, reference: &str) -> (r: Vec<ButtonRow>)
    ensures
        row_texts(r@) == reference_rows(author, reference@),
{
    let mut rows: Vec<ButtonRow> = Vec::new();
    let mut custom_id = author_id(
        "rmref",
        match author {
            Some(id) => id,
            None => 0,
        },
    );
    custom_id.append(":");
    custom_id.append(reference);
    if longer_than(custom_id.as_str(), MAX_CUSTOM_ID) {
        assert(row_texts(rows@) =~= reference_rows(author, reference@));
        return rows;
    }
    let mut label = "✖ False positive: remove ".to_owned();
    label.append(truncate(reference, 40).as_str());
    let mut buttons: Vec<Button> = Vec::new();
    buttons.push(Button { custom_id, label, look: ButtonLook::Danger });
    let row = ButtonRow { buttons };
    assert(row@ =~= reference_rows(author, reference@)[0]);
    rows.push(row);
    assert(row_texts(rows@) =~= reference_rows(author, reference@));
    rows
}

/// A text of at most `max` characters, cut where it is longer.
pub fn truncate(s: &str, max: usize) -> (r: String)
    requires
        s@.len() > max ==> max > 0,
    ensures
        r@ == truncated(s@, max as int),
{
    let mut chars = chars_of(s);
    if chars.len() <= max {
        return s.to_owned();
    }
    chars.truncate(max - 1);
    assert(chars@ =~= s@.take(max - 1));
    let mut out = string_of(chars.as_slice());
    out.append("…");
    out
}

/// Whether a member may manage references, by an interaction. This is the only
/// gate of the buttons: whoever sees the log channel can click them.
pub fn can_manage_references(guild: &GuildConfig, member: &Option<MemberFacts>) -> (r: bool)
    ensures
        r == may_manage(guild.mod_role_ids@, *member),
{
    commands::is_authorized(guild, member)
}

/// The answer to a member who may not manage references.
pub fn not_allowed_text() -> (r: &'static str)
    ensures
        r@ == "You need the **Manage Messages** permission (or one of this server's mod roles) to manage scam references."@,
{
    "You need the **Manage Messages** permission (or one of this server's mod roles) to manage scam references."
}

/// What is done first when a message is picked to be added.
#[derive(Debug, Clone, Copy, PartialEq, Eq, Structural)]
pub enum MenuStep {
    OutsideServer,
    NotAllowed,
    NoTarget,
    /// Its images are collected.
    Collect,
}

/// What is done first when a message is picked to be added.
pub fn menu_step(in_server: bool, allowed: bool, has_target: bool) -> (r: MenuStep)
    ensures
        r == if !in_server {
            MenuStep::OutsideServer
        } else if !allowed {
            MenuStep::NotAllowed
        } else if !has_target {
            MenuStep::NoTarget
        } else {
            MenuStep::Collect
        },
{
    if !in_server {
        MenuStep::OutsideServer
    } else if !allowed {
        MenuStep::NotAllowed
    } else if !has_target {
        MenuStep::NoTarget
    } else {
        MenuStep::Collect
    }
}

/// The answer where nothing is collected.
pub open spec fn menu_refusal(step: MenuStep) -> Option<Seq<char>> {
    match step {
        MenuStep::OutsideServer => Some("This only works in a server."@),
        MenuStep::NotAllowed => Some(
            "You need the **Manage Messages** permission (or one of this server's mod roles) to manage scam references."@,
        ),
        MenuStep::NoTarget => Some("Could not read the target message."@),
        MenuStep::Collect => None,
    }
}

impl MenuStep {
    /// The answer where nothing is collected.
    pub fn refusal(&self) -> (r: Option<&'static str>)
        ensures
            match r {
                Some(text) => menu_refusal(*self) == Some(text@),
                None => menu_refusal(*self) is None,
            },
    {
        match self {
            MenuStep::OutsideServer => Some("This only works in a server."),
            MenuStep::NotAllowed => Some(not_allowed_text()),
            MenuStep::NoTarget => Some("Could not read the target message."),
            MenuStep::Collect => None,
        }
    }
}

/// The answer where the picked message holds no image.
pub fn no_image_text() -> (r: &'static str)
    ensures
        r@ == "No image found in that message (attachments, forwarded images or allow-listed links)."@,
{
    "No image found in that message (attachments, forwarded images or allow-listed links)."
}

/// What a search of the recent posts found, at the end of an answer.
pub open spec fn retro_text(matches: nat) -> Seq<char> {
    if matches == 0 {
        " Retro-scan: no recent post matched."@
    } else {
        " Retro-scan: "@ + decimal(matches)
            + " recent post(s) matched and were handled per each server's settings."@
    }
}

/// What a search of the recent posts found, at the end of an answer.
pub fn retro_summary(matches: usize) -> (r: String)
    ensures
        r@ == retro_text(matches as nat),
{
    if matches == 0 {
        return " Retro-scan: no recent post matched.".to_owned();
    }
    let mut text = " Retro-scan: ".to_owned();
    text.append(decimal_text(matches as u64).as_str());
    text.append(" recent post(s) matched and were handled per each server's settings.");
    text
}

/// The same without the space before it.
pub open spec fn retro_field(matches: nat) -> Seq<char> {
    retro_text(matches).skip(1)
}

/// The answer after a message's images were added.
pub open spec fn menu_answer(added: nat, failures: nat, retro: nat) -> Seq<char> {
    let head = "Added "@ + decimal(added) + " reference(s)."@;
    let with_failures = if failures > 0 {
        head + " "@ + decimal(failures) + " image(s) could not be added (see logs)."@
    } else {
        head
    };
    with_failures + retro_text(retro)
}

/// The answer after a message's images were added.
pub fn menu_reply(added: usize, failures: usize, retro_total: usize) -> (r: String)
    ensures
        r@ == menu_answer(added as nat, failures as nat, retro_total as nat),
{
    let mut text = "Added ".to_owned();
    text.append(decimal_text(added as u64).as_str());
    text.append(" reference(s).");
    if failures > 0 {
        text.append(" ");
        text.append(decimal_text(failures as u64).as_str());
        text.append(" image(s) could not be added (see logs).");
    }
    text.append(retro_summary(retro_total).as_str());
    text
}

/// The most images that one log message shows.
pub const MAX_LOG_EMBEDS: usize = 10;

/// The most rows of buttons under one message.
pub const MAX_BUTTON_ROWS: usize = 5;

/// A log message for references added by hand.
#[derive(Debug)]
pub struct ManualAddLog {
    /// One for each shown image.
    pub embeds: Vec<LogEmbed>,
    pub rows: Vec<ButtonRow>,
}

/// The embed for one of the added images. The first says who added them.
pub open spec fn manual_embed(
    first: bool,
    filename: Seq<char>,
    moderator: u64,
    link: Seq<char>,
    author: u64,
    retro: nat,
) -> EmbedText {
    EmbedText {
        title: if first {
            Some("➕ Scam reference added manually"@)
        } else {
            None
        },
        description: None,
        colour: (88u8, 101u8, 242u8),
        fields: if first {
            seq![
                FieldText { name: "Added by"@, value: user_mention(moderator), inline: true },
                FieldText {
                    name: "From"@,
                    value: link + " by "@ + user_mention(author),
                    inline: true,
                },
                FieldText { name: "Retro-scan"@, value: retro_field(retro), inline: false },
            ]
        } else {
            Seq::empty()
        },
        attachment: filename,
        timestamp: first,
    }
}

/// The embeds for the added images.
pub open spec fn manual_embeds(
    filenames: Seq<Seq<char>>,
    moderator: u64,
    link: Seq<char>,
    author: u64,
    retro: nat,
) -> Seq<EmbedText> {
    Seq::new(
        filenames.len(),
        |i: int| manual_embed(i == 0, filenames[i], moderator, link, author, retro),
    )
}

/// The rows of buttons for the added images.
pub open spec fn manual_rows(filenames: Seq<Seq<char>>) -> Seq<Seq<ButtonText>>
    decreases filenames.len(),
{
    if filenames.len() == 0 {
        Seq::empty()
    } else {
        manual_rows(filenames.drop_last()) + reference_rows(None, filenames.last())
    }
}

fn manual_fields(moderator: u64, link: &str, author: u64, retro_total: usize) -> (r: Vec<
    EmbedField,
>)
    ensures
        r@.map_values(|f: EmbedField| f@) == manual_embed(
            true,
            Seq::empty(),
            moderator,
            link@,
            author,
            retro_total as nat,
        ).fields,
{
    let mut from = link.to_owned();
    from.append(" by ");
    from.append(mention_user(author).as_str());
    assert(from@ =~= link@ + " by "@ + user_mention(author));
    let mut retro = chars_of(retro_summary(retro_total).as_str());
    proof {
        reveal_strlit(" Retro-scan: no recent post matched.");
        reveal_strlit(" Retro-scan: ");
    }
    retro.remove(0);
    assert(retro@ =~= retro_field(retro_total as nat));
    let mut fields: Vec<EmbedField> = Vec::new();
    fields.push(
        EmbedField { name: "Added by".to_owned(), value: mention_user(moderator), inline: true },
    );
    fields.push(EmbedField { name: "From".to_owned(), value: from, inline: true });
    fields.push(
        EmbedField {
            name: "Retro-scan".to_owned(),
            value: string_of(retro.as_slice()),
            inline: false,
        },
    );
    assert(fields@.map_values(|f: EmbedField| f@) =~= manual_embed(
        true,
        Seq::empty(),
        moderator,
        link@,
        author,
        retro_total as nat,
    ).fields);
    fields
}

/// The log message for references added by hand, with the images and a button for
/// each that undoes it. `None` where the server has no log channel.
pub fn manual_add_log(
    guild: &GuildConfig,
    moderator: u64,
    link: &str,
    author: u64,
    added: &[String],
    retro_total: usize,
) -> (r: Option<ManualAddLog>)
    ensures
        match r {
            Some(log) => {
                let shown = at_most(texts(added@), MAX_LOG_EMBEDS as int);
                &&& guild.log_channel_id != 0
                &&& embed_texts(log.embeds@) == manual_embeds(
                    shown,
                    moderator,
                    link@,
                    author,
                    retro_total as nat,
                )
                &&& row_texts(log.rows@) == at_most(manual_rows(shown), MAX_BUTTON_ROWS as int)
            },
            None => guild.log_channel_id == 0,
        },
{
    if guild.log_channel_id == 0 {
        return None;
    }
    let count: usize = if added.len() <= MAX_LOG_EMBEDS { added.len() } else { MAX_LOG_EMBEDS };
    let ghost shown = at_most(texts(added@), MAX_LOG_EMBEDS as int);
    assert(shown =~= texts(added@).take(count as int));
    let ghost wanted = manual_embeds(shown, moderator, link@, author, retro_total as nat);
    let mut embeds: Vec<LogEmbed> = Vec::new();
    let mut rows: Vec<ButtonRow> = Vec::new();
    assert(embed_texts(embeds@) =~= wanted.take(0));
    assert(row_texts(rows@) =~= manual_rows(shown.take(0)));
    for i in 0..count
        invariant
            count <= added@.len(),
            shown == texts(added@).take(count as int),
            wanted == manual_embeds(shown, moderator, link@, author, retro_total as nat),
            embed_texts(embeds@) == wanted.take(i as int),
            row_texts(rows@) == manual_rows(shown.take(i as int)),
    {
        assert(shown[i as int] == added@[i as int]@);
        assert(shown.take(i + 1).drop_last() =~= shown.take(i as int));
        let ghost before = embed_texts(embeds@);
        let embed = LogEmbed {
            title: if i == 0 {
                Some("➕ Scam reference added manually".to_owned())
            } else {
                None
            },
            description: None,
            colour: (88, 101, 242),
            fields: if i == 0 {
                manual_fields(moderator, link, author, retro_total)
            } else {
                Vec::new()
            },
            attachment: added[i].clone(),
            timestamp: i == 0,
        };
        assert(embed@ =~= wanted[i as int]);
        embeds.push(embed);
        assert(embed_texts(embeds@) =~= before.push(embed@));
        assert(wanted.take(i + 1) =~= before.push(wanted[i as int]));
        let ghost rows_before = row_texts(rows@);
        let mut more = reference_buttons(None, added[i].as_str());
        let ghost more_texts = row_texts(more@);
        rows.append(&mut more);
        assert(row_texts(rows@) =~= rows_before + more_texts);
    }
    assert(wanted.take(count as int) =~= wanted);
    assert(shown.take(count as int) =~= shown);
    let ghost all_rows = row_texts(rows@);
    if rows.len() > MAX_BUTTON_ROWS {
        rows.truncate(MAX_BUTTON_ROWS);
        assert(row_texts(rows@) =~= all_rows.take(MAX_BUTTON_ROWS as int));
    }
    Some(ManualAddLog { embeds, rows })
}

/// What a clicked button asks for.
#[derive(Debug, PartialEq, Eq)]
pub enum ReviewKind {
    Add,
    Dismiss,
    RemoveReference,
    Unknown,
}

/// A clicked button.
#[derive(Debug, PartialEq, Eq)]
pub struct ReviewButton {
    pub kind: ReviewKind,
    pub author: Option<u64>,
    pub reference: Option<String>,
}

/// What a [`ReviewButton`] says.
#[verifier::ext_equal]
pub struct ReviewAsked {
    pub kind: ReviewKind,
    pub author: Option<u64>,
    pub reference: Option<Seq<char>>,
}

impl View for ReviewButton {
    type V = ReviewAsked;

    open spec fn view(&self) -> ReviewAsked {
        ReviewAsked {
            kind: self.kind,
            author: self.author,
            reference: match self.reference {
                Some(s) => Some(s@),
                None => None,
            },
        }
    }
}

/// The position of the first separator, or the length of the text.
pub open spec fn first_at(s: Seq<char>, sep: char) -> int
    decreases s.len(),
{
    if s.len() == 0 || s[0] == sep {
        0
    } else {
        1 + first_at(s.drop_first(), sep)
    }
}

/// What stands before the first separator.
pub open spec fn before_first(s: Seq<char>, sep: char) -> Seq<char> {
    s.take(first_at(s, sep))
}

/// What stands after the first separator, if there is one.
pub open spec fn after_first(s: Seq<char>, sep: char) -> Option<Seq<char>> {
    if first_at(s, sep) < s.len() {
        Some(s.skip(first_at(s, sep) + 1))
    } else {
        None
    }
}

/// The kind of button with this name.
pub open spec fn kind_named(name: Seq<char>) -> ReviewKind {
    if name == "add"@ {
        ReviewKind::Add
    } else if name == "dismiss"@ {
        ReviewKind::Dismiss
    } else if name == "rmref"@ {
        ReviewKind::RemoveReference
    } else {
        ReviewKind::Unknown
    }
}

/// The author with this id; 0 is nobody.
pub open spec fn author_named(text: Seq<char>) -> Option<u64> {
    match parsed_u64(text) {
        Some(id) => if id != 0 {
            Some(id)
        } else {
            None
        },
        None => None,
    }
}

/// What the part of an id after the prefix says: the kind, the author and the
/// reference, of which only the last may hold a colon.
pub open spec fn asked_after_prefix(rest: Seq<char>) -> ReviewAsked {
    let kind = kind_named(before_first(rest, ':'));
    match after_first(rest, ':') {
        Some(tail) => ReviewAsked {
            kind,
            author: author_named(before_first(tail, ':')),
            reference: after_first(tail, ':'),
        },
        None => ReviewAsked { kind, author: None, reference: None },
    }
}

/// What a button asks for.
pub open spec fn asked_by_button(custom_id: Seq<char>) -> ReviewAsked {
    asked_after_prefix(custom_id.skip(BUTTON_PREFIX@.len() as int))
}

fn position(chars: &[char], sep: char) -> (r: usize)
    ensures
        r == first_at(chars@, sep),
        r <= chars@.len(),
{
    let mut i: usize = 0;
    assert(chars@.skip(0) =~= chars@);
    while i < chars.len()
        invariant
            i <= chars@.len(),
            first_at(chars@, sep) == i + first_at(chars@.skip(i as int), sep),
        decreases chars@.len() - i,
    {
        assert(chars@.skip(i as int)[0] == chars@[i as int]);
        if chars[i] == sep {
            return i;
        }
        assert(chars@.skip(i as int).drop_first() =~= chars@.skip(i + 1));
        i += 1;
    }
    i
}

/// Cuts a text at the first separator.
fn cut_first(s: &str, sep: char) -> (r: (String, Option<String>))
    ensures
        r.0@ == before_first(s@, sep),
        match r.1 {
            Some(tail) => after_first(s@, sep) == Some(tail@),
            None => after_first(s@, sep) is None,
        },
{
    let chars = chars_of(s);
    let at = position(chars.as_slice(), sep);
    let mut head: Vec<char> = Vec::new();
    for i in 0..at
        invariant
            at <= chars@.len(),
            head@ == chars@.take(i as int),
    {
        head.push(chars[i]);
        assert(head@ =~= chars@.take(i + 1));
    }
    if at >= chars.len() {
        return (string_of(head.as_slice()), None);
    }
    let mut tail: Vec<char> = Vec::new();
    assert(tail@ =~= chars@.subrange(at + 1, at + 1));
    for i in (at + 1)..chars.len()
        invariant
            at < chars@.len(),
            tail@ == chars@.subrange(at + 1, i as int),
    {
        tail.push(chars[i]);
        assert(tail@ =~= chars@.subrange(at + 1, i + 1));
    }
    assert(tail@ =~= chars@.skip(at + 1));
    (string_of(head.as_slice()), Some(string_of(tail.as_slice())))
}

/// What a button asks for.
pub fn parse_button(custom_id: &str) -> (r: ReviewButton)
    requires
        starts_with_text(custom_id@, BUTTON_PREFIX@),
    ensures
        r@ == asked_by_button(custom_id@),
{
    let chars = chars_of(custom_id);
    let mut rest_chars: Vec<char> = Vec::new();
    let skipped: usize = chars_of(BUTTON_PREFIX).len();
    assert(skipped == BUTTON_PREFIX@.len());
    assert(rest_chars@ =~= chars@.subrange(skipped as int, skipped as int));
    for i in skipped..chars.len()
        invariant
            skipped <= chars@.len(),
            rest_chars@ == chars@.subrange(skipped as int, i as int),
    {
        rest_chars.push(chars[i]);
        assert(rest_chars@ =~= chars@.subrange(skipped as int, i + 1));
    }
    assert(rest_chars@ =~= custom_id@.skip(skipped as int));
    let rest = string_of(rest_chars.as_slice());
    let (name, tail) = cut_first(rest.as_str(), ':');
    let kind = if same_text(name.as_str(), "add") {
        ReviewKind::Add
    } else if same_text(name.as_str(), "dismiss") {
        ReviewKind::Dismiss
    } else if same_text(name.as_str(), "rmref") {
        ReviewKind::RemoveReference
    } else {
        ReviewKind::Unknown
    };
    match tail {
        Some(tail) => {
            let (id, reference) = cut_first(tail.as_str(), ':');
            let author = match parse_u64(id.as_str()) {
                Some(id) => if id != 0 {
                    Some(id)
                } else {
                    None
                },
                None => None,
            };
            ReviewButton { kind, author, reference }
        },
        None => ReviewButton { kind, author: None, reference: None },
    }
}

/// What a click on a button leads to.
#[derive(Debug, PartialEq, Eq)]
pub enum ReviewStep {
    /// Outside a server nothing is done.
    Ignore,
    /// The member may not manage references.
    Refuse,
    /// The shown image becomes a reference.
    Confirm,
    /// The detection was wrong.
    Dismiss { author: Option<u64> },
    /// The reference that caused the detection is wrong.
    RemoveReference { reference: String, author: Option<u64> },
    /// There is no such button.
    Unknown,
}

/// What a click leads to, as a value to compare with.
pub enum ReviewPlan {
    Ignore,
    Refuse,
    Confirm,
    Dismiss { author: Option<u64> },
    RemoveReference { reference: Seq<char>, author: Option<u64> },
    Unknown,
}

impl View for ReviewStep {
    type V = ReviewPlan;

    open spec fn view(&self) -> ReviewPlan {
        match self {
            ReviewStep::Ignore => ReviewPlan::Ignore,
            ReviewStep::Refuse => ReviewPlan::Refuse,
            ReviewStep::Confirm => ReviewPlan::Confirm,
            ReviewStep::Dismiss { author } => ReviewPlan::Dismiss { author: *author },
            ReviewStep::RemoveReference { reference, author } => ReviewPlan::RemoveReference {
                reference: reference@,
                author: *author,
            },
            ReviewStep::Unknown => ReviewPlan::Unknown,
        }
    }
}

/// What a click on a button leads to.
pub open spec fn review_plan(
    in_server: bool,
    mod_roles: Seq<u64>,
    member: Option<MemberFacts>,
    custom_id: Seq<char>,
) -> ReviewPlan {
    let asked = asked_by_button(custom_id);
    if !in_server {
        ReviewPlan::Ignore
    } else if !may_manage(mod_roles, member) {
        ReviewPlan::Refuse
    } else {
        match asked.kind {
            ReviewKind::Add => ReviewPlan::Confirm,
            ReviewKind::Dismiss => ReviewPlan::Dismiss { author: asked.author },
            ReviewKind::RemoveReference => ReviewPlan::RemoveReference {
                reference: match asked.reference {
                    Some(reference) => reference,
                    None => Seq::empty(),
                },
                author: asked.author,
            },
            ReviewKind::Unknown => ReviewPlan::Unknown,
        }
    }
}

/// What a click on a button leads to: nothing outside a server, and nothing for a
/// member who may not manage references.
pub fn review_step(
    in_server: bool,
    guild: &GuildConfig,
    member: &Option<MemberFacts>,
    custom_id: &str,
) -> (r: ReviewStep)
    requires
        starts_with_text(custom_id@, BUTTON_PREFIX@),
    ensures
        r@ == review_plan(in_server, guild.mod_role_ids@, *member, custom_id@),
{
    if !in_server {
        return ReviewStep::Ignore;
    }
    if !can_manage_references(guild, member) {
        return ReviewStep::Refuse;
    }
    let button = parse_button(custom_id);
    match button.kind {
        ReviewKind::Add => ReviewStep::Confirm,
        ReviewKind::Dismiss => ReviewStep::Dismiss { author: button.author },
        ReviewKind::RemoveReference => {
            let reference = match button.reference {
                Some(reference) => reference,
                None => String::new(),
            };
            assert(button@.reference is None ==> reference@ =~= Seq::<char>::empty());
            ReviewStep::RemoveReference { reference, author: button.author }
        },
        ReviewKind::Unknown => ReviewStep::Unknown,
    }
}

/// A click does nothing for a member who may not manage references, and nobody
/// may who is not known or has neither the role nor the permission.
pub proof fn clicks_are_gated(
    in_server: bool,
    mod_roles: Seq<u64>,
    member: Option<MemberFacts>,
    custom_id: Seq<char>,
)
    requires
        match member {
            Some(m) => if mod_roles.len() > 0 {
                forall|i: int|
                    0 <= i < m.roles@.len() ==> !mod_roles.contains(#[trigger] m.roles@[i])
            } else {
                m.manage_messages != Some(true)
            },
            None => true,
        },
    ensures
        review_plan(in_server, mod_roles, member, custom_id) is Refuse || review_plan(
            in_server,
            mod_roles,
            member,
            custom_id,
        ) is Ignore,
{
}

/// Whose timeout a false positive lifts: the author's, where the server's action
/// is a timeout. A kick or a ban is not undone.
pub fn timeout_to_lift(action: Action, author: Option<u64>) -> (r: Option<u64>)
    ensures
        r == if action == Action::DeleteTimeout {
            author
        } else {
            None
        },
{
    if action == Action::DeleteTimeout {
        author
    } else {
        None
    }
}

/// What became of lifting a timeout, at the end of a review.
pub open spec fn lift_text(author: Option<u64>, lifted: bool) -> Seq<char> {
    match author {
        Some(author) => if lifted {
            ", timeout of "@ + user_mention(author) + " lifted"@
        } else {
            ", could not lift the timeout of "@ + user_mention(author)
        },
        None => Seq::empty(),
    }
}

/// What became of lifting a timeout, at the end of a review. Nothing where none
/// was to be lifted.
pub fn lift_note(author: Option<u64>, lifted: bool) -> (r: String)
    ensures
        r@ == lift_text(author, lifted),
{
    match author {
        Some(author) => if lifted {
            let mut text = ", timeout of ".to_owned();
            text.append(mention_user(author).as_str());
            text.append(" lifted");
            text
        } else {
            let mut text = ", could not lift the timeout of ".to_owned();
            text.append(mention_user(author).as_str());
            text
        },
        None => {
            let text = String::new();
            assert(text@ =~= Seq::<char>::empty());
            text
        },
    }
}

/// The review of a detection that was dismissed.
pub fn dismissed_review(moderator: u64, lift: &str) -> (r: String)
    ensures
        r@ == "✖ False positive ("@ + user_mention(moderator) + ")"@ + lift@,
{
    let mut text = "✖ False positive (".to_owned();
    text.append(mention_user(moderator).as_str());
    text.append(")");
    text.append(lift);
    text
}

/// What became of removing a reference.
#[derive(Debug, Clone, Copy, PartialEq, Eq, Structural)]
pub enum Removal {
    Removed,
    AlreadyGone,
    Failed,
}

/// What became of removing a reference, in words.
pub open spec fn removal_text(reference: Seq<char>, removal: Removal) -> Seq<char> {
    match removal {
        Removal::Removed => "reference `"@ + reference + "` removed"@,
        Removal::AlreadyGone => "reference `"@ + reference + "` was already gone"@,
        Removal::Failed => "could not remove reference `"@ + reference + "`"@,
    }
}

/// The review of a detection whose reference was removed.
pub fn removed_review(moderator: u64, reference: &str, removal: Removal, lift: &str) -> (r: String)
    ensures
        r@ == "✖ False positive ("@ + user_mention(moderator) + "): "@ + removal_text(
            reference@,
            removal,
        ) + lift@,
{
    let mut what = match removal {
        Removal::Removed => "reference `".to_owned(),
        Removal::AlreadyGone => "reference `".to_owned(),
        Removal::Failed => "could not remove reference `".to_owned(),
    };
    what.append(reference);
    what.append(
        match removal {
            Removal::Removed => "` removed",
            Removal::AlreadyGone => "` was already gone",
            Removal::Failed => "`",
        },
    );
    let mut text = "✖ False positive (".to_owned();
    text.append(mention_user(moderator).as_str());
    text.append("): ");
    text.append(what.as_str());
    text.append(lift);
    text
}

/// Why the shown image cannot become a reference.
#[derive(Debug, Clone, Copy, PartialEq, Eq, Structural)]
pub enum ConfirmFault {
    NoImage,
    TooLarge,
}

impl ConfirmFault {
    /// The fault in words.
    pub fn message(&self) -> (r: &'static str)
        ensures
            r@ == match self {
                ConfirmFault::NoImage => "this log message has no image attached"@,
                ConfirmFault::TooLarge => "image is over the reference size limit"@,
            },
    {
        match self {
            ConfirmFault::NoImage => "this log message has no image attached",
            ConfirmFault::TooLarge => "image is over the reference size limit",
        }
    }
}

/// Whether the first image of a log message, of this size, can become a reference.
pub fn confirmable(first_attachment: Option<u32>) -> (r: Result<(), ConfirmFault>)
    ensures
        r == match first_attachment {
            Some(size) => if size > MAX_REFERENCE_BYTES {
                Err(ConfirmFault::TooLarge)
            } else {
                Ok(())
            },
            None => Err(ConfirmFault::NoImage),
        },
{
    match first_attachment {
        Some(size) => if size > MAX_REFERENCE_BYTES {
            Err(ConfirmFault::TooLarge)
        } else {
            Ok(())
        },
        None => Err(ConfirmFault::NoImage),
    }
}

/// The review of a detection that was confirmed.
pub fn confirmed_review(moderator: u64, filename: &str, retro_matches: usize) -> (r: String)
    ensures
        r@ == "✅ Confirmed scam ("@ + user_mention(moderator) + "): added as `"@ + filename@
            + "`."@ + retro_text(retro_matches as nat),
{
    let mut text = "✅ Confirmed scam (".to_owned();
    text.append(mention_user(moderator).as_str());
    text.append("): added as `");
    text.append(filename);
    text.append("`.");
    text.append(retro_summary(retro_matches).as_str());
    text
}

/// The review of a button that there is not.
pub fn unknown_button_text() -> (r: &'static str)
    ensures
        r@ == "Unknown button."@,
{
    "Unknown button."
}

/// The answer to a request that failed.
pub fn failure_text(error: &str) -> (r: String)
    ensures
        r@ == "Something went wrong: "@ + error@,
{
    let mut text = "Something went wrong: ".to_owned();
    text.append(error);
    text
}

/// A file attached to a message, and where it can be had.
#[derive(Debug)]
pub struct AttachedFile {
    pub filename: String,
    pub url: String,
    pub proxy_url: String,
}

/// The image of an embed is this file.
pub open spec fn shows(file: AttachedFile, image_url: Seq<char>) -> bool {
    file.url@ == image_url || file.proxy_url@ == image_url
}

/// The name of the first attached file that an embed shows.
pub open spec fn shown_file(files: Seq<AttachedFile>, image_url: Seq<char>) -> Option<Seq<char>>
    decreases files.len(),
{
    if files.len() == 0 {
        None
    } else if shows(files[0], image_url) {
        Some(files[0].filename@)
    } else {
        shown_file(files.drop_first(), image_url)
    }
}

/// The name of the attached file that an embed shows. The embed is pointed at the
/// file when a review is recorded: by its URL the image would be shown twice.
pub fn attached_image(image_url: &str, files: &[AttachedFile]) -> (r: Option<String>)
    ensures
        match r {
            Some(name) => shown_file(files@, image_url@) == Some(name@),
            None => shown_file(files@, image_url@) is None,
        },
{
    assert(files@.skip(0) =~= files@);
    for i in 0..files.len()
        invariant
            shown_file(files@, image_url@) == shown_file(files@.skip(i as int), image_url@),
    {
        assert(files@.skip(i as int)[0] == files@[i as int]);
        assert(files@.skip(i as int).drop_first() =~= files@.skip(i + 1));
        if same_text(files[i].url.as_str(), image_url) || same_text(
            files[i].proxy_url.as_str(),
            image_url,
        ) {
            return Some(files[i].filename.clone());
        }
    }
    None
}

/// A short extension of ASCII letters and digits.
pub open spec fn plain_extension(e: Seq<char>) -> bool {
    0 < e.len() <= 5 && forall|i: int| 0 <= i < e.len() ==> is_ascii_alphanumeric(#[trigger] e[i])
}

/// The extension that a reference is stored under.
pub open spec fn stored_extension(filename: Seq<char>) -> Seq<char> {
    match path_extension(filename) {
        Some(e) => if plain_extension(e) {
            e
        } else {
            "png"@
        },
        None => "png"@,
    }
}

/// The extension that a reference is stored under: that of the file if it is
/// short and plain. The name comes from user input.
pub fn extension_of(filename: &str) -> (r: String)
    ensures
        r@ == stored_extension(filename@),
{
    match paths::extension(filename) {
        Some(e) => {
            let chars = chars_of(e.as_str());
            if chars.len() == 0 || chars.len() > 5 {
                return "png".to_owned();
            }
            for i in 0..chars.len()
                invariant
                    chars@ == e@,
                    path_extension(filename@) == Some(e@),
                    forall|k: int| 0 <= k < i ==> is_ascii_alphanumeric(#[trigger] chars@[k]),
            {
                if !ascii_alphanumeric(chars[i]) {
                    assert(!is_ascii_alphanumeric(e@[i as int]));
                    return "png".to_owned();
                }
            }
            e
        },
        None => "png".to_owned(),
    }
}

/// The name that a reference is stored under: from the time, and from the
/// extension of the image.
pub open spec fn reference_name_of(nanos: u128, extension: Seq<char>) -> Seq<char> {
    "ref_"@ + numeral(nanos as nat, 16) + "."@ + extension
}

/// The name that a reference is stored under.
pub fn reference_name(nanos: u128, extension: &str) -> (r: String)
    ensures
        r@ == reference_name_of(nanos, extension@),
{
    let mut name = "ref_".to_owned();
    name.append(commands::unique_suffix(nanos).as_str());
    name.append(".");
    name.append(extension);
    name
}

proof fn first_separator(a: Seq<char>, sep: char, b: Seq<char>)
    requires
        !a.contains(sep),
    ensures
        before_first(a + seq![sep] + b, sep) == a,
        after_first(a + seq![sep] + b, sep) == Some(b),
    decreases a.len(),
{
    let s = a + seq![sep] + b;
    first_separator_at(a, sep, b);
    assert(s.take(a.len() as int) =~= a);
    assert(s.skip(a.len() as int + 1) =~= b);
}

proof fn first_separator_at(a: Seq<char>, sep: char, b: Seq<char>)
    requires
        !a.contains(sep),
    ensures
        first_at(a + seq![sep] + b, sep) == a.len(),
    decreases a.len(),
{
    let s = a + seq![sep] + b;
    if a.len() > 0 {
        assert(a[0] != sep);
        assert forall|i: int| 0 <= i < a.drop_first().len() implies a.drop_first()[i] != sep by {
            assert(a[i + 1] != sep);
        }
        first_separator_at(a.drop_first(), sep, b);
        assert(s.drop_first() =~= a.drop_first() + seq![sep] + b);
    }
}

proof fn no_separator(a: Seq<char>, sep: char)
    requires
        !a.contains(sep),
    ensures
        before_first(a, sep) == a,
        after_first(a, sep) is None,
        first_at(a, sep) == a.len(),
    decreases a.len(),
{
    if a.len() > 0 {
        assert(a[0] != sep);
        assert forall|i: int| 0 <= i < a.drop_first().len() implies a.drop_first()[i] != sep by {
            assert(a[i + 1] != sep);
        }
        no_separator(a.drop_first(), sep);
    }
    assert(a.take(a.len() as int) =~= a);
}

proof fn decimal_has_no_colon(n: u64)
    ensures
        !decimal(n as nat).contains(':'),
{
    decimal_is_digits(n as nat);
    assert forall|i: int| 0 <= i < decimal(n as nat).len() implies decimal(n as nat)[i] != ':' by {
        assert(is_digit(decimal(n as nat)[i]));
    }
}

/// The buttons under a detection whose image is no reference are read back when
/// they are clicked: the kind, and the author.
pub proof fn author_buttons_read_back(author: u64)
    ensures
        starts_with_text(author_button_id("add"@, author), BUTTON_PREFIX@),
        starts_with_text(author_button_id("dismiss"@, author), BUTTON_PREFIX@),
        asked_by_button(author_button_id("add"@, author)) == (ReviewAsked {
            kind: ReviewKind::Add,
            author: if author != 0 {
                Some(author)
            } else {
                None
            },
            reference: None,
        }),
        asked_by_button(author_button_id("dismiss"@, author)) == (ReviewAsked {
            kind: ReviewKind::Dismiss,
            author: if author != 0 {
                Some(author)
            } else {
                None
            },
            reference: None,
        }),
{
    reveal_strlit("add");
    reveal_strlit("dismiss");
    assert(!"add"@.contains(':'));
    assert(!"dismiss"@.contains(':'));
    author_button_reads_back("add"@, author);
    author_button_reads_back("dismiss"@, author);
}

proof fn author_button_reads_back(kind: Seq<char>, author: u64)
    requires
        !kind.contains(':'),
    ensures
        starts_with_text(author_button_id(kind, author), BUTTON_PREFIX@),
        asked_by_button(author_button_id(kind, author)) == (ReviewAsked {
            kind: kind_named(kind),
            author: if author != 0 {
                Some(author)
            } else {
                None
            },
            reference: None,
        }),
{
    let id = author_button_id(kind, author);
    let number = decimal(author as nat);
    let rest = id.skip(BUTTON_PREFIX@.len() as int);
    reveal_strlit(":");
    assert(id.subrange(0, BUTTON_PREFIX@.len() as int) =~= BUTTON_PREFIX@);
    assert(rest =~= kind + seq![':'] + number);
    first_separator(kind, ':', number);
    decimal_has_no_colon(author);
    no_separator(number, ':');
    decimal_reads_back(author);
}

/// The button that removes a reference is read back when it is clicked: the
/// author, and the reference, whatever characters its name holds.
pub proof fn reference_button_reads_back(author: Option<u64>, reference: Seq<char>)
    ensures
        starts_with_text(reference_button_id(author, reference), BUTTON_PREFIX@),
        asked_by_button(reference_button_id(author, reference)) == (ReviewAsked {
            kind: ReviewKind::RemoveReference,
            author: if author == Some(0u64) {
                None
            } else {
                author
            },
            reference: Some(reference),
        }),
{
    let who = match author {
        Some(id) => id,
        None => 0,
    };
    let number = decimal(who as nat);
    let id = reference_button_id(author, reference);
    let rest = id.skip(BUTTON_PREFIX@.len() as int);
    let tail = number + seq![':'] + reference;
    reveal_strlit(":");
    reveal_strlit("rmref");
    assert(!"rmref"@.contains(':'));
    assert(id.subrange(0, BUTTON_PREFIX@.len() as int) =~= BUTTON_PREFIX@);
    assert(rest =~= "rmref"@ + seq![':'] + tail);
    first_separator("rmref"@, ':', tail);
    decimal_has_no_colon(who);
    first_separator(number, ':', reference);
    decimal_reads_back(who);
    assert(kind_named("rmref"@) == ReviewKind::RemoveReference) by {
        reveal_strlit("add");
        reveal_strlit("dismiss");
    }
}

proof fn numerals_are_plain(n: nat)
    ensures
        forall|i: int|
            0 <= i < numeral(n, 16).len() ==> is_ascii_alphanumeric(#[trigger] numeral(n, 16)[i]),
        numeral(n, 16).len() > 0,
    decreases n,
{
    if n >= 16 {
        numerals_are_plain(n / 16);
    }
}

/// The extension that a reference is stored under is always short and plain.
pub proof fn stored_extensions_are_plain(filename: Seq<char>)
    ensures
        plain_extension(stored_extension(filename)),
{
    reveal_strlit("png");
}

/// The name that a reference is stored under is always safe, whatever the image
/// was called.
pub proof fn reference_names_are_safe(nanos: u128, filename: Seq<char>)
    ensures
        safe_filename(reference_name_of(nanos, stored_extension(filename))),
{
    let suffix = numeral(nanos as nat, 16);
    let extension = stored_extension(filename);
    let name = reference_name_of(nanos, extension);
    reveal_strlit("ref_");
    reveal_strlit(".");
    reveal_strlit("..");
    numerals_are_plain(nanos as nat);
    stored_extensions_are_plain(filename);
    assert forall|i: int| 0 <= i < name.len() implies name[i] != '/' && name[i] != '\\' && name[i]
        != '\0' by {
        if i < 4 {
            assert(name[i] == "ref_"@[i]);
        } else if i < 4 + suffix.len() {
            assert(name[i] == suffix[i - 4]);
        } else if i == 4 + suffix.len() {
            assert(name[i] == '.');
        } else {
            assert(name[i] == extension[i - 5 - suffix.len()]);
        }
    }
    assert(name[0] == 'r');
    assert("."@[0] == '.');
    assert(".."@[0] == '.');
}

/// A click does what its button says, for a member who may manage references: the one
/// confirms, the other dismisses, the third removes the reference it names, each for the
/// author it names. Any other member is refused, and outside servers nothing is done.
pub proof fn allowed_clicks_take_effect(
    mod_roles: Seq<u64>,
    member: Option<MemberFacts>,
    author: u64,
    reference: Seq<char>,
    custom_id: Seq<char>,
)
    requires
        may_manage(mod_roles, member),
        author != 0,
    ensures
        review_plan(true, mod_roles, member, author_button_id("add"@, author)) is Confirm,
        review_plan(true, mod_roles, member, author_button_id("dismiss"@, author)) == (
        ReviewPlan::Dismiss { author: Some(author) }),
        review_plan(true, mod_roles, member, reference_button_id(Some(author), reference)) == (
        ReviewPlan::RemoveReference { reference, author: Some(author) }),
        review_plan(true, mod_roles, member, reference_button_id(None, reference)) == (
        ReviewPlan::RemoveReference { reference, author: None }),
        review_plan(false, mod_roles, member, custom_id) is Ignore,
{
    author_buttons_read_back(author);
    reference_button_reads_back(Some(author), reference);
    reference_button_reads_back(None, reference);
}

/// The parts of a text around the first separator are the ones that were put together.
pub proof fn texts_part_at_the_first_separator(a: Seq<char>, sep: char, b: Seq<char>)
    requires
        !a.contains(sep),
    ensures
        before_first(a + seq![sep] + b, sep) == a,
        after_first(a + seq![sep] + b, sep) == Some(b),
        before_first(a, sep) == a,
        after_first(a, sep) is None,
{
    first_separator(a, sep, b);
    no_separator(a, sep);
}

/// A button is known by its kind alone, and one of any other kind is unknown. An author is
/// known by an id that is not nought.
pub proof fn other_buttons_are_unknown(kind: Seq<char>, id: u64)
    ensures
        kind_named("add"@) is Add,
        kind_named("dismiss"@) is Dismiss,
        kind_named("rmref"@) is RemoveReference,
        kind != "add"@ && kind != "dismiss"@ && kind != "rmref"@ ==> kind_named(kind) is Unknown,
        id != 0 ==> author_named(decimal(id as nat)) == Some(id),
        author_named(decimal(0)) is None,
        author_named(Seq::empty()) is None,
{
    reveal_strlit("add");
    reveal_strlit("dismiss");
    reveal_strlit("rmref");
    assert("add"@.len() == 3 && "dismiss"@.len() == 7 && "rmref"@.len() == 5);
    crate::text::decimal_reads_back(id);
    crate::text::decimal_reads_back(0);
}

/// A text that is short enough is not cut. A longer one keeps its start and has the greatest
/// length with the mark behind it.
pub proof fn long_texts_keep_their_start(s: Seq<char>, max: int)
    requires
        max > 0,
    ensures
        s.len() <= max ==> truncated(s, max) == s,
        s.len() > max ==> truncated(s, max).len() == max && truncated(s, max).last() == '…'
            && truncated(s, max).take(max - 1) == s.take(max - 1),
{
    reveal_strlit("…");
    if s.len() > max {
        assert(truncated(s, max).take(max - 1) =~= s.take(max - 1));
    }
}

/// A reference has one button, which removes it, unless the button's id would be longer
/// than the hundred bytes that an id can have.
pub proof fn references_have_one_button(author: Option<u64>, reference: Seq<char>)
    ensures
        ({
            let rows = reference_rows(author, reference);
            let id = reference_button_id(author, reference);
            &&& byte_len(id) <= 100 ==> rows.len() == 1 && rows[0].len() == 1
                && rows[0][0].custom_id == id && rows[0][0].look is Danger
            &&& byte_len(id) > 100 ==> rows.len() == 0
        }),
{
}

/// Every reference that was added by hand is shown with its own file, and has its own
/// button where it can have one. The first says who added them, and no other does.
pub proof fn every_added_reference_is_logged(
    filenames: Seq<Seq<char>>,
    filename: Seq<char>,
    moderator: u64,
    link: Seq<char>,
    author: u64,
    retro: nat,
)
    ensures
        ({
            let embeds = manual_embeds(filenames, moderator, link, author, retro);
            &&& embeds.len() == filenames.len()
            &&& forall|i: int|
                0 <= i < filenames.len() ==> {
                    &&& (#[trigger] embeds[i]).attachment == filenames[i]
                    &&& embeds[i].title is Some <==> i == 0
                    &&& embeds[i].fields.len() > 0 <==> i == 0
                }
        }),
        manual_rows(filenames.push(filename)) == manual_rows(filenames) + reference_rows(
            None,
            filename,
        ),
        manual_rows(Seq::empty()).len() == 0,
{
    assert(filenames.push(filename).drop_last() =~= filenames);
}

/// The image of an embed is the first attached file that it shows, by either of its URLs.
pub proof fn embeds_show_the_first_file_they_name(files: Seq<AttachedFile>, image_url: Seq<char>)
    ensures
        match shown_file(files, image_url) {
            Some(name) => exists|i: int|
                0 <= i < files.len() && (#[trigger] files[i]).filename@ == name && (files[i].url@
                    == image_url || files[i].proxy_url@ == image_url) && forall|k: int|
                    0 <= k < i ==> (#[trigger] files[k]).url@ != image_url && files[k].proxy_url@
                        != image_url,
            None => forall|k: int|
                0 <= k < files.len() ==> (#[trigger] files[k]).url@ != image_url
                    && files[k].proxy_url@ != image_url,
        },
    decreases files.len(),
{
    if files.len() > 0 {
        if shows(files[0], image_url) {
            assert(files[0].filename@ == shown_file(files, image_url)->0);
        } else {
            let rest = files.drop_first();
            embeds_show_the_first_file_they_name(rest, image_url);
            if let Some(name) = shown_file(rest, image_url) {
                let i = choose|i: int|
                    0 <= i < rest.len() && (#[trigger] rest[i]).filename@ == name && (rest[i].url@
                        == image_url || rest[i].proxy_url@ == image_url) && forall|k: int|
                        0 <= k < i ==> (#[trigger] rest[k]).url@ != image_url
                            && rest[k].proxy_url@ != image_url;
                assert(files[i + 1] == rest[i]);
                assert forall|k: int| 0 <= k < i + 1 implies (#[trigger] files[k]).url@ != image_url
                    && files[k].proxy_url@ != image_url by {
                    if k > 0 {
                        assert(files[k] == rest[k - 1]);
                    }
                }
            } else {
                assert forall|k: int| 0 <= k < files.len() implies (#[trigger] files[k]).url@
                    != image_url && files[k].proxy_url@ != image_url by {
                    if k > 0 {
                        assert(files[k] == rest[k - 1]);
                    }
                }
            }
        }
    }
}

/// A file keeps its extension where that is made of one to five letters and digits. Any
/// other file is stored as a PNG.
pub proof fn plain_extensions_are_kept(stem: Seq<char>, extension: Seq<char>)
    requires
        stem.len() > 0,
        !stem.contains('/'),
        0 < extension.len(),
        !extension.contains('/'),
        !extension.contains('.'),
    ensures
        extension.len() <= 5 && (forall|i: int|
            0 <= i < extension.len() ==> 'a' <= #[trigger] extension[i] <= 'z' || 'A'
                <= extension[i] <= 'Z' || '0' <= extension[i] <= '9') ==> stored_extension(
            stem + seq!['.'] + extension,
        ) == extension,
        extension.len() > 5 ==> stored_extension(stem + seq!['.'] + extension) == "png"@,
        stored_extension(extension) == "png"@,
{
    let name = stem + seq!['.'] + extension;
    assert(!name.contains('/')) by {
        if name.contains('/') {
            let k = choose|k: int| 0 <= k < name.len() && name[k] == '/';
            if k < stem.len() {
                assert(stem[k] == '/');
            } else if k > stem.len() {
                assert(extension[k - stem.len() - 1] == '/');
            }
        }
    }
    assert(name.len() > 2);
    if extension == seq!['.'] || extension == seq!['.', '.'] {
        assert(extension.contains(extension[0]));
    }
    paths::file_names_stand_behind_the_last_slash(stem, name);
    paths::file_names_stand_behind_the_last_slash(stem, extension);
    paths::extensions_stand_behind_the_last_dot(stem, extension);
}

/// A summary counts the posts that were handled, and says where there were none.
pub proof fn summaries_count_the_posts(matches: nat)
    ensures
        matches > 0 ==> exists|head: Seq<char>, tail: Seq<char>|
            retro_text(matches) == head + decimal(matches) + tail && #[trigger] head.len() > 0
                && #[trigger] tail.len() > 0,
        retro_text(0) == " Retro-scan: no recent post matched."@,
        retro_field(matches) == retro_text(matches).skip(1),
{
    reveal_strlit(" Retro-scan: ");
    reveal_strlit(" recent post(s) matched and were handled per each server's settings.");
    let head = " Retro-scan: "@;
    let tail = " recent post(s) matched and were handled per each server's settings."@;
    assert(head.len() > 0 && tail.len() > 0);
}

/// References that are added at different times are stored under different names.
pub proof fn reference_names_differ(a: u128, b: u128, extension: Seq<char>)
    requires
        a != b,
    ensures
        reference_name_of(a, extension) != reference_name_of(b, extension),
{
    let one = reference_name_of(a, extension);
    let other = reference_name_of(b, extension);
    let x = numeral(a as nat, 16);
    let y = numeral(b as nat, 16);
    crate::text::numerals_differ(a as nat, b as nat, 16);
    let head = "ref_"@;
    let tail = "."@ + extension;
    if one == other {
        assert(one =~= head + x + tail);
        assert(other =~= head + y + tail);
        assert(one.len() == head.len() + x.len() + tail.len());
        assert(x.len() == y.len());
        assert(one.subrange(head.len() as int, (head.len() + x.len()) as int) =~= x);
        assert(other.subrange(head.len() as int, (head.len() + y.len()) as int) =~= y);
    }
}

/// The note on a timeout names the author whose timeout it was, and tells one that was
/// lifted from one that was not. Where there was none it says nothing.
pub proof fn notes_tell_what_became_of_a_timeout(author: u64)
    ensures
        lift_text(Some(author), true) == ", timeout of "@ + user_mention(author) + " lifted"@,
        lift_text(Some(author), false) == ", could not lift the timeout of "@ + user_mention(author),
        lift_text(None, true).len() == 0,
        lift_text(None, false).len() == 0,
{
}

/// The answer to a picked message counts the references, and the images that failed where
/// there are any, and ends in the summary of the recent posts.
pub proof fn answers_count_references_and_failures(added: nat, failures: nat, retro: nat)
    ensures
        menu_answer(added, 0, retro) == "Added "@ + decimal(added) + " reference(s)."@ + retro_text(
            retro,
        ),
        failures > 0 ==> menu_answer(added, failures, retro) == "Added "@ + decimal(added)
            + " reference(s)."@ + " "@ + decimal(failures)
            + " image(s) could not be added (see logs)."@ + retro_text(retro),
{
}

/// In a server, a member who may not manage references is refused, whatever the button, and
/// one who may is told of a button that there is not.
pub proof fn other_clicks_are_refused(
    mod_roles: Seq<u64>,
    member: Option<MemberFacts>,
    custom_id: Seq<char>,
)
    ensures
        !may_manage(mod_roles, member) ==> review_plan(true, mod_roles, member, custom_id) is Refuse,
        may_manage(mod_roles, member) && asked_by_button(custom_id).kind is Unknown ==> review_plan(
            true,
            mod_roles,
            member,
            custom_id,
        ) is Unknown,
{
}

/// An extension with any other character than letters and digits is not kept.
pub proof fn other_extensions_are_not_kept(filename: Seq<char>, extension: Seq<char>, i: int)
    requires
        path_extension(filename) == Some(extension),
        0 <= i < extension.len(),
        !('a' <= extension[i] <= 'z' || 'A' <= extension[i] <= 'Z' || '0' <= extension[i] <= '9'),
    ensures
        stored_extension(filename) == "png"@,
{
}

} // verus!
