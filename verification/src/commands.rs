//! The prefix commands that manage the reference images.
use vstd::prelude::*;

use crate::config::GuildConfig;
use crate::lists::has_value;
use crate::text::{
    decimal, decimal_text, join, joined, numeral, numeral_text, numerals_differ, same_text, texts,
};
use crate::unicode::{split_whitespace, words_in};

verus! {

/// The most bytes of an image that may become a reference. Every server pays for
/// each reference, so one limit holds for all of them.
pub const MAX_REFERENCE_BYTES: u32 = 15728640;

/// What is known of a member who asks for something.
#[derive(Debug)]
pub struct MemberFacts {
    pub roles: Vec<u64>,
    /// Whether the member may manage messages, if that is known.
    pub manage_messages: Option<bool>,
    /// Whether the member is an administrator, if that is known.
    pub administrator: Option<bool>,
}

/// The member has one of these roles.
pub open spec fn has_a_role(roles: Seq<u64>, listed: Seq<u64>) -> bool {
    exists|i: int| 0 <= i < roles.len() && listed.contains(#[trigger] roles[i])
}

/// The member may manage references: by one of the server's moderator roles if it
/// has any, else by the permission to manage messages.
pub open spec fn may_manage(mod_roles: Seq<u64>, member: Option<MemberFacts>) -> bool {
    match member {
        Some(member) => if mod_roles.len() > 0 {
            has_a_role(member.roles@, mod_roles)
        } else {
            member.manage_messages == Some(true)
        },
        None => false,
    }
}

/// Whether one of the roles is listed.
pub fn any_role_listed(roles: &[u64], listed: &[u64]) -> (r: bool)
    ensures
        r == has_a_role(roles@, listed@),
{
    for i in 0..roles.len()
        invariant
            forall|k: int| 0 <= k < i ==> !listed@.contains(#[trigger] roles@[k]),
    {
        if has_value(listed, roles[i]) {
            return true;
        }
    }
    false
}

/// Whether a member may manage references. Nobody who is unknown may.
pub fn is_authorized(guild: &GuildConfig, member: &Option<MemberFacts>) -> (r: bool)
    ensures
        r == may_manage(guild.mod_role_ids@, *member),
{
    match member {
        Some(member) => if guild.mod_role_ids.len() > 0 {
            any_role_listed(member.roles.as_slice(), guild.mod_role_ids.as_slice())
        } else {
            match member.manage_messages {
                Some(allowed) => allowed,
                None => false,
            }
        },
        None => false,
    }
}

/// What a command asks for.
#[derive(Debug, PartialEq, Eq)]
pub enum Command {
    Add,
    List,
    /// Remove the named reference, if one is named.
    Remove(Option<String>),
    /// Anything else is answered with what there is.
    Help,
}

/// What a command asks for, as a value to compare with.
pub enum Asked {
    Add,
    List,
    Remove(Option<Seq<char>>),
    Help,
}

impl View for Command {
    type V = Asked;

    open spec fn view(&self) -> Asked {
        match self {
            Command::Add => Asked::Add,
            Command::List => Asked::List,
            Command::Remove(Some(name)) => Asked::Remove(Some(name@)),
            Command::Remove(None) => Asked::Remove(None),
            Command::Help => Asked::Help,
        }
    }
}

/// What these words ask for.
pub open spec fn asked_by(words: Seq<Seq<char>>) -> Asked {
    if words.len() == 0 {
        Asked::Help
    } else if words[0] == "add"@ {
        Asked::Add
    } else if words[0] == "list"@ {
        Asked::List
    } else if words[0] == "remove"@ {
        if words.len() > 1 {
            Asked::Remove(Some(words[1]))
        } else {
            Asked::Remove(None)
        }
    } else {
        Asked::Help
    }
}

/// What these words ask for.
pub fn command_of(words: &[String]) -> (r: Command)
    ensures
        r@ == asked_by(texts(words@)),
{
    if words.len() == 0 {
        return Command::Help;
    }
    assert(texts(words@)[0] == words@[0]@);
    if same_text(words[0].as_str(), "add") {
        Command::Add
    } else if same_text(words[0].as_str(), "list") {
        Command::List
    } else if same_text(words[0].as_str(), "remove") {
        if words.len() > 1 {
            assert(texts(words@)[1] == words@[1]@);
            Command::Remove(Some(words[1].clone()))
        } else {
            Command::Remove(None)
        }
    } else {
        Command::Help
    }
}

/// What the text after the command prefix asks for.
pub fn parse_command(rest: &str) -> (r: Command)
    ensures
        r@ == asked_by(words_in(rest@)),
{
    let words = split_whitespace(rest);
    command_of(words.as_slice())
}

/// The answer to a command that there is not.
pub fn help_text() -> (r: &'static str)
    ensures
        r@ == "Available commands:\n`!scam add` (with one or more attached images) — add scam references\n`!scam list` — list known references\n`!scam remove <file>` — remove a reference"@,
{
    "Available commands:\n`!scam add` (with one or more attached images) — add scam references\n`!scam list` — list known references\n`!scam remove <file>` — remove a reference"
}

/// The answer to an add without images.
pub fn nothing_attached_text() -> (r: &'static str)
    ensures
        r@ == "Attach one or more images to your `!scam add` command."@,
{
    "Attach one or more images to your `!scam add` command."
}

/// Whether an image of this size may become a reference.
pub fn fits_reference(size: u32) -> (r: bool)
    ensures
        r == (size <= MAX_REFERENCE_BYTES),
{
    size <= MAX_REFERENCE_BYTES
}

/// What became of an attached image.
#[derive(Debug, Clone, Copy, PartialEq, Eq, Structural)]
pub enum AddOutcome {
    /// It is over the size limit.
    TooLarge,
    /// It could not be downloaded or added.
    Failed,
    /// It was added, and so many recent posts matched it.
    Added { retro: usize },
}

/// The images that were added.
pub open spec fn added_count(outcomes: Seq<AddOutcome>) -> nat
    decreases outcomes.len(),
{
    if outcomes.len() == 0 {
        0
    } else {
        added_count(outcomes.drop_last()) + if outcomes.last() is Added {
            1nat
        } else {
            0
        }
    }
}

/// The images that were too large.
pub open spec fn too_large_count(outcomes: Seq<AddOutcome>) -> nat
    decreases outcomes.len(),
{
    if outcomes.len() == 0 {
        0
    } else {
        too_large_count(outcomes.drop_last()) + if outcomes.last() is TooLarge {
            1nat
        } else {
            0
        }
    }
}

/// The recent posts that matched the added images.
pub open spec fn retro_count(outcomes: Seq<AddOutcome>) -> nat
    decreases outcomes.len(),
{
    if outcomes.len() == 0 {
        0
    } else {
        retro_count(outcomes.drop_last()) + match outcomes.last() {
            AddOutcome::Added { retro } => retro as nat,
            _ => 0,
        }
    }
}

proof fn retro_count_grows(outcomes: Seq<AddOutcome>, n: int)
    requires
        0 <= n <= outcomes.len(),
    ensures
        retro_count(outcomes.take(n)) <= retro_count(outcomes),
    decreases outcomes.len() - n,
{
    if n == outcomes.len() {
        assert(outcomes.take(n) =~= outcomes);
    } else {
        retro_count_grows(outcomes, n + 1);
        assert(outcomes.take(n + 1).drop_last() =~= outcomes.take(n));
    }
}

/// The answer to an add.
pub open spec fn add_answer(outcomes: Seq<AddOutcome>, total: nat) -> Seq<char> {
    let head = decimal(added_count(outcomes)) + " reference image(s) added. Total: "@ + decimal(
        total,
    );
    let with_retro = if retro_count(outcomes) > 0 {
        head + "\nRetro-scan: "@ + decimal(retro_count(outcomes))
            + " recent post(s) matched and were handled."@
    } else {
        head
    };
    if too_large_count(outcomes) > 0 {
        with_retro + "\n"@ + decimal(too_large_count(outcomes)) + " image(s) skipped: over the "@
            + decimal((MAX_REFERENCE_BYTES / 1048576) as nat) + " MiB reference size limit."@
    } else {
        with_retro
    }
}

/// The answer to an add: what became of each image, and how many references
/// there are now.
pub fn add_reply(outcomes: &[AddOutcome], total: usize) -> (r: String)
    requires
        retro_count(outcomes@) <= usize::MAX,
    ensures
        r@ == add_answer(outcomes@, total as nat),
{
    let mut added: usize = 0;
    let mut too_large: usize = 0;
    let mut retro: usize = 0;
    for i in 0..outcomes.len()
        invariant
            retro_count(outcomes@) <= usize::MAX,
            added == added_count(outcomes@.take(i as int)),
            too_large == too_large_count(outcomes@.take(i as int)),
            retro == retro_count(outcomes@.take(i as int)),
            added <= i,
            too_large <= i,
    {
        assert(outcomes@.take(i + 1).drop_last() =~= outcomes@.take(i as int));
        proof {
            retro_count_grows(outcomes@, i + 1);
        }
        match outcomes[i] {
            AddOutcome::TooLarge => {
                too_large = too_large + 1;
            },
            AddOutcome::Failed => {},
            AddOutcome::Added { retro: n } => {
                added = added + 1;
                retro = retro + n;
            },
        }
    }
    assert(outcomes@.take(outcomes@.len() as int) =~= outcomes@);
    let mut reply = decimal_text(added as u64);
    reply.append(" reference image(s) added. Total: ");
    reply.append(decimal_text(total as u64).as_str());
    if retro > 0 {
        reply.append("\nRetro-scan: ");
        reply.append(decimal_text(retro as u64).as_str());
        reply.append(" recent post(s) matched and were handled.");
    }
    if too_large > 0 {
        reply.append("\n");
        reply.append(decimal_text(too_large as u64).as_str());
        reply.append(" image(s) skipped: over the ");
        reply.append(decimal_text((MAX_REFERENCE_BYTES / 1048576) as u64).as_str());
        reply.append(" MiB reference size limit.");
    }
    reply
}

/// The answer to a list.
pub open spec fn list_answer(names: Seq<Seq<char>>) -> Seq<char> {
    if names.len() == 0 {
        "No reference stored yet."@
    } else {
        "**"@ + decimal(names.len()) + " reference(s):**\n```\n"@ + joined(names, "\n"@)
            + "\n```"@
    }
}

/// The answer to a list of the references.
pub fn list_reply(names: &[String]) -> (r: String)
    ensures
        r@ == list_answer(texts(names@)),
{
    if names.len() == 0 {
        return "No reference stored yet.".to_owned();
    }
    let mut reply = "**".to_owned();
    reply.append(decimal_text(names.len() as u64).as_str());
    reply.append(" reference(s):**\n```\n");
    reply.append(join(names, "\n").as_str());
    reply.append("\n```");
    reply
}

/// The answer to a remove that names no reference.
pub fn remove_usage_text() -> (r: &'static str)
    ensures
        r@ == "Usage: `!scam remove <filename>` (see `!scam list`)"@,
{
    "Usage: `!scam remove <filename>` (see `!scam list`)"
}

/// The answer to a remove.
pub open spec fn remove_answer(name: Seq<char>, removed: bool) -> Seq<char> {
    if removed {
        "Reference `"@ + name + "` removed."@
    } else {
        "No reference named `"@ + name + "`."@
    }
}

/// The answer to a remove: whether there was such a reference.
pub fn remove_reply(name: &str, removed: bool) -> (r: String)
    ensures
        r@ == remove_answer(name@, removed),
{
    let mut reply = if removed {
        "Reference `".to_owned()
    } else {
        "No reference named `".to_owned()
    };
    reply.append(name);
    reply.append(if removed { "` removed." } else { "`." });
    reply
}

/// A suffix for file names that is never the same at two times: the nanoseconds
/// since 1970, in hexadecimal.
pub fn unique_suffix(nanos: u128) -> (r: String)
    ensures
        r@ == numeral(nanos as nat, 16),
{
    numeral_text(nanos, 16)
}

/// At two times the suffix is not the same.
pub proof fn suffixes_differ(a: u128, b: u128)
    requires
        a != b,
    ensures
        numeral(a as nat, 16) != numeral(b as nat, 16),
{
    numerals_differ(a as nat, b as nat, 16);
}

/// A member manages references by one of the server's moderator roles, whatever else the
/// member may do. Where the server has none, the permission to manage messages decides.
/// A stranger never does.
pub proof fn moderators_manage_references(mod_roles: Seq<u64>, member: MemberFacts)
    ensures
        mod_roles.len() > 0 ==> (may_manage(mod_roles, Some(member)) <==> exists|i: int, k: int|
            0 <= i < member.roles@.len() && 0 <= k < mod_roles.len() && #[trigger] member.roles@[i]
                == #[trigger] mod_roles[k]),
        mod_roles.len() == 0 ==> (may_manage(mod_roles, Some(member)) <==> (
        member.manage_messages matches Some(allowed) && allowed)),
        !may_manage(mod_roles, None),
{
    if mod_roles.len() > 0 {
        if has_a_role(member.roles@, mod_roles) {
            let i = choose|i: int|
                0 <= i < member.roles@.len() && mod_roles.contains(#[trigger] member.roles@[i]);
            let k = choose|k: int| 0 <= k < mod_roles.len() && mod_roles[k] == member.roles@[i];
            assert(member.roles@[i] == mod_roles[k]);
        }
        if exists|i: int, k: int|
            0 <= i < member.roles@.len() && 0 <= k < mod_roles.len() && #[trigger] member.roles@[i]
                == #[trigger] mod_roles[k] {
            let (i, k) = choose|i: int, k: int|
                0 <= i < member.roles@.len() && 0 <= k < mod_roles.len()
                    && #[trigger] member.roles@[i] == #[trigger] mod_roles[k];
            assert(mod_roles.contains(member.roles@[i]));
        }
    }
}

/// A role is listed where both lists hold it.
pub proof fn listed_roles_are_shared(roles: Seq<u64>, listed: Seq<u64>, role: u64)
    ensures
        roles.contains(role) && listed.contains(role) ==> has_a_role(roles, listed),
        has_a_role(roles, listed) ==> exists|shared: u64| #[trigger]
            roles.contains(shared) && listed.contains(shared),
{
    if roles.contains(role) && listed.contains(role) {
        let i = choose|i: int| 0 <= i < roles.len() && roles[i] == role;
        assert(listed.contains(roles[i]));
    }
    if has_a_role(roles, listed) {
        let i = choose|i: int| 0 <= i < roles.len() && listed.contains(#[trigger] roles[i]);
        assert(roles.contains(roles[i]));
    }
}

/// The first word says what is asked for, whatever follows it, and the second one names
/// the reference to remove. Anything else asks for help.
pub proof fn the_first_word_decides(first: Seq<char>, name: Seq<char>, more: Seq<Seq<char>>)
    ensures
        asked_by(seq!["add"@] + more) is Add,
        asked_by(seq!["list"@] + more) is List,
        asked_by(seq!["remove"@]) matches Asked::Remove(named) && named is None,
        asked_by(seq!["remove"@, name] + more) matches Asked::Remove(named) && named == Some(name),
        first != "add"@ && first != "list"@ && first != "remove"@ ==> asked_by(
            seq![first] + more,
        ) is Help,
        asked_by(Seq::empty()) is Help,
{
    reveal_strlit("add");
    reveal_strlit("list");
    reveal_strlit("remove");
    assert("add"@.len() == 3 && "list"@.len() == 4 && "remove"@.len() == 6);
    assert((seq!["add"@] + more)[0] == "add"@);
    assert((seq!["list"@] + more)[0] == "list"@);
    assert((seq!["remove"@, name] + more)[0] == "remove"@);
    assert((seq!["remove"@, name] + more)[1] == name);
    assert((seq![first] + more)[0] == first);
}

/// What became of each image is counted once, under what became of it.
pub proof fn outcomes_are_counted(a: Seq<AddOutcome>, outcome: AddOutcome)
    ensures
        added_count(a.push(outcome)) == added_count(a) + (if outcome is Added { 1int } else { 0 }),
        too_large_count(a.push(outcome)) == too_large_count(a) + (if outcome is TooLarge {
            1int
        } else {
            0
        }),
        outcome matches AddOutcome::Added { retro } ==> retro_count(a.push(outcome)) == retro_count(
            a,
        ) + retro,
        !(outcome is Added) ==> retro_count(a.push(outcome)) == retro_count(a),
        added_count(Seq::empty()) == 0,
        too_large_count(Seq::empty()) == 0,
        retro_count(Seq::empty()) == 0,
        MAX_REFERENCE_BYTES == 15 * 1024 * 1024,
{
    assert(a.push(outcome).drop_last() =~= a);
}

/// A list names every reference, one to a line, and their number. Only an empty one says
/// that there is none.
pub proof fn lists_name_every_reference(names: Seq<Seq<char>>)
    requires
        names.len() > 0,
    ensures
        exists|head: Seq<char>, tail: Seq<char>|
            list_answer(names) == "**"@ + decimal(names.len()) + head + joined(names, seq!['\n'])
                + tail && #[trigger] head.len() > 0 && #[trigger] tail.len() > 0,
        list_answer(Seq::empty()) == "No reference stored yet."@,
{
    reveal_strlit("\n");
    reveal_strlit(" reference(s):**\n```\n");
    reveal_strlit("\n```");
    assert("\n"@ =~= seq!['\n']);
    let head = " reference(s):**\n```\n"@;
    let tail = "\n```"@;
    assert(head.len() > 0 && tail.len() > 0);
}

/// The answer to adding counts the references that were added and those that there are, and
/// it speaks of matching posts and of images that are too large only where there are any.
pub proof fn answers_count_what_became_of_images(outcomes: Seq<AddOutcome>, total: nat)
    ensures
        ({
            let added = decimal(added_count(outcomes)) + " reference image(s) added. Total: "@
                + decimal(total);
            let retro = "\nRetro-scan: "@ + decimal(retro_count(outcomes))
                + " recent post(s) matched and were handled."@;
            let answer = add_answer(outcomes, total);
            &&& retro_count(outcomes) == 0 && too_large_count(outcomes) == 0 ==> answer == added
            &&& retro_count(outcomes) > 0 && too_large_count(outcomes) == 0 ==> answer == added
                + retro
            &&& too_large_count(outcomes) > 0 ==> answer.len() > added.len()
        }),
{
    let added = decimal(added_count(outcomes)) + " reference image(s) added. Total: "@ + decimal(
        total,
    );
    let retro = "\nRetro-scan: "@ + decimal(retro_count(outcomes))
        + " recent post(s) matched and were handled."@;
    reveal_strlit("\n");
    if retro_count(outcomes) > 0 && too_large_count(outcomes) == 0 {
        assert(add_answer(outcomes, total) =~= added + retro);
    }
}

/// The answer to removing names the reference, and tells one that was there from one that
/// was not.
pub proof fn answers_name_the_removed_reference(name: Seq<char>)
    ensures
        remove_answer(name, true) == "Reference `"@ + name + "` removed."@,
        remove_answer(name, false) == "No reference named `"@ + name + "`."@,
{
}

} // verus!
