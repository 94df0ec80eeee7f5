//! Log channels that are suggested while one is typed.
use vstd::prelude::*;

use crate::lists::at_most;
use crate::slashconfig::Choice;
use crate::text::{
    comes_before, contains, contains_text, decimal, decimal_text, text_before, text_before_chain,
    text_before_either, text_before_itself,
};
use crate::unicode::{lowercase, to_lowercase};

verus! {

/// What kind of channel it is.
#[derive(Debug, Clone, Copy, PartialEq, Eq, Structural)]
pub enum ChannelKind {
    Text,
    News,
    Other,
}

/// What is known of a channel.
#[derive(Debug)]
pub struct ChannelFacts {
    pub id: u64,
    pub name: String,
    pub kind: ChannelKind,
    /// Whether the bot may see the channel and send messages there.
    pub view_channel: bool,
    pub send_messages: bool,
}

/// The channel is one to suggest for what was typed.
pub open spec fn suggested(c: ChannelFacts, typed: Seq<char>) -> bool {
    &&& c.kind == ChannelKind::Text || c.kind == ChannelKind::News
    &&& c.view_channel && c.send_messages
    &&& typed.len() == 0 || contains_text(lowercase(c.name@), lowercase(typed))
}

/// The channels to suggest, by name and id.
pub open spec fn suggestions(channels: Seq<ChannelFacts>, typed: Seq<char>) -> Seq<
    (Seq<char>, Seq<char>),
>
    decreases channels.len(),
{
    if channels.len() == 0 {
        Seq::empty()
    } else {
        let init = suggestions(channels.drop_last(), typed);
        let c = channels.last();
        if suggested(c, typed) {
            init.push(("#"@ + c.name@, decimal(c.id as nat)))
        } else {
            init
        }
    }
}

/// A sorted list with one more item, behind those that are not greater.
pub open spec fn inserted(
    list: Seq<(Seq<char>, Seq<char>)>,
    item: (Seq<char>, Seq<char>),
) -> Seq<(Seq<char>, Seq<char>)>
    decreases list.len(),
{
    if list.len() > 0 && text_before(item.0, list.last().0) {
        inserted(list.drop_last(), item).push(list.last())
    } else {
        list.push(item)
    }
}

/// A list in the order of its names. Items of one name stay in their order.
pub open spec fn sorted_by_name(list: Seq<(Seq<char>, Seq<char>)>) -> Seq<(Seq<char>, Seq<char>)>
    decreases list.len(),
{
    if list.len() == 0 {
        list
    } else {
        inserted(sorted_by_name(list.drop_last()), list.last())
    }
}

/// The most values that are suggested at once.
pub const MAX_SUGGESTIONS: usize = 25;

/// What each of a list of choices says.
pub open spec fn choice_texts(choices: Seq<Choice>) -> Seq<(Seq<char>, Seq<char>)> {
    choices.map_values(|c: Choice| (c.name@, c.value@))
}

fn insert_choice(choices: &mut Vec<Choice>, item: Choice)
    ensures
        choice_texts(final(choices)@) == inserted(
            choice_texts(old(choices)@),
            (item.name@, item.value@),
        ),
{
    let ghost list = choice_texts(choices@);
    let ghost new_item = (item.name@, item.value@);
    let mut at: usize = choices.len();
    assert(list.take(at as int) =~= list);
    assert(list.skip(at as int) =~= Seq::empty());
    assert(inserted(list, new_item) =~= inserted(list.take(at as int), new_item) + list.skip(
        at as int,
    ));
    while at > 0 && comes_before(item.name.as_str(), choices[at - 1].name.as_str())
        invariant
            list == choice_texts(choices@),
            new_item == (item.name@, item.value@),
            at <= choices@.len(),
            inserted(list, new_item) == inserted(list.take(at as int), new_item) + list.skip(
                at as int,
            ),
        decreases at,
    {
        let ghost head = list.take(at as int);
        assert(head.last() == list[at - 1]);
        assert(head.drop_last() =~= list.take(at - 1));
        assert(inserted(head, new_item) == inserted(list.take(at - 1), new_item).push(
            list[at - 1],
        ));
        assert(inserted(list.take(at - 1), new_item).push(list[at - 1]) + list.skip(at as int)
            =~= inserted(list.take(at - 1), new_item) + list.skip(at - 1));
        at = at - 1;
    }
    assert(at > 0 ==> list.take(at as int).last() == list[at - 1]);
    assert(inserted(list.take(at as int), new_item) == list.take(at as int).push(new_item));
    choices.insert(at, item);
    assert(choice_texts(choices@) =~= list.take(at as int).push(new_item) + list.skip(at as int));
}

/// The channels to suggest for a log channel: text channels that the bot can post
/// in and whose name holds what was typed, in the order of their names.
pub fn postable_channels(channels: &[ChannelFacts], typed: &str) -> (r: Vec<Choice>)
    ensures
        choice_texts(r@) == at_most(
            sorted_by_name(suggestions(channels@, typed@)),
            MAX_SUGGESTIONS as int,
        ),
{
    let typed_lower = to_lowercase(typed);
    let mut matches: Vec<Choice> = Vec::new();
    assert(choice_texts(matches@) =~= sorted_by_name(suggestions(channels@.take(0), typed@)));
    for i in 0..channels.len()
        invariant
            typed_lower@ == lowercase(typed@),
            choice_texts(matches@) == sorted_by_name(
                suggestions(channels@.take(i as int), typed@),
            ),
    {
        assert(channels@.take(i + 1).drop_last() =~= channels@.take(i as int));
        let c = &channels[i];
        let listed = match c.kind {
            ChannelKind::Text => true,
            ChannelKind::News => true,
            ChannelKind::Other => false,
        };
        if listed && c.view_channel && c.send_messages && (typed.is_empty() || contains(
            to_lowercase(c.name.as_str()).as_str(),
            typed_lower.as_str(),
        )) {
            let mut name = "#".to_owned();
            name.append(c.name.as_str());
            let item = Choice { name, value: decimal_text(c.id) };
            let ghost before = suggestions(channels@.take(i as int), typed@);
            assert(before.push((item.name@, item.value@)).drop_last() =~= before);
            insert_choice(&mut matches, item);
        }
    }
    assert(channels@.take(channels@.len() as int) =~= channels@);
    let ghost all = choice_texts(matches@);
    if matches.len() > MAX_SUGGESTIONS {
        matches.truncate(MAX_SUGGESTIONS);
        assert(choice_texts(matches@) =~= all.take(MAX_SUGGESTIONS as int));
    }
    matches
}

/// A list is in the order of its names.
pub open spec fn in_name_order(list: Seq<(Seq<char>, Seq<char>)>) -> bool {
    forall|i: int, j: int|
        0 <= i < j < list.len() ==> !text_before((#[trigger] list[j]).0, (#[trigger] list[i]).0)
}

proof fn inserting_keeps_order(
    list: Seq<(Seq<char>, Seq<char>)>,
    item: (Seq<char>, Seq<char>),
)
    requires
        in_name_order(list),
    ensures
        in_name_order(inserted(list, item)),
        inserted(list, item).to_multiset() == list.to_multiset().insert(item),
        forall|k: int|
            0 <= k < inserted(list, item).len() ==> (#[trigger] inserted(list, item)[k]) == item
                || list.contains(inserted(list, item)[k]),
    decreases list.len(),
{
    broadcast use vstd::seq_lib::group_to_multiset_ensures;

    let after = inserted(list, item);
    if list.len() > 0 && text_before(item.0, list.last().0) {
        let init = list.drop_last();
        let last = list.last();
        assert forall|i: int, j: int| 0 <= i < j < init.len() implies !text_before(
            (#[trigger] init[j]).0,
            (#[trigger] init[i]).0,
        ) by {
            assert(init[i] == list[i] && init[j] == list[j]);
        }
        inserting_keeps_order(init, item);
        let head = inserted(init, item);
        assert(init.push(last) =~= list);
        assert(list.to_multiset() =~= init.to_multiset().insert(last));
        assert(after.to_multiset() =~= list.to_multiset().insert(item));
        assert forall|k: int| 0 <= k < after.len() implies (#[trigger] after[k]) == item
            || list.contains(after[k]) by {
            if k < head.len() {
                assert(after[k] == head[k]);
                if head[k] != item {
                    let n = choose|n: int| 0 <= n < init.len() && init[n] == head[k];
                    assert(list[n] == head[k]);
                }
            } else {
                assert(list[list.len() - 1] == last);
            }
        }
        assert forall|i: int, j: int| 0 <= i < j < after.len() implies !text_before(
            (#[trigger] after[j]).0,
            (#[trigger] after[i]).0,
        ) by {
            if j < head.len() {
                assert(after[i] == head[i] && after[j] == head[j]);
            } else {
                assert(after[j] == last);
                assert(after[i] == head[i]);
                if head[i] == item {
                    if text_before(last.0, item.0) {
                        text_before_chain(last.0, item.0, last.0);
                        text_before_itself(last.0);
                    }
                } else {
                    let n = choose|n: int| 0 <= n < init.len() && init[n] == head[i];
                    assert(list[n] == head[i]);
                    assert(list[list.len() - 1] == last);
                }
            }
        }
    } else {
        assert(after =~= list.push(item));
        assert forall|i: int, j: int| 0 <= i < j < after.len() implies !text_before(
            (#[trigger] after[j]).0,
            (#[trigger] after[i]).0,
        ) by {
            if j < list.len() {
                assert(after[i] == list[i] && after[j] == list[j]);
            } else {
                assert(after[i] == list[i]);
                let last = list.last();
                if text_before(item.0, list[i].0) {
                    if i < list.len() - 1 {
                        assert(list[list.len() - 1] == last);
                        assert(!text_before(last.0, list[i].0));
                        text_before_either(last.0, list[i].0);
                        if last.0 != list[i].0 {
                            text_before_chain(item.0, list[i].0, last.0);
                        }
                    }
                }
            }
        }
        assert forall|k: int| 0 <= k < after.len() implies (#[trigger] after[k]) == item
            || list.contains(after[k]) by {
            if k < list.len() {
                assert(list[k] == after[k]);
            }
        }
    }
}

/// The suggestions are in the order of their names, and none is lost or made up.
pub proof fn suggestions_are_sorted(list: Seq<(Seq<char>, Seq<char>)>)
    ensures
        in_name_order(sorted_by_name(list)),
        sorted_by_name(list).to_multiset() == list.to_multiset(),
    decreases list.len(),
{
    broadcast use vstd::seq_lib::group_to_multiset_ensures;

    if list.len() > 0 {
        suggestions_are_sorted(list.drop_last());
        inserting_keeps_order(sorted_by_name(list.drop_last()), list.last());
        assert(list.drop_last().push(list.last()) =~= list);
    }
}

/// A text channel or a news channel is suggested where the bot may see it and send there,
/// and where its name holds what was typed, whatever the case. Nothing typed fits any name.
/// No other channel is suggested.
pub proof fn channels_that_can_be_posted_in_are_suggested(c: ChannelFacts, typed: Seq<char>)
    ensures
        suggested(c, typed) <==> !(c.kind is Other) && c.view_channel && c.send_messages && (
        typed.len() == 0 || exists|a: Seq<char>, b: Seq<char>|
            lowercase(c.name@) == a + lowercase(typed) + b && #[trigger] a.len() + #[trigger] b.len()
                <= lowercase(c.name@).len()),
{
    let name = lowercase(c.name@);
    let part = lowercase(typed);
    if contains_text(name, part) {
        crate::text::parts_can_be_cut_out(name, part, name, name);
        let at = choose|at: int|
            0 <= at <= name.len() - part.len() && name.take(at) + part + #[trigger] name.skip(
                at + part.len(),
            ) == name;
        let a = name.take(at);
        let b = name.skip(at + part.len());
        assert(a.len() + b.len() <= name.len());
    }
    if exists|a: Seq<char>, b: Seq<char>|
        name == a + part + b && #[trigger] a.len() + #[trigger] b.len() <= name.len() {
        let (a, b) = choose|a: Seq<char>, b: Seq<char>|
            name == a + part + b && #[trigger] a.len() + #[trigger] b.len() <= name.len();
        crate::text::parts_can_be_cut_out(name, part, a, b);
    }
}

/// Every channel that is suggested stands in the list by its name and its id, and at most
/// twenty-five are shown, the first ones by name.
pub proof fn every_suggested_channel_is_listed(
    channels: Seq<ChannelFacts>,
    c: ChannelFacts,
    typed: Seq<char>,
)
    ensures
        suggested(c, typed) ==> suggestions(channels.push(c), typed) == suggestions(
            channels,
            typed,
        ).push((seq!['#'] + c.name@, decimal(c.id as nat))),
        !suggested(c, typed) ==> suggestions(channels.push(c), typed) == suggestions(
            channels,
            typed,
        ),
        suggestions(Seq::empty(), typed).len() == 0,
        MAX_SUGGESTIONS == 25,
{
    assert(channels.push(c).drop_last() =~= channels);
    reveal_strlit("#");
    assert("#"@ =~= seq!['#']);
}

} // verus!
