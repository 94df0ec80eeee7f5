//! Users, channels and roles as they are mentioned in messages.
use vstd::prelude::*;

use crate::text::{decimal, decimal_text};

verus! {

/// A user, mentioned.
pub open spec fn user_mention(user: u64) -> Seq<char> {
    "<@"@ + decimal(user as nat) + ">"@
}

/// A channel, mentioned.
pub open spec fn channel_mention(channel: u64) -> Seq<char> {
    "<#"@ + decimal(channel as nat) + ">"@
}

/// A role, mentioned.
pub open spec fn role_mention(role: u64) -> Seq<char> {
    "<@&"@ + decimal(role as nat) + ">"@
}

/// A user, mentioned.
pub fn mention_user(user: u64) -> (r: String)
    ensures
        r@ == user_mention(user),
{
    let mut text = "<@".to_owned();
    text.append(decimal_text(user).as_str());
    text.append(">");
    text
}

/// A channel, mentioned.
pub fn mention_channel(channel: u64) -> (r: String)
    ensures
        r@ == channel_mention(channel),
{
    let mut text = "<#".to_owned();
    text.append(decimal_text(channel).as_str());
    text.append(">");
    text
}

/// A role, mentioned.
pub fn mention_role(role: u64) -> (r: String)
    ensures
        r@ == role_mention(role),
{
    let mut text = "<@&".to_owned();
    text.append(decimal_text(role).as_str());
    text.append(">");
    text
}

/// Mentions are written as Discord reads them: each kind by its own marks, with the id
/// between them.
pub proof fn mentions_hold_the_id(id: u64)
    ensures
        user_mention(id) == seq!['<', '@'] + decimal(id as nat) + seq!['>'],
        channel_mention(id) == seq!['<', '#'] + decimal(id as nat) + seq!['>'],
        role_mention(id) == seq!['<', '@', '&'] + decimal(id as nat) + seq!['>'],
{
    reveal_strlit("<@");
    reveal_strlit("<#");
    reveal_strlit("<@&");
    reveal_strlit(">");
    assert("<@"@ =~= seq!['<', '@']);
    assert("<#"@ =~= seq!['<', '#']);
    assert("<@&"@ =~= seq!['<', '@', '&']);
    assert(">"@ =~= seq!['>']);
}

} // verus!
