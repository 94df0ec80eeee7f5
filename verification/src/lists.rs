//! Lists of numbers and texts.
use vstd::prelude::*;

use crate::text::{same_text, texts};

verus! {

/// At most so many of a list.
pub open spec fn at_most<T>(s: Seq<T>, n: int) -> Seq<T> {
    if s.len() <= n {
        s
    } else {
        s.take(n)
    }
}

/// Whether a list holds a value.
pub fn has_value(list: &[u64], value: u64) -> (r: bool)
    ensures
        r == list@.contains(value),
{
    for i in 0..list.len()
        invariant
            forall|k: int| 0 <= k < i ==> list@[k] != value,
    {
        if list[i] == value {
            return true;
        }
    }
    false
}

/// Whether a list holds a text.
pub fn has_text(list: &[String], text: &str) -> (r: bool)
    ensures
        r == texts(list@).contains(text@),
{
    for i in 0..list.len()
        invariant
            forall|k: int| 0 <= k < i ==> (#[trigger] texts(list@)[k]) != text@,
    {
        assert(texts(list@)[i as int] == list@[i as int]@);
        if same_text(list[i].as_str(), text) {
            return true;
        }
    }
    false
}

/// A list that is short enough stays as it is, and a longer one keeps its start.
pub proof fn the_start_of_a_list_is_kept<T>(s: Seq<T>, n: int)
    requires
        0 <= n,
    ensures
        s.len() <= n ==> at_most(s, n) == s,
        s.len() > n ==> at_most(s, n).len() == n,
        forall|i: int| 0 <= i < s.len() && i < n ==> at_most(s, n)[i] == #[trigger] s[i],
{
}

} // verus!
