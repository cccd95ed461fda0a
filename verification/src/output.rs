use vstd::prelude::*;

use crate::text::{
    lemma_replaced_pattern_then_plain, occurs_at, prefix_chars, replace_all, replaced, take_chars,
};

verus! {

/// How many characters of a status line are shown.
pub const LINE_WIDTH: usize = 60;

/// The part of a status text that is shown: its first sixty characters.
pub fn visible_text(text: &str) -> (r: String)
    ensures
        r@ == prefix_chars(text@, LINE_WIDTH as nat),
        r@.len() == if text@.len() > 60 { 60 } else { text@.len() },
        r@ == text@.take(r@.len() as int),
{
    take_chars(text, LINE_WIDTH)
}

/// The marker in the name of the log file that stands for the start time.
pub open spec fn timestamp_marker() -> Seq<char> {
    seq!['[', 't', 'i', 'm', 'e', 's', 't', 'a', 'm', 'p', ']']
}

/// The name of the log file: the configured name with every `[timestamp]`
/// replaced by the start time.
pub fn log_file_name(template: &str, timestamp: &str) -> (r: String)
    ensures
        r@ == replaced(template@, timestamp_marker(), timestamp@),
{
    proof {
        reveal_strlit("[timestamp]");
        assert("[timestamp]"@ =~= timestamp_marker());
    }
    replace_all(template, "[timestamp]", timestamp)
}

/// A name that starts with the marker, followed by text without it, becomes
/// the start time followed by that text, however long the rest.
pub proof fn lemma_log_name_leading_marker(rest: Seq<char>, timestamp: Seq<char>)
    requires
        forall|i: int| !#[trigger] occurs_at(rest, timestamp_marker(), i),
    ensures
        replaced(timestamp_marker() + rest, timestamp_marker(), timestamp) == timestamp + rest,
{
    lemma_replaced_pattern_then_plain(timestamp_marker(), rest, timestamp);
}

} // verus!
