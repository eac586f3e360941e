//! Telling from the game's log that the reward screen is up.

use crate::text::{contains, occurs, to_chars};
use vstd::prelude::*;

verus! {

/// "Pause countdown done"
pub open spec fn countdown_done() -> Seq<char> {
    seq![
        'P', 'a', 'u', 's', 'e', ' ', 'c', 'o', 'u', 'n', 't', 'd', 'o', 'w', 'n', ' ', 'd', 'o',
        'n', 'e',
    ]
}

/// "Got rewards"
pub open spec fn got_rewards() -> Seq<char> {
    seq!['G', 'o', 't', ' ', 'r', 'e', 'w', 'a', 'r', 'd', 's']
}

/// "Created /Lotus/Interface/ProjectionRewardChoice.swf"
pub open spec fn created_choice() -> Seq<char> {
    seq![
        'C', 'r', 'e', 'a', 't', 'e', 'd', ' ', '/', 'L', 'o', 't', 'u', 's', '/', 'I', 'n', 't',
        'e', 'r', 'f', 'a', 'c', 'e', '/', 'P', 'r', 'o', 'j', 'e', 'c', 't', 'i', 'o', 'n', 'R',
        'e', 'w', 'a', 'r', 'd', 'C', 'h', 'o', 'i', 'c', 'e', '.', 's', 'w', 'f',
    ]
}

/// Whether a line of the log says that rewards are on offer: it holds one
/// of the three phrases.
pub open spec fn is_announcement(line: Seq<char>) -> bool {
    occurs(countdown_done(), line) || occurs(got_rewards(), line) || occurs(
        created_choice(),
        line,
    )
}

/// Whether a line of the log says that rewards are on offer.
pub fn announces_rewards(line: &str) -> (b: bool)
    ensures
        b == is_announcement(line@),
{
    let text = to_chars(line);
    let first = to_chars("Pause countdown done");
    let second = to_chars("Got rewards");
    let third = to_chars("Created /Lotus/Interface/ProjectionRewardChoice.swf");
    proof {
        reveal_strlit("Pause countdown done");
        reveal_strlit("Got rewards");
        reveal_strlit("Created /Lotus/Interface/ProjectionRewardChoice.swf");
        assert(first@ =~= countdown_done());
        assert(second@ =~= got_rewards());
        assert(third@ =~= created_choice());
    }
    contains(&text, &first) || contains(&text, &second) || contains(&text, &third)
}

} // verus!
