//! The values of an envelope's type field.

use vstd::prelude::*;

verus! {

pub const HELLO: &'static str = "hello";

pub const HEARTBEAT: &'static str = "heartbeat";

pub const EVENT: &'static str = "event";

pub const ACK: &'static str = "ack";

pub const COMMAND: &'static str = "command";

/// The types have the names that the panel knows them by, and no two the same.
pub proof fn law_types_have_their_names()
    ensures
        HELLO@ == seq!['h', 'e', 'l', 'l', 'o'],
        HEARTBEAT@ == seq!['h', 'e', 'a', 'r', 't', 'b', 'e', 'a', 't'],
        EVENT@ == seq!['e', 'v', 'e', 'n', 't'],
        ACK@ == seq!['a', 'c', 'k'],
        COMMAND@ == seq!['c', 'o', 'm', 'm', 'a', 'n', 'd'],
{
    reveal_strlit("hello");
    reveal_strlit("heartbeat");
    reveal_strlit("event");
    reveal_strlit("ack");
    reveal_strlit("command");
    assert(HELLO@ =~= seq!['h', 'e', 'l', 'l', 'o']);
    assert(HEARTBEAT@ =~= seq!['h', 'e', 'a', 'r', 't', 'b', 'e', 'a', 't']);
    assert(EVENT@ =~= seq!['e', 'v', 'e', 'n', 't']);
    assert(ACK@ =~= seq!['a', 'c', 'k']);
    assert(COMMAND@ =~= seq!['c', 'o', 'm', 'm', 'a', 'n', 'd']);
}

} // verus!
