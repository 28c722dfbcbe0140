//! Per-connection decisions: the lifecycle a connection moves through,
//! and the one inbound command the relay answers (an `echo` prefix asks
//! for a multicast of the remainder back to the sender's display name).

use vstd::prelude::*;

use crate::text::chars_to_string;
use crate::text::matches_at;
use crate::text::str_to_chars;

verus! {

/// Where a connection stands in its lifecycle.
#[derive(Debug, Clone, Copy, PartialEq, Eq, Structural)]
pub enum ConnectionPhase {
    /// The HTTP upgrade is in flight; nothing is registered yet.
    Upgrading,
    /// Registered: the writer and reader loops are running.
    Active,
    /// Either loop ended; teardown runs and the connection is gone.
    Closed,
}

/// The lifecycle only moves forward: upgrading becomes active, active
/// becomes closed, closed stays closed.
pub open spec fn spec_phase_step(p: ConnectionPhase) -> ConnectionPhase {
    match p {
        ConnectionPhase::Upgrading => ConnectionPhase::Active,
        ConnectionPhase::Active => ConnectionPhase::Closed,
        ConnectionPhase::Closed => ConnectionPhase::Closed,
    }
}

impl ConnectionPhase {
    /// The phase after the next lifecycle event.
    pub fn step(self) -> (r: ConnectionPhase)
        ensures
            r == spec_phase_step(self),
    {
        match self {
            ConnectionPhase::Upgrading => ConnectionPhase::Active,
            ConnectionPhase::Active => ConnectionPhase::Closed,
            ConnectionPhase::Closed => ConnectionPhase::Closed,
        }
    }
}

/// The inbound text starts with the literal command `echo`.
pub open spec fn spec_is_echo(s: Seq<char>) -> bool {
    s.len() >= 4 && s.subrange(0, 4) == "echo"@
}

/// Decides the echo command: a text frame prefixed with `echo` yields the
/// remainder of the text, to be multicast back to the sender's own
/// display name; any other text yields nothing.
pub fn echo_reply(text: &str) -> (r: Option<String>)
    ensures
        match r {
            Some(rest) => spec_is_echo(text@) && rest@ == text@.skip(4),
            None => !spec_is_echo(text@),
        },
{
    let chars = str_to_chars(text);
    let prefix = str_to_chars("echo");
    proof {
        reveal_strlit("echo");
        assert(prefix@.len() == 4);
    }
    if matches_at(&chars, &prefix, 0) {
        let mut rest: Vec<char> = Vec::new();
        let mut i: usize = 4;
        while i < chars.len()
            invariant
                4 <= i <= chars@.len(),
                chars@.len() >= 4,
                rest@ == chars@.skip(4).take(i - 4),
            decreases chars@.len() - i,
        {
            rest.push(chars[i]);
            proof {
                assert(chars@.skip(4).take(i - 3) =~= chars@.skip(4).take(i - 4).push(
                    chars@[i as int],
                ));
            }
            i = i + 1;
        }
        proof {
            assert(chars@.skip(4).take(chars@.len() - 4) =~= chars@.skip(4));
        }
        Some(chars_to_string(&rest))
    } else {
        None
    }
}

} // verus!
