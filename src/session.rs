//! The agent's per-connection protocol: access check, command tokens, and
//! what to do with each incoming frame.
use crate::wire::{Frame, FrameView};
use vstd::prelude::*;
use vstd::utf8::*;

verus! {

/// A request for one resource kind.
#[derive(Clone, Copy, Debug, PartialEq, Eq, Structural)]
pub enum Command {
    GetMetrics,
    GetDisks,
    GetProcesses,
}

/// The command that a text frame names, if any (case-sensitive, whole text).
pub open spec fn command_of(s: Seq<char>) -> Option<Command> {
    if s == "get_metrics"@ {
        Some(Command::GetMetrics)
    } else if s == "get_disks"@ {
        Some(Command::GetDisks)
    } else if s == "get_processes"@ {
        Some(Command::GetProcesses)
    } else {
        None
    }
}

proof fn lemma_tokens_distinct()
    ensures
        "get_metrics"@ != "get_disks"@,
        "get_metrics"@ != "get_processes"@,
        "get_disks"@ != "get_processes"@,
{
    reveal_strlit("get_metrics");
    reveal_strlit("get_disks");
    reveal_strlit("get_processes");
    assert("get_metrics"@.len() == 11);
    assert("get_disks"@.len() == 9);
    assert("get_processes"@.len() == 13);
}

/// Whether two texts are the same.
pub fn same_text(a: &str, b: &str) -> (r: bool)
    ensures
        r == (a@ == b@),
{
    broadcast use encode_utf8_decode_utf8, encode_utf8_valid_utf8;

    let x = a.as_bytes();
    let y = b.as_bytes();
    if x.len() != y.len() {
        assert(x@ != y@);
        return false;
    }
    let mut i: usize = 0;
    while i < x.len()
        invariant
            x@ == encode_utf8(a@),
            y@ == encode_utf8(b@),
            x@.len() == y@.len(),
            i <= x@.len(),
            forall|j: int| 0 <= j < i ==> x@[j] == y@[j],
        decreases x@.len() - i,
    {
        if x[i] != y[i] {
            assert(x@ != y@);
            return false;
        }
        i = i + 1;
    }
    assert(x@ =~= y@);
    assert(decode_utf8(encode_utf8(a@)) == a@);
    assert(decode_utf8(encode_utf8(b@)) == b@);
    assert(a@ == b@);
    true
}

/// The command token that `c` is sent as.
pub fn command_text(c: Command) -> (r: &'static str)
    ensures
        command_of(r@) == Some(c),
{
    proof {
        lemma_tokens_distinct();
    }
    match c {
        Command::GetMetrics => "get_metrics",
        Command::GetDisks => "get_disks",
        Command::GetProcesses => "get_processes",
    }
}

/// Reads a command token.
pub fn parse_command(text: &str) -> (r: Option<Command>)
    ensures
        r == command_of(text@),
{
    proof {
        reveal_strlit("get_metrics");
        reveal_strlit("get_disks");
        reveal_strlit("get_processes");
    }
    if same_text(text, "get_metrics") {
        Some(Command::GetMetrics)
    } else if same_text(text, "get_disks") {
        Some(Command::GetDisks)
    } else if same_text(text, "get_processes") {
        Some(Command::GetProcesses)
    } else {
        None
    }
}

/// Whether a connection presenting `presented` may be served when the agent
/// is configured with `expected` (no token configured: everyone).
pub open spec fn token_accepted(expected: Option<Seq<char>>, presented: Option<Seq<char>>) -> bool {
    match expected {
        None => true,
        Some(e) => presented == Some(e),
    }
}

pub open spec fn opt_text(s: &Option<String>) -> Option<Seq<char>> {
    match s {
        Some(t) => Some(t@),
        None => None,
    }
}

/// What to do with a freshly upgraded connection.
#[derive(Clone, Copy, Debug, PartialEq, Eq, Structural)]
pub enum Admission {
    /// Run the session.
    Serve,
    /// Close at once, sending no data frame.
    Reject,
}

/// Checks the token a client presented.
pub fn check_token(expected: &Option<String>, presented: &Option<String>) -> (r: Admission)
    ensures
        r == Admission::Serve <==> token_accepted(opt_text(expected), opt_text(presented)),
{
    match expected {
        None => Admission::Serve,
        Some(e) => match presented {
            Some(p) => if same_text(p.as_str(), e.as_str()) {
                Admission::Serve
            } else {
                Admission::Reject
            },
            None => Admission::Reject,
        },
    }
}

/// A token is demanded: a client that presents none, or another one, is rejected.
pub proof fn lemma_wrong_token_rejected(expected: Seq<char>, presented: Option<Seq<char>>)
    requires
        presented != Some(expected),
    ensures
        !token_accepted(Some(expected), presented),
{
}

/// What the session does with one incoming frame.
#[derive(Clone, Copy, Debug, PartialEq, Eq, Structural)]
pub enum SessionAction {
    /// Collect and send exactly one reply for this command.
    Reply(Command),
    /// Nothing: unknown text and binary frames are ignored.
    Ignore,
    /// The peer closed: leave the loop.
    End,
}

pub open spec fn session_action(f: FrameView) -> SessionAction {
    match f {
        FrameView::Text(s) => match command_of(s) {
            Some(c) => SessionAction::Reply(c),
            None => SessionAction::Ignore,
        },
        FrameView::Binary(_) => SessionAction::Ignore,
        FrameView::Close => SessionAction::End,
    }
}

/// Decides what an incoming frame asks of the session.
pub fn session_step(f: &Frame) -> (r: SessionAction)
    ensures
        r == session_action(f@),
{
    match f {
        Frame::Text(t) => match parse_command(t.as_str()) {
            Some(c) => SessionAction::Reply(c),
            None => SessionAction::Ignore,
        },
        Frame::Binary(_) => SessionAction::Ignore,
        Frame::Close => SessionAction::End,
    }
}

} // verus!
