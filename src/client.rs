//! The client's request engine: after sending a command it waits for a
//! bounded number of frames, discarding replies of another kind.
use crate::session::Command;
use vstd::prelude::*;

verus! {

/// How long a request may wait: a number of frames, each awaited for a while.
#[derive(Clone, Copy, Debug, PartialEq, Eq, Structural)]
pub struct RequestBudget {
    pub attempts: u32,
    pub timeout_ms: u64,
}

/// The budget of each command: process lists are larger and slower to
/// produce, so they get more attempts and a longer wait.
pub open spec fn budget_of(c: Command) -> RequestBudget {
    match c {
        Command::GetMetrics => RequestBudget { attempts: 3, timeout_ms: 1000 },
        Command::GetDisks => RequestBudget { attempts: 3, timeout_ms: 1000 },
        Command::GetProcesses => RequestBudget { attempts: 5, timeout_ms: 3000 },
    }
}

pub fn request_budget(c: Command) -> (r: RequestBudget)
    ensures
        r == budget_of(c),
        r.attempts > 0,
{
    match c {
        Command::GetMetrics => RequestBudget { attempts: 3, timeout_ms: 1000 },
        Command::GetDisks => RequestBudget { attempts: 3, timeout_ms: 1000 },
        Command::GetProcesses => RequestBudget { attempts: 5, timeout_ms: 3000 },
    }
}

/// What one attempt produced.
#[derive(Clone, Copy, Debug, PartialEq, Eq, Structural)]
pub enum DrainEvent {
    /// A frame that decoded to the payload of this command.
    Reply(Command),
    /// A frame that decoded to nothing known.
    Undecodable,
    /// No frame within the attempt's timeout.
    TimedOut,
    /// The connection closed or failed.
    Closed,
}

/// What the engine does next.
#[derive(Clone, Copy, Debug, PartialEq, Eq, Structural)]
pub enum DrainAction {
    /// The reply asked for arrived: hand it to the caller.
    Accept,
    /// Wait for the next frame.
    Wait,
    /// Return no value this round.
    GiveUp,
}

/// A request in flight.
#[derive(Clone, Copy, Debug, PartialEq, Eq, Structural)]
pub struct Drain {
    pub wanted: Command,
    pub attempts_left: u32,
}

/// The outcome of feeding `events`, in order, to a request for `wanted`
/// that has `left` attempts; `Wait` when the events run out first.
pub open spec fn drain_run(wanted: Command, left: nat, events: Seq<DrainEvent>) -> DrainAction
    decreases events.len(),
{
    if left == 0 {
        DrainAction::GiveUp
    } else if events.len() == 0 {
        DrainAction::Wait
    } else if events[0] == DrainEvent::Reply(wanted) {
        DrainAction::Accept
    } else if events[0] == DrainEvent::Closed || left == 1 {
        DrainAction::GiveUp
    } else {
        drain_run(wanted, (left - 1) as nat, events.drop_first())
    }
}

impl Drain {
    /// A request for `c` that has just been sent.
    pub fn start(c: Command) -> (r: Drain)
        ensures
            r.wanted == c,
            r.attempts_left == budget_of(c).attempts,
    {
        Drain { wanted: c, attempts_left: request_budget(c).attempts }
    }

    /// Spends one attempt on `ev`.
    pub fn step(&mut self, ev: DrainEvent) -> (r: DrainAction)
        requires
            old(self).attempts_left > 0,
        ensures
            final(self).wanted == old(self).wanted,
            final(self).attempts_left == old(self).attempts_left - 1,
            r == DrainAction::Accept <==> ev == DrainEvent::Reply(old(self).wanted),
            r == DrainAction::GiveUp <==> ev != DrainEvent::Reply(old(self).wanted) && (ev
                == DrainEvent::Closed || old(self).attempts_left == 1),
            r == drain_run(old(self).wanted, old(self).attempts_left as nat, seq![ev]),
    {
        proof {
            reveal_with_fuel(drain_run, 2);
            assert(seq![ev].drop_first() =~= Seq::<DrainEvent>::empty());
        }
        self.attempts_left = self.attempts_left - 1;
        if ev == DrainEvent::Reply(self.wanted) {
            DrainAction::Accept
        } else if ev == DrainEvent::Closed || self.attempts_left == 0 {
            DrainAction::GiveUp
        } else {
            DrainAction::Wait
        }
    }
}

/// A request never waits for more frames than its budget: once as many
/// events as attempts have come, it has accepted or given up.
pub proof fn lemma_drain_bounded(wanted: Command, left: nat, events: Seq<DrainEvent>)
    requires
        events.len() >= left,
    ensures
        drain_run(wanted, left, events) != DrainAction::Wait,
    decreases events.len(),
{
    if left > 1 && events.len() > 0 && events[0] != DrainEvent::Reply(wanted) && events[0]
        != DrainEvent::Closed {
        lemma_drain_bounded(wanted, (left - 1) as nat, events.drop_first());
    }
}

/// Stray replies of other kinds are skipped: when the reply asked for comes
/// within the budget, after frames that were neither it nor a close, it is accepted.
pub proof fn lemma_drain_skips_strays(wanted: Command, left: nat, events: Seq<DrainEvent>, i: int)
    requires
        0 <= i < left,
        i < events.len(),
        events[i] == DrainEvent::Reply(wanted),
        forall|j: int| 0 <= j < i ==> #[trigger] events[j] != DrainEvent::Closed,
    ensures
        drain_run(wanted, left, events) == DrainAction::Accept,
    decreases i,
{
    if i > 0 && events[0] != DrainEvent::Reply(wanted) {
        let rest = events.drop_first();
        assert forall|j: int| 0 <= j < i - 1 implies #[trigger] rest[j] != DrainEvent::Closed by {
            assert(rest[j] == events[j + 1]);
        }
        lemma_drain_skips_strays(wanted, (left - 1) as nat, rest, i - 1);
    }
}

} // verus!
