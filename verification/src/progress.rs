//! The rate-limited progress signal.

use vstd::prelude::*;

verus! {

/// Lets one progress write through each time a timer has raised its
/// trigger, and none where there is no sink to write to.
#[derive(Debug, Clone, Copy, PartialEq, Eq, Structural)]
pub struct ThrottleWriter {
    /// Whether there is a sink.
    pub active: bool,
    /// Whether the timer has raised the trigger since the last write.
    pub trigger: bool,
}

/// What can happen to the progress signal.
#[derive(Debug, Clone, Copy, PartialEq, Eq, Structural)]
pub enum Signal {
    /// The timer raises the trigger.
    Raise,
    /// The traversal offers a progress write.
    Offer,
}

impl ThrottleWriter {
    /// The signal at the start: with its trigger lowered.
    pub open spec fn initial(has_sink: bool) -> ThrottleWriter {
        ThrottleWriter { active: has_sink, trigger: false }
    }

    /// The signal after the timer raised the trigger. Without a sink there is
    /// no timer, and the trigger stays lowered.
    pub open spec fn raised(self) -> ThrottleWriter {
        ThrottleWriter { active: self.active, trigger: self.active }
    }

    /// Whether a write that is offered now goes through.
    pub open spec fn due(self) -> bool {
        self.active && self.trigger
    }

    /// The signal after a write was offered: with its trigger lowered.
    pub open spec fn offered(self) -> ThrottleWriter {
        ThrottleWriter { active: self.active, trigger: false }
    }

    /// The signal after `signals` happened one after the other.
    pub open spec fn after(self, signals: Seq<Signal>) -> ThrottleWriter
        decreases signals.len(),
    {
        if signals.len() == 0 {
            self
        } else {
            match signals.last() {
                Signal::Raise => self.after(signals.drop_last()).raised(),
                Signal::Offer => self.after(signals.drop_last()).offered(),
            }
        }
    }

    /// How many of the writes offered in `signals` go through.
    pub open spec fn writes(self, signals: Seq<Signal>) -> nat
        decreases signals.len(),
    {
        if signals.len() == 0 {
            0
        } else {
            let before = self.writes(signals.drop_last());
            if signals.last() == Signal::Offer && self.after(signals.drop_last()).due() {
                before + 1
            } else {
                before
            }
        }
    }

    /// A signal for a run with or without a progress sink.
    pub fn new(has_sink: bool) -> (r: Self)
        ensures
            r == Self::initial(has_sink),
    {
        ThrottleWriter { active: has_sink, trigger: false }
    }

    /// The timer's tick: raises the trigger.
    pub fn raise(&mut self)
        ensures
            *final(self) == old(self).raised(),
    {
        self.trigger = self.active;
    }

    /// Offers a progress write. The result says whether it goes through:
    /// only with a sink, and only if the trigger was raised since the last
    /// offer. The trigger is lowered either way.
    pub fn throttled(&mut self) -> (write: bool)
        ensures
            write == old(self).due(),
            *final(self) == old(self).offered(),
    {
        let write = self.active && self.trigger;
        self.trigger = false;
        write
    }

    /// Says whether a write goes through that does not wait for the
    /// trigger: whenever there is a sink.
    pub fn unthrottled(&self) -> (write: bool)
        ensures
            write == self.active,
    {
        self.active
    }
}

/// How many times the timer raises the trigger in `signals`.
pub open spec fn raises(signals: Seq<Signal>) -> nat
    decreases signals.len(),
{
    if signals.len() == 0 {
        0
    } else if signals.last() == Signal::Raise {
        raises(signals.drop_last()) + 1
    } else {
        raises(signals.drop_last())
    }
}

/// Progress is written at most once for each time the timer raises the
/// trigger, and so not at all before it first does.
pub proof fn lemma_writes_bounded_by_raises(start: ThrottleWriter, signals: Seq<Signal>)
    ensures
        start.writes(signals) + (if start.after(signals).due() {
            1nat
        } else {
            0nat
        }) <= raises(signals) + (if start.due() {
            1nat
        } else {
            0nat
        }),
        start.after(signals).active == start.active,
    decreases signals.len(),
{
    if signals.len() > 0 {
        lemma_writes_bounded_by_raises(start, signals.drop_last());
    }
}

/// Without a sink no progress is ever written, whatever the timer does.
pub proof fn lemma_no_sink_no_writes(start: ThrottleWriter, signals: Seq<Signal>)
    requires
        !start.active,
    ensures
        start.writes(signals) == 0,
        !start.after(signals).due(),
    decreases signals.len(),
{
    if signals.len() > 0 {
        lemma_no_sink_no_writes(start, signals.drop_last());
        lemma_writes_bounded_by_raises(start, signals.drop_last());
    }
}

} // verus!
