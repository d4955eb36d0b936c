use vstd::prelude::*;
use crate::lang::table::{Argument, ColumnType};
use crate::lang::value::Builtin;

verus! {

/// A command bound to its schemas and arguments, ready to run.
#[derive(Clone, Debug, PartialEq, Eq)]
pub struct Call {
    pub name: String,
    pub input_type: Vec<ColumnType>,
    pub output_type: Vec<ColumnType>,
    pub arguments: Vec<Argument>,
    pub command: Builtin,
}

/// Where an invocation of a command stands.
#[derive(Clone, Copy, Debug, PartialEq, Eq, Structural)]
pub enum Phase {
    Uncompiled,
    Compiled,
    Running,
    Completed,
    Aborted,
}

/// What can happen to an invocation.
#[derive(Clone, Copy, Debug, PartialEq, Eq, Structural)]
pub enum Event {
    /// The arguments were accepted and the call is bound.
    CompileSucceeded,
    /// The arguments were refused.
    CompileFailed,
    /// The stage was given its streams.
    Started,
    /// The input came to its end.
    InputExhausted,
    /// The stage has all the rows it takes and reads no further.
    StoppedEarly,
    /// Whoever read the output is gone.
    OutputDisconnected,
    /// The stage met something it cannot go on from.
    InternalError,
}

/// The phase that follows, or `None` where the event cannot happen in the
/// phase. A refused compilation leaves the invocation uncompiled, so only
/// a bound call ever runs; a stage whose input ends, that stops early or
/// whose reader leaves has completed, without error; nothing follows completion or abortion.
pub open spec fn following(phase: Phase, event: Event) -> Option<Phase> {
    match (phase, event) {
        (Phase::Uncompiled, Event::CompileSucceeded) => Some(Phase::Compiled),
        (Phase::Uncompiled, Event::CompileFailed) => Some(Phase::Uncompiled),
        (Phase::Compiled, Event::Started) => Some(Phase::Running),
        (Phase::Running, Event::InputExhausted) => Some(Phase::Completed),
        (Phase::Running, Event::StoppedEarly) => Some(Phase::Completed),
        (Phase::Running, Event::OutputDisconnected) => Some(Phase::Completed),
        (Phase::Running, Event::InternalError) => Some(Phase::Aborted),
        _ => None,
    }
}

/// The phase that an invocation is in after the events, taken in order;
/// `None` as soon as one of them cannot happen.
pub open spec fn phase_after(phase: Phase, events: Seq<Event>) -> Option<Phase>
    decreases events.len(),
{
    if events.len() == 0 {
        Some(phase)
    } else {
        match phase_after(phase, events.drop_last()) {
            Some(reached) => following(reached, events.last()),
            None => None,
        }
    }
}

/// An invocation runs only after a compilation that succeeded: whatever
/// events lead from `Uncompiled` to `Running`, `CompileSucceeded` is among
/// them.
pub proof fn law_runs_only_compiled(events: Seq<Event>)
    requires
        phase_after(Phase::Uncompiled, events) == Some(Phase::Running),
    ensures
        events.contains(Event::CompileSucceeded),
{
    lemma_left_uncompiled(events);
}

proof fn lemma_left_uncompiled(events: Seq<Event>)
    ensures
        match phase_after(Phase::Uncompiled, events) {
            Some(Phase::Uncompiled) => true,
            Some(_) => events.contains(Event::CompileSucceeded),
            None => true,
        },
    decreases events.len(),
{
    if events.len() > 0 {
        let before = events.drop_last();
        lemma_left_uncompiled(before);
        if phase_after(Phase::Uncompiled, before) == Some(Phase::Uncompiled) {
            if events.last() == Event::CompileSucceeded {
                assert(events[events.len() - 1] == Event::CompileSucceeded);
            }
        } else if before.contains(Event::CompileSucceeded) {
            let at = choose|i: int| 0 <= i < before.len() && before[i] == Event::CompileSucceeded;
            assert(events[at] == Event::CompileSucceeded);
        }
    }
}

impl Phase {
    /// Whether nothing can follow.
    pub open spec fn spec_is_final(self) -> bool {
        self == Phase::Completed || self == Phase::Aborted
    }

    /// Whether the invocation is over.
    #[verifier::when_used_as_spec(spec_is_final)]
    pub fn is_final(self) -> (b: bool)
        ensures
            b == self.spec_is_final(),
            b ==> forall|event: Event| following(self, event).is_none(),
    {
        match self {
            Phase::Completed => true,
            Phase::Aborted => true,
            _ => false,
        }
    }

    /// Takes one event.
    pub fn advance(self, event: Event) -> (next: Option<Phase>)
        ensures
            next == following(self, event),
    {
        match (self, event) {
            (Phase::Uncompiled, Event::CompileSucceeded) => Some(Phase::Compiled),
            (Phase::Uncompiled, Event::CompileFailed) => Some(Phase::Uncompiled),
            (Phase::Compiled, Event::Started) => Some(Phase::Running),
            (Phase::Running, Event::InputExhausted) => Some(Phase::Completed),
            (Phase::Running, Event::StoppedEarly) => Some(Phase::Completed),
            (Phase::Running, Event::OutputDisconnected) => Some(Phase::Completed),
            (Phase::Running, Event::InternalError) => Some(Phase::Aborted),
            _ => None,
        }
    }
}

} // verus!
