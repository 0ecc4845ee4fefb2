//! Cooperative termination of the record stream.
//!
//! Records flow until a termination signal (or an injected trigger)
//! arrives; from then on no new upstream records are requested and the
//! sequence ends once the in-flight record has been drained. Exactly one
//! transition to `Stopped` is possible; signals after the first are
//! ignored.

use vstd::prelude::*;

verus! {

/// While `Running`, records pass through; a signal moves the state to
/// `Draining`, after which no new records are requested; once the
/// in-flight record (if any) has been emitted it is `Stopped`.
#[derive(Clone, Copy, PartialEq, Eq, Structural, Debug)]
pub enum GateState {
    Running,
    Draining,
    Stopped,
}

/// Single-fire termination gate for the pipeline's record stream.
pub struct TerminationGate {
    pub state: GateState,
}

impl TerminationGate {
    /// A fresh gate lets records through.
    pub fn new() -> (g: TerminationGate)
        ensures
            g.state == GateState::Running,
    {
        TerminationGate { state: GateState::Running }
    }

    /// Whether the pipeline may request another upstream record.
    pub fn request_allowed(&self) -> (r: bool)
        ensures
            r == (self.state == GateState::Running),
    {
        self.state == GateState::Running
    }

    /// A termination signal arrived. The first one moves the state from
    /// `Running` to `Draining`; any later signal changes nothing.
    pub fn on_signal(&mut self)
        ensures
            old(self).state == GateState::Running ==> final(self).state == GateState::Draining,
            old(self).state != GateState::Running ==> final(self).state == old(self).state,
    {
        if self.state == GateState::Running {
            self.state = GateState::Draining;
        }
    }

    /// The in-flight record (if any) has been fully processed and the
    /// stream has ended: a draining gate becomes `Stopped`. A gate that is
    /// still `Running` stays `Running` (the stream has not been asked to
    /// end), and a stopped gate stays stopped.
    pub fn complete(&mut self)
        ensures
            old(self).state == GateState::Draining ==> final(self).state == GateState::Stopped,
            old(self).state != GateState::Draining ==> final(self).state == old(self).state,
    {
        if self.state == GateState::Draining {
            self.state = GateState::Stopped;
        }
    }
}

} // verus!
