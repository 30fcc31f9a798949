//! Admission to the one engine process. Interactive searches may share the
//! engine with each other (the newest supersedes the older ones there); a
//! sweep position takes it alone and so is never superseded.

use vstd::prelude::*;

verus! {

/// Which kind of work asks for the engine.
#[derive(Debug, Clone, Copy, PartialEq, Eq, Structural)]
pub enum Lane {
    /// A user action on the board; subject to "latest only".
    Interactive,
    /// One position of a whole-game sweep; never cancelled.
    Sweep,
}

/// Who is at the engine: how many interactive searches, and whether a sweep
/// search is.
pub struct GateState {
    interactive: usize,
    sweep: bool,
}

/// The state as plain values.
pub struct GateView {
    pub interactive: nat,
    pub sweep: bool,
}

impl View for GateState {
    type V = GateView;

    closed spec fn view(&self) -> GateView {
        GateView { interactive: self.interactive as nat, sweep: self.sweep }
    }
}

/// A sweep search is never at the engine together with anything else.
pub open spec fn exclusive(s: GateView) -> bool {
    s.sweep ==> s.interactive == 0
}

/// Entering: an interactive search whenever no sweep is at the engine; a
/// sweep only when nothing is.
pub open spec fn spec_try_enter(s: GateView, lane: Lane) -> (GateView, bool) {
    match lane {
        Lane::Interactive => if !s.sweep {
            (GateView { interactive: s.interactive + 1, ..s }, true)
        } else {
            (s, false)
        },
        Lane::Sweep => if !s.sweep && s.interactive == 0 {
            (GateView { sweep: true, ..s }, true)
        } else {
            (s, false)
        },
    }
}

/// Leaving frees the lane's place (an interactive count never goes below
/// zero).
pub open spec fn spec_leave(s: GateView, lane: Lane) -> GateView {
    match lane {
        Lane::Interactive => GateView { interactive: if s.interactive > 0 { (s.interactive - 1) as nat } else { 0 }, ..s },
        Lane::Sweep => GateView { sweep: false, ..s },
    }
}

impl GateState {
    pub fn new() -> (r: GateState)
        ensures
            r@.interactive == 0,
            !r@.sweep,
    {
        GateState { interactive: 0, sweep: false }
    }

    /// Whether `lane` may use the engine now; if so, it is counted in.
    pub fn try_enter(&mut self, lane: Lane) -> (r: bool)
        requires
            old(self)@.interactive < usize::MAX,
        ensures
            (final(self)@, r) == spec_try_enter(old(self)@, lane),
    {
        match lane {
            Lane::Interactive => {
                if !self.sweep {
                    self.interactive = self.interactive + 1;
                    true
                } else {
                    false
                }
            },
            Lane::Sweep => {
                if !self.sweep && self.interactive == 0 {
                    self.sweep = true;
                    true
                } else {
                    false
                }
            },
        }
    }

    /// A search of `lane` is done with the engine.
    pub fn leave(&mut self, lane: Lane)
        ensures
            final(self)@ == spec_leave(old(self)@, lane),
    {
        match lane {
            Lane::Interactive => {
                self.interactive = if self.interactive > 0 { self.interactive - 1 } else { 0 };
            },
            Lane::Sweep => {
                self.sweep = false;
            },
        }
    }

    pub fn interactive(&self) -> (r: usize)
        ensures
            r as nat == self@.interactive,
    {
        self.interactive
    }

    pub fn sweeping(&self) -> (r: bool)
        ensures
            r == self@.sweep,
    {
        self.sweep
    }
}

/// A sweep can never be cancelled and interactive work is never starved by
/// other interactive work: whatever enters or leaves, a sweep search is
/// never at the engine together with anything else, a sweep is admitted only
/// to an idle engine, and an interactive search only when no sweep is there.
pub proof fn lemma_gate_exclusive(s: GateView, lane: Lane)
    requires
        exclusive(s),
    ensures
        exclusive(spec_try_enter(s, lane).0),
        exclusive(spec_leave(s, lane)),
        spec_try_enter(s, lane).1 && lane == Lane::Sweep ==> s.interactive == 0 && !s.sweep,
        spec_try_enter(s, lane).1 && lane == Lane::Interactive ==> !s.sweep,
        !spec_try_enter(s, lane).1 ==> spec_try_enter(s, lane).0 == s,
{
}

/// Leaving after entering gives the state back.
pub proof fn lemma_enter_then_leave(s: GateView, lane: Lane)
    requires
        exclusive(s),
        spec_try_enter(s, lane).1,
    ensures
        spec_leave(spec_try_enter(s, lane).0, lane) == s,
{
}

} // verus!
