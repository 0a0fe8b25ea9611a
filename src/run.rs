//! The phases of a whole run and the order in which they follow each other.
use vstd::prelude::*;

verus! {

/// A phase of a run.
#[derive(Clone, Copy, Debug, PartialEq, Eq, Structural)]
pub enum Phase {
    /// Destination tables are created and their headers written.
    Init,
    /// Every chunk generator runs; the phase ends when all have finished.
    Generating,
    /// Incremental runs stop here, keeping the per-chunk tables.
    DoneEarly,
    /// The offset tables are computed and the destinations pre-sized.
    Planning,
    /// Every chunk merger runs; the phase ends when all have finished.
    Merging,
    /// The merged tables are complete.
    Done,
}

/// The phase after `p`; a terminal phase stays as it is.
pub open spec fn next_phase_spec(p: Phase, incremental: bool) -> Phase {
    match p {
        Phase::Init => Phase::Generating,
        Phase::Generating => if incremental {
            Phase::DoneEarly
        } else {
            Phase::Planning
        },
        Phase::Planning => Phase::Merging,
        Phase::Merging => Phase::Done,
        Phase::DoneEarly => Phase::DoneEarly,
        Phase::Done => Phase::Done,
    }
}

/// Whether a run ends in phase `p`.
pub open spec fn is_terminal_spec(p: Phase) -> bool {
    p == Phase::DoneEarly || p == Phase::Done
}

/// The phase that follows `p` in a run, incremental or not.
pub fn next_phase(p: Phase, incremental: bool) -> (r: Phase)
    ensures
        r == next_phase_spec(p, incremental),
{
    match p {
        Phase::Init => Phase::Generating,
        Phase::Generating => {
            if incremental {
                Phase::DoneEarly
            } else {
                Phase::Planning
            }
        },
        Phase::Planning => Phase::Merging,
        Phase::Merging => Phase::Done,
        Phase::DoneEarly => Phase::DoneEarly,
        Phase::Done => Phase::Done,
    }
}

/// Whether a run ends in phase `p`.
pub fn is_terminal(p: Phase) -> (r: bool)
    ensures
        r == is_terminal_spec(p),
{
    matches!(p, Phase::DoneEarly | Phase::Done)
}

} // verus!
