use vstd::prelude::*;

verus! {

/// What one step of a component reports.
#[derive(Clone, Copy, Debug, PartialEq, Eq, Structural)]
pub enum Poll {
    DidWork,
    NothingToDo,
    NotReady,
    Event,
}

/// What a composite does after one round over its steps.
#[derive(Clone, Copy, Debug, PartialEq, Eq, Structural)]
pub enum Round {
    /// A step produced its event: return it now.
    Return,
    /// Some step made progress: run the round again.
    Again,
    /// Every step had nothing to do.
    Idle,
    /// Wait until some step can make progress.
    Park,
}

/// The decision after a round, given each step's report in order. An event
/// ends the round where it occurs, so the reports after it never happen.
pub open spec fn round_spec(rs: Seq<Poll>) -> Round {
    if exists|i: int| 0 <= i < rs.len() && rs[i] == Poll::Event {
        Round::Return
    } else if exists|i: int| 0 <= i < rs.len() && rs[i] == Poll::DidWork {
        Round::Again
    } else if forall|i: int| 0 <= i < rs.len() ==> rs[i] == Poll::NothingToDo {
        Round::Idle
    } else {
        Round::Park
    }
}

/// Decides what a composite of steps does after one round.
pub fn poll_round(results: &[Poll]) -> (r: Round)
    ensures
        r == round_spec(results@),
{
    let mut did_work = false;
    let mut not_ready = false;
    let mut i: usize = 0;
    while i < results.len()
        invariant
            0 <= i <= results@.len(),
            forall|k: int| 0 <= k < i ==> results@[k] != Poll::Event,
            did_work == exists|k: int| 0 <= k < i && results@[k] == Poll::DidWork,
            not_ready == exists|k: int| 0 <= k < i && results@[k] == Poll::NotReady,
            !did_work && !not_ready ==> forall|k: int|
                0 <= k < i ==> results@[k] == Poll::NothingToDo,
        decreases results@.len() - i,
    {
        match results[i] {
            Poll::Event => {
                return Round::Return;
            },
            Poll::DidWork => {
                did_work = true;
            },
            Poll::NotReady => {
                not_ready = true;
            },
            Poll::NothingToDo => {},
        }
        i = i + 1;
    }
    if did_work {
        Round::Again
    } else if not_ready {
        Round::Park
    } else {
        Round::Idle
    }
}

} // verus!
