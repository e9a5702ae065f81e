//! The steps that one file goes through, as a function from the step that
//! was taken and what came of it to the step to take next.
//!
//! The steps themselves (looking for the artifact, decoding, encoding,
//! writing) are done by the caller; the order of them, and what each
//! failure leads to, is decided here.

use vstd::prelude::*;

verus! {

/// Why a file got no artifact.
#[derive(Clone, Copy, Debug, PartialEq, Eq, Structural)]
pub enum Failure {
    /// A side of the grid is outside `1..=9`.
    InvalidGrid,
    /// The image has no pixels.
    EmptyImage,
    /// The decoder could not make an image of the file.
    Decode,
    /// The file could not be read or the artifact could not be written.
    Io,
}

/// How a file ended.
#[derive(Clone, Copy, Debug, PartialEq, Eq, Structural)]
pub enum Outcome {
    /// The artifact was written.
    Saved,
    /// The artifact was there already; nothing was done.
    Skipped,
    /// No artifact was written, for the reason given.
    Failed(Failure),
}

/// What to do next for a file.
#[derive(Clone, Copy, Debug, PartialEq, Eq, Structural)]
pub enum Step {
    /// Look whether the artifact exists.
    CheckArtifact,
    /// Decode the file into pixels.
    Decode,
    /// Encode the pixels.
    Encode,
    /// Write the artifact.
    Write,
    /// Nothing: the file has ended.
    Done(Outcome),
}

/// What came of a step.
#[derive(Clone, Copy, Debug, PartialEq, Eq, Structural)]
pub enum Event {
    /// The artifact exists.
    ArtifactPresent,
    /// The artifact does not exist.
    ArtifactAbsent,
    /// The file was decoded.
    Decoded,
    /// The pixels were encoded.
    Encoded,
    /// The artifact was written.
    Written,
    /// The step failed.
    Failed(Failure),
}

/// Whether `failure` is one that `step` can end in: reading and decoding
/// fail with `Io` or `Decode`, encoding with `InvalidGrid` or `EmptyImage`,
/// writing with `Io`.
pub open spec fn can_fail_with(step: Step, failure: Failure) -> bool {
    match step {
        Step::Decode => failure == Failure::Decode || failure == Failure::Io,
        Step::Encode => failure == Failure::InvalidGrid || failure == Failure::EmptyImage,
        Step::Write => failure == Failure::Io,
        _ => false,
    }
}

/// The step that follows `step` once `event` has come of it, or `None`
/// where `event` cannot come of `step`.
///
/// A file whose artifact exists is skipped. Otherwise it is decoded, encoded
/// and written, in this order, and the first failure ends it.
pub open spec fn step_after(step: Step, event: Event) -> Option<Step> {
    match (step, event) {
        (Step::CheckArtifact, Event::ArtifactPresent) => Some(Step::Done(Outcome::Skipped)),
        (Step::CheckArtifact, Event::ArtifactAbsent) => Some(Step::Decode),
        (Step::Decode, Event::Decoded) => Some(Step::Encode),
        (Step::Encode, Event::Encoded) => Some(Step::Write),
        (Step::Write, Event::Written) => Some(Step::Done(Outcome::Saved)),
        (_, Event::Failed(failure)) => if can_fail_with(step, failure) {
            Some(Step::Done(Outcome::Failed(failure)))
        } else {
            None
        },
        _ => None,
    }
}

/// The step reached from `step` by a run of events, or `None` where one of
/// them cannot come of the step before it.
pub open spec fn step_after_all(step: Step, events: Seq<Event>) -> Option<Step>
    decreases events.len(),
{
    if events.len() == 0 {
        Some(step)
    } else {
        match step_after(step, events.first()) {
            Some(next) => step_after_all(next, events.drop_first()),
            None => None,
        }
    }
}

/// The step that every file begins with.
pub fn first_step() -> (step: Step)
    ensures
        step == Step::CheckArtifact,
{
    Step::CheckArtifact
}

/// The step to take after `step`, given what came of it.
pub fn next_step(step: Step, event: Event) -> (next: Option<Step>)
    ensures
        next == step_after(step, event),
{
    match event {
        Event::ArtifactPresent => match step {
            Step::CheckArtifact => Some(Step::Done(Outcome::Skipped)),
            _ => None,
        },
        Event::ArtifactAbsent => match step {
            Step::CheckArtifact => Some(Step::Decode),
            _ => None,
        },
        Event::Decoded => match step {
            Step::Decode => Some(Step::Encode),
            _ => None,
        },
        Event::Encoded => match step {
            Step::Encode => Some(Step::Write),
            _ => None,
        },
        Event::Written => match step {
            Step::Write => Some(Step::Done(Outcome::Saved)),
            _ => None,
        },
        Event::Failed(failure) => {
            let fits = match step {
                Step::Decode => match failure {
                    Failure::Decode => true,
                    Failure::Io => true,
                    _ => false,
                },
                Step::Encode => match failure {
                    Failure::InvalidGrid => true,
                    Failure::EmptyImage => true,
                    _ => false,
                },
                Step::Write => match failure {
                    Failure::Io => true,
                    _ => false,
                },
                _ => false,
            };
            if fits {
                Some(Step::Done(Outcome::Failed(failure)))
            } else {
                None
            }
        },
    }
}

/// The failure that stands for an error of the encoder.
pub fn failure_of(error: crate::grid::EncodeError) -> (failure: Failure)
    ensures
        failure == (match error {
            crate::grid::EncodeError::InvalidGrid => Failure::InvalidGrid,
            crate::grid::EncodeError::EmptyImage => Failure::EmptyImage,
        }),
        can_fail_with(Step::Encode, failure),
{
    match error {
        crate::grid::EncodeError::InvalidGrid => Failure::InvalidGrid,
        crate::grid::EncodeError::EmptyImage => Failure::EmptyImage,
    }
}

/// Whether the file has ended.
pub fn is_done(step: Step) -> (done: bool)
    ensures
        done == (step is Done),
{
    match step {
        Step::Done(_) => true,
        _ => false,
    }
}

/// Nothing follows the end: no event can come of `Done`.
pub proof fn lemma_done_is_final(outcome: Outcome, event: Event)
    ensures
        step_after(Step::Done(outcome), event) is None,
{
}

/// Every event that can come of a step leads to a later step or to the end:
/// no file goes round in a circle.
pub proof fn lemma_steps_advance(step: Step, event: Event)
    requires
        step_after(step, event) is Some,
    ensures
        rank(step_after(step, event)->0) > rank(step),
{
}

/// How far along a step is.
pub open spec fn rank(step: Step) -> nat {
    match step {
        Step::CheckArtifact => 0,
        Step::Decode => 1,
        Step::Encode => 2,
        Step::Write => 3,
        Step::Done(_) => 4,
    }
}

/// A file takes at most four steps, whatever comes of them. One that is
/// skipped has had its artifact looked for and nothing else; one that is
/// saved has been decoded, encoded and written, in this order.
pub proof fn lemma_runs(events: Seq<Event>)
    requires
        step_after_all(Step::CheckArtifact, events) is Some,
    ensures
        events.len() <= 4,
        step_after_all(Step::CheckArtifact, events) == Some(Step::Done(Outcome::Skipped))
            ==> events == seq![Event::ArtifactPresent],
        step_after_all(Step::CheckArtifact, events) == Some(Step::Done(Outcome::Saved))
            ==> events == seq![
            Event::ArtifactAbsent,
            Event::Decoded,
            Event::Encoded,
            Event::Written,
        ],
{
    lemma_run_from(Step::CheckArtifact, events);
    let end = step_after_all(Step::CheckArtifact, events)->0;
    if end == Step::Done(Outcome::Skipped) {
        lemma_run_to(Step::CheckArtifact, events);
        assert(events =~= seq![Event::ArtifactPresent]);
    }
    if end == Step::Done(Outcome::Saved) {
        lemma_run_to(Step::CheckArtifact, events);
        assert(events =~= seq![
            Event::ArtifactAbsent,
            Event::Decoded,
            Event::Encoded,
            Event::Written,
        ]);
    }
}

/// A run moves up the ranks by at least one for each event.
proof fn lemma_run_from(step: Step, events: Seq<Event>)
    requires
        step_after_all(step, events) is Some,
    ensures
        rank(step_after_all(step, events)->0) >= rank(step) + events.len(),
    decreases events.len(),
{
    if events.len() > 0 {
        let next = step_after(step, events.first())->0;
        lemma_run_from(next, events.drop_first());
    }
}

/// What a run that ends in `Skipped` or `Saved` is made of, event by event.
proof fn lemma_run_to(step: Step, events: Seq<Event>)
    requires
        step_after_all(step, events) is Some,
        step_after_all(step, events)->0 == Step::Done(Outcome::Skipped) || step_after_all(
            step,
            events,
        )->0 == Step::Done(Outcome::Saved),
    ensures
        events.len() + rank(step) == 4 || (step == Step::CheckArtifact && events.len() == 1),
        step_after_all(step, events)->0 == Step::Done(Outcome::Skipped) ==> step
            == Step::CheckArtifact && events.len() == 1 && events[0] == Event::ArtifactPresent
            || step == Step::Done(Outcome::Skipped) && events.len() == 0,
        step_after_all(step, events)->0 == Step::Done(Outcome::Saved) ==> (forall|i: int|
            0 <= i < events.len() ==> #[trigger] events[i] == saving_event(rank(step) + i))
            && events.len() + rank(step) == 4,
    decreases events.len(),
{
    if events.len() > 0 {
        let next = step_after(step, events.first())->0;
        let rest = events.drop_first();
        lemma_run_to(next, rest);
        assert forall|i: int| 1 <= i < events.len() implies events[i] == rest[i - 1] by {}
    }
}

/// The event at each place of the one run that ends in `Saved`.
spec fn saving_event(place: int) -> Event {
    if place == 0 {
        Event::ArtifactAbsent
    } else if place == 1 {
        Event::Decoded
    } else if place == 2 {
        Event::Encoded
    } else {
        Event::Written
    }
}

} // verus!
