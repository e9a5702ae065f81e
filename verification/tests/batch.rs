use blurhash_batch::batch::{Action, Scheduler, Tally};
use blurhash_batch::codec::{assemble, is_well_formed, AcLevels};
use blurhash_batch::grid::ComponentGrid;
use blurhash_batch::pipeline::{first_step, next_step, Event, Failure, Outcome, Step};
use blurhash_batch::pixels::Rgb;

#[test]
fn scheduler_starts_files_in_order_up_to_the_pool_size() {
    let mut books = Scheduler::new(5, 2);
    assert_eq!((books.len(), books.pool_size()), (5, 2));
    assert_eq!(books.poll(), Action::Start(0));
    assert_eq!(books.poll(), Action::Start(1));
    assert_eq!(books.in_flight(), 2);
    assert_eq!(books.poll(), Action::Wait);
    assert_eq!(books.poll(), Action::Wait);
    assert_eq!(books.in_flight(), 2);
    assert_eq!(books.next(), 2);
}

#[test]
fn scheduler_frees_a_slot_when_a_file_ends() {
    let mut books = Scheduler::new(3, 1);
    assert_eq!(books.poll(), Action::Start(0));
    assert_eq!(books.poll(), Action::Wait);
    assert!(books.complete(0, Outcome::Saved));
    assert_eq!(books.in_flight(), 0);
    assert_eq!(books.finished(), 1);
    assert_eq!(books.poll(), Action::Start(1));
    assert!(books.complete(1, Outcome::Failed(Failure::Io)));
    assert_eq!(books.poll(), Action::Start(2));
    assert!(!books.is_done());
    assert!(books.complete(2, Outcome::Skipped));
    assert!(books.is_done());
    assert_eq!(books.poll(), Action::Finish);
    assert_eq!(books.poll(), Action::Finish);
}

#[test]
fn scheduler_books_only_files_in_flight() {
    let mut books = Scheduler::new(3, 2);
    assert!(!books.complete(0, Outcome::Saved));
    assert_eq!(books.poll(), Action::Start(0));
    assert!(!books.complete(1, Outcome::Saved));
    assert!(!books.complete(3, Outcome::Saved));
    assert!(!books.complete(usize::MAX, Outcome::Saved));
    assert!(books.complete(0, Outcome::Skipped));
    assert!(!books.complete(0, Outcome::Saved));
    assert_eq!(books.outcome(0), Some(Outcome::Skipped));
    assert_eq!(books.outcome(1), None);
    assert_eq!(books.outcome(3), None);
    assert_eq!(books.finished(), 1);
}

#[test]
fn scheduler_of_an_empty_batch_is_done_at_once() {
    let mut books = Scheduler::new(0, 4);
    assert!(books.is_done());
    assert_eq!(books.poll(), Action::Finish);
    assert_eq!(books.tally(), Tally { saved: 0, skipped: 0, failed: 0 });
    assert!(!books.any_failed());
}

#[test]
fn scheduler_without_slots_starts_nothing() {
    let mut books = Scheduler::new(2, 0);
    assert_eq!(books.poll(), Action::Wait);
    assert_eq!(books.in_flight(), 0);
    assert!(!books.is_done());
}

#[test]
fn scheduler_for_host_has_at_least_one_slot() {
    let mut books = Scheduler::for_host(3);
    assert!(books.pool_size() >= 1);
    assert_eq!(books.len(), 3);
    assert_eq!(books.poll(), Action::Start(0));
}

#[test]
fn scheduler_never_has_more_in_flight_than_slots() {
    for pool in 1..=4usize {
        let mut books = Scheduler::new(9, pool);
        let mut flying: Vec<usize> = Vec::new();
        let mut started = Vec::new();
        let mut turn = 0usize;
        loop {
            match books.poll() {
                Action::Start(file) => {
                    flying.push(file);
                    started.push(file);
                },
                Action::Wait => {
                    assert!(!flying.is_empty());
                    let file = flying.remove(turn % flying.len());
                    assert!(books.complete(file, Outcome::Saved));
                },
                Action::Finish => break,
            }
            assert!(books.in_flight() <= pool);
            assert_eq!(books.in_flight(), flying.len());
            turn += 1;
        }
        assert_eq!(started, (0..9).collect::<Vec<usize>>());
        assert!(flying.is_empty());
        assert_eq!(books.tally(), Tally { saved: 9, skipped: 0, failed: 0 });
    }
}

#[test]
fn tally_counts_each_outcome() {
    let mut books = Scheduler::new(4, 4);
    for file in 0..4 {
        assert_eq!(books.poll(), Action::Start(file));
    }
    assert_eq!(books.tally(), Tally { saved: 0, skipped: 0, failed: 0 });
    assert!(books.complete(2, Outcome::Failed(Failure::EmptyImage)));
    assert!(books.any_failed());
    assert!(books.complete(0, Outcome::Saved));
    assert!(books.complete(3, Outcome::Failed(Failure::InvalidGrid)));
    assert_eq!(books.tally(), Tally { saved: 1, skipped: 0, failed: 2 });
    assert!(books.complete(1, Outcome::Skipped));
    assert_eq!(books.tally(), Tally { saved: 1, skipped: 1, failed: 2 });
    assert!(books.is_done());
}

#[test]
fn batch_of_five_with_one_skip_and_one_decode_error() {
    // What the file system and the decoder say of each of the five files.
    let has_artifact = [false, true, false, false, false];
    let decodes = [true, true, true, false, true];
    let grid = ComponentGrid::new(4, 3).unwrap();
    let mut artifacts: Vec<Option<String>> = vec![None; 5];
    let mut books = Scheduler::new(5, 2);
    let mut flying: Vec<(usize, Step)> = Vec::new();
    let mut most_in_flight = 0;
    loop {
        match books.poll() {
            Action::Start(file) => flying.push((file, first_step())),
            Action::Wait => {
                // The file that was started last takes its next step.
                let (file, step) = flying.pop().unwrap();
                let event = match step {
                    Step::CheckArtifact => {
                        if has_artifact[file] {
                            Event::ArtifactPresent
                        } else {
                            Event::ArtifactAbsent
                        }
                    },
                    Step::Decode => {
                        if decodes[file] {
                            Event::Decoded
                        } else {
                            Event::Failed(Failure::Decode)
                        }
                    },
                    Step::Encode => {
                        let levels = vec![AcLevels { r: 9, g: 9, b: 9 }; 11];
                        let colour = Rgb { r: file as u8, g: 0, b: 0 };
                        artifacts[file] = assemble(grid, colour, 0, &levels);
                        Event::Encoded
                    },
                    Step::Write => Event::Written,
                    Step::Done(_) => unreachable!(),
                };
                match next_step(step, event).unwrap() {
                    Step::Done(outcome) => assert!(books.complete(file, outcome)),
                    next => flying.push((file, next)),
                }
            },
            Action::Finish => break,
        }
        most_in_flight = most_in_flight.max(books.in_flight());
    }
    assert_eq!(most_in_flight, 2);
    assert!(books.is_done());
    assert_eq!(books.finished(), 5);
    assert_eq!(books.tally(), Tally { saved: 3, skipped: 1, failed: 1 });
    assert!(books.any_failed());
    assert_eq!(books.outcome(0), Some(Outcome::Saved));
    assert_eq!(books.outcome(1), Some(Outcome::Skipped));
    assert_eq!(books.outcome(2), Some(Outcome::Saved));
    assert_eq!(books.outcome(3), Some(Outcome::Failed(Failure::Decode)));
    assert_eq!(books.outcome(4), Some(Outcome::Saved));
    for file in 0..5 {
        let saved = books.outcome(file) == Some(Outcome::Saved);
        assert_eq!(artifacts[file].is_some(), saved);
        if let Some(text) = &artifacts[file] {
            assert_eq!(text.len(), 28);
            assert!(is_well_formed(text));
        }
    }
}
