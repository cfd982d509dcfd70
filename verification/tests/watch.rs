use nupkgd::watch::{is_nupkg, is_sharing_violation, AttemptOutcome, RetryAction, RetryState};

#[test]
fn nupkg_extension_is_recognised_ignoring_case() {
    assert!(is_nupkg("Foo.1.0.0.nupkg"));
    assert!(is_nupkg("Foo.1.0.0.NuPkg"));
    assert!(!is_nupkg("Foo.1.0.0.nuspec"));
    assert!(!is_nupkg("nupkg"));
    assert!(!is_nupkg(".nupkg"));
    assert!(!is_nupkg("Foo.nupkg.tmp"));
    assert!(!is_nupkg(".."));
    assert!(!is_nupkg(""));
}

#[test]
fn sharing_violation_is_code_32_anywhere_in_the_chain() {
    assert!(is_sharing_violation(&vec![None, Some(5), Some(32)]));
    assert!(!is_sharing_violation(&vec![None, Some(5)]));
    assert!(!is_sharing_violation(&vec![]));
}

#[test]
fn retries_double_the_wait_up_to_two_seconds_and_stop_after_ten_attempts() {
    let mut state = RetryState::start();
    let mut waits = Vec::new();
    loop {
        let (next, action) = state.next(AttemptOutcome::SharingViolation);
        match action {
            RetryAction::RetryAfter(ms) => waits.push(ms),
            RetryAction::GiveUp => break,
            RetryAction::Finish => panic!("nothing was applied"),
        }
        state = next;
    }
    assert_eq!(waits, vec![100, 200, 400, 800, 1600, 2000, 2000, 2000, 2000]);
    assert_eq!(state.attempt, 10);
}

#[test]
fn an_applied_change_finishes_and_another_failure_gives_up() {
    let state = RetryState::start();
    assert_eq!(state.next(AttemptOutcome::Applied).1, RetryAction::Finish);
    assert_eq!(state.next(AttemptOutcome::Failed).1, RetryAction::GiveUp);
}
