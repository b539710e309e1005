use srcbot::store_delete::{
    advance_deletion, exit_message, failed_path_in_line, line_tells_start, log_head,
    note_failed_path, AnswerOutcome, DeleteSession, Deletion, DeletionEvent, MinutesOutcome,
};

#[test]
fn the_failing_path_is_read() {
    let line = "error: cannot delete path '/nix/store/abc-x' since it is still alive";
    assert_eq!(failed_path_in_line(line), Some("/nix/store/abc-x".to_string()));
    assert_eq!(
        failed_path_in_line("error: Cannot delete path '/nix/store/y'"),
        Some("/nix/store/y".to_string())
    );
    assert_eq!(failed_path_in_line("error: cannot delete path '/nix/store/open"), None);
    assert_eq!(failed_path_in_line("deleting '/nix/store/z'"), None);
    assert!(line_tells_start("deleting '/nix/store/z'"));
    assert!(!line_tells_start(line));
    assert_eq!(note_failed_path(Some("a".to_string()), "other"), Some("a".to_string()));
    assert_eq!(note_failed_path(Some("a".to_string()), line), Some("/nix/store/abc-x".to_string()));
}

#[test]
fn the_time_counts_only_once_it_deletes() {
    let waiting = Deletion::Waiting;
    assert_eq!(advance_deletion(waiting, DeletionEvent::TimedOut, false), Deletion::Waiting);
    let deleting = advance_deletion(waiting, DeletionEvent::Started, false);
    assert_eq!(deleting, Deletion::Deleting);
    assert_eq!(advance_deletion(deleting, DeletionEvent::Started, false), Deletion::Deleting);
    assert_eq!(
        advance_deletion(deleting, DeletionEvent::TimedOut, false),
        Deletion::Over { success: false, kill: true }
    );
    assert_eq!(
        advance_deletion(deleting, DeletionEvent::TimedOut, true),
        Deletion::Over { success: true, kill: true }
    );
    let over = advance_deletion(waiting, DeletionEvent::Exited { success: true }, false);
    assert_eq!(over, Deletion::Over { success: true, kill: false });
    assert_eq!(advance_deletion(over, DeletionEvent::TimedOut, false), over);
    assert_eq!(exit_message(true, "0"), "GC completed successfully");
    assert_eq!(exit_message(false, "exit status: 1"), "GC exited with exit status: 1");
}

#[test]
fn answers_to_a_failed_try() {
    let paths = vec!["/a".to_string(), "/b".to_string(), "/a".to_string()];
    let mut session = DeleteSession::new(&paths);
    assert_eq!(session.timeout_secs, 30);
    assert!(!session.is_done());
    assert_eq!(session.answer("\n", Some("/a")), AnswerOutcome::Retry);
    assert_eq!(session.answer("s\n", None), AnswerOutcome::NoneKnown);
    assert_eq!(session.answer("s\n", Some("/zz")), AnswerOutcome::NotListed);
    assert_eq!(session.answer(" s ", Some("/a")), AnswerOutcome::Skipped);
    assert_eq!(session.paths, vec!["/b", "/a"]);
    assert_eq!(session.answer("t", None), AnswerOutcome::Longer);
    assert_eq!(session.timeout_secs, 60);
    assert_eq!(session.answer("m", None), AnswerOutcome::AskMinutes);
    assert_eq!(session.set_minutes("5\n"), MinutesOutcome::Taken);
    assert_eq!(session.timeout_secs, 300);
    assert_eq!(session.set_minutes("five"), MinutesOutcome::Invalid);
    assert_eq!(session.set_minutes("18446744073709551615"), MinutesOutcome::TooLong);
    assert_eq!(session.timeout_secs, 300);
    session.timeout_secs = u64::MAX;
    assert_eq!(session.answer("t", None), AnswerOutcome::TooLong);
    assert_eq!(
        log_head(&session.paths),
        "=== Attempting to delete 2 store paths ===\n  /b\n  /a\n=== Starting nix-store --delete ===\n"
    );
}
