use meowbox::domain::FolderRole;
use meowbox::engine::{
    folder_progress, folder_started, has_flag, pass_finished, raw_file_path, record_folder_failure,
    record_outcome, select_folders, should_report_progress, uidvalidity_changed, FolderTally,
    StoreOutcome, SyncReport,
};

#[test]
fn each_message_is_counted_once() {
    let mut report = SyncReport::new();
    let mut tally = FolderTally::new();
    for o in [StoreOutcome::Inserted, StoreOutcome::Skipped, StoreOutcome::Failed, StoreOutcome::Inserted] {
        record_outcome(&mut report, &mut tally, o);
    }
    assert_eq!(report, SyncReport { fetched: 4, inserted: 2, skipped: 1, errors: 1 });
    assert_eq!((tally.fetched, tally.inserted, tally.errors), (4, 2, 1));
    record_folder_failure(&mut report);
    assert_eq!(report.errors, 2);
    assert_eq!(report.fetched, 4);
}

#[test]
fn progress_is_reported_every_ten_and_at_the_end() {
    assert!(should_report_progress(10, 25));
    assert!(!should_report_progress(11, 25));
    assert!(should_report_progress(25, 25));
    let t = FolderTally { fetched: 3, inserted: 2, errors: 1 };
    let p = folder_progress("INBOX", &t, 9);
    assert_eq!((p.fetched, p.total, p.inserted, p.errors, p.done), (3, 9, 2, 1, false));
    let s = folder_started("INBOX", 9);
    assert_eq!((s.fetched, s.total), (0, 9));
    let f = pass_finished(&SyncReport { fetched: 5, inserted: 4, skipped: 0, errors: 1 });
    assert!(f.done);
    assert_eq!(f.folder, "");
    assert_eq!(f.total, 5);
}

#[test]
fn uidvalidity_change_resets_only_when_known_and_different() {
    assert!(!uidvalidity_changed(None, 5));
    assert!(!uidvalidity_changed(Some(5), 5));
    assert!(uidvalidity_changed(Some(4), 5));
}

#[test]
fn only_folder_narrows_the_folder_list() {
    let folders = vec![("INBOX".to_string(), FolderRole::Inbox), ("Sent".to_string(), FolderRole::Sent)];
    let only = select_folders(folders.clone(), &Some("Sent".to_string()));
    assert_eq!(only, vec![("Sent".to_string(), FolderRole::Sent)]);
    assert_eq!(select_folders(folders.clone(), &None), folders);
}

#[test]
fn raw_files_stay_inside_the_account_directory() {
    assert_eq!(raw_file_path("data/mail", 3, "..", 7), "data/mail/3/__/7.eml");
    assert_eq!(raw_file_path("data/mail", 3, "INBOX/Sub", 7), "data/mail/3/INBOX_Sub/7.eml");
}

#[test]
fn flags_are_matched_ignoring_case() {
    let flags = vec!["\\SEEN".to_string()];
    assert!(has_flag(&flags, "\\Seen"));
    assert!(!has_flag(&flags, "\\Flagged"));
}
