use meowbox::cli::{
    account_exists, account_line, cli_account_settings, imap_config_from_account, kind_arg,
    report_line, search_hit_line, show_message_text, since_days, sync_exit_result, sync_targets,
    SkipReason, SyncOutcome,
};
use meowbox::domain::{Account, AccountKind, AccountSettings, Address, Timestamp};
use meowbox::time::timestamp_ok;
use meowbox::engine::SyncReport;

fn account(kind: AccountKind, settings: AccountSettings) -> Account {
    Account {
        id: 1,
        name: "test".to_string(),
        kind,
        email: "me@mail.example".to_string(),
        project_tag: None,
        settings,
        created_at: Timestamp { secs: 0, nanos: 0 },
    }
}

fn empty() -> AccountSettings {
    AccountSettings { host: None, port: None, username: None, starttls: None }
}

#[test]
fn non_imap_account_is_skipped_as_not_imap() {
    let a = account(AccountKind::Gmail, empty());
    match imap_config_from_account(&a) {
        Err(SkipReason::NotImap { kind }) => assert_eq!(kind, "gmail"),
        other => panic!("expected NotImap, got {other:?}"),
    }
}

#[test]
fn imap_account_without_host_is_skipped_as_no_host() {
    let a = account(AccountKind::Imap, empty());
    match imap_config_from_account(&a) {
        Err(SkipReason::NoHost) => {}
        other => panic!("expected NoHost, got {other:?}"),
    }
}

#[test]
fn imap_account_with_full_settings_builds_config() {
    let a = account(
        AccountKind::Imap,
        AccountSettings {
            host: Some("imap.mail.example".to_string()),
            port: Some(143),
            username: Some("someone@mail.example".to_string()),
            starttls: Some(true),
        },
    );
    let config = imap_config_from_account(&a).unwrap();
    assert_eq!(config.account_id, 1);
    assert_eq!(config.host, "imap.mail.example");
    assert_eq!(config.port, 143);
    assert_eq!(config.username, "someone@mail.example");
    assert!(config.starttls);
}

#[test]
fn imap_account_without_username_falls_back_to_email() {
    let a = account(AccountKind::Imap, AccountSettings { host: Some("imap.mail.example".to_string()), ..empty() });
    let config = imap_config_from_account(&a).unwrap();
    assert_eq!(config.username, "me@mail.example");
}

#[test]
fn imap_account_without_port_defaults_to_993() {
    let a = account(AccountKind::Imap, AccountSettings { host: Some("imap.mail.example".to_string()), ..empty() });
    let config = imap_config_from_account(&a).unwrap();
    assert_eq!(config.port, 993);
}

#[test]
fn skip_reasons_name_the_account() {
    assert_eq!(
        SkipReason::NotImap { kind: "m365" }.message(4),
        "account #4: kind 'm365' not supported yet"
    );
    assert_eq!(SkipReason::NoHost.message(5), "account #5: has no host configured");
}

#[test]
fn sync_all_accounts_succeed_is_ok() {
    let o = SyncOutcome { attempted: 2, failed: 0, skipped: 0 };
    assert!(sync_exit_result(&o).is_ok());
    assert_eq!(sync_exit_result(&o).unwrap().as_deref(), Some("synced 2 account(s), 0 failed"));
}

#[test]
fn sync_some_accounts_fail_is_err() {
    let o = SyncOutcome { attempted: 2, failed: 1, skipped: 0 };
    assert!(sync_exit_result(&o).is_err());
    assert_eq!(sync_exit_result(&o).unwrap_err(), "sync failed for 1 of 2 account(s)");
}

#[test]
fn sync_all_accounts_fail_is_err() {
    let o = SyncOutcome { attempted: 1, failed: 1, skipped: 0 };
    assert!(sync_exit_result(&o).is_err());
}

#[test]
fn sync_no_targets_at_all_is_err() {
    let o = SyncOutcome { attempted: 0, failed: 0, skipped: 0 };
    assert!(sync_exit_result(&o).is_err());
    assert_eq!(sync_exit_result(&o).unwrap_err(), "no accounts to sync");
}

#[test]
fn sync_no_targets_but_some_skipped_is_err() {
    let o = SyncOutcome { attempted: 0, failed: 0, skipped: 2 };
    assert!(sync_exit_result(&o).is_err());
}

#[test]
fn one_successful_account_prints_no_summary() {
    let o = SyncOutcome { attempted: 1, failed: 0, skipped: 3 };
    assert_eq!(sync_exit_result(&o), Ok(None));
}

#[test]
fn sync_targets_pick_the_asked_account() {
    assert_eq!(sync_targets(&[3, 5, 3], Some(3)), vec![0, 2]);
    assert_eq!(sync_targets(&[3, 5], None), vec![0, 1]);
    assert!(sync_targets(&[3, 5], Some(9)).is_empty());
    assert!(account_exists(&[3, 5], 5));
    assert!(!account_exists(&[3, 5], 4));
}

#[test]
fn cli_helpers_format_and_default() {
    assert_eq!(since_days(1_000_000_000, 90), Some(1_000_000_000 - 90 * 86400));
    assert_eq!(since_days(1_000_000_000, -2), Some(1_000_000_000 + 2 * 86400));
    assert_eq!(since_days(1_000_000_000, 1_000_000_000), None);
    assert_eq!(since_days(0, i64::MIN), None);
    assert_eq!(kind_arg("gmail"), Ok(AccountKind::Gmail));
    assert_eq!(kind_arg("pop3").unwrap_err(), "unknown kind 'pop3' (imap|gmail|m365)");
    let s = cli_account_settings(None, 993, None, "me@mail.example", false);
    assert_eq!(s.username.as_deref(), Some("me@mail.example"));
    assert_eq!(s.host, None);
    let mut a = account(AccountKind::Imap, empty());
    a.project_tag = Some("案件A".into());
    assert_eq!(
        account_line(&a),
        format!("{:>3}  {:<6} {:<32} {:<12} {}", 1, "imap", "me@mail.example", "案件A", "test")
    );
    let r = SyncReport { fetched: 4, inserted: 2, skipped: 1, errors: 1 };
    assert_eq!(report_line(1, &r), "account #1: fetched=4 inserted=2 skipped=1 errors=1");
}

#[test]
fn search_hits_are_aligned_columns() {
    let t = Timestamp { secs: 1_756_684_800 + 3_600 + 120, nanos: 0 };
    let from = Address { name: Some("佐藤".into()), email: "sato@mail.example".into() };
    let line = search_hit_line(false, 42, t, &from, "見積の件");
    assert_eq!(line, format!("*    42 2025-09-01 01:02 {:<28} 見積の件", "佐藤"));
    let anon = Address { name: None, email: "a@x".into() };
    let line = search_hit_line(true, 123456, t, &anon, "s");
    assert_eq!(line, format!("  123456 2025-09-01 01:02 {:<28} s", "a@x"));
}

#[test]
fn show_prints_headers_then_the_body() {
    let t = Timestamp { secs: 1_756_684_800, nanos: 0 };
    let from = Address { name: Some("佐藤".into()), email: "sato@mail.example".into() };
    let to = vec![Address { name: None, email: "me@mail.example".into() }, Address { name: Some("田中".into()), email: "t@x".into() }];
    let text = show_message_text("件名", &from, &to, t, "INBOX", 7, "本文");
    assert_eq!(text, "Subject: 件名\nFrom: 佐藤\nTo: me@mail.example, 田中\nDate: 2025-09-01 00:00\nFolder: INBOX\nUID: 7\n\n本文");
}

#[test]
fn timestamps_outside_chrono_are_refused() {
    assert!(timestamp_ok(Timestamp { secs: 0, nanos: 0 }));
    assert!(timestamp_ok(Timestamp { secs: 59, nanos: 1_500_000_000 }));
    assert!(timestamp_ok(Timestamp { secs: -1, nanos: 1_500_000_000 }));
    assert!(!timestamp_ok(Timestamp { secs: 58, nanos: 1_500_000_000 }));
    assert!(!timestamp_ok(Timestamp { secs: 8_210_266_876_800, nanos: 0 }));
}
