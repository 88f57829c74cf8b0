use meowbox::domain::{Account, AccountKind, AccountSettings, FolderRole, Timestamp};
use meowbox::imap::{
    build_search_query, folder_role, role_from_name, secs_in_chrono_range, uid_fetch_sets, ConfigError, ImapConfig,
    NameAttribute,
};

#[test]
fn role_from_name_maps_inbox_regardless_of_case() {
    assert_eq!(role_from_name("INBOX"), FolderRole::Inbox);
    assert_eq!(role_from_name("inbox"), FolderRole::Inbox);
}

#[test]
fn role_from_name_maps_english_names() {
    assert_eq!(role_from_name("Sent"), FolderRole::Sent);
    assert_eq!(role_from_name("Sent Items"), FolderRole::Sent);
    assert_eq!(role_from_name("Sent Messages"), FolderRole::Sent);
    assert_eq!(role_from_name("Drafts"), FolderRole::Drafts);
    assert_eq!(role_from_name("Trash"), FolderRole::Trash);
    assert_eq!(role_from_name("Deleted Items"), FolderRole::Trash);
    assert_eq!(role_from_name("Archive"), FolderRole::Archive);
}

#[test]
fn role_from_name_maps_japanese_names() {
    assert_eq!(role_from_name("送信済み"), FolderRole::Sent);
    assert_eq!(role_from_name("送信済みトレイ"), FolderRole::Sent);
    assert_eq!(role_from_name("下書き"), FolderRole::Drafts);
    assert_eq!(role_from_name("草稿"), FolderRole::Drafts);
    assert_eq!(role_from_name("ゴミ箱"), FolderRole::Trash);
    assert_eq!(role_from_name("削除済み"), FolderRole::Trash);
    assert_eq!(role_from_name("アーカイブ"), FolderRole::Archive);
}

#[test]
fn role_from_name_uses_last_segment_of_hierarchical_names() {
    assert_eq!(role_from_name("INBOX.送信済み"), FolderRole::Sent);
    assert_eq!(role_from_name("INBOX/Sent Items"), FolderRole::Sent);
    assert_eq!(role_from_name("Team.Projects.Archive"), FolderRole::Archive);
}

#[test]
fn role_from_name_falls_back_to_other_for_unknown_names() {
    assert_eq!(role_from_name("Projects"), FolderRole::Other);
    assert_eq!(role_from_name("案件A"), FolderRole::Other);
}

#[test]
fn special_use_attributes_win_over_the_name() {
    assert_eq!(folder_role("Projects", &[NameAttribute::Sent]), FolderRole::Sent);
    assert_eq!(folder_role("Sent", &[NameAttribute::Other]), FolderRole::Sent);
}

#[test]
fn build_search_query_includes_since_when_present() {
    // 2025-06-06T00:00:00Z
    assert_eq!(
        build_search_query(100, Some(1_749_168_000)),
        "UID 101:* SINCE 06-Jun-2025"
    );
    assert_eq!(build_search_query(100, None), "UID 101:*");
}

#[test]
fn build_search_query_does_not_overflow_at_u32_max() {
    assert_eq!(
        build_search_query(u32::MAX, None),
        format!("UID {}:*", u32::MAX)
    );
}

#[test]
fn imap_date_uses_english_three_letter_months() {
    // 2025-09-01, 2025-01-05 and 2025-12-31, midnight UTC
    assert_eq!(build_search_query(0, Some(1_756_684_800)), "UID 1:* SINCE 01-Sep-2025");
    assert_eq!(build_search_query(0, Some(1_736_035_200)), "UID 1:* SINCE 05-Jan-2025");
    assert_eq!(build_search_query(0, Some(1_767_139_200)), "UID 1:* SINCE 31-Dec-2025");
}

#[test]
fn fetch_sets_cover_every_uid_in_chunks() {
    let uids: Vec<u32> = (1..=450).rev().collect();
    let sets = uid_fetch_sets(uids);
    assert_eq!(sets.len(), 3);
    let first: Vec<&str> = sets[0].split(',').collect();
    assert_eq!(first.len(), 200);
    assert_eq!(first[0], "1");
    assert_eq!(sets[2].split(',').count(), 50);
    assert!(uid_fetch_sets(Vec::new()).is_empty());
}

fn account(kind: AccountKind, settings: AccountSettings) -> Account {
    Account {
        id: 1,
        name: "test".to_string(),
        kind,
        email: "me@mail.example".to_string(),
        project_tag: None,
        settings,
        created_at: Timestamp { secs: 0, nanos: 0 },
    }
}

fn no_settings() -> AccountSettings {
    AccountSettings { host: None, port: None, username: None, starttls: None }
}

#[test]
fn config_from_account_defaults_and_errors() {
    let a = account(AccountKind::Gmail, no_settings());
    assert_eq!(ImapConfig::from_account(&a).unwrap_err(), ConfigError::NotImap { kind: "gmail" });
    let a = account(AccountKind::Imap, no_settings());
    assert_eq!(ImapConfig::from_account(&a).unwrap_err(), ConfigError::NoHost);
    let a = account(
        AccountKind::Imap,
        AccountSettings { host: Some("imap.mail.example".to_string()), ..no_settings() },
    );
    let c = ImapConfig::from_account(&a).unwrap();
    assert_eq!(c.port, 993);
    assert_eq!(c.username, "me@mail.example");
    assert!(!c.starttls);
    assert_eq!(ConfigError::NoHost.message(), "has no host configured");
}

#[test]
fn chrono_range_bounds() {
    assert!(secs_in_chrono_range(0));
    assert!(secs_in_chrono_range(8_210_266_876_799));
    assert!(!secs_in_chrono_range(8_210_266_876_800));
    assert!(secs_in_chrono_range(-8_334_601_315_200));
    assert!(!secs_in_chrono_range(-8_334_601_315_201));
}
