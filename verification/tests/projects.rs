use std::collections::HashMap;
use meowbox::domain::{Account, AccountKind, AccountSettings, Timestamp};
use meowbox::grouping::{group_accounts_by_project, group_by_tag, project_sums_fit, text_less};

fn account(id: i64, project_tag: Option<&str>) -> Account {
    Account {
        id,
        name: format!("account-{id}"),
        kind: AccountKind::Imap,
        email: format!("user{id}@mail.example"),
        project_tag: project_tag.map(str::to_string),
        settings: AccountSettings { host: None, port: None, username: None, starttls: None },
        created_at: Timestamp { secs: 0, nanos: 0 },
    }
}

#[test]
fn groups_accounts_by_project_tag_in_sorted_order() {
    let accounts = vec![
        account(1, Some("案件B")),
        account(2, Some("案件A")),
        account(3, Some("案件A")),
    ];
    let groups = group_accounts_by_project(&accounts, &HashMap::new());

    assert_eq!(groups.len(), 2);
    assert_eq!(groups[0].tag.as_deref(), Some("案件A"));
    assert_eq!(groups[0].accounts.len(), 2);
    assert_eq!(groups[1].tag.as_deref(), Some("案件B"));
    assert_eq!(groups[1].accounts.len(), 1);
}

#[test]
fn untagged_accounts_are_grouped_last_with_null_tag() {
    let accounts = vec![account(1, None), account(2, Some("案件A"))];
    let groups = group_accounts_by_project(&accounts, &HashMap::new());

    assert_eq!(groups.len(), 2);
    assert_eq!(groups[0].tag.as_deref(), Some("案件A"));
    assert_eq!(groups[1].tag, None);
    assert_eq!(groups[1].accounts[0].id, 1);
}

#[test]
fn no_untagged_accounts_means_no_null_group() {
    let accounts = vec![account(1, Some("案件A"))];
    let groups = group_accounts_by_project(&accounts, &HashMap::new());

    assert!(groups.iter().all(|g| g.tag.is_some()));
}

#[test]
fn unread_count_is_summed_per_project() {
    let accounts = vec![account(1, Some("案件A")), account(2, Some("案件A"))];
    let groups = group_accounts_by_project(&accounts, &HashMap::from([(1, 3), (2, 5)]));

    assert_eq!(groups[0].unread, 8);
}

#[test]
fn accounts_keep_their_order_and_addresses_within_a_project() {
    let accounts = vec![account(5, Some("x")), account(2, None), account(9, Some("x"))];
    let groups = group_accounts_by_project(&accounts, &HashMap::from([(9, 1), (2, 4), (9, 2)]));
    assert_eq!(groups.len(), 2);
    let ids: Vec<i64> = groups[0].accounts.iter().map(|a| a.id).collect();
    assert_eq!(ids, vec![5, 9]);
    assert_eq!(groups[0].accounts[1].email, "user9@mail.example");
    assert_eq!(groups[0].unread, 2);
    assert_eq!(groups[1].unread, 4);
}

#[test]
fn tag_order_is_the_order_of_strings() {
    let mut tags = vec!["b", "a", "案件", "ab", "", "B", "aa"];
    let groups = group_by_tag(&tags.iter().map(|t| Some(t.to_string())).collect::<Vec<_>>());
    tags.sort();
    tags.dedup();
    let got: Vec<String> = groups.iter().map(|g| g.tag.clone().unwrap()).collect();
    assert_eq!(got, tags);
    let a: Vec<char> = "案件A".chars().collect();
    let b: Vec<char> = "案件B".chars().collect();
    assert!(text_less(&a, &b));
    assert!(!text_less(&b, &a));
    assert!(!text_less(&a, &a));
}

#[test]
fn group_members_are_positions_in_order() {
    let tags = vec![Some("p".to_string()), None, Some("o".to_string()), Some("p".to_string()), None];
    let groups = group_by_tag(&tags);
    assert_eq!(groups.len(), 3);
    assert_eq!(groups[0].tag.as_deref(), Some("o"));
    assert_eq!(groups[0].members, vec![2]);
    assert_eq!(groups[1].members, vec![0, 3]);
    assert_eq!(groups[2].tag, None);
    assert_eq!(groups[2].members, vec![1, 4]);
    assert!(group_by_tag(&[]).is_empty());
}

#[test]
fn unread_counts_of_any_sign_are_summed() {
    let accounts = vec![account(1, Some("案件A")), account(2, Some("案件A")), account(3, None)];
    let unread = HashMap::from([(1, i64::MAX), (2, -1), (3, -7)]);
    assert!(project_sums_fit(&accounts, &unread));
    let groups = group_accounts_by_project(&accounts, &unread);
    assert_eq!(groups[0].unread, i64::MAX - 1);
    assert_eq!(groups[1].unread, -7);
}

#[test]
fn project_sums_that_overflow_are_reported() {
    let accounts = vec![account(1, Some("案件A")), account(2, Some("案件A")), account(3, Some("案件B"))];
    assert!(!project_sums_fit(&accounts, &HashMap::from([(1, i64::MAX), (2, 1)])));
    assert!(project_sums_fit(&accounts, &HashMap::from([(1, i64::MAX), (3, 1)])));
    assert!(!project_sums_fit(&accounts, &HashMap::from([(1, i64::MIN), (2, -1)])));
}
