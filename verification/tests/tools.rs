use std::collections::HashMap;
use meowbox::domain::{Account, AccountKind, AccountSettings, Address, TaskStatus, Timestamp};
use meowbox::mcp::{
    account_info, attachment_file_name, attachment_file_path, cap_results, check_draft_body,
    check_summary_args, count_upserts, daily_target, default_digest_limit, default_limit,
    digest_since, digest_selection, digest_thread_query, fallback_attachment_name,
    latest_subject, parse_datetime_arg, parse_task_status, project_tag_of,
    resolve_draft_to_and_subject, search_limit, search_query_for, server_instructions,
    task_query_for, thread_target, unique_senders, validate_tasks, AnsweredMessage, CreateDraftArgs,
    InboxDigestArgs, ListTasksArgs, SaveSummaryArgs, SearchMessagesArgs, TaskSpec,
    SAFETY_NOTE_EN, SAFETY_NOTE_JA,
};

fn ts(secs: i64) -> Timestamp {
    Timestamp { secs, nanos: 0 }
}

fn search_args(limit: usize) -> SearchMessagesArgs {
    SearchMessagesArgs {
        query: None,
        account_id: None,
        project: None,
        since: None,
        unread_only: false,
        limit,
        include_body: false,
    }
}

#[test]
fn defaults_match_the_tool_descriptions() {
    assert_eq!(default_limit(), 30);
    assert_eq!(default_digest_limit(), 20);
    assert!(server_instructions().contains(SAFETY_NOTE_JA));
    assert!(server_instructions().contains(SAFETY_NOTE_EN));
}

#[test]
fn search_limit_is_clamped_to_one_through_two_hundred() {
    assert_eq!(search_limit(10_000), 200);
    assert_eq!(search_limit(0), 1);
    assert_eq!(search_limit(3), 3);
    let q = search_query_for(&search_args(10_000)).unwrap();
    assert_eq!(q.limit, 201);
    let q = search_query_for(&search_args(0)).unwrap();
    assert_eq!(q.limit, 2);
}

#[test]
fn search_pages_report_truncation() {
    let (v, t) = cap_results(vec![1, 2, 3], 2);
    assert_eq!((v, t), (vec![1, 2], true));
    let (v, t) = cap_results(vec![1, 2, 3], 3);
    assert_eq!((v, t), (vec![1, 2, 3], false));
}

#[test]
fn search_since_must_be_rfc3339() {
    let mut a = search_args(5);
    a.since = Some("2025-09-01T00:00:00Z".to_string());
    let q = search_query_for(&a).unwrap();
    assert_eq!(q.since, Some(ts(1_756_684_800)));
    a.since = Some("yesterday".to_string());
    let e = search_query_for(&a).unwrap_err();
    assert!(e.starts_with("日時の形式が不正です（RFC3339 で指定してください）: yesterday ("));
    assert_eq!(parse_datetime_arg("2025-09-01T09:00:00+09:00").unwrap(), ts(1_756_684_800));
}

fn account(id: i64, tag: Option<&str>) -> Account {
    Account {
        id,
        name: format!("n{id}"),
        kind: AccountKind::Imap,
        email: format!("u{id}@mail.example"),
        project_tag: tag.map(str::to_string),
        settings: AccountSettings { host: None, port: None, username: None, starttls: None },
        created_at: ts(0),
    }
}

#[test]
fn search_results_carry_the_project_of_their_account() {
    let accounts = vec![account(1, Some("案件A")), account(2, None)];
    assert_eq!(project_tag_of(&accounts, 1).as_deref(), Some("案件A"));
    assert_eq!(project_tag_of(&accounts, 2), None);
    assert_eq!(project_tag_of(&accounts, 3), None);
}

#[test]
fn participants_are_unique_by_address_in_first_order() {
    let a = |n: &str, e: &str| Address { name: Some(n.to_string()), email: e.to_string() };
    let from = vec![a("A", "a@x"), a("B", "b@x"), a("A2", "a@x")];
    let u = unique_senders(&from);
    assert_eq!(u.len(), 2);
    assert_eq!(u[0].name.as_deref(), Some("A"));
    assert_eq!(u[1].email, "b@x");
}

#[test]
fn thread_subject_is_the_latest_and_empty_thread_is_missing() {
    assert_eq!(latest_subject(&["a".to_string(), "b".to_string()]).unwrap(), "b");
    assert_eq!(latest_subject(&[]).unwrap_err(), "スレッドが見つかりません");
    assert_eq!(thread_target("k1"), "thread:k1");
    assert_eq!(daily_target("2025-09-01"), "daily:2025-09-01");
}

#[test]
fn inbox_digest_impl_defaults_since_to_24_hours_ago() {
    let now = Timestamp { secs: 1_756_684_800, nanos: 5 };
    let s = digest_since(&None, now).unwrap();
    assert_eq!(s, Timestamp { secs: 1_756_684_800 - 86_400, nanos: 5 });
    let q = digest_thread_query(&InboxDigestArgs { project: Some("p".into()), since: None, limit: 20 });
    assert!(q.unread_only);
    assert_eq!(q.project_tag.as_deref(), Some("p"));
}

#[test]
fn inbox_digest_impl_drops_threads_older_than_since() {
    let dates = vec![ts(300), ts(100), ts(200)];
    let tags = vec![Some("a".to_string()), Some("a".to_string()), None];
    let sel = digest_selection(&dates, &tags, ts(200), 20);
    assert!(!sel.truncated);
    assert_eq!(sel.groups.len(), 2);
    assert_eq!(sel.groups[0].members, vec![0]);
    assert_eq!(sel.groups[1].tag, None);
    assert_eq!(sel.groups[1].members, vec![2]);
}

#[test]
fn inbox_digest_impl_truncates_at_50_threads() {
    let dates: Vec<Timestamp> = (0..60).map(|i| ts(1000 - i)).collect();
    let tags: Vec<Option<String>> = (0..60).map(|i| if i % 2 == 0 { Some("e".to_string()) } else { None }).collect();
    // A limit above the maximum still shows at most 50 threads.
    let sel = digest_selection(&dates, &tags, ts(0), 100);
    assert!(sel.truncated);
    let shown: usize = sel.groups.iter().map(|g| g.members.len()).sum();
    assert_eq!(shown, 50);
    assert!(sel.groups.iter().all(|g| g.members.iter().all(|&p| p < 50)));
}

#[test]
fn inbox_digest_shows_at_most_limit_threads() {
    let dates: Vec<Timestamp> = (0..30).map(|i| ts(1000 - i)).collect();
    let tags: Vec<Option<String>> = vec![None; 30];
    let sel = digest_selection(&dates, &tags, ts(0), default_digest_limit());
    assert!(sel.truncated);
    assert_eq!(sel.groups.len(), 1);
    assert_eq!(sel.groups[0].members, (0..20).collect::<Vec<usize>>());
    let sel = digest_selection(&dates, &tags, ts(0), 30);
    assert!(!sel.truncated);
    assert_eq!(sel.groups[0].members.len(), 30);
    let sel = digest_selection(&dates, &tags, ts(0), 0);
    assert!(sel.truncated);
    assert!(sel.groups.is_empty());
}

#[test]
fn save_summary_impl_rejects_bad_target() {
    let a = SaveSummaryArgs { target: "week:1".into(), model: "m".into(), summary: "s".into() };
    assert!(check_summary_args(&a).unwrap_err().ends_with(": week:1"));
}

#[test]
fn save_summary_impl_rejects_empty_model() {
    let a = SaveSummaryArgs { target: "thread:k".into(), model: "".into(), summary: "s".into() };
    assert_eq!(check_summary_args(&a).unwrap_err(), "model を指定してください");
}

#[test]
fn save_summary_impl_rejects_blank_summary() {
    let a = SaveSummaryArgs { target: "daily:2025-09-01".into(), model: "m".into(), summary: " \n ".into() };
    assert_eq!(check_summary_args(&a).unwrap_err(), "summary が空です");
    let ok = SaveSummaryArgs { target: "message:3".into(), model: "m".into(), summary: "要約".into() };
    assert!(check_summary_args(&ok).is_ok());
}

fn task(account_id: Option<i64>, source: Option<i64>, due: Option<&str>) -> TaskSpec {
    TaskSpec { account_id, source_message_id: source, title: "返信する".into(), due: due.map(str::to_string) }
}

#[test]
fn upsert_tasks_impl_rejects_empty_list() {
    assert_eq!(validate_tasks(&[], &[]).unwrap_err(), "tasks が空です");
}

#[test]
fn upsert_tasks_impl_rejects_bad_due() {
    let e = validate_tasks(&[task(Some(1), None, Some("tomorrow"))], &[None]).unwrap_err();
    assert!(e.starts_with("tasks[0] の due が不正です: 日時の形式が不正です"));
}

#[test]
fn upsert_tasks_impl_infers_account_id_from_source_message_id() {
    let v = validate_tasks(&[task(None, Some(42), Some("2025-09-10T00:00:00Z"))], &[Some(7)]).unwrap();
    assert_eq!(v[0].account_id, 7);
    assert_eq!(v[0].due, Some(ts(1_757_462_400)));
}

#[test]
fn upsert_tasks_impl_rejects_task_without_account_id_or_source_message_id() {
    let e = validate_tasks(&[task(Some(1), None, None), task(None, None, None)], &[None, None]).unwrap_err();
    assert_eq!(e, "tasks[1] は account_id か source_message_id のどちらかが必要です");
}

#[test]
fn upsert_tasks_impl_rejects_unknown_source_message_id() {
    let e = validate_tasks(&[task(None, Some(99), None)], &[None]).unwrap_err();
    assert_eq!(e, "tasks[0] の source_message_id 99 に対応するメールが見つかりません");
}

#[test]
fn upsert_tasks_impl_writes_nothing_if_any_task_is_invalid() {
    let tasks = [task(Some(1), None, None), task(Some(1), None, Some("bad"))];
    assert!(validate_tasks(&tasks, &[None, None]).is_err());
}

#[test]
fn upsert_tasks_impl_counts_insert_then_update() {
    let c = count_upserts(&[true, false, true]);
    assert_eq!((c.inserted, c.updated), (2, 1));
}

#[test]
fn list_tasks_rejects_unknown_status() {
    assert_eq!(parse_task_status("done"), Ok(TaskStatus::Done));
    assert!(parse_task_status("closed").unwrap_err().ends_with(": closed"));
    let q = task_query_for(&ListTasksArgs { status: Some("open".into()), project: None }).unwrap();
    assert_eq!(q.status, Some(TaskStatus::Open));
    assert_eq!(q.limit, 0);
    assert!(task_query_for(&ListTasksArgs { status: Some("x".into()), project: None }).is_err());
}

fn draft_args(to: Option<Vec<String>>, subject: Option<&str>, in_reply_to: Option<i64>) -> CreateDraftArgs {
    CreateDraftArgs {
        account_id: 1,
        in_reply_to,
        to,
        subject: subject.map(str::to_string),
        body: "本文".into(),
        reply_all: false,
    }
}

#[test]
fn create_draft_impl_rejects_blank_body() {
    assert_eq!(check_draft_body("  \n").unwrap_err(), "body が空です");
    assert!(check_draft_body("x").is_ok());
}

#[test]
fn create_draft_impl_requires_a_recipient() {
    let e = resolve_draft_to_and_subject(&draft_args(None, Some("s"), None), None, None).unwrap_err();
    assert_eq!(e, "宛先を決められません（to か in_reply_to を指定してください）");
    let e = resolve_draft_to_and_subject(&draft_args(None, None, Some(5)), Some(None), None).unwrap_err();
    assert_eq!(e, "in_reply_to のメッセージが見つかりません");
}

#[test]
fn create_draft_impl_does_not_double_up_re_prefix() {
    let from = Address { name: Some("佐藤".into()), email: "sato@mail.example".into() };
    let orig = Some(Some(AnsweredMessage { from, to: vec![], cc: vec![], subject: "Re: Re[2]: 見積の件".to_string() }));
    let (to, subject) = resolve_draft_to_and_subject(&draft_args(None, None, Some(5)), orig, None).unwrap();
    assert_eq!(subject, "Re: 見積の件");
    assert_eq!(to.len(), 1);
    assert_eq!(to[0].email, "sato@mail.example");
    let (to, subject) = resolve_draft_to_and_subject(
        &draft_args(Some(vec!["a@x".into(), "b@x".into()]), Some("件名"), None),
        None,
        None,
    )
    .unwrap();
    assert_eq!(subject, "件名");
    assert_eq!(to.iter().map(|a| a.email.as_str()).collect::<Vec<_>>(), vec!["a@x", "b@x"]);
    assert!(to.iter().all(|a| a.name.is_none()));
}

#[test]
fn extract_attachment_impl_keeps_traversal_filenames_inside_the_attachments_dir() {
    assert_eq!(attachment_file_name(7, "../../etc/passwd"), "7-.._.._etc_passwd");
    assert_eq!(attachment_file_name(7, ".."), "attachment-7");
    assert_eq!(fallback_attachment_name(-3), "attachment--3");
    let p = attachment_file_path("/d/attachments", 12, 7, "a/b.txt");
    assert_eq!(p, "/d/attachments/12/7-a_b.txt");
}

#[test]
fn extract_attachment_impl_keeps_same_named_attachments_in_one_message_apart() {
    assert_ne!(attachment_file_name(1, "x.pdf"), attachment_file_name(2, "x.pdf"));
}

#[test]
fn account_listing_shows_no_settings() {
    let a = account(4, Some("案件A"));
    let info = account_info(&a, Some(ts(1_756_684_800)), &HashMap::from([(4, 2), (5, 9)]));
    assert_eq!(info.kind, "imap");
    assert_eq!(info.unread_count, 2);
    assert_eq!(info.last_synced_at.as_deref(), Some("2025-09-01T00:00:00+00:00"));
    let none = account_info(&a, None, &HashMap::new());
    assert_eq!(none.last_synced_at, None);
    assert_eq!(none.unread_count, 0);
}

#[test]
fn create_draft_reply_all_adds_to_and_cc_without_the_own_address() {
    let addr = |e: &str| Address { name: None, email: e.to_string() };
    let orig = AnsweredMessage {
        from: Address { name: Some("佐藤".into()), email: "sato@mail.example".into() },
        to: vec![addr("me@mail.example"), addr("tanaka@mail.example")],
        cc: vec![addr("suzuki@mail.example"), addr("me@mail.example")],
        subject: "見積の件".to_string(),
    };
    let mut args = draft_args(None, None, Some(5));
    args.reply_all = true;
    let (to, subject) =
        resolve_draft_to_and_subject(&args, Some(Some(orig.clone())), Some("me@mail.example".to_string())).unwrap();
    assert_eq!(subject, "Re: 見積の件");
    assert_eq!(
        to.iter().map(|a| a.email.as_str()).collect::<Vec<_>>(),
        vec!["sato@mail.example", "tanaka@mail.example", "suzuki@mail.example"]
    );
    args.reply_all = false;
    let (to, _) = resolve_draft_to_and_subject(&args, Some(Some(orig)), Some("me@mail.example".to_string())).unwrap();
    assert_eq!(to.len(), 1);
    assert_eq!(to[0].email, "sato@mail.example");
}
