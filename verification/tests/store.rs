use meowbox::domain::{settings_from_values, AccountKind, Address, SettingValue, TaskStatus, Timestamp};
use meowbox::store::{
    insert_draft_sql, NewDraft,
    parse_i64_text, schema_plan,
    attachment_position, flag_update_sql, fts_escape, kind_or_imap, list_tasks_sql,
    list_threads_sql, parse_task_status, parse_ts, search_sql, synced_at_from_meta,
    task_status_str, upsert_plan, FlagColumn, SearchQuery, SqlArg, TaskQuery, ThreadQuery,
    UpsertPlan,
};

#[test]
fn fts_escape_quotes_every_word() {
    assert_eq!(fts_escape("見積 a-b"), "\"見積\" \"a-b\"");
    assert_eq!(fts_escape("say \"hi\""), "\"say\" \"\"\"hi\"\"\"");
    assert_eq!(fts_escape("   "), "");
}

#[test]
fn flag_updates_bind_the_value_then_the_ids() {
    let q = flag_update_sql(FlagColumn::Read, &[4, 9], true).unwrap();
    assert_eq!(q.sql, "UPDATE messages SET is_read = ?1 WHERE id IN (?,?)");
    assert_eq!(q.args, vec![SqlArg::Int(1), SqlArg::Int(4), SqlArg::Int(9)]);
    assert!(flag_update_sql(FlagColumn::Archived, &[], false).is_none());
}

#[test]
fn search_uses_full_text_only_for_non_blank_text() {
    let q = SearchQuery {
        text: Some("見積".to_string()),
        account_id: None,
        project_tag: Some("案件A".to_string()),
        since: None,
        unread_only: true,
        limit: 0,
    };
    let s = search_sql(&q);
    assert!(s.sql.contains("JOIN messages_fts f ON f.rowid = m.id"));
    assert!(s.sql.contains("WHERE messages_fts MATCH ? AND m.account_id IN (SELECT id FROM accounts WHERE project_tag = ?) AND m.is_read = 0"));
    assert!(s.sql.ends_with("ORDER BY m.date DESC LIMIT ?"));
    assert_eq!(
        s.args,
        vec![SqlArg::Text("\"見積\"".to_string()), SqlArg::Text("案件A".to_string()), SqlArg::Int(1)]
    );
    let blank = SearchQuery { text: Some("  ".to_string()), project_tag: None, unread_only: false, ..q };
    let s = search_sql(&blank);
    assert!(!s.sql.contains("MATCH"));
    assert!(!s.sql.contains("WHERE"));
}

#[test]
fn thread_list_defaults_to_a_page_of_two_hundred() {
    let s = list_threads_sql(&ThreadQuery::all());
    assert_eq!(s.args.last(), Some(&SqlArg::Int(0)));
    assert!(s.args.contains(&SqlArg::Int(200)));
}

#[test]
fn tasks_are_listed_by_status_and_project() {
    let q = TaskQuery { status: Some(TaskStatus::Open), project_tag: None, due_before: None, limit: 0 };
    let s = list_tasks_sql(&q);
    assert!(s.sql.contains("status = ?"));
    assert_eq!(s.args, vec![SqlArg::Text("open".to_string()), SqlArg::Int(200)]);
}

#[test]
fn task_status_names_round_trip() {
    for st in [TaskStatus::Open, TaskStatus::Done, TaskStatus::Dismissed] {
        assert_eq!(parse_task_status(task_status_str(st)), st);
    }
    assert_eq!(parse_task_status("weird"), TaskStatus::Open);
}

#[test]
fn upsert_matches_on_source_message_only() {
    assert_eq!(upsert_plan(None, Some(3)), UpsertPlan::Insert);
    assert_eq!(upsert_plan(Some(1), None), UpsertPlan::Insert);
    assert_eq!(upsert_plan(Some(1), Some(3)), UpsertPlan::Update(3));
}

#[test]
fn attachment_position_counts_from_zero() {
    assert_eq!(attachment_position(&[10, 11, 12], 12), Some(2));
    assert_eq!(attachment_position(&[10, 11, 12], 13), None);
}

#[test]
fn stored_times_and_kinds_read_back() {
    let now = Timestamp { secs: 5, nanos: 0 };
    assert_eq!(parse_ts("2025-09-01T00:00:00+00:00", now), Timestamp { secs: 1_756_684_800, nanos: 0 });
    assert_eq!(parse_ts("garbage", now), now);
    assert_eq!(synced_at_from_meta(None), None);
    assert_eq!(synced_at_from_meta(Some("x".to_string())), None);
    assert_eq!(kind_or_imap("m365"), AccountKind::M365);
    assert_eq!(kind_or_imap("pop"), AccountKind::Imap);
}

#[test]
fn integers_parse_as_std_does() {
    for s in ["0", "2", "+7", "-7", "007", "9223372036854775807", "-9223372036854775808",
              "9223372036854775808", "-9223372036854775809", "", "-", "+", "1a", " 1", "１"] {
        assert_eq!(parse_i64_text(s), s.parse::<i64>().ok(), "{s}");
    }
}

#[test]
fn schema_plan_upgrades_old_databases_and_refuses_newer_ones() {
    assert_eq!(schema_plan(Some("1"), true), Ok(Some(1)));
    assert_eq!(schema_plan(Some("2"), true), Ok(None));
    assert_eq!(schema_plan(None, true), Ok(Some(1)));
    assert_eq!(schema_plan(Some("junk"), true), Ok(Some(1)));
    assert_eq!(schema_plan(None, false), Ok(None));
    assert_eq!(schema_plan(Some("3"), true).unwrap_err(), "database schema 3 is newer than this build (2)");
}

#[test]
fn drafts_are_always_stored_as_drafts() {
    let d = NewDraft {
        account_id: 3,
        in_reply_to: None,
        to: vec![Address { name: None, email: "a@x".into() }],
        subject: "Re: x".into(),
        body: "本文".into(),
    };
    let q = insert_draft_sql(&d, "[]", "2025-09-01T00:00:00+00:00");
    assert!(q.sql.contains("'draft'"));
    assert_eq!(q.args[0], SqlArg::Int(3));
    assert_eq!(q.args[1], SqlArg::Null);
    assert_eq!(q.args.len(), 6);
}

#[test]
fn settings_count_only_values_of_the_expected_type() {
    let s = settings_from_values(
        SettingValue::Str("imap.example".into()),
        SettingValue::Num(Some(143)),
        SettingValue::Missing,
        SettingValue::Bool(true),
    );
    assert_eq!(s.host.as_deref(), Some("imap.example"));
    assert_eq!(s.port, Some(143));
    assert_eq!(s.username, None);
    assert_eq!(s.starttls, Some(true));
    let s = settings_from_values(SettingValue::Num(Some(1)), SettingValue::Num(None), SettingValue::Other, SettingValue::Str("true".into()));
    assert_eq!((s.host, s.port, s.username, s.starttls), (None, None, None, None));
}
