use meowbox::desktop::{
    begin_sync, build_integration, check_start_of_day, choose_server_path, connection_config,
    desktop_attachment_name, desktop_attachment_path, dev_build_candidates, done_error_event,
    mark_action, mcp_binary_name, new_account_record, reply_draft, sync_error_message,
    test_connection_result, thread_query_for, thread_task_positions, validate_new_account_input,
    with_reply_prefix, AppError, NewAccountInput, NewDraftInput, ReplySource, SyncRegistry,
    ThreadFilter,
};
use meowbox::domain::{AccountKind, Address, BackendError};
use meowbox::store::{synced_at_key, AttachmentRow, FlagColumn, SummaryRow, ViewCounts};
use meowbox::desktop::{attachment_dto, beside_path, config_error_to_app, desktop_sync_options, draft_to_dto, progress_event, summary_to_dto, view_counts_dto, LastSync};
use meowbox::domain::{Draft, Timestamp};
use meowbox::engine::SyncProgress;
use meowbox::imap::ConfigError;

#[test]
fn from_backend_hides_the_raw_auth_error_message() {
    let leaked = "password=hunter2 rejected";
    let err = AppError::from_backend(BackendError::Auth(leaked.to_string()));
    assert_eq!(err.code, "auth");
    assert!(!err.message.contains(leaked));
    assert!(!err.message.contains("hunter2"));
}

#[test]
fn from_backend_maps_network_errors_with_detail() {
    let err = AppError::from_backend(BackendError::Network("timed out".into()));
    assert_eq!(err.code, "network");
    assert!(err.message.contains("timed out"));
}

#[test]
fn from_backend_maps_everything_else_to_internal() {
    let err = AppError::from_backend(BackendError::Protocol("bad response".into()));
    assert_eq!(err.code, "internal");
    assert_eq!(err.message, "protocol error: bad response");
}

#[test]
fn app_error_constructors_set_their_codes() {
    assert_eq!(AppError::not_found("x").code, "not_found");
    assert_eq!(AppError::invalid_input("x").code, "invalid_input");
    assert_eq!(AppError::conflict("x").code, "conflict");
    assert_eq!(AppError::auth("x").code, "auth");
    assert_eq!(AppError::network("x").code, "network");
    let e = AppError::internal("壊れました");
    assert_eq!(e.code, "internal");
    assert_eq!(e.describe(), "internal: 壊れました");
}

#[test]
fn begin_sync_rejects_a_second_run_for_the_same_account() {
    let mut syncing = SyncRegistry::new();
    let _guard = begin_sync(&mut syncing, 1).unwrap();
    let err = begin_sync(&mut syncing, 1).unwrap_err();
    assert_eq!(err.code, "conflict");
}

#[test]
fn begin_sync_allows_a_different_account() {
    let mut syncing = SyncRegistry::new();
    let _guard1 = begin_sync(&mut syncing, 1).unwrap();
    let _guard2 = begin_sync(&mut syncing, 2).unwrap();
}

#[test]
fn dropping_the_guard_allows_the_next_run() {
    let mut syncing = SyncRegistry::new();
    let guard = begin_sync(&mut syncing, 1).unwrap();
    guard.release(&mut syncing);
    let _guard2 = begin_sync(&mut syncing, 1).unwrap();
}

#[test]
fn registry_reports_running_accounts() {
    let mut syncing = SyncRegistry::new();
    assert!(!syncing.is_running(7));
    let g = begin_sync(&mut syncing, 7).unwrap();
    assert_eq!(g.account_id(), 7);
    assert!(syncing.is_running(7));
    g.release(&mut syncing);
    assert!(!syncing.is_running(7));
}

#[test]
fn synced_at_key_has_the_shape_the_mcp_server_reads() {
    assert_eq!(synced_at_key(42), "sync:42:finished_at");
}

#[test]
fn sync_error_message_never_repeats_the_auth_reply() {
    let auth = BackendError::Auth("secret".into());
    assert!(!sync_error_message(Some(&auth)).contains("secret"));
    let net = BackendError::Network("dns".into());
    assert_eq!(sync_error_message(Some(&net)), "接続できませんでした: dns");
    assert_eq!(sync_error_message(None), "同期に失敗しました");
    let proto = BackendError::Protocol("x".into());
    assert_eq!(sync_error_message(Some(&proto)), "同期に失敗しました");
}

#[test]
fn done_error_event_carries_only_the_message() {
    let e = done_error_event(3, "失敗");
    assert!(e.done);
    assert_eq!(e.folder, "");
    assert_eq!(e.error.as_deref(), Some("失敗"));
    assert_eq!((e.fetched, e.total, e.inserted, e.errors), (0, 0, 0, 0));
}

fn valid_input() -> NewAccountInput {
    NewAccountInput {
        name: "client-a".into(),
        kind: AccountKind::Imap,
        email: "client-a@mail.example".into(),
        project_tag: Some("案件A".into()),
        host: "imap.mail.example".into(),
        port: 993,
        username: "client-a@mail.example".into(),
        starttls: false,
    }
}

#[test]
fn account_input_rejects_gmail_and_m365() {
    let mut i = valid_input();
    i.kind = AccountKind::Gmail;
    let e = validate_new_account_input(&i).unwrap_err();
    assert_eq!(e.code, "invalid_input");
    i.kind = AccountKind::M365;
    assert!(validate_new_account_input(&i).is_err());
}

#[test]
fn account_input_rejects_empty_fields() {
    let mut i = valid_input();
    i.host = "  ".into();
    assert_eq!(validate_new_account_input(&i).unwrap_err().message, "ホスト名を入力してください");
    let mut i = valid_input();
    i.port = 0;
    assert_eq!(validate_new_account_input(&i).unwrap_err().message, "ポート番号を入力してください");
    let mut i = valid_input();
    i.name = "\t".into();
    assert_eq!(validate_new_account_input(&i).unwrap_err().message, "アカウント名を入力してください");
    assert!(validate_new_account_input(&valid_input()).is_ok());
}

#[test]
fn account_record_rejects_a_duplicate_email() {
    let existing = vec!["client-a@mail.example".to_string()];
    let mut i = valid_input();
    i.email = "  client-a@mail.example ".into();
    let e = new_account_record(&i, &existing).unwrap_err();
    assert_eq!(e.code, "conflict");
}

#[test]
fn account_record_keeps_trimmed_settings_without_password() {
    let mut i = valid_input();
    i.host = " imap.mail.example ".into();
    let r = new_account_record(&i, &[]).unwrap();
    assert_eq!(r.settings.host.as_deref(), Some("imap.mail.example"));
    assert_eq!(r.settings.port, Some(993));
    assert_eq!(r.settings.username.as_deref(), Some("client-a@mail.example"));
    assert_eq!(r.settings.starttls, Some(false));
    assert_eq!(r.project_tag.as_deref(), Some("案件A"));
}

#[test]
fn connection_test_uses_the_trimmed_input() {
    let mut i = valid_input();
    i.username = " me ".into();
    let c = connection_config(&i).unwrap();
    assert_eq!(c.account_id, 0);
    assert_eq!(c.username, "me");
    let names: Vec<String> = (0..30).map(|k| format!("F{k}")).collect();
    let r = test_connection_result(names);
    assert_eq!(r.folders.len(), 20);
    assert_eq!(r.folders[19], "F19");
}

#[test]
fn with_reply_prefix_adds_re_once() {
    assert_eq!(with_reply_prefix("見積"), "Re: 見積");
    assert_eq!(with_reply_prefix("RE: 見積"), "RE: 見積");
    assert_eq!(with_reply_prefix("  re:x"), "  re:x");
    assert_eq!(with_reply_prefix("Fwd: x"), "Re: Fwd: x");
    let once = with_reply_prefix("hello");
    assert_eq!(with_reply_prefix(&once), once);
}

#[test]
fn reply_draft_answers_the_sender() {
    let src = ReplySource {
        id: 9,
        account_id: 2,
        from: Address { name: Some("佐藤".into()), email: "sato@mail.example".into() },
        subject: "見積".into(),
    };
    let d = reply_draft(&NewDraftInput { in_reply_to: 9, body: "了解です".into() }, Some(&src)).unwrap();
    assert_eq!(d.account_id, 2);
    assert_eq!(d.in_reply_to, Some(9));
    assert_eq!(d.to.len(), 1);
    assert_eq!(d.to[0].email, "sato@mail.example");
    assert_eq!(d.subject, "Re: 見積");
    let e = reply_draft(&NewDraftInput { in_reply_to: 9, body: " \n".into() }, Some(&src)).unwrap_err();
    assert_eq!(e.message, "本文が空です");
    let e = reply_draft(&NewDraftInput { in_reply_to: 9, body: "x".into() }, None).unwrap_err();
    assert_eq!(e.code, "not_found");
}

#[test]
fn mcp_binary_has_exe_only_on_windows() {
    assert_eq!(mcp_binary_name(true), "meowbox-mcp.exe");
    assert_eq!(mcp_binary_name(false), "meowbox-mcp");
}

#[test]
fn dev_build_candidates_come_from_the_first_target_dir() {
    let ancestors = vec![
        ("/repo/target/debug".to_string(), false),
        ("/repo".to_string(), true),
        ("/".to_string(), true),
    ];
    let c = dev_build_candidates(&ancestors, false);
    assert_eq!(c, vec!["/repo/target/release/meowbox-mcp", "/repo/target/debug/meowbox-mcp"]);
    assert!(dev_build_candidates(&[("/x".to_string(), false)], false).is_empty());
}

#[test]
fn server_path_prefers_the_installed_binary() {
    let cands = vec![("/r/a".to_string(), false), ("/r/b".to_string(), true)];
    assert_eq!(choose_server_path("/app/meowbox-mcp", true, &cands), ("/app/meowbox-mcp".to_string(), true));
    assert_eq!(choose_server_path("/app/meowbox-mcp", false, &cands), ("/r/b".to_string(), true));
    assert_eq!(choose_server_path("/app/meowbox-mcp", false, &[]), ("/app/meowbox-mcp".to_string(), false));
}

#[test]
fn build_integration_escapes_the_path_as_json() {
    let i = build_integration("C:\\Program Files\\meowbox-mcp.exe", true, "assistant");
    assert!(i.server_exists);
    assert_eq!(i.server_path, "C:\\Program Files\\meowbox-mcp.exe");
    let v: serde_json::Value = serde_json::from_str(&i.desktop_config_json).unwrap();
    assert_eq!(v["mcpServers"]["meowbox"]["command"], "C:\\Program Files\\meowbox-mcp.exe");
    assert_eq!(v["mcpServers"]["meowbox"]["args"], serde_json::Value::Array(Vec::new()));
    assert!(i.desktop_config_json.contains('\n'));
    assert_eq!(i.claude_code_command, "assistant mcp add meowbox -- \"C:\\Program Files\\meowbox-mcp.exe\"");
}

#[test]
fn desktop_config_json_escapes_windows_paths() {
    let integration = build_integration(r"C:\x\meowbox-mcp.exe", true, "assistant");
    let value: serde_json::Value =
        serde_json::from_str(&integration.desktop_config_json).expect("valid json");
    let command = value["mcpServers"]["meowbox"]["command"].as_str().expect("command is a string");
    assert_eq!(command, r"C:\x\meowbox-mcp.exe");
}

#[test]
fn claude_code_command_quotes_the_path() {
    let integration = build_integration(r"C:\Program Files\Meowbox\meowbox-mcp.exe", true, "assistant");
    assert!(integration.claude_code_command.contains(r#""C:\Program Files\Meowbox\meowbox-mcp.exe""#));
}

#[test]
fn thread_filter_defaults_to_two_hundred_from_the_start() {
    let q = thread_query_for(&ThreadFilter::all());
    assert_eq!(q.limit, 200);
    assert_eq!(q.offset, 0);
    let mut f = ThreadFilter::all();
    f.limit = Some(5);
    f.offset = Some(10);
    f.unread_only = true;
    let q = thread_query_for(&f);
    assert_eq!((q.limit, q.offset, q.unread_only), (5, 10, true));
}

#[test]
fn mark_actions_map_to_columns() {
    assert_eq!(mark_action("read").unwrap(), (FlagColumn::Read, true));
    assert_eq!(mark_action("unflag").unwrap(), (FlagColumn::Flagged, false));
    assert_eq!(mark_action("archive").unwrap(), (FlagColumn::Archived, true));
    let e = mark_action("delete").unwrap_err();
    assert_eq!(e.code, "invalid_input");
    assert_eq!(e.message, "不明な操作です: delete");
}

#[test]
fn start_of_day_must_be_rfc3339() {
    assert!(check_start_of_day("2025-09-01T00:00:00+09:00").is_ok());
    assert_eq!(check_start_of_day("yesterday").unwrap_err().code, "invalid_input");
}

#[test]
fn thread_tasks_are_those_from_its_messages() {
    let sources = vec![Some(1), None, Some(5), Some(2)];
    assert_eq!(thread_task_positions(&sources, &[2, 1]), vec![0, 3]);
}

#[test]
fn desktop_attachment_names_fall_back_when_useless() {
    assert_eq!(desktop_attachment_name(7, "a/b.txt"), "a_b.txt");
    assert_eq!(desktop_attachment_name(7, ".."), "attachment-7");
    assert_eq!(desktop_attachment_name(7, ""), "attachment-7");
    assert_eq!(desktop_attachment_path("/d/attachments", 3, 7, "x.pdf"), "/d/attachments/3/x.pdf");
}

#[test]
fn config_errors_become_invalid_input() {
    let e = config_error_to_app(&ConfigError::NotImap { kind: "gmail" });
    assert_eq!(e.code, "invalid_input");
    assert_eq!(e.message, "Gmail / Microsoft 365 はまだ対応していません");
    let e = config_error_to_app(&ConfigError::NoHost);
    assert_eq!(e.code, "invalid_input");
    assert_eq!(e.message, "サーバー（ホスト）が設定されていません");
}

#[test]
fn progress_events_copy_the_counts() {
    let p = SyncProgress { folder: "INBOX".to_string(), fetched: 3, total: 5, inserted: 2, errors: 1, done: false };
    let ev = progress_event(7, &p);
    assert_eq!(ev.account_id, 7);
    assert_eq!(ev.folder, "INBOX");
    assert_eq!((ev.fetched, ev.total, ev.inserted, ev.errors), (3, 5, 2, 1));
    assert!(!ev.done);
    assert_eq!(ev.error, None);
}

#[test]
fn desktop_runs_cover_the_inbox_of_the_last_ninety_days() {
    let o = desktop_sync_options("/data/mail", 1_756_684_800);
    assert_eq!(o.only_folder.as_deref(), Some("INBOX"));
    assert_eq!(o.since, Some(1_756_684_800 - 90 * 86_400));
    assert_eq!(o.data_dir, "/data/mail");
}

#[test]
fn last_sync_records_success_and_failure() {
    let ok = LastSync::success("2025-09-01T00:00:00+00:00".to_string(), 4, 1);
    assert_eq!((ok.inserted, ok.errors), (4, 1));
    assert_eq!(ok.error, None);
    let bad = LastSync::failure("2025-09-01T00:00:00+00:00".to_string(), "network: down".to_string());
    assert_eq!((bad.inserted, bad.errors), (0, 0));
    assert_eq!(bad.error.as_deref(), Some("network: down"));
    assert_eq!(bad.finished_at, "2025-09-01T00:00:00+00:00");
}

#[test]
fn draft_dto_formats_the_creation_time() {
    let d = Draft {
        id: 3,
        account_id: 1,
        in_reply_to: Some(9),
        to: vec![Address { name: None, email: "a@example.com".to_string() }],
        subject: "Re: hi".to_string(),
        body: "ok".to_string(),
        status: "draft".to_string(),
        created_at: Timestamp { secs: 1_756_684_800, nanos: 0 },
    };
    let dto = draft_to_dto(d);
    assert_eq!(dto.id, 3);
    assert_eq!(dto.in_reply_to, Some(9));
    assert_eq!(dto.to.len(), 1);
    assert_eq!(dto.to[0].email, "a@example.com");
    assert_eq!(dto.status, "draft");
    assert_eq!(dto.created_at, "2025-09-01T00:00:00+00:00");
}

#[test]
fn beside_path_joins_the_binary_name() {
    assert_eq!(beside_path(Some("/opt/meowbox"), false), "/opt/meowbox/meowbox-mcp");
    assert_eq!(beside_path(None, true), "meowbox-mcp.exe");
}

#[test]
fn summary_and_attachment_rows_become_dtos() {
    let row = SummaryRow {
        id: 1,
        target: "thread:k".to_string(),
        model: "m".to_string(),
        summary: "s".to_string(),
        created_at: Timestamp { secs: 1_756_684_800, nanos: 0 },
    };
    let dto = summary_to_dto(&row);
    assert_eq!(dto.target, "thread:k");
    assert_eq!(dto.created_at, "2025-09-01T00:00:00+00:00");
    let a = AttachmentRow {
        id: 2,
        message_id: 5,
        filename: "a.pdf".to_string(),
        mime: "application/pdf".to_string(),
        size: 10,
        path: None,
    };
    let dto = attachment_dto(&a);
    assert_eq!((dto.id, dto.filename.as_str(), dto.mime.as_str(), dto.size), (2, "a.pdf", "application/pdf", 10));
}

#[test]
fn view_counts_are_passed_through() {
    let c = view_counts_dto(ViewCounts { all: 5, unread: 2, flagged: 1, tasks: 3, drafts: 4 });
    assert_eq!((c.all, c.unread, c.flagged, c.tasks, c.drafts), (5, 2, 1, 3, 4));
}
