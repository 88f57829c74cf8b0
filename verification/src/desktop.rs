//! The decisions behind the desktop commands: the errors the UI sees, the
//! guard against two runs of one account's synchronisation, the checks on a
//! new account, reply drafts, the MCP registration hints, the thread filter
//! and the marking actions. Errors never carry secrets: an authentication
//! failure is reported with a fixed text, never with the server's reply.

use vstd::prelude::*;
use std::collections::HashSet;
use crate::text::{chars_of, string_of, push_all, push_text, trim, trim_chars, trim_start, trim_start_chars, lower, to_lower, chars_eq, dec_int, dec_i64};
use crate::domain::{AccountKind, Address, AccountSettings, BackendError, Draft, Timestamp, backend_error_text};
use crate::engine::{SyncProgress, SyncOptions};
use crate::imap::{ImapConfig, ConfigError};
use crate::store::{NewDraft, ThreadQuery, FlagColumn, SummaryRow, AttachmentRow, ViewCounts};
use crate::time::{rfc3339_parse, rfc3339_text, parse_rfc3339_utc, timestamp_in_range, to_rfc3339};
use crate::grouping::copy_tag;
use crate::parse::strings_view;
use crate::mcp::{copy_address, addr_view, addrs_view, cap_results, fallback_attachment_name, fallback_name_text, useless_name};
use crate::fsname::{sanitize_path_segment, sanitized_segment};
use crate::paths::{path_join, join_path, opt_str_view};
use crate::json::{JsonValue, JsonView, json_view, json_pretty, pretty_json, lemma_arr_view, lemma_obj_view};

verus! {

broadcast use vstd::std_specs::hash::group_hash_axioms;

// ---- errors ----------------------------------------------------------------------------

/// An error for the UI: a code to branch on and a message for people.
#[derive(Debug, Clone)]
pub struct AppError {
    /// `not_found`, `invalid_input`, `conflict`, `auth`, `network` or `internal`.
    pub code: String,
    /// A Japanese message for the user.
    pub message: String,
}

impl AppError {
    fn with_code(code: &str, message: &str) -> (r: AppError)
        ensures
            r.code@ == code@,
            r.message@ == message@,
    {
        AppError { code: String::from_str(code), message: String::from_str(message) }
    }

    /// Something asked for does not exist.
    pub fn not_found(message: &str) -> (r: AppError)
        ensures
            r.code@ == "not_found"@,
            r.message@ == message@,
    {
        Self::with_code("not_found", message)
    }

    /// The input is not acceptable.
    pub fn invalid_input(message: &str) -> (r: AppError)
        ensures
            r.code@ == "invalid_input"@,
            r.message@ == message@,
    {
        Self::with_code("invalid_input", message)
    }

    /// The request clashes with the current state.
    pub fn conflict(message: &str) -> (r: AppError)
        ensures
            r.code@ == "conflict"@,
            r.message@ == message@,
    {
        Self::with_code("conflict", message)
    }

    /// Authentication failed.
    pub fn auth(message: &str) -> (r: AppError)
        ensures
            r.code@ == "auth"@,
            r.message@ == message@,
    {
        Self::with_code("auth", message)
    }

    /// The server could not be reached.
    pub fn network(message: &str) -> (r: AppError)
        ensures
            r.code@ == "network"@,
            r.message@ == message@,
    {
        Self::with_code("network", message)
    }

    /// Anything else.
    pub fn internal(message: &str) -> (r: AppError)
        ensures
            r.code@ == "internal"@,
            r.message@ == message@,
    {
        Self::with_code("internal", message)
    }

    /// The error for a backend failure. An authentication failure gets a
    /// fixed message, so that nothing the server said (which may echo
    /// credentials) reaches the UI; a network failure keeps its detail;
    /// anything else is internal.
    pub fn from_backend(e: BackendError) -> (r: AppError)
        ensures
            match e {
                BackendError::Auth(_) => r.code@ == "auth"@ && r.message@ == auth_failed_text(),
                BackendError::Network(m) => r.code@ == "network"@ && r.message@ == network_failed_text(m@),
                BackendError::Protocol(_) => r.code@ == "internal"@ && r.message@ == backend_error_text(e),
            },
    {
        match e {
            BackendError::Auth(_) => AppError::auth("認証に失敗しました。ユーザー名とパスワードを確認してください。"),
            BackendError::Network(m) => {
                let t = network_failed(m.as_str());
                AppError { code: String::from_str("network"), message: t }
            },
            BackendError::Protocol(_) => {
                let t = e.message();
                AppError { code: String::from_str("internal"), message: t }
            },
        }
    }

    /// `<code>: <message>`.
    pub fn describe(&self) -> (r: String)
        ensures
            r@ == self.code@ + ": "@ + self.message@,
    {
        let mut out: Vec<char> = Vec::new();
        push_text(&mut out, self.code.as_str());
        push_text(&mut out, ": ");
        push_text(&mut out, self.message.as_str());
        string_of(out.as_slice())
    }
}

/// The fixed message of an authentication failure.
pub open spec fn auth_failed_text() -> Seq<char> {
    "認証に失敗しました。ユーザー名とパスワードを確認してください。"@
}

/// The message of a network failure, with its detail.
pub open spec fn network_failed_text(detail: Seq<char>) -> Seq<char> {
    "接続できませんでした: "@ + detail
}

fn network_failed(detail: &str) -> (r: String)
    ensures
        r@ == network_failed_text(detail@),
{
    let mut out: Vec<char> = Vec::new();
    push_text(&mut out, "接続できませんでした: ");
    push_text(&mut out, detail);
    string_of(out.as_slice())
}

/// The message of a failed synchronisation. Only a backend error that can
/// be recognised says more than that the synchronisation failed, and an
/// authentication failure never repeats what the server said.
pub open spec fn sync_error_text(e: Option<BackendError>) -> Seq<char> {
    match e {
        Some(BackendError::Auth(_)) => auth_failed_text(),
        Some(BackendError::Network(m)) => network_failed_text(m@),
        _ => "同期に失敗しました"@,
    }
}

/// The message of a failed synchronisation; `e` is the backend error behind
/// the failure, when there is one.
pub fn sync_error_message(e: Option<&BackendError>) -> (r: String)
    ensures
        r@ == sync_error_text(match e {
            Some(b) => Some(*b),
            None => None,
        }),
{
    match e {
        Some(BackendError::Auth(_)) => String::from_str("認証に失敗しました。ユーザー名とパスワードを確認してください。"),
        Some(BackendError::Network(m)) => network_failed(m.as_str()),
        _ => String::from_str("同期に失敗しました"),
    }
}

// ---- one synchronisation per account -----------------------------------------------------

/// The accounts whose synchronisation is running.
pub struct SyncRegistry {
    running: HashSet<i64>,
}

/// A running synchronisation of one account; hand it back with
/// [`SyncGuard::release`] when the run ends, however it ends.
#[derive(Debug)]
pub struct SyncGuard {
    account_id: i64,
}

impl SyncRegistry {
    /// The accounts whose synchronisation is running.
    pub closed spec fn running_set(&self) -> Set<i64> {
        self.running@
    }

    /// No synchronisation is running.
    pub fn new() -> (r: SyncRegistry)
        ensures
            r.running_set() == Set::<i64>::empty(),
    {
        SyncRegistry { running: HashSet::new() }
    }

    /// Whether the synchronisation of an account is running.
    pub fn is_running(&self, account_id: i64) -> (r: bool)
        ensures
            r == self.running_set().contains(account_id),
    {
        self.running.contains(&account_id)
    }
}

impl SyncGuard {
    /// The account of this run.
    pub closed spec fn account(&self) -> i64 {
        self.account_id
    }

    /// The account of this run.
    pub fn account_id(&self) -> (r: i64)
        ensures
            r == self.account(),
    {
        self.account_id
    }

    /// Ends the run: the account may be synchronised again.
    pub fn release(self, syncing: &mut SyncRegistry)
        ensures
            final(syncing).running_set() == old(syncing).running_set().remove(self.account()),
    {
        syncing.running.remove(&self.account_id);
    }
}

/// The message when an account's synchronisation is already running.
pub open spec fn already_syncing_text() -> Seq<char> {
    "このアカウントは同期中です"@
}

/// Starts the synchronisation of an account, unless one is running: then
/// the request is refused with `conflict` and nothing changes.
pub fn begin_sync(syncing: &mut SyncRegistry, account_id: i64) -> (r: Result<SyncGuard, AppError>)
    ensures
        old(syncing).running_set().contains(account_id) ==> {
            &&& r matches Err(e) && e.code@ == "conflict"@ && e.message@ == already_syncing_text()
            &&& final(syncing).running_set() == old(syncing).running_set()
        },
        !old(syncing).running_set().contains(account_id) ==> {
            &&& r matches Ok(g) && g.account() == account_id
            &&& final(syncing).running_set() == old(syncing).running_set().insert(account_id)
        },
{
    if !syncing.running.insert(account_id) {
        return Err(AppError::conflict("このアカウントは同期中です"));
    }
    Ok(SyncGuard { account_id })
}

/// Ending a run that started makes the registry what it was before the
/// start, so the next run of the account is accepted; and while the run
/// lasts, a second start for the same account is refused.
pub proof fn law_release_undoes_begin(before: Set<i64>, account_id: i64)
    requires
        !before.contains(account_id),
    ensures
        before.insert(account_id).contains(account_id),
        before.insert(account_id).remove(account_id) == before,
{
    assert(before.insert(account_id).remove(account_id) =~= before);
}

// ---- accounts --------------------------------------------------------------------------

/// The settings of a new account from the wizard; the password goes
/// elsewhere.
#[derive(Debug, Clone)]
pub struct NewAccountInput {
    pub name: String,
    pub kind: AccountKind,
    pub email: String,
    pub project_tag: Option<String>,
    pub host: String,
    pub port: u16,
    pub username: String,
    pub starttls: bool,
}

/// The first problem with a new account, if any: only IMAP accounts, and
/// name, address, host, user name and port must be given.
pub open spec fn account_input_problem(i: NewAccountInput) -> Option<Seq<char>> {
    if i.kind != AccountKind::Imap {
        Some("Gmail / Microsoft 365 はまだ対応していません"@)
    } else if trim(i.name@).len() == 0 {
        Some("アカウント名を入力してください"@)
    } else if trim(i.email@).len() == 0 {
        Some("メールアドレスを入力してください"@)
    } else if trim(i.host@).len() == 0 {
        Some("ホスト名を入力してください"@)
    } else if trim(i.username@).len() == 0 {
        Some("ユーザー名を入力してください"@)
    } else if i.port == 0 {
        Some("ポート番号を入力してください"@)
    } else {
        None
    }
}

fn blank(s: &str) -> (r: bool)
    ensures
        r == (trim(s@).len() == 0),
{
    let c = chars_of(s);
    trim_chars(c.as_slice()).len() == 0
}

/// Checks a new account before it is stored or tried.
pub fn validate_new_account_input(input: &NewAccountInput) -> (r: Result<(), AppError>)
    ensures
        match account_input_problem(*input) {
            Some(m) => r matches Err(e) && e.code@ == "invalid_input"@ && e.message@ == m,
            None => r is Ok,
        },
{
    if input.kind != AccountKind::Imap {
        return Err(AppError::invalid_input("Gmail / Microsoft 365 はまだ対応していません"));
    }
    if blank(input.name.as_str()) {
        return Err(AppError::invalid_input("アカウント名を入力してください"));
    }
    if blank(input.email.as_str()) {
        return Err(AppError::invalid_input("メールアドレスを入力してください"));
    }
    if blank(input.host.as_str()) {
        return Err(AppError::invalid_input("ホスト名を入力してください"));
    }
    if blank(input.username.as_str()) {
        return Err(AppError::invalid_input("ユーザー名を入力してください"));
    }
    if input.port == 0 {
        return Err(AppError::invalid_input("ポート番号を入力してください"));
    }
    Ok(())
}

fn trimmed(s: &str) -> (r: String)
    ensures
        r@ == trim(s@),
{
    let c = chars_of(s);
    let t = trim_chars(c.as_slice());
    string_of(t.as_slice())
}

/// An account ready to be stored: trimmed names and settings without any
/// secret.
#[derive(Debug, Clone)]
pub struct NewAccountRecord {
    pub name: String,
    pub kind: AccountKind,
    pub email: String,
    pub project_tag: Option<String>,
    pub settings: AccountSettings,
}

/// The message when the address is registered already.
pub open spec fn duplicate_email_text() -> Seq<char> {
    "このメールアドレスはすでに登録されています"@
}

/// The account to store for the wizard's input: checked, the address not
/// registered yet (`existing` holds the registered addresses), names and
/// settings trimmed; the project tag is kept as given.
pub fn new_account_record(input: &NewAccountInput, existing: &[String]) -> (r: Result<NewAccountRecord, AppError>)
    ensures
        match account_input_problem(*input) {
            Some(m) => r matches Err(e) && e.code@ == "invalid_input"@ && e.message@ == m,
            None => if strings_view(existing@).contains(trim(input.email@)) {
                r matches Err(e) && e.code@ == "conflict"@ && e.message@ == duplicate_email_text()
            } else {
                r matches Ok(a) && {
                    &&& a.name@ == trim(input.name@)
                    &&& a.kind == input.kind
                    &&& a.email@ == trim(input.email@)
                    &&& opt_str_view(a.project_tag) == opt_str_view(input.project_tag)
                    &&& a.settings.host matches Some(h) && h@ == trim(input.host@)
                    &&& a.settings.port == Some(input.port as u64)
                    &&& a.settings.username matches Some(u) && u@ == trim(input.username@)
                    &&& a.settings.starttls == Some(input.starttls)
                }
            },
        },
{
    match validate_new_account_input(input) {
        Ok(()) => {},
        Err(e) => {
            return Err(e);
        },
    }
    assert(account_input_problem(*input) is None);
    let email = trimmed(input.email.as_str());
    let ec = chars_of(email.as_str());
    let n = existing.len();
    let mut i: usize = 0;
    while i < n
        invariant
            n == existing@.len(),
            i <= n,
            ec@ == trim(input.email@),
            account_input_problem(*input) is None,
            forall|k: int| 0 <= k < i ==> (#[trigger] existing@[k])@ != ec@,
        decreases n - i,
    {
        let x = chars_of(existing[i].as_str());
        if chars_eq(x.as_slice(), ec.as_slice()) {
            assert(strings_view(existing@)[i as int] == ec@);
            assert(strings_view(existing@).contains(trim(input.email@)));
            return Err(AppError::conflict("このメールアドレスはすでに登録されています"));
        }
        i += 1;
    }
    proof {
        if strings_view(existing@).contains(ec@) {
            let k = choose|k: int| 0 <= k < n && strings_view(existing@)[k] == ec@;
            assert(existing@[k]@ == ec@);
        }
    }
    Ok(NewAccountRecord {
        name: trimmed(input.name.as_str()),
        kind: input.kind,
        email,
        project_tag: copy_tag(&input.project_tag),
        settings: AccountSettings {
            host: Some(trimmed(input.host.as_str())),
            port: Some(input.port as u64),
            username: Some(trimmed(input.username.as_str())),
            starttls: Some(input.starttls),
        },
    })
}

/// The connection a connection test tries: the checked input, trimmed, for
/// no stored account yet.
pub fn connection_config(input: &NewAccountInput) -> (r: Result<ImapConfig, AppError>)
    ensures
        match account_input_problem(*input) {
            Some(m) => r matches Err(e) && e.code@ == "invalid_input"@ && e.message@ == m,
            None => r matches Ok(c) && c.account_id == 0 && c.host@ == trim(input.host@) && c.port
                == input.port && c.username@ == trim(input.username@) && c.starttls == input.starttls,
        },
{
    match validate_new_account_input(input) {
        Ok(()) => {},
        Err(e) => {
            return Err(e);
        },
    }
    Ok(ImapConfig {
        account_id: 0,
        host: trimmed(input.host.as_str()),
        port: input.port,
        username: trimmed(input.username.as_str()),
        starttls: input.starttls,
    })
}

/// What a connection test shows: the folder names it saw.
#[derive(Debug, Clone)]
pub struct TestConnectionResult {
    /// At most the first 20.
    pub folders: Vec<String>,
}

/// The result of a connection test: the first 20 folder names, in the
/// server's order.
pub fn test_connection_result(folders: Vec<String>) -> (r: TestConnectionResult)
    ensures
        r.folders@ == (if folders@.len() > 20 {
            folders@.take(20)
        } else {
            folders@
        }),
{
    let (v, _) = cap_results(folders, 20);
    TestConnectionResult { folders: v }
}

/// The error the UI sees for an account that cannot be synchronised.
pub fn config_error_to_app(e: &ConfigError) -> (r: AppError)
    ensures
        r.code@ == "invalid_input"@,
        r.message@ == (match *e {
            ConfigError::NotImap { .. } => "Gmail / Microsoft 365 はまだ対応していません"@,
            ConfigError::NoHost => "サーバー（ホスト）が設定されていません"@,
        }),
{
    match e {
        ConfigError::NotImap { .. } => AppError::invalid_input("Gmail / Microsoft 365 はまだ対応していません"),
        ConfigError::NoHost => AppError::invalid_input("サーバー（ホスト）が設定されていません"),
    }
}

// ---- synchronisation runs ----------------------------------------------------------------

/// Progress of an account's synchronisation for the UI: counts and the
/// folder name only, never contents, addresses or passwords.
#[derive(Debug, Clone)]
pub struct SyncProgressEvent {
    pub account_id: i64,
    /// The folder being processed; empty in the final event.
    pub folder: String,
    pub fetched: usize,
    pub total: usize,
    pub inserted: usize,
    pub errors: usize,
    /// The run is over.
    pub done: bool,
    /// Set only when the run failed, together with `done`.
    pub error: Option<String>,
}

/// The event name the UI listens to.
pub const SYNC_PROGRESS_EVENT: &'static str = "sync://progress";

/// The event for a progress report of the engine.
pub fn progress_event(account_id: i64, p: &SyncProgress) -> (r: SyncProgressEvent)
    ensures
        r.account_id == account_id,
        r.folder@ == p.folder@,
        r.fetched == p.fetched && r.total == p.total && r.inserted == p.inserted && r.errors == p.errors,
        r.done == p.done,
        r.error is None,
{
    SyncProgressEvent {
        account_id,
        folder: p.folder.clone(),
        fetched: p.fetched,
        total: p.total,
        inserted: p.inserted,
        errors: p.errors,
        done: p.done,
        error: None,
    }
}

/// The one final event of a failed run.
pub fn done_error_event(account_id: i64, message: &str) -> (r: SyncProgressEvent)
    ensures
        r.account_id == account_id,
        r.folder@.len() == 0,
        r.fetched == 0 && r.total == 0 && r.inserted == 0 && r.errors == 0,
        r.done,
        r.error matches Some(m) && m@ == message@,
{
    SyncProgressEvent {
        account_id,
        folder: String::new(),
        fetched: 0,
        total: 0,
        inserted: 0,
        errors: 0,
        done: true,
        error: Some(String::from_str(message)),
    }
}

/// How far back the desktop synchronises: 90 days.
pub const DESKTOP_SYNC_DAYS: i64 = 90;

/// The options of a desktop run: the inbox only, the last 90 days before
/// `now_secs`, raw messages under `mail_dir`.
pub fn desktop_sync_options(mail_dir: &str, now_secs: i64) -> (r: SyncOptions)
    requires
        now_secs >= i64::MIN + 90 * 86400,
    ensures
        r.only_folder matches Some(f) && f@ == "INBOX"@,
        r.since matches Some(s) && s == now_secs - 90 * 86400,
        r.data_dir@ == mail_dir@,
{
    SyncOptions {
        only_folder: Some(String::from_str("INBOX")),
        since: Some(now_secs - DESKTOP_SYNC_DAYS * 86400),
        data_dir: String::from_str(mail_dir),
    }
}

/// The outcome of an account's last synchronisation, for the sidebar.
#[derive(Debug, Clone)]
pub struct LastSync {
    /// RFC 3339.
    pub finished_at: String,
    pub inserted: usize,
    pub errors: usize,
    /// Set when the run failed.
    pub error: Option<String>,
}

impl LastSync {
    /// A run that finished.
    pub fn success(finished_at: String, inserted: usize, errors: usize) -> (r: LastSync)
        ensures
            r.finished_at@ == finished_at@ && r.inserted == inserted && r.errors == errors && r.error is None,
    {
        LastSync { finished_at, inserted, errors, error: None }
    }

    /// A run that failed: no counts, the message.
    pub fn failure(finished_at: String, message: String) -> (r: LastSync)
        ensures
            r.finished_at@ == finished_at@ && r.inserted == 0 && r.errors == 0,
            r.error matches Some(m) && m@ == message@,
    {
        LastSync { finished_at, inserted: 0, errors: 0, error: Some(message) }
    }
}

// ---- drafts ------------------------------------------------------------------------------

/// A subject starts with `re:`, in any case, after leading whitespace.
pub open spec fn has_reply_prefix(subject: Seq<char>) -> bool {
    let t = trim_start(subject);
    t.len() >= 3 && lower(t[0]) == 'r' && lower(t[1]) == 'e' && t[2] == ':'
}

/// The subject of a reply.
pub open spec fn reply_subject(subject: Seq<char>) -> Seq<char> {
    if has_reply_prefix(subject) {
        subject
    } else {
        "Re: "@ + subject
    }
}

/// The subject with `Re: ` in front, unless it starts with `re:` already
/// (in any case, after leading whitespace). Other prefixes are left alone.
pub fn with_reply_prefix(subject: &str) -> (r: String)
    ensures
        r@ == reply_subject(subject@),
{
    let c = chars_of(subject);
    let t = trim_start_chars(c.as_slice());
    let already = t.len() >= 3 && to_lower(t[0]) == 'r' && to_lower(t[1]) == 'e' && t[2] == ':';
    if already {
        String::from_str(subject)
    } else {
        let mut out: Vec<char> = Vec::new();
        push_text(&mut out, "Re: ");
        push_all(&mut out, c.as_slice());
        string_of(out.as_slice())
    }
}

/// Adding the reply prefix twice is adding it once: a reply to a reply
/// keeps a single `Re: `.
pub proof fn law_reply_prefix_once(subject: Seq<char>)
    ensures
        reply_subject(reply_subject(subject)) == reply_subject(subject),
{
    reveal_strlit("Re: ");
    if !has_reply_prefix(subject) {
        let r = "Re: "@ + subject;
        assert(r[0] == 'R' && r[1] == 'e' && r[2] == ':');
        assert(crate::text::ws_end(r, 0) == 0);
        assert(trim_start(r) =~= r);
        assert(has_reply_prefix(r));
    }
}

/// A reply draft from the UI: the message it answers and its body.
#[derive(Debug, Clone)]
pub struct NewDraftInput {
    pub in_reply_to: i64,
    pub body: String,
}

/// The message a reply answers.
#[derive(Debug, Clone)]
pub struct ReplySource {
    pub id: i64,
    pub account_id: i64,
    pub from: Address,
    pub subject: String,
}

/// The draft of a reply: a non-blank body, sent (once approved) from the
/// account of the answered message to its sender, with the reply subject.
/// `source` is the answered message if it exists.
pub fn reply_draft(input: &NewDraftInput, source: Option<&ReplySource>) -> (r: Result<NewDraft, AppError>)
    ensures
        trim(input.body@).len() == 0 ==> (r matches Err(e) && e.code@ == "invalid_input"@ && e.message@ == "本文が空です"@),
        trim(input.body@).len() > 0 && source is None ==> (r matches Err(e) && e.code@ == "not_found"@
            && e.message@ == "返信元のメールが見つかりません"@),
        trim(input.body@).len() > 0 && source is Some ==> (r matches Ok(d) && {
            let s = source->0;
            &&& d.account_id == s.account_id
            &&& d.in_reply_to == Some(s.id)
            &&& addrs_view(d.to@) == seq![addr_view(s.from)]
            &&& d.subject@ == reply_subject(s.subject@)
            &&& d.body@ == input.body@
        }),
{
    if blank(input.body.as_str()) {
        return Err(AppError::invalid_input("本文が空です"));
    }
    match source {
        None => Err(AppError::not_found("返信元のメールが見つかりません")),
        Some(s) => {
            let to = vec![copy_address(&s.from)];
            assert(addrs_view(to@) =~= seq![addr_view(s.from)]);
            Ok(NewDraft {
                account_id: s.account_id,
                in_reply_to: Some(s.id),
                to,
                subject: with_reply_prefix(s.subject.as_str()),
                body: input.body.clone(),
            })
        },
    }
}

/// A draft as the UI shows it.
#[derive(Debug, Clone)]
pub struct DraftDto {
    pub id: i64,
    pub account_id: i64,
    pub in_reply_to: Option<i64>,
    pub to: Vec<Address>,
    pub subject: String,
    pub body: String,
    /// `draft` until the user approves.
    pub status: String,
    /// RFC 3339.
    pub created_at: String,
}

/// A stored draft as the UI shows it.
pub fn draft_to_dto(d: Draft) -> (r: DraftDto)
    requires
        timestamp_in_range(d.created_at),
    ensures
        r.id == d.id && r.account_id == d.account_id && r.in_reply_to == d.in_reply_to,
        r.to@ == d.to@,
        r.subject@ == d.subject@ && r.body@ == d.body@ && r.status@ == d.status@,
        r.created_at@ == rfc3339_text(d.created_at.secs as int, d.created_at.nanos as int),
{
    let created_at = to_rfc3339(d.created_at);
    DraftDto {
        id: d.id,
        account_id: d.account_id,
        in_reply_to: d.in_reply_to,
        to: d.to,
        subject: d.subject,
        body: d.body,
        status: d.status,
        created_at,
    }
}

// ---- registering the MCP server ------------------------------------------------------

/// What the user needs to register the MCP server with the assistant; the
/// application never edits anyone's configuration itself.
#[derive(Debug, Clone)]
pub struct McpIntegration {
    /// The server executable.
    pub server_path: String,
    /// Whether the executable exists there (it may not be built yet).
    pub server_exists: bool,
    /// The entry for `claude_desktop_config.json`.
    pub desktop_config_json: String,
    /// The one-line command that registers the server with the assistant's
    /// command-line tool.
    pub claude_code_command: String,
}

/// The file name of the server executable.
pub open spec fn binary_name(windows: bool) -> Seq<char> {
    if windows {
        "meowbox-mcp.exe"@
    } else {
        "meowbox-mcp"@
    }
}

/// The file name of the server executable: with `.exe` on Windows.
pub fn mcp_binary_name(windows: bool) -> (r: &'static str)
    ensures
        r@ == binary_name(windows),
{
    if windows {
        "meowbox-mcp.exe"
    } else {
        "meowbox-mcp"
    }
}

/// The executable beside the application's own, or the bare name when the
/// application's directory is unknown.
pub fn beside_path(exe_dir: Option<&str>, windows: bool) -> (r: String)
    ensures
        r@ == (match exe_dir {
            Some(d) => path_join(d@, binary_name(windows)),
            None => binary_name(windows),
        }),
{
    let bin = mcp_binary_name(windows);
    match exe_dir {
        Some(d) => join_path(d, bin),
        None => String::from_str(bin),
    }
}

/// The first directory, going up from the application, that holds a
/// `target` directory.
pub open spec fn first_with_target(ancestors: Seq<(Seq<char>, bool)>, i: int) -> Option<Seq<char>>
    decreases ancestors.len() - i,
{
    if i < 0 || i >= ancestors.len() {
        None
    } else if ancestors[i].1 {
        Some(ancestors[i].0)
    } else {
        first_with_target(ancestors, i + 1)
    }
}

/// The ancestors by view.
pub open spec fn ancestors_view(v: Seq<(String, bool)>) -> Seq<(Seq<char>, bool)> {
    v.map_values(|a: (String, bool)| (a.0@, a.1))
}

/// The development builds of the server: `target/release/<bin>` and
/// `target/debug/<bin>` under the first directory, going up from the
/// application, that holds a `target` directory; none when there is none.
/// `ancestors` lists those directories, nearest first, each with whether it
/// holds a `target` directory.
pub fn dev_build_candidates(ancestors: &[(String, bool)], windows: bool) -> (r: Vec<String>)
    ensures
        match first_with_target(ancestors_view(ancestors@), 0) {
            Some(d) => r@.len() == 2 && r@[0]@ == path_join(path_join(path_join(d, "target"@), "release"@), binary_name(windows))
                && r@[1]@ == path_join(path_join(path_join(d, "target"@), "debug"@), binary_name(windows)),
            None => r@.len() == 0,
        },
{
    let bin = mcp_binary_name(windows);
    let n = ancestors.len();
    let mut i: usize = 0;
    while i < n
        invariant
            n == ancestors@.len(),
            i <= n,
            bin@ == binary_name(windows),
            first_with_target(ancestors_view(ancestors@), 0) == first_with_target(ancestors_view(ancestors@), i as int),
        decreases n - i,
    {
        if ancestors[i].1 {
            let target = join_path(ancestors[i].0.as_str(), "target");
            let rel = join_path(target.as_str(), "release");
            let dbg = join_path(target.as_str(), "debug");
            return vec![join_path(rel.as_str(), bin), join_path(dbg.as_str(), bin)];
        }
        i += 1;
    }
    Vec::new()
}

/// The executable to register: the one beside the application if it
/// exists, else the first development build that exists, else the one beside
/// the application, marked missing. `candidates` pairs each development
/// build with whether it exists.
pub fn choose_server_path(beside: &str, beside_exists: bool, candidates: &[(String, bool)]) -> (r: (String, bool))
    ensures
        beside_exists ==> r.0@ == beside@ && r.1,
        !beside_exists ==> match first_with_target(ancestors_view(candidates@), 0) {
            Some(c) => r.0@ == c && r.1,
            None => r.0@ == beside@ && !r.1,
        },
{
    if beside_exists {
        return (String::from_str(beside), true);
    }
    let n = candidates.len();
    let mut i: usize = 0;
    while i < n
        invariant
            n == candidates@.len(),
            i <= n,
            !beside_exists,
            first_with_target(ancestors_view(candidates@), 0) == first_with_target(ancestors_view(candidates@), i as int),
        decreases n - i,
    {
        if candidates[i].1 {
            return (candidates[i].0.clone(), true);
        }
        i += 1;
    }
    (String::from_str(beside), false)
}

/// The desktop configuration entry for the executable at `path`:
/// `{"mcpServers": {"meowbox": {"command": <path>, "args": []}}}`.
pub open spec fn config_view(path: Seq<char>) -> JsonView {
    JsonView::Obj(
        seq![
            ("mcpServers"@, JsonView::Obj(
                seq![
                    ("meowbox"@, JsonView::Obj(
                        seq![("command"@, JsonView::Str(path)), ("args"@, JsonView::Arr(Seq::empty()))],
                    )),
                ],
            )),
        ],
    )
}

/// The desktop configuration entry for the executable at `path`.
pub fn desktop_config_value(path: &str) -> (r: JsonValue)
    ensures
        json_view(r) == config_view(path@),
{
    let empty = JsonValue::Arr(Vec::new());
    let cmd = JsonValue::Str(String::from_str(path));
    proof {
        lemma_arr_view(empty->Arr_0);
        assert(json_view(empty) == JsonView::Arr(Seq::empty())) by {
            if let JsonView::Arr(vs) = json_view(empty) {
                assert(vs =~= Seq::<JsonView>::empty());
            }
        }
    }
    let inner = JsonValue::Obj(vec![(String::from_str("command"), cmd), (String::from_str("args"), empty)]);
    proof {
        lemma_obj_view(inner->Obj_0);
        if let JsonView::Obj(ms) = json_view(inner) {
            assert(ms =~= seq![("command"@, JsonView::Str(path@)), ("args"@, JsonView::Arr(Seq::empty()))]);
        }
    }
    let server = JsonValue::Obj(vec![(String::from_str("meowbox"), inner)]);
    proof {
        lemma_obj_view(server->Obj_0);
        if let JsonView::Obj(ms) = json_view(server) {
            assert(ms =~= seq![("meowbox"@, json_view(inner))]);
        }
    }
    let root = JsonValue::Obj(vec![(String::from_str("mcpServers"), server)]);
    proof {
        lemma_obj_view(root->Obj_0);
        if let JsonView::Obj(ms) = json_view(root) {
            assert(ms =~= seq![("mcpServers"@, json_view(server))]);
        }
    }
    root
}

/// The text to paste into `claude_desktop_config.json`: the entry as JSON,
/// pretty-printed, with the path escaped by JSON's rules.
pub fn desktop_config_json(path: &str) -> (r: String)
    ensures
        r@ == pretty_json(config_view(path@)),
{
    json_pretty(&desktop_config_value(path))
}

/// The command that registers the server with the assistant's command-line
/// tool `cli`.
pub open spec fn claude_code_command_text(cli: Seq<char>, path: Seq<char>) -> Seq<char> {
    cli + " mcp add meowbox -- \""@ + path + "\""@
}

/// The registration hints for the executable at `server_path`, with the
/// command line for the assistant's tool `cli`.
pub fn build_integration(server_path: &str, exists: bool, cli: &str) -> (r: McpIntegration)
    ensures
        r.server_path@ == server_path@,
        r.server_exists == exists,
        r.desktop_config_json@ == pretty_json(config_view(server_path@)),
        r.claude_code_command@ == claude_code_command_text(cli@, server_path@),
{
    let mut cmd: Vec<char> = Vec::new();
    push_text(&mut cmd, cli);
    push_text(&mut cmd, " mcp add meowbox -- \"");
    push_text(&mut cmd, server_path);
    push_text(&mut cmd, "\"");
    McpIntegration {
        server_path: String::from_str(server_path),
        server_exists: exists,
        desktop_config_json: desktop_config_json(server_path),
        claude_code_command: string_of(cmd.as_slice()),
    }
}

// ---- threads, digests and marks -----------------------------------------------------

/// The thread list's filter; the UI turns its views into these flags.
#[derive(Debug, Clone)]
pub struct ThreadFilter {
    pub project_tag: Option<String>,
    pub account_id: Option<i64>,
    pub unread_only: bool,
    pub flagged_only: bool,
    pub include_archived: bool,
    pub limit: Option<usize>,
    pub offset: Option<usize>,
}

impl ThreadFilter {
    /// No filter: all unarchived threads.
    pub fn all() -> (r: ThreadFilter)
        ensures
            r.project_tag is None && r.account_id is None && !r.unread_only && !r.flagged_only
                && !r.include_archived && r.limit is None && r.offset is None,
    {
        ThreadFilter {
            project_tag: None,
            account_id: None,
            unread_only: false,
            flagged_only: false,
            include_archived: false,
            limit: None,
            offset: None,
        }
    }
}

/// The store query of the thread list: the filter's conditions, 200 threads
/// from the start unless the filter says otherwise.
pub fn thread_query_for(filter: &ThreadFilter) -> (r: ThreadQuery)
    ensures
        r.account_id == filter.account_id,
        opt_str_view(r.project_tag) == opt_str_view(filter.project_tag),
        r.unread_only == filter.unread_only,
        r.flagged_only == filter.flagged_only,
        r.include_archived == filter.include_archived,
        r.limit == (match filter.limit {
            Some(l) => l,
            None => 200,
        }),
        r.offset == (match filter.offset {
            Some(o) => o,
            None => 0,
        }),
{
    ThreadQuery {
        account_id: filter.account_id,
        project_tag: copy_tag(&filter.project_tag),
        unread_only: filter.unread_only,
        flagged_only: filter.flagged_only,
        include_archived: filter.include_archived,
        limit: match filter.limit {
            Some(l) => l,
            None => 200,
        },
        offset: match filter.offset {
            Some(o) => o,
            None => 0,
        },
    }
}

/// What a marking action sets: `read`, `unread`, `flag`, `unflag`,
/// `archive`, `unarchive`.
pub open spec fn mark_effect(action: Seq<char>) -> Option<(FlagColumn, bool)> {
    if action == "read"@ {
        Some((FlagColumn::Read, true))
    } else if action == "unread"@ {
        Some((FlagColumn::Read, false))
    } else if action == "flag"@ {
        Some((FlagColumn::Flagged, true))
    } else if action == "unflag"@ {
        Some((FlagColumn::Flagged, false))
    } else if action == "archive"@ {
        Some((FlagColumn::Archived, true))
    } else if action == "unarchive"@ {
        Some((FlagColumn::Archived, false))
    } else {
        None
    }
}

/// The message for an unknown marking action.
pub open spec fn unknown_action_text(action: Seq<char>) -> Seq<char> {
    "不明な操作です: "@ + action
}

fn is_word(c: &Vec<char>, w: &str) -> (r: bool)
    ensures
        r == (c@ == w@),
{
    let wc = chars_of(w);
    chars_eq(c.as_slice(), wc.as_slice())
}

/// The column and value a marking action sets; an unknown action is
/// refused. Marks change the local store only.
pub fn mark_action(action: &str) -> (r: Result<(FlagColumn, bool), AppError>)
    ensures
        match mark_effect(action@) {
            Some(x) => r matches Ok(y) && y == x,
            None => r matches Err(e) && e.code@ == "invalid_input"@ && e.message@ == unknown_action_text(action@),
        },
{
    let c = chars_of(action);
    if is_word(&c, "read") {
        Ok((FlagColumn::Read, true))
    } else if is_word(&c, "unread") {
        Ok((FlagColumn::Read, false))
    } else if is_word(&c, "flag") {
        Ok((FlagColumn::Flagged, true))
    } else if is_word(&c, "unflag") {
        Ok((FlagColumn::Flagged, false))
    } else if is_word(&c, "archive") {
        Ok((FlagColumn::Archived, true))
    } else if is_word(&c, "unarchive") {
        Ok((FlagColumn::Archived, false))
    } else {
        let mut out: Vec<char> = Vec::new();
        push_text(&mut out, "不明な操作です: ");
        push_all(&mut out, c.as_slice());
        let m = string_of(out.as_slice());
        Err(AppError { code: String::from_str("invalid_input"), message: m })
    }
}

/// The start of the user's day must be RFC 3339; the digest does not filter
/// by it otherwise.
pub fn check_start_of_day(start_of_day: &str) -> (r: Result<(), AppError>)
    ensures
        rfc3339_parse(start_of_day@) is Ok ==> r is Ok,
        rfc3339_parse(start_of_day@) is Err ==> (r matches Err(e) && e.code@ == "invalid_input"@
            && e.message@ == "start_of_day の形式が不正です"@),
{
    match parse_rfc3339_utc(start_of_day) {
        Ok(_) => Ok(()),
        Err(_) => Err(AppError::invalid_input("start_of_day の形式が不正です")),
    }
}

/// The positions of the tasks that come from one of the given messages.
pub open spec fn tasks_from(sources: Seq<Option<i64>>, ids: Seq<i64>) -> Seq<int>
    decreases sources.len(),
{
    if sources.len() == 0 {
        Seq::empty()
    } else {
        let rest = tasks_from(sources.drop_last(), ids);
        match sources.last() {
            Some(m) => if ids.contains(m) {
                rest.push(sources.len() - 1)
            } else {
                rest
            },
            None => rest,
        }
    }
}

fn contains_id(ids: &[i64], id: i64) -> (r: bool)
    ensures
        r == ids@.contains(id),
{
    let n = ids.len();
    let mut i: usize = 0;
    while i < n
        invariant
            n == ids@.len(),
            i <= n,
            forall|k: int| 0 <= k < i ==> ids@[k] != id,
        decreases n - i,
    {
        if ids[i] == id {
            assert(ids@[i as int] == id);
            return true;
        }
        i += 1;
    }
    false
}

/// The tasks of a thread: of the tasks (given by their source message), the
/// positions of those that come from one of the thread's messages.
pub fn thread_task_positions(task_sources: &[Option<i64>], message_ids: &[i64]) -> (r: Vec<usize>)
    ensures
        crate::grouping::index_view(r@) == tasks_from(task_sources@, message_ids@),
{
    let n = task_sources.len();
    let mut r: Vec<usize> = Vec::new();
    let mut i: usize = 0;
    assert(task_sources@.take(0) =~= Seq::<Option<i64>>::empty());
    while i < n
        invariant
            n == task_sources@.len(),
            i <= n,
            crate::grouping::index_view(r@) == tasks_from(task_sources@.take(i as int), message_ids@),
        decreases n - i,
    {
        assert(task_sources@.take(i + 1).drop_last() =~= task_sources@.take(i as int));
        assert(task_sources@.take(i + 1).last() == task_sources@[i as int]);
        match task_sources[i] {
            Some(m) => {
                if contains_id(message_ids, m) {
                    let ghost before = r@;
                    r.push(i);
                    assert(crate::grouping::index_view(r@) =~= crate::grouping::index_view(before).push(i as int));
                }
            },
            None => {},
        }
        i += 1;
    }
    assert(task_sources@.take(n as int) =~= task_sources@);
    r
}

// ---- attachments -------------------------------------------------------------------------

/// The file name the desktop gives an extracted attachment: its sanitised
/// name, or the fallback name when that says nothing.
pub open spec fn desktop_attachment_name_text(id: int, filename: Seq<char>) -> Seq<char> {
    let safe = sanitized_segment(filename);
    if useless_name(safe) {
        fallback_name_text(id)
    } else {
        safe
    }
}

/// The desktop's file name for an extracted attachment is always one safe
/// path segment, so the file stays inside its message's directory.
pub proof fn law_desktop_attachment_name_is_one_segment(id: int, filename: Seq<char>)
    ensures
        crate::fsname::is_safe_segment(desktop_attachment_name_text(id, filename)),
{
    crate::fsname::lemma_sanitized_segment_is_safe(filename);
    crate::mcp::law_attachment_file_name_is_one_segment(id, filename);
}

/// The file name the desktop gives an extracted attachment.
pub fn desktop_attachment_name(id: i64, filename: &str) -> (r: String)
    ensures
        r@ == desktop_attachment_name_text(id as int, filename@),
{
    let safe = sanitize_path_segment(filename);
    let sc = chars_of(safe.as_str());
    let useless = sc.len() == 0 || (sc.len() == 1 && sc[0] == '_') || (sc.len() == 2 && sc[0] == '_' && sc[1] == '_');
    proof {
        if sc@.len() == 1 && sc@[0] == '_' {
            assert(sc@ =~= seq!['_']);
        }
        if sc@.len() == 2 && sc@[0] == '_' && sc@[1] == '_' {
            assert(sc@ =~= seq!['_', '_']);
        }
        if sc@ == seq!['_'] {
            assert(sc@[0] == '_');
        }
        if sc@ == seq!['_', '_'] {
            assert(sc@[0] == '_' && sc@[1] == '_');
        }
    }
    if useless {
        fallback_attachment_name(id)
    } else {
        safe
    }
}

/// Where the desktop extracts an attachment:
/// `<attachments_dir>/<message_id>/<file name>`.
pub fn desktop_attachment_path(attachments_dir: &str, message_id: i64, id: i64, filename: &str) -> (r: String)
    ensures
        r@ == path_join(path_join(attachments_dir@, dec_int(message_id as int)), desktop_attachment_name_text(id as int, filename@)),
{
    let d = string_of(dec_i64(message_id).as_slice());
    let dir = join_path(attachments_dir, d.as_str());
    let name = desktop_attachment_name(id, filename);
    join_path(dir.as_str(), name.as_str())
}

// ---- views -------------------------------------------------------------------------------

/// A saved summary as the UI shows it.
#[derive(Debug, Clone)]
pub struct SummaryDto {
    pub target: String,
    pub model: String,
    pub summary: String,
    /// RFC 3339.
    pub created_at: String,
}

/// A saved summary as the UI shows it.
pub fn summary_to_dto(row: &SummaryRow) -> (r: SummaryDto)
    requires
        timestamp_in_range(row.created_at),
    ensures
        r.target@ == row.target@ && r.model@ == row.model@ && r.summary@ == row.summary@,
        r.created_at@ == rfc3339_text(row.created_at.secs as int, row.created_at.nanos as int),
{
    SummaryDto {
        target: row.target.clone(),
        model: row.model.clone(),
        summary: row.summary.clone(),
        created_at: to_rfc3339(row.created_at),
    }
}

/// An attachment as the UI lists it.
#[derive(Debug, Clone)]
pub struct AttachmentDto {
    pub id: i64,
    pub filename: String,
    pub mime: String,
    pub size: i64,
}

/// An attachment row as the UI lists it.
pub fn attachment_dto(a: &AttachmentRow) -> (r: AttachmentDto)
    ensures
        r.id == a.id && r.filename@ == a.filename@ && r.mime@ == a.mime@ && r.size == a.size,
{
    AttachmentDto { id: a.id, filename: a.filename.clone(), mime: a.mime.clone(), size: a.size }
}

/// A message as the UI shows it, with the quoted part read back from the raw
/// message (empty when that cannot be read).
#[derive(Debug, Clone)]
pub struct MessageDto {
    pub id: i64,
    pub account_id: i64,
    pub thread_key: String,
    pub from: Address,
    pub to: Vec<Address>,
    pub cc: Vec<Address>,
    pub subject: String,
    /// RFC 3339.
    pub date: String,
    pub body_text: String,
    pub quoted_text: String,
    pub has_attachments: bool,
    pub is_read: bool,
    pub is_flagged: bool,
    pub attachments: Vec<AttachmentDto>,
}

/// The counts of the sidebar views.
#[derive(Debug, Clone, Copy, PartialEq, Eq, Structural)]
pub struct ViewCountsDto {
    pub all: i64,
    pub unread: i64,
    pub flagged: i64,
    pub tasks: i64,
    pub drafts: i64,
}

/// The counts of the sidebar views, as the store reports them.
pub fn view_counts_dto(c: ViewCounts) -> (r: ViewCountsDto)
    ensures
        r.all == c.all && r.unread == c.unread && r.flagged == c.flagged && r.tasks == c.tasks
            && r.drafts == c.drafts,
{
    ViewCountsDto { all: c.all, unread: c.unread, flagged: c.flagged, tasks: c.tasks, drafts: c.drafts }
}

} // verus!
