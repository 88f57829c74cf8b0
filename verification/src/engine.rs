//! The synchronisation engine's decisions. One pass over an account lists the
//! folders (optionally only one), and for each folder compares UIDVALIDITY
//! with the stored one (a change resets the folder's last UID), fetches the
//! messages above the last UID, saves each raw message, parses it and stores
//! it. One failing message or folder does not stop the pass: it is counted
//! and the pass goes on. The loop that talks to the server, the disk and the
//! database runs in the application and asks these functions what to do.
use vstd::prelude::*;
use crate::domain::{Address, FolderRole, RawMessage, Timestamp};
use crate::fsname::{sanitize_path_segment, sanitized_segment};
use crate::parse::{
    opt_view, parsed_from, snippet, snippet_of, strings_view, thread_key, thread_key_of, Parsed,
};
use crate::paths::{join_path, path_join};
use crate::store::NewMessage;
use crate::text::{chars_eq, chars_of, dec, dec_u64, dec_i64, dec_int, lower, lower_chars, lower_seq, push_all, string_of};

verus! {

/// Progress is reported each time this many messages of a folder are done.
pub const PROGRESS_EVERY: usize = 10;

/// How many characters the snippet of a message keeps.
pub const SNIPPET_CHARS: usize = 120;

/// Progress of one pass, for the UI. Only counts and the folder name: never
/// bodies, addresses or passwords.
#[derive(Debug, Clone, PartialEq, Eq)]
pub struct SyncProgress {
    /// The folder being processed; empty in the final report.
    pub folder: String,
    /// Messages of this folder processed so far.
    pub fetched: usize,
    /// Messages of this folder fetched from the server.
    pub total: usize,
    /// Messages of this folder newly stored.
    pub inserted: usize,
    /// Messages of this folder that failed.
    pub errors: usize,
    /// True only once, when the whole pass is over; the counts are then the
    /// totals of the pass.
    pub done: bool,
}

/// The counts of one pass over an account.
#[derive(Debug, Clone, Copy, PartialEq, Eq, Structural)]
pub struct SyncReport {
    /// Messages fetched from the server.
    pub fetched: usize,
    /// Messages newly stored.
    pub inserted: usize,
    /// Messages already stored (same folder and UID).
    pub skipped: usize,
    /// Messages that failed to parse or store; a failing folder counts once.
    pub errors: usize,
}

impl SyncReport {
    pub fn new() -> (r: SyncReport)
        ensures
            r == (SyncReport { fetched: 0, inserted: 0, skipped: 0, errors: 0 }),
    {
        SyncReport { fetched: 0, inserted: 0, skipped: 0, errors: 0 }
    }
}

/// Options of one pass.
#[derive(Debug, Clone)]
pub struct SyncOptions {
    /// When set, only this folder is synchronised (for example `INBOX`).
    pub only_folder: Option<String>,
    /// Only messages since this time (seconds since the epoch); `None` means
    /// no date limit.
    pub since: Option<i64>,
    /// The root under which raw `.eml` files are saved.
    pub data_dir: String,
}

impl SyncOptions {
    /// Every folder, the last 90 days before `now_secs`, raw messages under
    /// `data/mail`.
    pub fn defaults(now_secs: i64) -> (r: SyncOptions)
        requires
            now_secs >= i64::MIN + 90 * 86400,
        ensures
            r.only_folder is None,
            r.since matches Some(s) && s == now_secs - 90 * 86400,
            r.data_dir@ == "data/mail"@,
    {
        SyncOptions {
            only_folder: None,
            since: Some(now_secs - 90 * 86400),
            data_dir: String::from_str("data/mail"),
        }
    }
}

/// The stored name of a folder role.
pub open spec fn role_name(role: FolderRole) -> Seq<char> {
    match role {
        FolderRole::Inbox => "inbox"@,
        FolderRole::Sent => "sent"@,
        FolderRole::Drafts => "drafts"@,
        FolderRole::Trash => "trash"@,
        FolderRole::Archive => "archive"@,
        FolderRole::Other => "other"@,
    }
}

/// The stored name of a folder role.
pub fn role_str(role: FolderRole) -> (r: &'static str)
    ensures
        r@ == role_name(role),
{
    match role {
        FolderRole::Inbox => "inbox",
        FolderRole::Sent => "sent",
        FolderRole::Drafts => "drafts",
        FolderRole::Trash => "trash",
        FolderRole::Archive => "archive",
        FolderRole::Other => "other",
    }
}

/// ASCII case-insensitive equality (`str::eq_ignore_ascii_case`).
pub open spec fn eq_ignore_case(a: Seq<char>, b: Seq<char>) -> bool {
    lower_seq(a) == lower_seq(b)
}

/// Whether one of the flags equals `flag`, ignoring ASCII case.
pub fn has_flag(flags: &Vec<String>, flag: &str) -> (r: bool)
    ensures
        r == exists|i: int| 0 <= i < flags@.len() && eq_ignore_case(#[trigger] flags@[i]@, flag@),
{
    let want = lower_chars(&chars_of(flag));
    let mut i: usize = 0;
    while i < flags.len()
        invariant
            i <= flags@.len(),
            want@ == lower_seq(flag@),
            forall|k: int| 0 <= k < i ==> !eq_ignore_case(#[trigger] flags@[k]@, flag@),
        decreases flags@.len() - i,
    {
        let f = lower_chars(&chars_of(flags[i].as_str()));
        if chars_eq(&f, &want) {
            return true;
        }
        i += 1;
    }
    false
}

/// Makes a folder name usable as one path segment (see
/// `sanitize_path_segment`).
pub fn sanitize_folder(path: &str) -> (r: String)
    ensures
        r@ == sanitized_segment(path@),
{
    sanitize_path_segment(path)
}

/// The predicate "the folder is named `o`".
pub open spec fn folder_named(o: Seq<char>) -> spec_fn((Seq<char>, FolderRole)) -> bool {
    |f: (Seq<char>, FolderRole)| f.0 == o
}

/// The folders of one pass: all of them, or only those named `only`.
pub open spec fn selected_folders(
    folders: Seq<(Seq<char>, FolderRole)>,
    only: Option<Seq<char>>,
) -> Seq<(Seq<char>, FolderRole)> {
    match only {
        Some(o) => folders.filter(folder_named(o)),
        None => folders,
    }
}

pub open spec fn folders_view(v: Seq<(String, FolderRole)>) -> Seq<(Seq<char>, FolderRole)> {
    v.map_values(|f: (String, FolderRole)| (f.0@, f.1))
}

/// Keeps the folders to synchronise.
pub fn select_folders(folders: Vec<(String, FolderRole)>, only: &Option<String>) -> (r: Vec<
    (String, FolderRole),
>)
    ensures
        folders_view(r@) == selected_folders(folders_view(folders@), opt_view(*only)),
{
    if let Some(o) = only {
        let oc = chars_of(o.as_str());
        let ghost fv = folders_view(folders@);
        let mut out: Vec<(String, FolderRole)> = Vec::new();
        let mut i: usize = 0;
        while i < folders.len()
            invariant
                i <= folders@.len(),
                oc@ == o@,
                fv == folders_view(folders@),
                folders_view(out@) == fv.subrange(0, i as int).filter(folder_named(o@)),
            decreases folders@.len() - i,
        {
            let ghost ov = folders_view(out@);
            assert(fv.subrange(0, i + 1).drop_last() =~= fv.subrange(0, i as int));
            proof {
                reveal(Seq::filter);
            }
            let name = chars_of(folders[i].0.as_str());
            if chars_eq(&name, &oc) {
                let entry = (folders[i].0.clone(), folders[i].1);
                out.push(entry);
                assert(folders_view(out@) =~= ov.push(fv[i as int]));
            } else {
                assert(folders_view(out@) =~= ov);
            }
            i += 1;
        }
        assert(fv.subrange(0, folders@.len() as int) =~= fv);
        assert(opt_view(*only) == Some(o@));
        return out;
    }
    folders
}

/// The stored UIDs of a folder no longer mean anything when the server's
/// UIDVALIDITY differs from the stored one; then the folder is fetched again
/// from UID 0.
pub open spec fn must_reset(stored: Option<u32>, current: u32) -> bool {
    match stored {
        Some(s) => s != current,
        None => false,
    }
}

/// Whether the folder's last UID has to be reset.
pub fn uidvalidity_changed(stored: Option<u32>, current: u32) -> (r: bool)
    ensures
        r == must_reset(stored, current),
{
    match stored {
        Some(s) => s != current,
        None => false,
    }
}

/// Progress is reported after every `PROGRESS_EVERY` messages and after the
/// last one of the folder.
pub open spec fn progress_due(folder_fetched: int, total: int) -> bool {
    folder_fetched % 10 == 0 || folder_fetched == total
}

/// Whether progress is reported after this message.
pub fn should_report_progress(folder_fetched: usize, total: usize) -> (r: bool)
    ensures
        r == progress_due(folder_fetched as int, total as int),
{
    folder_fetched % PROGRESS_EVERY == 0 || folder_fetched == total
}

/// The outcome of storing one message.
#[derive(Debug, Clone, Copy, PartialEq, Eq, Structural)]
pub enum StoreOutcome {
    /// Newly stored.
    Inserted,
    /// Already stored (same folder and UID).
    Skipped,
    /// Saving, parsing or storing failed.
    Failed,
}

/// The counts of the folder being processed.
#[derive(Debug, Clone, Copy, PartialEq, Eq, Structural)]
pub struct FolderTally {
    pub fetched: usize,
    pub inserted: usize,
    pub errors: usize,
}

impl FolderTally {
    pub fn new() -> (r: FolderTally)
        ensures
            r == (FolderTally { fetched: 0, inserted: 0, errors: 0 }),
    {
        FolderTally { fetched: 0, inserted: 0, errors: 0 }
    }
}

/// The pass's counts after one more processed message.
pub open spec fn counted(r: SyncReport, outcome: StoreOutcome) -> SyncReport {
    SyncReport {
        fetched: (r.fetched + 1) as usize,
        inserted: (r.inserted + (if outcome == StoreOutcome::Inserted { 1int } else { 0 })) as usize,
        skipped: (r.skipped + (if outcome == StoreOutcome::Skipped { 1int } else { 0 })) as usize,
        errors: (r.errors + (if outcome == StoreOutcome::Failed { 1int } else { 0 })) as usize,
    }
}

/// Counts one processed message in the pass and in its folder.
pub fn record_outcome(report: &mut SyncReport, tally: &mut FolderTally, outcome: StoreOutcome)
    requires
        old(report).fetched < usize::MAX,
        old(report).inserted < usize::MAX,
        old(report).skipped < usize::MAX,
        old(report).errors < usize::MAX,
        old(tally).fetched < usize::MAX,
        old(tally).inserted < usize::MAX,
        old(tally).errors < usize::MAX,
    ensures
        *final(report) == counted(*old(report), outcome),
        final(report).fetched == old(report).fetched + 1,
        final(tally).fetched == old(tally).fetched + 1,
        final(report).inserted == old(report).inserted + (if outcome == StoreOutcome::Inserted {
            1int
        } else {
            0
        }),
        final(tally).inserted == old(tally).inserted + (if outcome == StoreOutcome::Inserted {
            1int
        } else {
            0
        }),
        final(report).skipped == old(report).skipped + (if outcome == StoreOutcome::Skipped {
            1int
        } else {
            0
        }),
        final(report).errors == old(report).errors + (if outcome == StoreOutcome::Failed {
            1int
        } else {
            0
        }),
        final(tally).errors == old(tally).errors + (if outcome == StoreOutcome::Failed {
            1int
        } else {
            0
        }),
{
    report.fetched += 1;
    tally.fetched += 1;
    match outcome {
        StoreOutcome::Inserted => {
            report.inserted += 1;
            tally.inserted += 1;
        },
        StoreOutcome::Skipped => {
            report.skipped += 1;
        },
        StoreOutcome::Failed => {
            report.errors += 1;
            tally.errors += 1;
        },
    }
}

/// Every processed message is counted exactly once, as stored, as already
/// there or as failed; only a folder that fails as a whole adds an error
/// without a message.
pub proof fn law_each_message_counted_once(r: SyncReport, outcome: StoreOutcome)
    requires
        r.fetched < usize::MAX,
        r.inserted < usize::MAX,
        r.skipped < usize::MAX,
        r.errors < usize::MAX,
    ensures
        counted(r, outcome).fetched == r.fetched + 1,
        counted(r, outcome).inserted + counted(r, outcome).skipped + counted(r, outcome).errors
            == r.inserted + r.skipped + r.errors + 1,
{
}

/// A folder that failed as a whole counts as one error.
pub fn record_folder_failure(report: &mut SyncReport)
    requires
        old(report).errors < usize::MAX,
    ensures
        *final(report) == (SyncReport { errors: (old(report).errors + 1) as usize, ..*old(report) }),
{
    report.errors += 1;
}

/// The report at the start of a folder.
pub fn folder_started(folder: &str, total: usize) -> (r: SyncProgress)
    ensures
        r.folder@ == folder@,
        r.fetched == 0 && r.total == total && r.inserted == 0 && r.errors == 0 && !r.done,
{
    SyncProgress {
        folder: String::from_str(folder),
        fetched: 0,
        total,
        inserted: 0,
        errors: 0,
        done: false,
    }
}

/// The report of a folder in progress.
pub fn folder_progress(folder: &str, tally: &FolderTally, total: usize) -> (r: SyncProgress)
    ensures
        r.folder@ == folder@,
        r.fetched == tally.fetched && r.total == total && r.inserted == tally.inserted
            && r.errors == tally.errors && !r.done,
{
    SyncProgress {
        folder: String::from_str(folder),
        fetched: tally.fetched,
        total,
        inserted: tally.inserted,
        errors: tally.errors,
        done: false,
    }
}

/// The one final report of a pass: the totals, with an empty folder name.
pub fn pass_finished(report: &SyncReport) -> (r: SyncProgress)
    ensures
        r.folder@.len() == 0,
        r.fetched == report.fetched && r.total == report.fetched && r.inserted == report.inserted
            && r.errors == report.errors && r.done,
{
    SyncProgress {
        folder: String::new(),
        fetched: report.fetched,
        total: report.fetched,
        inserted: report.inserted,
        errors: report.errors,
        done: true,
    }
}

/// The directory of a folder's raw messages:
/// `<data_dir>/<account_id>/<sanitised folder>`.
pub open spec fn message_dir_of(data_dir: Seq<char>, account_id: int, folder: Seq<char>) -> Seq<
    char,
> {
    path_join(path_join(data_dir, dec_int(account_id)), sanitized_segment(folder))
}

/// The file of one raw message: `<message dir>/<uid>.eml`.
pub open spec fn raw_file_of(data_dir: Seq<char>, account_id: int, folder: Seq<char>, uid: nat) -> Seq<
    char,
> {
    path_join(message_dir_of(data_dir, account_id, folder), dec(uid) + seq!['.', 'e', 'm', 'l'])
}

/// The directory that holds a folder's raw messages.
pub fn message_dir(data_dir: &str, account_id: i64, folder: &str) -> (r: String)
    ensures
        r@ == message_dir_of(data_dir@, account_id as int, folder@),
{
    let id = string_of(&dec_i64(account_id));
    let d = join_path(data_dir, id.as_str());
    let f = sanitize_folder(folder);
    join_path(d.as_str(), f.as_str())
}

/// The path of one raw message.
pub fn raw_file_path(data_dir: &str, account_id: i64, folder: &str, uid: u32) -> (r: String)
    ensures
        r@ == raw_file_of(data_dir@, account_id as int, folder@, uid as nat),
{
    let dir = message_dir(data_dir, account_id, folder);
    let mut name = dec_u64(uid as u64);
    let ext = vec!['.', 'e', 'm', 'l'];
    assert(ext@ =~= seq!['.', 'e', 'm', 'l']);
    push_all(&mut name, &ext);
    join_path(dir.as_str(), string_of(&name).as_str())
}

pub open spec fn seen_flag() -> Seq<char> {
    seq!['\\', 'S', 'e', 'e', 'n']
}

pub open spec fn flagged_flag() -> Seq<char> {
    seq!['\\', 'F', 'l', 'a', 'g', 'g', 'e', 'd']
}

pub open spec fn has_flag_spec(flags: Seq<String>, flag: Seq<char>) -> bool {
    exists|i: int| 0 <= i < flags.len() && eq_ignore_case(#[trigger] flags[i]@, flag)
}

/// The record stored for a parsed message: thread key from the headers, a
/// 120-character snippet, the sender (an empty address when there is none),
/// the date (`now` when the message has none), and read/flagged from the
/// `\Seen` and `\Flagged` flags.
pub open spec fn record_of(
    m: NewMessage,
    parsed: Parsed,
    raw: RawMessage,
    account_id: i64,
    folder_id: i64,
    raw_path: Seq<char>,
    now: Timestamp,
) -> bool {
    &&& m.account_id == account_id
    &&& m.folder_id == folder_id
    &&& m.uid == raw.uid
    &&& opt_view(m.message_id) == opt_view(parsed.message_id)
    &&& m.thread_key@ == thread_key_of(
        strings_view(parsed.references@),
        opt_view(parsed.in_reply_to),
        parsed.subject@,
    )
    &&& (match parsed.from {
        Some(a) => m.from.email@ == a.email@ && opt_view(m.from.name) == opt_view(a.name),
        None => m.from.email@.len() == 0 && m.from.name is None,
    })
    &&& m.to@ == parsed.to@
    &&& m.cc@ == parsed.cc@
    &&& m.subject@ == parsed.subject@
    &&& m.date == (match parsed.date {
        Some(s) => Timestamp { secs: s, nanos: 0 },
        None => now,
    })
    &&& m.snippet@ == snippet_of(parsed.body_text@, 120)
    &&& m.body_text@ == parsed.body_text@
    &&& opt_view(m.body_html) == opt_view(parsed.body_html)
    &&& m.has_attachments == parsed.has_attachments
    &&& m.is_read == has_flag_spec(raw.flags@, seen_flag())
    &&& m.is_flagged == has_flag_spec(raw.flags@, flagged_flag())
    &&& opt_view(m.raw_path) == Some(raw_path)
}

/// The IMAP `\\Seen` flag, in any ASCII case.
pub open spec fn is_seen_text(f: Seq<char>) -> bool {
    &&& f.len() == 5
    &&& f[0] == '\\'
    &&& (f[1] == 'S' || f[1] == 's')
    &&& (f[2] == 'E' || f[2] == 'e')
    &&& (f[3] == 'E' || f[3] == 'e')
    &&& (f[4] == 'N' || f[4] == 'n')
}

/// The IMAP `\\Flagged` flag, in any ASCII case.
pub open spec fn is_flagged_text(f: Seq<char>) -> bool {
    &&& f.len() == 8
    &&& f[0] == '\\'
    &&& (f[1] == 'F' || f[1] == 'f')
    &&& (f[2] == 'L' || f[2] == 'l')
    &&& (f[3] == 'A' || f[3] == 'a')
    &&& (f[4] == 'G' || f[4] == 'g')
    &&& (f[5] == 'G' || f[5] == 'g')
    &&& (f[6] == 'E' || f[6] == 'e')
    &&& (f[7] == 'D' || f[7] == 'd')
}

proof fn lemma_lower_is(c: char, l: char, u: char)
    requires
        'a' <= l <= 'z',
        u as u32 == l as u32 - 32,
    ensures
        (lower(c) == l) <==> (c == l || c == u),
{
    if 'A' <= c <= 'Z' {
        assert(((c as u32) + 32) as char as u32 == (c as u32) + 32);
    }
}

proof fn lemma_eq_ignore_case_chars(f: Seq<char>, w: Seq<char>)
    requires
        forall|i: int| 0 <= i < w.len() ==> lower(#[trigger] w[i]) == w[i],
    ensures
        eq_ignore_case(f, w) <==> (f.len() == w.len() && forall|i: int| 0 <= i < f.len() ==> lower(#[trigger] f[i]) == w[i]),
{
    assert(lower_seq(w) =~= w);
    if f.len() == w.len() && forall|i: int| 0 <= i < f.len() ==> lower(#[trigger] f[i]) == w[i] {
        assert(lower_seq(f) =~= lower_seq(w));
    }
    if eq_ignore_case(f, w) {
        assert forall|i: int| 0 <= i < f.len() implies lower(#[trigger] f[i]) == w[i] by {
            assert(lower_seq(f).len() == f.len());
            assert(lower_seq(f)[i] == lower(f[i]));
            assert(lower_seq(f)[i] == lower_seq(w)[i]);
        }
    }
}

proof fn lemma_seen_flag_is(f: Seq<char>)
    ensures
        eq_ignore_case(f, seen_flag()) <==> is_seen_text(f),
{
    let w = seen_flag();
    let lw = seq!['\\', 's', 'e', 'e', 'n'];
    assert(lower_seq(w) =~= lw) by {
        lemma_lower_is('S', 's', 'S');
        lemma_lower_is('e', 'e', 'E');
        lemma_lower_is('n', 'n', 'N');
    }
    assert forall|i: int| 0 <= i < lw.len() implies lower(#[trigger] lw[i]) == lw[i] by {}
    lemma_eq_ignore_case_chars(f, lw);
    assert(lower_seq(lw) =~= lw);
    assert(eq_ignore_case(f, w) == eq_ignore_case(f, lw));
    if f.len() == 5 {
        lemma_lower_is(f[1], 's', 'S');
        lemma_lower_is(f[2], 'e', 'E');
        lemma_lower_is(f[3], 'e', 'E');
        lemma_lower_is(f[4], 'n', 'N');
        if 'A' <= f[0] <= 'Z' {
            assert(((f[0] as u32) + 32) as char as u32 == (f[0] as u32) + 32);
        }
    }
}

proof fn lemma_flagged_flag_is(f: Seq<char>)
    ensures
        eq_ignore_case(f, flagged_flag()) <==> is_flagged_text(f),
{
    let w = flagged_flag();
    let lw = seq!['\\', 'f', 'l', 'a', 'g', 'g', 'e', 'd'];
    assert(lower_seq(w) =~= lw) by {
        lemma_lower_is('F', 'f', 'F');
        lemma_lower_is('l', 'l', 'L');
        lemma_lower_is('a', 'a', 'A');
        lemma_lower_is('g', 'g', 'G');
        lemma_lower_is('e', 'e', 'E');
        lemma_lower_is('d', 'd', 'D');
    }
    assert forall|i: int| 0 <= i < lw.len() implies lower(#[trigger] lw[i]) == lw[i] by {}
    lemma_eq_ignore_case_chars(f, lw);
    assert(lower_seq(lw) =~= lw);
    assert(eq_ignore_case(f, w) == eq_ignore_case(f, lw));
    if f.len() == 8 {
        lemma_lower_is(f[1], 'f', 'F');
        lemma_lower_is(f[2], 'l', 'L');
        lemma_lower_is(f[3], 'a', 'A');
        lemma_lower_is(f[4], 'g', 'G');
        lemma_lower_is(f[5], 'g', 'G');
        lemma_lower_is(f[6], 'e', 'E');
        lemma_lower_is(f[7], 'd', 'D');
        if 'A' <= f[0] <= 'Z' {
            assert(((f[0] as u32) + 32) as char as u32 == (f[0] as u32) + 32);
        }
    }
}

/// A stored message is read exactly when the server marked it `\\Seen`
/// (in any ASCII case), and flagged exactly when it marked it `\\Flagged`.
pub proof fn law_read_and_flagged_follow_the_flags(
    m: NewMessage,
    parsed: Parsed,
    raw: RawMessage,
    account_id: i64,
    folder_id: i64,
    raw_path: Seq<char>,
    now: Timestamp,
)
    requires
        record_of(m, parsed, raw, account_id, folder_id, raw_path, now),
    ensures
        m.is_read <==> exists|i: int| 0 <= i < raw.flags@.len() && is_seen_text(#[trigger] raw.flags@[i]@),
        m.is_flagged <==> exists|i: int| 0 <= i < raw.flags@.len() && is_flagged_text(#[trigger] raw.flags@[i]@),
{
    let fl = raw.flags@;
    if m.is_read {
        let i = choose|i: int| 0 <= i < fl.len() && eq_ignore_case(#[trigger] fl[i]@, seen_flag());
        lemma_seen_flag_is(fl[i]@);
    }
    if exists|i: int| 0 <= i < fl.len() && is_seen_text(#[trigger] fl[i]@) {
        let i = choose|i: int| 0 <= i < fl.len() && is_seen_text(#[trigger] fl[i]@);
        lemma_seen_flag_is(fl[i]@);
    }
    if m.is_flagged {
        let i = choose|i: int| 0 <= i < fl.len() && eq_ignore_case(#[trigger] fl[i]@, flagged_flag());
        lemma_flagged_flag_is(fl[i]@);
    }
    if exists|i: int| 0 <= i < fl.len() && is_flagged_text(#[trigger] fl[i]@) {
        let i = choose|i: int| 0 <= i < fl.len() && is_flagged_text(#[trigger] fl[i]@);
        lemma_flagged_flag_is(fl[i]@);
    }
}

/// Builds what is stored for one message.
pub fn message_record(
    parsed: Parsed,
    raw: &RawMessage,
    account_id: i64,
    folder_id: i64,
    raw_path: String,
    now: Timestamp,
) -> (r: NewMessage)
    ensures
        record_of(r, parsed, *raw, account_id, folder_id, raw_path@, now),
        r.is_read <==> exists|i: int| 0 <= i < raw.flags@.len() && is_seen_text(#[trigger] raw.flags@[i]@),
        r.is_flagged <==> exists|i: int| 0 <= i < raw.flags@.len() && is_flagged_text(#[trigger] raw.flags@[i]@),
{
    let key = thread_key(&parsed);
    let snip = snippet(parsed.body_text.as_str(), SNIPPET_CHARS);
    let from = match &parsed.from {
        Some(a) => Address { name: a.name.clone(), email: a.email.clone() },
        None => Address { name: None, email: String::new() },
    };
    let date = match parsed.date {
        Some(s) => Timestamp { secs: s, nanos: 0 },
        None => now,
    };
    let seen = vec!['\\', 'S', 'e', 'e', 'n'];
    let flagged = vec!['\\', 'F', 'l', 'a', 'g', 'g', 'e', 'd'];
    assert(seen@ =~= seen_flag());
    assert(flagged@ =~= flagged_flag());
    let is_read = has_flag(&raw.flags, string_of(&seen).as_str());
    let is_flagged = has_flag(&raw.flags, string_of(&flagged).as_str());
    let ghost p = parsed;
    let r = NewMessage {
        account_id,
        folder_id,
        uid: raw.uid,
        message_id: parsed.message_id,
        thread_key: key,
        from,
        to: parsed.to,
        cc: parsed.cc,
        subject: parsed.subject,
        date,
        snippet: snip,
        body_text: parsed.body_text,
        body_html: parsed.body_html,
        has_attachments: parsed.has_attachments,
        is_read,
        is_flagged,
        raw_path: Some(raw_path),
    };
    proof {
        law_read_and_flagged_follow_the_flags(r, p, *raw, account_id, folder_id, r.raw_path->0@, now);
    }
    r
}

} // verus!
