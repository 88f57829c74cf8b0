//! The decisions of the command-line tool: which accounts a `sync` run
//! covers, why an account is skipped, how the run ends, and the lines it
//! prints.

use vstd::prelude::*;
use crate::text::{chars_of, string_of, push_all, push_text, dec, dec_int, dec_i64, dec_u64, join, join_chars, vv};
use crate::time::{format_minute, minute_text, timestamp_in_range};
use crate::domain::{Account, AccountKind, AccountSettings, Address, Timestamp, kind_name, kind_from_name};
use crate::imap::{ImapConfig, ConfigError, config_from, chrono_secs_in_range};
use crate::engine::SyncReport;
use crate::grouping::copy_tag;
use crate::paths::opt_str_view;

verus! {

/// Why an account is not synchronised.
#[derive(Debug, Clone, Copy, PartialEq, Eq)]
pub enum SkipReason {
    /// Only IMAP accounts can be synchronised yet; `kind` names the kind.
    NotImap { kind: &'static str },
    /// An IMAP account without a host.
    NoHost,
}

/// The line printed for a skipped account.
pub open spec fn skip_text(r: SkipReason, account_id: int) -> Seq<char> {
    match r {
        SkipReason::NotImap { kind } => "account #"@ + dec_int(account_id) + ": kind '"@ + kind@
            + "' not supported yet"@,
        SkipReason::NoHost => "account #"@ + dec_int(account_id) + ": has no host configured"@,
    }
}

impl SkipReason {
    /// The line printed for a skipped account.
    pub fn message(&self, account_id: i64) -> (r: String)
        ensures
            r@ == skip_text(*self, account_id as int),
    {
        let mut out: Vec<char> = Vec::new();
        push_text(&mut out, "account #");
        let d = dec_i64(account_id);
        push_all(&mut out, d.as_slice());
        match self {
            SkipReason::NotImap { kind } => {
                push_text(&mut out, ": kind '");
                push_text(&mut out, kind);
                push_text(&mut out, "' not supported yet");
            },
            SkipReason::NoHost => {
                push_text(&mut out, ": has no host configured");
            },
        }
        string_of(out.as_slice())
    }
}

/// The connection of an account, or why it is skipped: only IMAP accounts
/// with a host; the port defaults to 993, the user name to the address,
/// STARTTLS to off.
pub fn imap_config_from_account(a: &Account) -> (r: Result<ImapConfig, SkipReason>)
    ensures
        a.kind != AccountKind::Imap ==> (r matches Err(SkipReason::NotImap { kind }) && kind@ == kind_name(a.kind)),
        a.kind == AccountKind::Imap && a.settings.host is None ==> r matches Err(SkipReason::NoHost),
        a.kind == AccountKind::Imap && a.settings.host is Some ==> (r matches Ok(c) && config_from(*a, c)),
{
    match ImapConfig::from_account(a) {
        Ok(c) => Ok(c),
        Err(ConfigError::NotImap { kind }) => Err(SkipReason::NotImap { kind }),
        Err(ConfigError::NoHost) => Err(SkipReason::NoHost),
    }
}

/// The tally of one `sync` run.
#[derive(Debug, Clone, Copy, Default, PartialEq, Eq, Structural)]
pub struct SyncOutcome {
    /// Accounts whose synchronisation was tried (skipped ones not counted).
    pub attempted: usize,
    /// Of those, the ones that failed.
    pub failed: usize,
    /// Accounts skipped for their kind or settings.
    pub skipped: usize,
}

/// How a `sync` run ends: an error (and a non-zero exit) when nothing was
/// tried or anything failed; a summary line when several accounts were
/// synchronised; nothing more for one.
pub open spec fn sync_exit(o: SyncOutcome) -> Result<Option<Seq<char>>, Seq<char>> {
    if o.attempted == 0 {
        if o.skipped > 0 {
            Err("no accounts to sync (all accounts were skipped — check --account id, kind, host)"@)
        } else {
            Err("no accounts to sync"@)
        }
    } else if o.failed > 0 {
        Err("sync failed for "@ + dec(o.failed as nat) + " of "@ + dec(o.attempted as nat) + " account(s)"@)
    } else if o.attempted > 1 {
        Ok(Some("synced "@ + dec(o.attempted as nat) + " account(s), "@ + dec(o.failed as nat) + " failed"@))
    } else {
        Ok(None)
    }
}

/// How a `sync` run ends.
pub fn sync_exit_result(o: &SyncOutcome) -> (r: Result<Option<String>, String>)
    ensures
        match sync_exit(*o) {
            Ok(Some(s)) => r matches Ok(Some(x)) && x@ == s,
            Ok(None) => r matches Ok(None),
            Err(e) => r matches Err(x) && x@ == e,
        },
{
    if o.attempted == 0 {
        if o.skipped > 0 {
            return Err(String::from_str(
                "no accounts to sync (all accounts were skipped — check --account id, kind, host)",
            ));
        } else {
            return Err(String::from_str("no accounts to sync"));
        }
    }
    if o.failed > 0 {
        let mut out: Vec<char> = Vec::new();
        push_text(&mut out, "sync failed for ");
        push_all(&mut out, dec_u64(o.failed as u64).as_slice());
        push_text(&mut out, " of ");
        push_all(&mut out, dec_u64(o.attempted as u64).as_slice());
        push_text(&mut out, " account(s)");
        return Err(string_of(out.as_slice()));
    }
    if o.attempted > 1 {
        let mut out: Vec<char> = Vec::new();
        push_text(&mut out, "synced ");
        push_all(&mut out, dec_u64(o.attempted as u64).as_slice());
        push_text(&mut out, " account(s), ");
        push_all(&mut out, dec_u64(o.failed as u64).as_slice());
        push_text(&mut out, " failed");
        Ok(Some(string_of(out.as_slice())))
    } else {
        Ok(None)
    }
}

/// The accounts a `sync` run covers: the one asked for, or all.
pub open spec fn targets_of(ids: Seq<i64>, account: Option<i64>) -> Seq<int>
    decreases ids.len(),
{
    if ids.len() == 0 {
        Seq::empty()
    } else {
        let rest = targets_of(ids.drop_last(), account);
        match account {
            Some(a) => if ids.last() == a {
                rest.push(ids.len() - 1)
            } else {
                rest
            },
            None => rest.push(ids.len() - 1),
        }
    }
}

/// The positions of the accounts a `sync` run covers, given the accounts'
/// ids in order.
pub fn sync_targets(ids: &[i64], account: Option<i64>) -> (r: Vec<usize>)
    ensures
        crate::grouping::index_view(r@) == targets_of(ids@, account),
{
    let n = ids.len();
    let mut r: Vec<usize> = Vec::new();
    let mut i: usize = 0;
    assert(ids@.take(0) =~= Seq::<i64>::empty());
    while i < n
        invariant
            n == ids@.len(),
            i <= n,
            crate::grouping::index_view(r@) == targets_of(ids@.take(i as int), account),
        decreases n - i,
    {
        assert(ids@.take(i + 1).drop_last() =~= ids@.take(i as int));
        assert(ids@.take(i + 1).last() == ids@[i as int]);
        let take = match account {
            Some(a) => ids[i] == a,
            None => true,
        };
        if take {
            let ghost before = r@;
            r.push(i);
            assert(crate::grouping::index_view(r@) =~= crate::grouping::index_view(before).push(i as int));
        }
        i += 1;
    }
    assert(ids@.take(n as int) =~= ids@);
    r
}

/// The start of the messages a `sync` run takes: `days` days before `now`
/// (seconds since the epoch); `None` when that lies outside the dates that
/// `chrono` can represent.
pub fn since_days(now_secs: i64, days: i64) -> (r: Option<i64>)
    ensures
        chrono_secs_in_range(now_secs - days * 86400) ==> r == Some((now_secs - days * 86400) as i64),
        !chrono_secs_in_range(now_secs - days * 86400) ==> r is None,
{
    let t: i128 = now_secs as i128 - (days as i128) * 86400;
    if -8334601315200 <= t && t <= 8210266876799 {
        Some(t as i64)
    } else {
        None
    }
}

/// The error for an unknown account kind.
pub open spec fn unknown_kind_text(kind: Seq<char>) -> Seq<char> {
    "unknown kind '"@ + kind + "' (imap|gmail|m365)"@
}

/// The kind named on the command line.
pub fn kind_arg(kind: &str) -> (r: Result<AccountKind, String>)
    ensures
        match kind_from_name(kind@) {
            Some(k) => r matches Ok(x) && x == k,
            None => r matches Err(e) && e@ == unknown_kind_text(kind@),
        },
{
    match AccountKind::parse(kind) {
        Some(k) => Ok(k),
        None => {
            let mut out: Vec<char> = Vec::new();
            push_text(&mut out, "unknown kind '");
            push_text(&mut out, kind);
            push_text(&mut out, "' (imap|gmail|m365)");
            Err(string_of(out.as_slice()))
        },
    }
}

/// The settings of an account added from the command line: the user name
/// defaults to the address.
pub fn cli_account_settings(host: Option<String>, port: u16, username: Option<String>, email: &str, starttls: bool) -> (r: AccountSettings)
    ensures
        opt_str_view(r.host) == opt_str_view(host),
        r.port == Some(port as u64),
        r.username matches Some(u) && u@ == (match username {
            Some(n) => n@,
            None => email@,
        }),
        r.starttls == Some(starttls),
{
    let user = match username {
        Some(n) => n,
        None => String::from_str(email),
    };
    AccountSettings { host, port: Some(port as u64), username: Some(user), starttls: Some(starttls) }
}

/// Whether an account id is among the registered ones.
pub fn account_exists(ids: &[i64], id: i64) -> (r: bool)
    ensures
        r == ids@.contains(id),
{
    let n = ids.len();
    let mut i: usize = 0;
    while i < n
        invariant
            n == ids@.len(),
            i <= n,
            forall|k: int| 0 <= k < i ==> ids@[k] != id,
        decreases n - i,
    {
        if ids[i] == id {
            assert(ids@[i as int] == id);
            return true;
        }
        i += 1;
    }
    false
}

/// `n` spaces.
pub open spec fn spaces(n: int) -> Seq<char> {
    Seq::new(if n > 0 { n as nat } else { 0 }, |i: int| ' ')
}

/// `s` padded with spaces on the right to `width` characters.
pub open spec fn pad_right_text(s: Seq<char>, width: int) -> Seq<char> {
    s + spaces(width - s.len())
}

/// `s` padded with spaces on the left to `width` characters.
pub open spec fn pad_left_text(s: Seq<char>, width: int) -> Seq<char> {
    spaces(width - s.len()) + s
}

fn push_spaces(out: &mut Vec<char>, n: usize)
    ensures
        final(out)@ == old(out)@ + spaces(n as int),
{
    let mut i: usize = 0;
    while i < n
        invariant
            i <= n,
            out@ == old(out)@ + spaces(i as int),
        decreases n - i,
    {
        out.push(' ');
        i += 1;
        assert(out@ =~= old(out)@ + spaces(i as int));
    }
}

fn push_padded_right(out: &mut Vec<char>, s: &[char], width: usize)
    ensures
        final(out)@ == old(out)@ + pad_right_text(s@, width as int),
{
    push_all(out, s);
    let pad: usize = if s.len() < width { width - s.len() } else { 0 };
    push_spaces(out, pad);
    assert(spaces(pad as int) =~= spaces(width - s@.len()));
}

/// One line of `accounts list`: id right-aligned in 3 columns, kind in 6,
/// address in 32, project (or `-`) in 12, then the name.
pub open spec fn account_line_text(a: Account) -> Seq<char> {
    pad_left_text(dec_int(a.id as int), 3) + "  "@ + pad_right_text(kind_name(a.kind), 6) + " "@
        + pad_right_text(a.email@, 32) + " "@ + pad_right_text(
        match opt_str_view(a.project_tag) {
            Some(t) => t,
            None => "-"@,
        },
        12,
    ) + " "@ + a.name@
}

/// One line of `accounts list`.
pub fn account_line(a: &Account) -> (r: String)
    ensures
        r@ == account_line_text(*a),
{
    let mut out: Vec<char> = Vec::new();
    let id = dec_i64(a.id);
    let pad: usize = if id.len() < 3 { 3 - id.len() } else { 0 };
    push_spaces(&mut out, pad);
    assert(spaces(pad as int) =~= spaces(3 - id@.len()));
    push_all(&mut out, id.as_slice());
    push_text(&mut out, "  ");
    push_padded_right(&mut out, chars_of(a.kind.as_str()).as_slice(), 6);
    push_text(&mut out, " ");
    push_padded_right(&mut out, chars_of(a.email.as_str()).as_slice(), 32);
    push_text(&mut out, " ");
    let tag = match &a.project_tag {
        Some(t) => chars_of(t.as_str()),
        None => chars_of("-"),
    };
    push_padded_right(&mut out, tag.as_slice(), 12);
    push_text(&mut out, " ");
    push_text(&mut out, a.name.as_str());
    string_of(out.as_slice())
}

/// How an address is shown: its display name, or the address itself.
pub open spec fn shown_name(a: Address) -> Seq<char> {
    match a.name {
        Some(n) => n@,
        None => a.email@,
    }
}

fn shown_name_chars(a: &Address) -> (r: Vec<char>)
    ensures
        r@ == shown_name(*a),
{
    match &a.name {
        Some(n) => chars_of(n.as_str()),
        None => chars_of(a.email.as_str()),
    }
}

/// One line of `search`: `*` for an unread message (else a space), the id
/// right-aligned in 5 columns, the date to the minute, the sender's name in
/// 28 columns, then the subject.
pub open spec fn search_hit_line_text(is_read: bool, id: int, date: Timestamp, from: Address, subject: Seq<char>) -> Seq<char> {
    (if is_read { " "@ } else { "*"@ }) + " "@ + pad_left_text(dec_int(id), 5) + " "@ + minute_text(
        date.secs as int,
        date.nanos as int,
    ) + " "@ + pad_right_text(shown_name(from), 28) + " "@ + subject
}

/// One line of `search`.
pub fn search_hit_line(is_read: bool, id: i64, date: Timestamp, from: &Address, subject: &str) -> (r: String)
    requires
        timestamp_in_range(date),
    ensures
        r@ == search_hit_line_text(is_read, id as int, date, *from, subject@),
{
    let mut out: Vec<char> = Vec::new();
    if is_read {
        push_text(&mut out, " ");
    } else {
        push_text(&mut out, "*");
    }
    push_text(&mut out, " ");
    let d = dec_i64(id);
    let pad: usize = if d.len() < 5 { 5 - d.len() } else { 0 };
    push_spaces(&mut out, pad);
    assert(spaces(pad as int) =~= spaces(5 - d@.len()));
    push_all(&mut out, d.as_slice());
    push_text(&mut out, " ");
    push_text(&mut out, format_minute(date).as_str());
    push_text(&mut out, " ");
    push_padded_right(&mut out, shown_name_chars(from).as_slice(), 28);
    push_text(&mut out, " ");
    push_text(&mut out, subject);
    string_of(out.as_slice())
}

/// The names of a list of addresses, as shown.
pub open spec fn shown_names(v: Seq<Address>) -> Seq<Seq<char>> {
    v.map_values(|a: Address| shown_name(a))
}

/// What `show` prints of a message: subject, sender, recipients (joined by
/// `, `), date to the minute, folder and UID, a blank line, then the body.
pub open spec fn show_text(
    subject: Seq<char>,
    from: Address,
    to: Seq<Address>,
    date: Timestamp,
    folder: Seq<char>,
    uid: u32,
    body: Seq<char>,
) -> Seq<char> {
    "Subject: "@ + subject + "\nFrom: "@ + shown_name(from) + "\nTo: "@ + join(shown_names(to), ", "@)
        + "\nDate: "@ + minute_text(date.secs as int, date.nanos as int) + "\nFolder: "@ + folder
        + "\nUID: "@ + dec(uid as nat) + "\n\n"@ + body
}

/// What `show` prints of a message.
pub fn show_message_text(
    subject: &str,
    from: &Address,
    to: &[Address],
    date: Timestamp,
    folder: &str,
    uid: u32,
    body: &str,
) -> (r: String)
    requires
        timestamp_in_range(date),
    ensures
        r@ == show_text(subject@, *from, to@, date, folder@, uid, body@),
{
    let mut names: Vec<Vec<char>> = Vec::new();
    let n = to.len();
    let mut i: usize = 0;
    while i < n
        invariant
            n == to@.len(),
            i <= n,
            vv(names@) == shown_names(to@).take(i as int),
        decreases n - i,
    {
        let ghost before = vv(names@);
        names.push(shown_name_chars(&to[i]));
        assert(vv(names@) =~= before.push(shown_name(to@[i as int])));
        assert(shown_names(to@).take(i + 1) =~= shown_names(to@).take(i as int).push(shown_name(to@[i as int])));
        i += 1;
    }
    assert(shown_names(to@).take(n as int) =~= shown_names(to@));
    let sep = chars_of(", ");
    let mut out: Vec<char> = Vec::new();
    push_text(&mut out, "Subject: ");
    push_text(&mut out, subject);
    push_text(&mut out, "\nFrom: ");
    push_all(&mut out, shown_name_chars(from).as_slice());
    push_text(&mut out, "\nTo: ");
    push_all(&mut out, join_chars(&names, sep.as_slice()).as_slice());
    push_text(&mut out, "\nDate: ");
    push_text(&mut out, format_minute(date).as_str());
    push_text(&mut out, "\nFolder: ");
    push_text(&mut out, folder);
    push_text(&mut out, "\nUID: ");
    push_all(&mut out, dec_u64(uid as u64).as_slice());
    push_text(&mut out, "\n\n");
    push_text(&mut out, body);
    string_of(out.as_slice())
}

/// The line printed after an account's synchronisation.
pub open spec fn report_line_text(account_id: int, r: SyncReport) -> Seq<char> {
    "account #"@ + dec_int(account_id) + ": fetched="@ + dec(r.fetched as nat) + " inserted="@ + dec(
        r.inserted as nat,
    ) + " skipped="@ + dec(r.skipped as nat) + " errors="@ + dec(r.errors as nat)
}

/// The line printed after an account's synchronisation.
pub fn report_line(account_id: i64, report: &SyncReport) -> (r: String)
    ensures
        r@ == report_line_text(account_id as int, *report),
{
    let mut out: Vec<char> = Vec::new();
    push_text(&mut out, "account #");
    push_all(&mut out, dec_i64(account_id).as_slice());
    push_text(&mut out, ": fetched=");
    push_all(&mut out, dec_u64(report.fetched as u64).as_slice());
    push_text(&mut out, " inserted=");
    push_all(&mut out, dec_u64(report.inserted as u64).as_slice());
    push_text(&mut out, " skipped=");
    push_all(&mut out, dec_u64(report.skipped as u64).as_slice());
    push_text(&mut out, " errors=");
    push_all(&mut out, dec_u64(report.errors as u64).as_slice());
    string_of(out.as_slice())
}

} // verus!
