//! The pure parts of the IMAP backend: configuration from account settings,
//! folder roles, search queries, flags and fetch batches. The network side
//! (TLS, login, commands) lives with the application.
use vstd::prelude::*;
use crate::domain::{kind_name, Account, AccountKind, BackendError, FolderRole, FolderStatus};
use crate::text::{
    chars_eq, chars_of, dec, lower_chars, lower_seq, push_all, string_of, sub_vec, trim,
    trim_chars, dec_u64,
};

verus! {

/// How many UIDs go into one `UID FETCH`.
pub const FETCH_CHUNK_SIZE: usize = 200;

/// Default IMAP port (implicit TLS).
pub const DEFAULT_IMAP_PORT: u16 = 993;

/// How to reach one IMAP account.
#[derive(Debug, Clone)]
pub struct ImapConfig {
    pub account_id: i64,
    pub host: String,
    pub port: u16,
    pub username: String,
    pub starttls: bool,
}

/// Why an account's settings give no `ImapConfig`.
#[derive(Debug, Clone, PartialEq, Eq)]
pub enum ConfigError {
    NotImap { kind: &'static str },
    NoHost,
}

impl ConfigError {
    /// The text that describes this error.
    pub fn message(&self) -> (r: String)
        ensures
            r@ == (match *self {
                ConfigError::NotImap { kind } => "kind '"@ + kind@ + "' not supported yet"@,
                ConfigError::NoHost => "has no host configured"@,
            }),
    {
        match self {
            ConfigError::NotImap { kind } => {
                let mut s = String::from_str("kind '");
                s.append(kind);
                s.append("' not supported yet");
                s
            },
            ConfigError::NoHost => String::from_str("has no host configured"),
        }
    }
}

/// What `from_account` builds: host required, port 993 by default (a stored
/// port is truncated to 16 bits), username the e-mail address by default,
/// STARTTLS off by default.
pub open spec fn config_from(a: Account, c: ImapConfig) -> bool {
    &&& a.settings.host matches Some(h) && c.host@ == h@
    &&& c.account_id == a.id
    &&& c.port == (match a.settings.port {
        Some(p) => p as u16,
        None => 993u16,
    })
    &&& c.username@ == (match a.settings.username {
        Some(u) => u@,
        None => a.email@,
    })
    &&& c.starttls == (match a.settings.starttls {
        Some(b) => b,
        None => false,
    })
}

impl ImapConfig {
    /// Builds the configuration from an account's settings.
    pub fn from_account(a: &Account) -> (r: Result<ImapConfig, ConfigError>)
        ensures
            a.kind != AccountKind::Imap ==> (r matches Err(ConfigError::NotImap { kind })
                && kind@ == kind_name(a.kind)),
            a.kind == AccountKind::Imap && a.settings.host is None ==> r matches Err(
                ConfigError::NoHost,
            ),
            a.kind == AccountKind::Imap && a.settings.host is Some ==> (r matches Ok(c)
                && config_from(*a, c)),
    {
        if a.kind != AccountKind::Imap {
            return Err(ConfigError::NotImap { kind: a.kind.as_str() });
        }
        let host = match &a.settings.host {
            Some(h) => h.clone(),
            None => return Err(ConfigError::NoHost),
        };
        let port: u16 = match a.settings.port {
            Some(p) => p as u16,
            None => DEFAULT_IMAP_PORT,
        };
        let username = match &a.settings.username {
            Some(u) => u.clone(),
            None => a.email.clone(),
        };
        let starttls = match a.settings.starttls {
            Some(b) => b,
            None => false,
        };
        Ok(ImapConfig { account_id: a.id, host, port, username, starttls })
    }
}

/// The IMAP backend of one account. The password, when given here, is used
/// instead of the keyring (a connection test before the account is saved).
pub struct ImapBackend {
    pub config: ImapConfig,
    password: Option<String>,
}

impl ImapBackend {
    /// A backend that reads its password from the keyring.
    pub fn new(config: ImapConfig) -> (r: ImapBackend)
        ensures
            r.backend_config() == config,
            r.supplied_password() is None,
    {
        ImapBackend { config, password: None }
    }

    /// A backend that uses the given password.
    pub fn with_password(config: ImapConfig, password: String) -> (r: ImapBackend)
        ensures
            r.backend_config() == config,
            r.supplied_password() == Some(password),
    {
        ImapBackend { config, password: Some(password) }
    }

    pub closed spec fn backend_config(&self) -> ImapConfig {
        self.config
    }

    pub closed spec fn supplied_password(&self) -> Option<String> {
        self.password
    }

    /// The password given to `with_password`, if any.
    pub fn password(&self) -> (r: Option<String>)
        ensures
            r == self.supplied_password(),
    {
        self.password.clone()
    }
}

// ---- folder roles --------------------------------------------------------------

pub open spec fn name_sent() -> Seq<char> {
    seq!['s', 'e', 'n', 't']
}

pub open spec fn name_sent_items() -> Seq<char> {
    seq!['s', 'e', 'n', 't', ' ', 'i', 't', 'e', 'm', 's']
}

pub open spec fn name_sent_messages() -> Seq<char> {
    seq!['s', 'e', 'n', 't', ' ', 'm', 'e', 's', 's', 'a', 'g', 'e', 's']
}

pub open spec fn name_sent_ja() -> Seq<char> {
    seq!['送', '信', '済', 'み']
}

pub open spec fn name_sent_tray_ja() -> Seq<char> {
    seq!['送', '信', '済', 'み', 'ト', 'レ', 'イ']
}

pub open spec fn name_drafts() -> Seq<char> {
    seq!['d', 'r', 'a', 'f', 't', 's']
}

pub open spec fn name_drafts_ja() -> Seq<char> {
    seq!['下', '書', 'き']
}

pub open spec fn name_drafts_zh() -> Seq<char> {
    seq!['草', '稿']
}

pub open spec fn name_trash() -> Seq<char> {
    seq!['t', 'r', 'a', 's', 'h']
}

pub open spec fn name_deleted_items() -> Seq<char> {
    seq!['d', 'e', 'l', 'e', 't', 'e', 'd', ' ', 'i', 't', 'e', 'm', 's']
}

pub open spec fn name_trash_ja() -> Seq<char> {
    seq!['ゴ', 'ミ', '箱']
}

pub open spec fn name_deleted_ja() -> Seq<char> {
    seq!['削', '除', '済', 'み']
}

pub open spec fn name_archive() -> Seq<char> {
    seq!['a', 'r', 'c', 'h', 'i', 'v', 'e']
}

pub open spec fn name_archive_ja() -> Seq<char> {
    seq!['ア', 'ー', 'カ', 'イ', 'ブ']
}

pub open spec fn name_inbox() -> Seq<char> {
    seq!['i', 'n', 'b', 'o', 'x']
}


/// Start of the last segment of a hierarchical name (after the last `.` or
/// `/`), looking at `s[..j]`.
pub open spec fn segment_start(s: Seq<char>, j: int) -> int
    decreases j,
{
    if 0 < j <= s.len() && !(s[j - 1] == '.' || s[j - 1] == '/') {
        segment_start(s, j - 1)
    } else {
        j
    }
}

pub proof fn lemma_segment_start(s: Seq<char>, j: int)
    requires
        0 <= j <= s.len(),
    ensures
        0 <= segment_start(s, j) <= j,
    decreases j,
{
    if j > 0 && !(s[j - 1] == '.' || s[j - 1] == '/') {
        lemma_segment_start(s, j - 1);
    }
}

/// The folder role guessed from a name when the server sends no SPECIAL-USE
/// attribute. `INBOX` (in any case) is always the inbox; otherwise the last
/// segment of the name, trimmed and ASCII lower-cased, is compared with known
/// English and Japanese names.
pub open spec fn role_of_name(name: Seq<char>) -> FolderRole {
    let t = trim(name);
    if lower_seq(t) == name_inbox() {
        FolderRole::Inbox
    } else {
        let l = lower_seq(trim(t.skip(segment_start(t, t.len() as int))));
        if l == name_sent() || l == name_sent_items() || l == name_sent_messages() || l
            == name_sent_ja() || l == name_sent_tray_ja() {
            FolderRole::Sent
        } else if l == name_drafts() || l == name_drafts_ja() || l == name_drafts_zh() {
            FolderRole::Drafts
        } else if l == name_trash() || l == name_deleted_items() || l == name_trash_ja() || l
            == name_deleted_ja() {
            FolderRole::Trash
        } else if l == name_archive() || l == name_archive_ja() {
            FolderRole::Archive
        } else {
            FolderRole::Other
        }
    }
}

fn is_one_of(l: &[char], names: &Vec<Vec<char>>) -> (r: bool)
    ensures
        r == exists|i: int| 0 <= i < names@.len() && l@ == #[trigger] names@[i]@,
{
    let mut i: usize = 0;
    while i < names.len()
        invariant
            i <= names@.len(),
            forall|k: int| 0 <= k < i ==> l@ != #[trigger] names@[k]@,
        decreases names@.len() - i,
    {
        if chars_eq(l, names[i].as_slice()) {
            return true;
        }
        i += 1;
    }
    false
}

/// Guesses a folder's role from its name.
pub fn role_from_name(name: &str) -> (r: FolderRole)
    ensures
        r == role_of_name(name@),
{
    let all = chars_of(name);
    let t = trim_chars(&all);
    let lt = lower_chars(&t);
    let inbox = vec!['i', 'n', 'b', 'o', 'x'];
    assert(inbox@ =~= name_inbox());
    if chars_eq(&lt, &inbox) {
        return FolderRole::Inbox;
    }
    let n = t.len();
    let mut j = n;
    while j > 0 && !(t[j - 1] == '.' || t[j - 1] == '/')
        invariant
            n == t@.len(),
            j <= n,
            segment_start(t@, j as int) == segment_start(t@, n as int),
        decreases j,
    {
        j -= 1;
    }
    let last = sub_vec(&t, j, n);
    assert(last@ =~= t@.skip(j as int));
    let l = lower_chars(&trim_chars(&last));
    let sent = vec![vec!['s', 'e', 'n', 't'], vec!['s', 'e', 'n', 't', ' ', 'i', 't', 'e', 'm', 's'], vec!['s', 'e', 'n', 't', ' ', 'm', 'e', 's', 's', 'a', 'g', 'e', 's'], vec!['送', '信', '済', 'み'], vec!['送', '信', '済', 'み', 'ト', 'レ', 'イ']];
    let drafts = vec![vec!['d', 'r', 'a', 'f', 't', 's'], vec!['下', '書', 'き'], vec!['草', '稿']];
    let trash = vec![vec!['t', 'r', 'a', 's', 'h'], vec!['d', 'e', 'l', 'e', 't', 'e', 'd', ' ', 'i', 't', 'e', 'm', 's'], vec!['ゴ', 'ミ', '箱'], vec!['削', '除', '済', 'み']];
    let archive = vec![vec!['a', 'r', 'c', 'h', 'i', 'v', 'e'], vec!['ア', 'ー', 'カ', 'イ', 'ブ']];
    assert(sent@[0]@ =~= name_sent());
    assert(sent@[1]@ =~= name_sent_items());
    assert(sent@[2]@ =~= name_sent_messages());
    assert(sent@[3]@ =~= name_sent_ja());
    assert(sent@[4]@ =~= name_sent_tray_ja());
    assert(drafts@[0]@ =~= name_drafts());
    assert(drafts@[1]@ =~= name_drafts_ja());
    assert(drafts@[2]@ =~= name_drafts_zh());
    assert(trash@[0]@ =~= name_trash());
    assert(trash@[1]@ =~= name_deleted_items());
    assert(trash@[2]@ =~= name_trash_ja());
    assert(trash@[3]@ =~= name_deleted_ja());
    assert(archive@[0]@ =~= name_archive());
    assert(archive@[1]@ =~= name_archive_ja());
    if is_one_of(&l, &sent) {
        FolderRole::Sent
    } else if is_one_of(&l, &drafts) {
        FolderRole::Drafts
    } else if is_one_of(&l, &trash) {
        FolderRole::Trash
    } else if is_one_of(&l, &archive) {
        FolderRole::Archive
    } else {
        FolderRole::Other
    }
}

/// The SPECIAL-USE attributes of a folder that decide its role.
#[derive(Debug, Clone, Copy, PartialEq, Eq, Structural)]
pub enum NameAttribute {
    Sent,
    Drafts,
    Trash,
    Archive,
    Junk,
    /// Any other attribute.
    Other,
}

/// The role given by the first deciding attribute from `i` on (`\Junk` counts
/// as `Other`), if there is one.
pub open spec fn role_of_attributes(attrs: Seq<NameAttribute>, i: int) -> Option<FolderRole>
    decreases attrs.len() - i,
{
    if i < 0 || i >= attrs.len() {
        None
    } else {
        match attrs[i] {
            NameAttribute::Sent => Some(FolderRole::Sent),
            NameAttribute::Drafts => Some(FolderRole::Drafts),
            NameAttribute::Trash => Some(FolderRole::Trash),
            NameAttribute::Archive => Some(FolderRole::Archive),
            NameAttribute::Junk => Some(FolderRole::Other),
            NameAttribute::Other => role_of_attributes(attrs, i + 1),
        }
    }
}

/// The role that the SPECIAL-USE attributes give, if any.
pub fn role_from_attributes(attributes: &[NameAttribute]) -> (r: Option<FolderRole>)
    ensures
        r == role_of_attributes(attributes@, 0),
{
    let mut i: usize = 0;
    while i < attributes.len()
        invariant
            i <= attributes@.len(),
            role_of_attributes(attributes@, i as int) == role_of_attributes(attributes@, 0),
        decreases attributes@.len() - i,
    {
        match attributes[i] {
            NameAttribute::Sent => return Some(FolderRole::Sent),
            NameAttribute::Drafts => return Some(FolderRole::Drafts),
            NameAttribute::Trash => return Some(FolderRole::Trash),
            NameAttribute::Archive => return Some(FolderRole::Archive),
            NameAttribute::Junk => return Some(FolderRole::Other),
            NameAttribute::Other => {},
        }
        i += 1;
    }
    None
}

/// The role of a listed folder: from its attributes, else from its name.
pub fn folder_role(name: &str, attributes: &[NameAttribute]) -> (r: FolderRole)
    ensures
        r == (match role_of_attributes(attributes@, 0) {
            Some(role) => role,
            None => role_of_name(name@),
        }),
{
    match role_from_attributes(attributes) {
        Some(role) => role,
        None => role_from_name(name),
    }
}

// ---- search and fetch ------------------------------------------------------------

/// `DateTime::<Utc>::from_timestamp(secs, 0)` formatted as `%d-%b-%Y`
/// (for example `01-Sep-2025`).
pub uninterp spec fn imap_date_text(secs: int) -> Seq<char>;

/// The smallest and largest second counts that `chrono` turns into a date.
pub open spec fn chrono_secs_in_range(secs: int) -> bool {
    -8334601315200 <= secs <= 8210266876799
}

/// Whether `chrono` turns `secs` into a date.
pub fn secs_in_chrono_range(secs: i64) -> (r: bool)
    ensures
        r == chrono_secs_in_range(secs as int),
{
    -8334601315200 <= secs && secs <= 8210266876799
}

/// Calls `chrono::DateTime::<Utc>::from_timestamp(secs, 0)` and `format("%d-%b-%Y")`.
#[verifier::external_body]
fn imap_date(secs: i64) -> (r: String)
    requires
        chrono_secs_in_range(secs as int),
    ensures
        r@ == imap_date_text(secs as int),
{
    match chrono::DateTime::<chrono::Utc>::from_timestamp(secs, 0) {
        Some(dt) => dt.format("%d-%b-%Y").to_string(),
        None => String::new(),
    }
}

/// The `UID SEARCH` criteria: every UID above `since_uid` (which never
/// overflows, even at `u32::MAX`), and `SINCE <date>` when a date is given.
pub open spec fn search_query_text(since_uid: u32, since: Option<i64>) -> Seq<char> {
    let lower = if since_uid == u32::MAX {
        since_uid as int
    } else {
        since_uid + 1
    };
    let base = seq!['U', 'I', 'D', ' '] + dec(lower as nat) + seq![':', '*'];
    match since {
        Some(s) => base + seq![' ', 'S', 'I', 'N', 'C', 'E', ' '] + imap_date_text(s as int),
        None => base,
    }
}

/// Builds the criteria of `UID SEARCH`.
pub fn build_search_query(since_uid: u32, since: Option<i64>) -> (r: String)
    requires
        since matches Some(s) ==> chrono_secs_in_range(s as int),
    ensures
        r@ == search_query_text(since_uid, since),
{
    let lower = since_uid.saturating_add(1);
    let mut v = vec!['U', 'I', 'D', ' '];
    let d = dec_u64(lower as u64);
    push_all(&mut v, &d);
    v.push(':');
    v.push('*');
    match since {
        Some(s) => {
            push_all(&mut v, &vec![' ', 'S', 'I', 'N', 'C', 'E', ' ']);
            let date = chars_of(imap_date(s).as_str());
            push_all(&mut v, &date);
        },
        None => {},
    }
    string_of(&v)
}

/// The sorted UIDs split into comma-separated sets of at most
/// `FETCH_CHUNK_SIZE`.
pub open spec fn uid_sets(uids: Seq<u32>) -> Seq<Seq<char>>
    decreases uids.len(),
{
    if uids.len() == 0 {
        seq![]
    } else {
        let k = if uids.len() < 200 {
            uids.len() as int
        } else {
            200
        };
        seq![crate::text::join(uids.take(k).map_values(|u: u32| dec(u as nat)), seq![','])]
            + uid_sets(uids.skip(k))
    }
}

/// A sequence is sorted in non-decreasing order.
pub open spec fn sorted_u32(s: Seq<u32>) -> bool {
    forall|i: int, j: int| 0 <= i <= j < s.len() ==> s[i] <= s[j]
}

/// Calls `slice::sort_unstable`: the same values, in non-decreasing order.
#[verifier::external_body]
fn sort_uids(v: &mut Vec<u32>)
    ensures
        final(v)@.to_multiset() == old(v)@.to_multiset(),
        sorted_u32(final(v)@),
{
    v.sort_unstable();
}

/// The `UID FETCH` sets: the UIDs sorted and cut into batches.
pub fn uid_fetch_sets(uids: Vec<u32>) -> (r: Vec<String>)
    ensures
        exists|s: Seq<u32>|
            s.to_multiset() == uids@.to_multiset() && sorted_u32(s) && r@.map_values(
                |x: String| x@,
            ) == uid_sets(s),
{
    let mut v = uids;
    sort_uids(&mut v);
    let n = v.len();
    let mut out: Vec<String> = Vec::new();
    let mut i: usize = 0;
    assert(v@.skip(0) =~= v@);
    assert(out@.map_values(|x: String| x@) + uid_sets(v@) =~= uid_sets(v@));
    while i < n
        invariant
            n == v@.len(),
            i <= n,
            uid_sets(v@) == out@.map_values(|x: String| x@) + uid_sets(v@.skip(i as int)),
        decreases n - i,
    {
        let ghost rest = v@.skip(i as int);
        let end = if n - i < FETCH_CHUNK_SIZE {
            n
        } else {
            i + FETCH_CHUNK_SIZE
        };
        let mut pieces: Vec<Vec<char>> = Vec::new();
        let mut k = i;
        while k < end
            invariant
                n == v@.len(),
                i <= k <= end <= n,
                crate::text::vv(pieces@) == v@.subrange(i as int, k as int).map_values(
                    |u: u32| dec(u as nat),
                ),
            decreases end - k,
        {
            let ghost pv = crate::text::vv(pieces@);
            let d = dec_u64(v[k] as u64);
            pieces.push(d);
            assert(crate::text::vv(pieces@) =~= pv.push(dec(v@[k as int] as nat)));
            assert(v@.subrange(i as int, k + 1).map_values(|u: u32| dec(u as nat)) =~= v@.subrange(
                i as int,
                k as int,
            ).map_values(|u: u32| dec(u as nat)).push(dec(v@[k as int] as nat)));
            k += 1;
            assert(crate::text::vv(pieces@) =~= v@.subrange(i as int, k as int).map_values(
                |u: u32| dec(u as nat),
            ));
        }
        let comma = vec![','];
        assert(comma@ =~= seq![',']);
        let set = string_of(&crate::text::join_chars(&pieces, &comma));
        let ghost ov = out@.map_values(|x: String| x@);
        out.push(set);
        assert(rest.take(end - i) =~= v@.subrange(i as int, end as int));
        assert(rest.skip(end - i) =~= v@.skip(end as int));
        assert(out@.map_values(|x: String| x@) =~= ov.push(set@));
        i = end;
    }
    assert(v@.skip(n as int) =~= Seq::<u32>::empty());
    assert(out@.map_values(|x: String| x@) =~= out@.map_values(|x: String| x@) + Seq::<Seq<char>>::empty());
    out
}

// ---- flags and folder status ------------------------------------------------------

/// A message flag as the server reports it.
#[derive(Debug, Clone)]
pub enum ImapFlag {
    Seen,
    Answered,
    Flagged,
    Deleted,
    Draft,
    Recent,
    MayCreate,
    Custom(String),
}

/// The IMAP text of a flag.
pub open spec fn flag_text(f: ImapFlag) -> Seq<char> {
    match f {
        ImapFlag::Seen => "\\Seen"@,
        ImapFlag::Answered => "\\Answered"@,
        ImapFlag::Flagged => "\\Flagged"@,
        ImapFlag::Deleted => "\\Deleted"@,
        ImapFlag::Draft => "\\Draft"@,
        ImapFlag::Recent => "\\Recent"@,
        ImapFlag::MayCreate => "\\*"@,
        ImapFlag::Custom(s) => s@,
    }
}

/// The IMAP text of a flag.
pub fn flag_to_string(flag: ImapFlag) -> (r: String)
    ensures
        r@ == flag_text(flag),
{
    match flag {
        ImapFlag::Seen => String::from_str("\\Seen"),
        ImapFlag::Answered => String::from_str("\\Answered"),
        ImapFlag::Flagged => String::from_str("\\Flagged"),
        ImapFlag::Deleted => String::from_str("\\Deleted"),
        ImapFlag::Draft => String::from_str("\\Draft"),
        ImapFlag::Recent => String::from_str("\\Recent"),
        ImapFlag::MayCreate => String::from_str("\\*"),
        ImapFlag::Custom(s) => s,
    }
}

/// The folder status from what `EXAMINE` returned; both UIDVALIDITY and
/// UIDNEXT are required.
pub fn mailbox_status(uid_validity: Option<u32>, uid_next: Option<u32>, folder: &str) -> (r:
    Result<FolderStatus, BackendError>)
    ensures
        uid_validity is None ==> (r matches Err(BackendError::Protocol(m)) && m@ == folder@
            + ": server did not return UIDVALIDITY"@),
        uid_validity is Some && uid_next is None ==> (r matches Err(BackendError::Protocol(m))
            && m@ == folder@ + ": server did not return UIDNEXT"@),
        uid_validity is Some && uid_next is Some ==> r == Ok::<FolderStatus, BackendError>(
            FolderStatus { uidvalidity: uid_validity->0, uid_next: uid_next->0 },
        ),
{
    let uidvalidity = match uid_validity {
        Some(v) => v,
        None => {
            let mut m = String::from_str(folder);
            m.append(": server did not return UIDVALIDITY");
            return Err(BackendError::Protocol(m));
        },
    };
    let uid_next = match uid_next {
        Some(v) => v,
        None => {
            let mut m = String::from_str(folder);
            m.append(": server did not return UIDNEXT");
            return Err(BackendError::Protocol(m));
        },
    };
    Ok(FolderStatus { uidvalidity, uid_next })
}

} // verus!
