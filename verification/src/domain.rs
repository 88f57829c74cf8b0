//! Domain types shared by every part of Meowbox, and subject normalisation
//! (the fallback thread key when a message carries no `References` or
//! `In-Reply-To`).
use vstd::prelude::*;
use crate::text::{
    chars_of, chars_eq, has_at, is_whitespace, is_ws, lemma_ws_end, lower, occurs_at, skip_ws,
    string_of, sub_vec, to_lower, trim, trim_chars, ws_end, ws_start_back, lemma_ws_start_back,
};

verus! {

pub type AccountId = i64;

pub type MessageId = i64;

/// The kind of an account; it selects the authentication and the backend.
#[derive(Debug, Clone, Copy, PartialEq, Eq, Structural)]
pub enum AccountKind {
    /// Generic IMAP/SMTP with a password.
    Imap,
    /// Gmail / Google Workspace (OAuth2).
    Gmail,
    /// Microsoft 365 (OAuth2).
    M365,
}

/// The stored name of an account kind.
pub open spec fn kind_name(k: AccountKind) -> Seq<char> {
    match k {
        AccountKind::Imap => seq!['i', 'm', 'a', 'p'],
        AccountKind::Gmail => seq!['g', 'm', 'a', 'i', 'l'],
        AccountKind::M365 => seq!['m', '3', '6', '5'],
    }
}

/// The account kind with the given stored name, if any.
pub open spec fn kind_from_name(s: Seq<char>) -> Option<AccountKind> {
    if s == kind_name(AccountKind::Imap) {
        Some(AccountKind::Imap)
    } else if s == kind_name(AccountKind::Gmail) {
        Some(AccountKind::Gmail)
    } else if s == kind_name(AccountKind::M365) {
        Some(AccountKind::M365)
    } else {
        None
    }
}

impl AccountKind {
    pub fn as_str(&self) -> (r: &'static str)
        ensures
            r@ == kind_name(*self),
    {
        match self {
            AccountKind::Imap => {
                proof {
                    reveal_strlit("imap");
                }
                "imap"
            },
            AccountKind::Gmail => {
                proof {
                    reveal_strlit("gmail");
                }
                "gmail"
            },
            AccountKind::M365 => {
                proof {
                    reveal_strlit("m365");
                }
                "m365"
            },
        }
    }

    pub fn parse(s: &str) -> (r: Option<AccountKind>)
        ensures
            r == kind_from_name(s@),
    {
        let c = chars_of(s);
        if chars_eq(&c, &vec!['i', 'm', 'a', 'p']) {
            Some(AccountKind::Imap)
        } else if chars_eq(&c, &vec!['g', 'm', 'a', 'i', 'l']) {
            Some(AccountKind::Gmail)
        } else if chars_eq(&c, &vec!['m', '3', '6', '5']) {
            Some(AccountKind::M365)
        } else {
            None
        }
    }
}

/// Reading back the stored name of a kind gives the kind again.
pub proof fn law_kind_name_round_trip(k: AccountKind)
    ensures
        kind_from_name(kind_name(k)) == Some(k),
{
    assert(kind_name(AccountKind::Imap) != kind_name(AccountKind::Gmail));
    assert(kind_name(AccountKind::Imap) != kind_name(AccountKind::M365));
    assert(kind_name(AccountKind::Gmail) != kind_name(AccountKind::M365));
}

/// Connection settings stored with an account (never a secret). Each field is
/// what the stored JSON holds under its key when the value has the expected
/// type: `host` and `username` strings, `port` an unsigned integer, `starttls`
/// a boolean.
#[derive(Debug, Clone)]
pub struct AccountSettings {
    pub host: Option<String>,
    pub port: Option<u64>,
    pub username: Option<String>,
    pub starttls: Option<bool>,
}

/// A stored setting as its JSON value shows it: absent, a string, a number
/// (with its value when that is an unsigned 64-bit integer), a boolean, or
/// anything else (`null`, an array, an object).
#[derive(Debug, Clone)]
pub enum SettingValue {
    Missing,
    Str(String),
    Num(Option<u64>),
    Bool(bool),
    Other,
}

/// The settings read from the stored values of `host`, `port`, `username`
/// and `starttls`: a value counts only when it has the expected type.
pub fn settings_from_values(
    host: SettingValue,
    port: SettingValue,
    username: SettingValue,
    starttls: SettingValue,
) -> (r: AccountSettings)
    ensures
        match host {
            SettingValue::Str(h) => r.host matches Some(x) && x@ == h@,
            _ => r.host is None,
        },
        match port {
            SettingValue::Num(Some(p)) => r.port == Some(p),
            _ => r.port is None,
        },
        match username {
            SettingValue::Str(u) => r.username matches Some(x) && x@ == u@,
            _ => r.username is None,
        },
        match starttls {
            SettingValue::Bool(b) => r.starttls == Some(b),
            _ => r.starttls is None,
        },
{
    AccountSettings {
        host: match host {
            SettingValue::Str(h) => Some(h),
            _ => None,
        },
        port: match port {
            SettingValue::Num(Some(p)) => Some(p),
            _ => None,
        },
        username: match username {
            SettingValue::Str(u) => Some(u),
            _ => None,
        },
        starttls: match starttls {
            SettingValue::Bool(b) => Some(b),
            _ => None,
        },
    }
}

/// A point in time: seconds since the Unix epoch and nanoseconds within the
/// second.
#[derive(Debug, Clone, Copy, PartialEq, Eq, Structural)]
pub struct Timestamp {
    pub secs: i64,
    pub nanos: u32,
}

/// `a` is not later than `b`.
pub open spec fn ts_le(a: Timestamp, b: Timestamp) -> bool {
    a.secs < b.secs || (a.secs == b.secs && a.nanos <= b.nanos)
}

/// Whether `a` is not later than `b`.
pub fn timestamp_le(a: Timestamp, b: Timestamp) -> (r: bool)
    ensures
        r == ts_le(a, b),
{
    a.secs < b.secs || (a.secs == b.secs && a.nanos <= b.nanos)
}

/// One mail account. Accounts with the same `project_tag` are searched
/// together as one project.
#[derive(Debug, Clone)]
pub struct Account {
    pub id: AccountId,
    pub name: String,
    pub kind: AccountKind,
    pub email: String,
    pub project_tag: Option<String>,
    pub settings: AccountSettings,
    pub created_at: Timestamp,
}

/// The role of a folder.
#[derive(Debug, Clone, Copy, PartialEq, Eq, Structural)]
pub enum FolderRole {
    Inbox,
    Sent,
    Drafts,
    Trash,
    Archive,
    Other,
}

/// A mail address with an optional display name.
#[derive(Debug, Clone)]
pub struct Address {
    pub name: Option<String>,
    pub email: String,
}

/// A reply draft. Its status is `draft` until the user approves it; nothing
/// here sends mail.
#[derive(Debug, Clone)]
pub struct Draft {
    pub id: i64,
    pub account_id: AccountId,
    pub in_reply_to: Option<MessageId>,
    pub to: Vec<Address>,
    pub subject: String,
    pub body: String,
    /// `draft`, `approved` or `sent`.
    pub status: String,
    pub created_at: Timestamp,
}

/// The status of a task.
#[derive(Debug, Clone, Copy, PartialEq, Eq, Structural)]
pub enum TaskStatus {
    Open,
    Done,
    Dismissed,
}

/// One message as the server handed it out: its UID, its flags and the RFC822
/// bytes.
#[derive(Debug, Clone)]
pub struct RawMessage {
    pub uid: u32,
    pub flags: Vec<String>,
    pub raw: Vec<u8>,
}

/// The state of a folder on the server. When UIDVALIDITY differs from the
/// stored one, the UIDs have changed meaning and the folder is fetched again.
#[derive(Debug, Clone, Copy, PartialEq, Eq, Structural)]
pub struct FolderStatus {
    pub uidvalidity: u32,
    pub uid_next: u32,
}

/// Why a backend call failed.
#[derive(Debug, Clone)]
pub enum BackendError {
    Auth(String),
    Network(String),
    Protocol(String),
}

/// The human-readable text of a backend error.
pub open spec fn backend_error_text(e: BackendError) -> Seq<char> {
    match e {
        BackendError::Auth(m) => "authentication failed: "@ + m@,
        BackendError::Network(m) => "network error: "@ + m@,
        BackendError::Protocol(m) => "protocol error: "@ + m@,
    }
}

impl BackendError {
    /// The text that describes this error.
    pub fn message(&self) -> (r: String)
        ensures
            r@ == backend_error_text(*self),
    {
        match self {
            BackendError::Auth(m) => {
                let mut s = String::from_str("authentication failed: ");
                s.append(m.as_str());
                s
            },
            BackendError::Network(m) => {
                let mut s = String::from_str("network error: ");
                s.append(m.as_str());
                s
            },
            BackendError::Protocol(m) => {
                let mut s = String::from_str("protocol error: ");
                s.append(m.as_str());
                s
            },
        }
    }
}

// ---- subject normalisation ------------------------------------------------

/// Folds full-width ASCII (U+FF01..U+FF5E) to half-width and lower-cases ASCII
/// letters. Used only to build the comparison key.
pub open spec fn fold(c: char) -> char {
    let u = c as u32;
    let d = if 0xFF01 <= u <= 0xFF5E {
        ((u - 0xFEE0) as u32) as char
    } else {
        c
    };
    lower(d)
}

pub open spec fn fold_seq(s: Seq<char>) -> Seq<char> {
    s.map_values(|c: char| fold(c))
}

fn fold_char(c: char) -> (r: char)
    ensures
        r == fold(c),
{
    let u = c as u32;
    let d = if 0xFF01 <= u && u <= 0xFF5E {
        ((u - 0xFEE0) as u8) as char
    } else {
        c
    };
    to_lower(d)
}

fn fold_chars(s: &[char]) -> (r: Vec<char>)
    ensures
        r@ == fold_seq(s@),
{
    let mut out: Vec<char> = Vec::new();
    let mut i: usize = 0;
    while i < s.len()
        invariant
            i <= s@.len(),
            out@ == fold_seq(s@.subrange(0, i as int)),
        decreases s@.len() - i,
    {
        out.push(fold_char(s[i]));
        i += 1;
        assert(fold_seq(s@.subrange(0, i as int)) =~= fold_seq(s@.subrange(0, i - 1)).push(
            fold(s@[i - 1]),
        ));
    }
    assert(s@.subrange(0, s@.len() as int) == s@);
    out
}

pub open spec fn is_digit(c: char) -> bool {
    '0' <= c <= '9'
}

/// The first index at or after `j` that does not hold an ASCII digit.
pub open spec fn digits_end(s: Seq<char>, j: int) -> int
    decreases s.len() - j,
{
    if 0 <= j < s.len() && is_digit(s[j]) {
        digits_end(s, j + 1)
    } else {
        j
    }
}

/// The index just past a numbered bracket such as `[12]` or `(3)` starting at
/// `i`, or `i` itself when there is none.
pub open spec fn bracket_end(s: Seq<char>, i: int) -> int {
    if 0 <= i < s.len() && (s[i] == '[' || s[i] == '(') {
        let close = if s[i] == '[' {
            ']'
        } else {
            ')'
        };
        let j = digits_end(s, i + 1);
        if j > i + 1 && j < s.len() && s[j] == close {
            j + 1
        } else {
            i
        }
    } else {
        i
    }
}

/// The index just after the colon when the prefix word `p`, an optional
/// numbered bracket and a colon stand at `start`.
pub open spec fn try_prefix(s: Seq<char>, start: int, p: Seq<char>) -> Option<int> {
    if occurs_at(s, start, p) {
        let a = bracket_end(s, start + p.len());
        if 0 <= a < s.len() && s[a] == ':' {
            Some(a + 1)
        } else {
            None
        }
    } else {
        None
    }
}

pub open spec fn word_fwd() -> Seq<char> {
    seq!['f', 'w', 'd']
}

pub open spec fn word_fw() -> Seq<char> {
    seq!['f', 'w']
}

pub open spec fn word_re() -> Seq<char> {
    seq!['r', 'e']
}

pub open spec fn word_reply() -> Seq<char> {
    seq!['返', '信']
}

pub open spec fn word_forward() -> Seq<char> {
    seq!['転', '送']
}

pub open spec fn word_answer() -> Seq<char> {
    seq!['回', '答']
}

/// The end of a reply or forward prefix at `start` (`fwd` is tried before
/// `fw`, which it contains).
pub open spec fn prefix_match(s: Seq<char>, start: int) -> Option<int> {
    if try_prefix(s, start, word_fwd()) is Some {
        try_prefix(s, start, word_fwd())
    } else if try_prefix(s, start, word_fw()) is Some {
        try_prefix(s, start, word_fw())
    } else if try_prefix(s, start, word_re()) is Some {
        try_prefix(s, start, word_re())
    } else if try_prefix(s, start, word_reply()) is Some {
        try_prefix(s, start, word_reply())
    } else if try_prefix(s, start, word_forward()) is Some {
        try_prefix(s, start, word_forward())
    } else {
        try_prefix(s, start, word_answer())
    }
}

pub proof fn lemma_digits_end(s: Seq<char>, j: int)
    requires
        0 <= j <= s.len(),
    ensures
        j <= digits_end(s, j) <= s.len(),
        forall|k: int| j <= k < digits_end(s, j) ==> is_digit(#[trigger] s[k]),
        digits_end(s, j) < s.len() ==> !is_digit(s[digits_end(s, j)]),
    decreases s.len() - j,
{
    if j < s.len() && is_digit(s[j]) {
        lemma_digits_end(s, j + 1);
    }
}

pub proof fn lemma_bracket_end(s: Seq<char>, i: int)
    requires
        0 <= i <= s.len(),
    ensures
        i <= bracket_end(s, i) <= s.len(),
{
    if 0 <= i < s.len() && (s[i] == '[' || s[i] == '(') {
        lemma_digits_end(s, i + 1);
    }
}

pub proof fn lemma_try_prefix(s: Seq<char>, start: int, p: Seq<char>)
    requires
        0 <= start <= s.len(),
        p.len() > 0,
    ensures
        try_prefix(s, start, p) matches Some(e) ==> start < e <= s.len(),
{
    if occurs_at(s, start, p) {
        lemma_bracket_end(s, start + p.len());
    }
}

pub proof fn lemma_prefix_match(s: Seq<char>, start: int)
    requires
        0 <= start <= s.len(),
    ensures
        prefix_match(s, start) matches Some(e) ==> start < e <= s.len(),
{
    lemma_try_prefix(s, start, word_fwd());
    lemma_try_prefix(s, start, word_fw());
    lemma_try_prefix(s, start, word_re());
    lemma_try_prefix(s, start, word_reply());
    lemma_try_prefix(s, start, word_forward());
    lemma_try_prefix(s, start, word_answer());
}

/// Where the text starts once every leading prefix (and the whitespace
/// around them) has been stripped, reading from `i`.
pub open spec fn strip_prefixes(s: Seq<char>, i: int) -> int
    decreases s.len() - i,
    when 0 <= i <= s.len()
{
    let j = ws_end(s, i);
    match prefix_match(s, j) {
        Some(e) => {
            proof {
                lemma_ws_end(s, i);
                lemma_prefix_match(s, j);
            }
            strip_prefixes(s, e)
        },
        None => j,
    }
}

/// The normalised subject: trimmed, then with every leading reply/forward
/// prefix (`Re:` `Fw:` `Fwd:` `返信:` `転送:` `回答:`, in any case, full- or
/// half-width, with an optional `[n]`/`(n)` counter) removed.
pub open spec fn normalized_subject(subject: Seq<char>) -> Seq<char> {
    let o = trim(subject);
    o.subrange(strip_prefixes(fold_seq(o), 0), o.len() as int)
}

fn skip_seq_bracket(chars: &[char], idx: usize) -> (r: usize)
    requires
        idx <= chars@.len(),
    ensures
        r as int == bracket_end(chars@, idx as int),
{
    let n = chars.len();
    if idx >= n {
        return idx;
    }
    let close = if chars[idx] == '[' {
        ']'
    } else if chars[idx] == '(' {
        ')'
    } else {
        return idx;
    };
    let digits_start = idx + 1;
    let mut j = digits_start;
    while j < n && '0' <= chars[j] && chars[j] <= '9'
        invariant
            n == chars@.len(),
            digits_start <= j <= n,
            digits_end(chars@, j as int) == digits_end(chars@, digits_start as int),
        decreases n - j,
    {
        j += 1;
    }
    if j > digits_start && j < n && chars[j] == close {
        j + 1
    } else {
        idx
    }
}

fn try_prefix_exec(folded: &[char], start: usize, p: &[char]) -> (r: Option<usize>)
    requires
        start <= folded@.len(),
        p@.len() > 0,
    ensures
        r matches Some(e) ==> try_prefix(folded@, start as int, p@) == Some(e as int),
        r is None ==> try_prefix(folded@, start as int, p@) is None,
{
    if p.len() > folded.len() - start || !has_at(folded, start, p) {
        return None;
    }
    let after_bracket = skip_seq_bracket(folded, start + p.len());
    proof {
        lemma_bracket_end(folded@, start + p@.len());
    }
    if after_bracket < folded.len() && folded[after_bracket] == ':' {
        Some(after_bracket + 1)
    } else {
        None
    }
}

fn match_prefix(folded: &[char], start: usize) -> (r: Option<usize>)
    requires
        start <= folded@.len(),
    ensures
        r matches Some(e) ==> prefix_match(folded@, start as int) == Some(e as int),
        r is None ==> prefix_match(folded@, start as int) is None,
{
    let r = try_prefix_exec(folded, start, &vec!['f', 'w', 'd']);
    if r.is_some() {
        return r;
    }
    let r = try_prefix_exec(folded, start, &vec!['f', 'w']);
    if r.is_some() {
        return r;
    }
    let r = try_prefix_exec(folded, start, &vec!['r', 'e']);
    if r.is_some() {
        return r;
    }
    let r = try_prefix_exec(folded, start, &vec!['返', '信']);
    if r.is_some() {
        return r;
    }
    let r = try_prefix_exec(folded, start, &vec!['転', '送']);
    if r.is_some() {
        return r;
    }
    try_prefix_exec(folded, start, &vec!['回', '答'])
}

// ---- normalisation is idempotent ---------------------------------------------------

proof fn lemma_fold_ws(c: char)
    ensures
        is_ws(fold(c)) == is_ws(c),
{
    let u = c as u32;
    if 0xFF01 <= u <= 0xFF5E {
        let d = ((u - 0xFEE0) as u32) as char;
        assert(0x21 <= (u - 0xFEE0) <= 0x7E);
        assert(d as u32 == (u - 0xFEE0) as u32);
    }
}

proof fn lemma_trim_ends(s: Seq<char>)
    ensures
        trim(s).len() > 0 ==> !is_ws(trim(s)[0]) && !is_ws(trim(s)[trim(s).len() - 1]),
{
    let a = ws_end(s, 0);
    lemma_ws_end(s, 0);
    let u = s.subrange(a, s.len() as int);
    let b = ws_start_back(u, u.len() as int);
    lemma_ws_start_back(u, u.len() as int);
    if b > 0 {
        assert(trim(s)[0] == u[0]);
        assert(u[0] == s[a]);
        assert(trim(s)[trim(s).len() - 1] == u[b - 1]);
    }
}

proof fn lemma_trim_unchanged(r: Seq<char>)
    requires
        r.len() > 0 ==> !is_ws(r[0]) && !is_ws(r[r.len() - 1]),
    ensures
        trim(r) == r,
{
    assert(ws_end(r, 0) == 0);
    assert(r.subrange(0, r.len() as int) =~= r);
    assert(ws_start_back(r, r.len() as int) == r.len());
    assert(r.subrange(0, r.len() as int) =~= r);
}

proof fn lemma_digits_end_shift(s: Seq<char>, k: int, j: int)
    requires
        0 <= k <= s.len(),
        0 <= j <= s.len() - k,
    ensures
        digits_end(s.subrange(k, s.len() as int), j) == digits_end(s, j + k) - k,
    decreases s.len() - k - j,
{
    let t = s.subrange(k, s.len() as int);
    if j < t.len() {
        assert(t[j] == s[j + k]);
        if is_digit(t[j]) {
            lemma_digits_end_shift(s, k, j + 1);
        }
    }
}

proof fn lemma_bracket_end_shift(s: Seq<char>, k: int, i: int)
    requires
        0 <= k <= s.len(),
        0 <= i <= s.len() - k,
    ensures
        bracket_end(s.subrange(k, s.len() as int), i) == bracket_end(s, i + k) - k,
{
    let t = s.subrange(k, s.len() as int);
    if i < t.len() {
        assert(t[i] == s[i + k]);
        lemma_digits_end_shift(s, k, i + 1);
        let j = digits_end(t, i + 1);
        if 0 <= j < t.len() {
            assert(t[j] == s[j + k]);
        }
    }
}

proof fn lemma_try_prefix_shift(s: Seq<char>, k: int, p: Seq<char>)
    requires
        0 <= k <= s.len(),
    ensures
        try_prefix(s.subrange(k, s.len() as int), 0, p) is None <==> try_prefix(s, k, p) is None,
{
    let t = s.subrange(k, s.len() as int);
    if p.len() <= t.len() {
        assert(t.subrange(0, p.len() as int) =~= s.subrange(k, k + p.len()));
    }
    if occurs_at(t, 0, p) {
        lemma_bracket_end_shift(s, k, p.len() as int);
        let a = bracket_end(t, p.len() as int);
        if 0 <= a < t.len() {
            assert(t[a] == s[a + k]);
        }
    }
}

proof fn lemma_prefix_match_shift(s: Seq<char>, k: int)
    requires
        0 <= k <= s.len(),
    ensures
        prefix_match(s.subrange(k, s.len() as int), 0) is None <==> prefix_match(s, k) is None,
{
    lemma_try_prefix_shift(s, k, word_fwd());
    lemma_try_prefix_shift(s, k, word_fw());
    lemma_try_prefix_shift(s, k, word_re());
    lemma_try_prefix_shift(s, k, word_reply());
    lemma_try_prefix_shift(s, k, word_forward());
    lemma_try_prefix_shift(s, k, word_answer());
}

proof fn lemma_strip_prefixes_end(s: Seq<char>, i: int)
    requires
        0 <= i <= s.len(),
    ensures
        i <= strip_prefixes(s, i) <= s.len(),
        prefix_match(s, strip_prefixes(s, i)) is None,
        strip_prefixes(s, i) < s.len() ==> !is_ws(s[strip_prefixes(s, i)]),
    decreases s.len() - i,
{
    let j = ws_end(s, i);
    lemma_ws_end(s, i);
    lemma_prefix_match(s, j);
    match prefix_match(s, j) {
        Some(e) => {
            lemma_strip_prefixes_end(s, e);
        },
        None => {},
    }
}

proof fn lemma_normalized_shape(subject: Seq<char>)
    ensures
        ({
            let n = normalized_subject(subject);
            &&& n.len() > 0 ==> !is_ws(n[0]) && !is_ws(n[n.len() - 1])
            &&& ws_end(fold_seq(n), 0) == 0
            &&& prefix_match(fold_seq(n), 0) is None
        }),
{
    let o = trim(subject);
    let f = fold_seq(o);
    let k = strip_prefixes(f, 0);
    lemma_strip_prefixes_end(f, 0);
    let r = o.subrange(k, o.len() as int);
    lemma_trim_ends(subject);
    if r.len() > 0 {
        assert(f[k] == fold(o[k]));
        lemma_fold_ws(o[k]);
        assert(r[0] == o[k]);
        assert(r[r.len() - 1] == o[o.len() - 1]);
    }
    let fr = fold_seq(r);
    assert(fr =~= f.subrange(k, f.len() as int));
    lemma_prefix_match_shift(f, k);
    if fr.len() > 0 {
        assert(fr[0] == f[k]);
    }
}

/// Putting one `Re: ` in front of a normalised subject and normalising
/// again gives the normalised subject back: a reply subject built that way
/// never collects prefixes.
pub proof fn law_reply_prefix_normalizes_away(subject: Seq<char>)
    ensures
        normalized_subject("Re: "@ + normalized_subject(subject)) == normalized_subject(subject),
{
    reveal_strlit("Re: ");
    let n = normalized_subject(subject);
    lemma_normalized_shape(subject);
    let s = "Re: "@ + n;
    assert(s[0] == 'R');
    let o = trim(s);
    let f = fold_seq(o);
    if n.len() > 0 {
        assert(s[s.len() - 1] == n[n.len() - 1]);
        lemma_trim_unchanged(s);
        assert(o == s);
        assert(f[0] == 'r' && f[1] == 'e' && f[2] == ':' && f[3] == ' ');
        assert(!occurs_at(f, 0, word_fwd()) && !occurs_at(f, 0, word_fw())) by {
            assert(f.subrange(0, 3)[0] == 'r');
            assert(f.subrange(0, 2)[0] == 'r');
        }
        assert(f.subrange(0, 2) =~= word_re());
        assert(bracket_end(f, 2) == 2);
        assert(prefix_match(f, 0) == Some(3int));
        lemma_fold_ws(n[0]);
        assert(f[4] == fold(n[0]));
        assert(ws_end(f, 0) == 0);
        assert(ws_end(f, 4) == 4);
        assert(ws_end(f, 3) == 4);
        assert(f.subrange(4, f.len() as int) =~= fold_seq(n));
        lemma_prefix_match_shift(f, 4);
        assert(strip_prefixes(f, 3) == 4);
        assert(strip_prefixes(f, 0) == 4);
        assert(o.subrange(4, o.len() as int) =~= n);
    } else {
        assert(s =~= seq!['R', 'e', ':', ' ']);
        assert(ws_end(s, 0) == 0);
        assert(s.subrange(0, 4) =~= s);
        assert(is_ws(s[3]));
        assert(!is_ws(s[2]));
        assert(ws_start_back(s, 3) == 3);
        assert(ws_start_back(s, 4) == 3);
        assert(o =~= seq!['R', 'e', ':']);
        assert(f =~= seq!['r', 'e', ':']);
        assert(!occurs_at(f, 0, word_fwd()) && !occurs_at(f, 0, word_fw())) by {
            assert(f.subrange(0, 2)[0] == 'r');
        }
        assert(f.subrange(0, 2) =~= word_re());
        assert(bracket_end(f, 2) == 2);
        assert(prefix_match(f, 0) == Some(3int));
        assert(ws_end(f, 3) == 3);
        assert(prefix_match(f, 3) is None);
        assert(strip_prefixes(f, 3) == 3);
        assert(strip_prefixes(f, 0) == 3);
        assert(o.subrange(3, 3) =~= n);
    }
}

/// Normalising a normalised subject changes nothing: every leading prefix
/// was stripped the first time.
pub proof fn law_normalize_subject_idempotent(subject: Seq<char>)
    ensures
        normalized_subject(normalized_subject(subject)) == normalized_subject(subject),
{
    let o = trim(subject);
    let f = fold_seq(o);
    let k = strip_prefixes(f, 0);
    lemma_strip_prefixes_end(f, 0);
    let r = o.subrange(k, o.len() as int);
    assert(r == normalized_subject(subject));
    lemma_trim_ends(subject);
    if r.len() > 0 {
        assert(f[k] == fold(o[k]));
        lemma_fold_ws(o[k]);
        assert(r[0] == o[k]);
        assert(r[r.len() - 1] == o[o.len() - 1]);
    }
    lemma_trim_unchanged(r);
    let fr = fold_seq(r);
    assert(fr =~= f.subrange(k, f.len() as int));
    lemma_prefix_match_shift(f, k);
    if fr.len() > 0 {
        assert(fr[0] == f[k]);
    }
    assert(ws_end(fr, 0) == 0);
    assert(strip_prefixes(fr, 0) == 0);
    assert(r.subrange(0, r.len() as int) =~= r);
}

/// The normalised subject is what is left of the trimmed subject once its
/// leading prefixes are cut off: a suffix of the trimmed subject, itself
/// without surrounding whitespace, and normalising it again changes nothing.
pub proof fn law_normalized_subject_is_trimmed_suffix(subject: Seq<char>)
    ensures
        ({
            let o = trim(subject);
            let n = normalized_subject(subject);
            &&& n.len() <= o.len()
            &&& n == o.subrange(o.len() - n.len(), o.len() as int)
            &&& trim(n) == n
            &&& normalized_subject(n) == n
        }),
{
    let o = trim(subject);
    let k = strip_prefixes(fold_seq(o), 0);
    lemma_strip_prefixes_end(fold_seq(o), 0);
    let n = normalized_subject(subject);
    assert(n == o.subrange(k, o.len() as int));
    lemma_normalized_shape(subject);
    lemma_trim_unchanged(n);
    law_normalize_subject_idempotent(subject);
}

/// Approximate thread key: the subject without its leading reply/forward
/// prefixes. Works on characters, never on bytes, so multi-byte text stays
/// intact.
pub fn normalize_subject(subject: &str) -> (r: String)
    ensures
        r@ == normalized_subject(subject@),
{
    let all = chars_of(subject);
    let original = trim_chars(&all);
    let folded = fold_chars(&original);
    let n = folded.len();
    let mut start: usize = 0;
    loop
        invariant_except_break
            n == folded@.len(),
            start <= n,
            strip_prefixes(folded@, start as int) == strip_prefixes(folded@, 0),
        ensures
            start <= n,
            start as int == strip_prefixes(folded@, 0),
            start == n || !is_ws(folded@[start as int]),
        decreases n - start,
    {
        let j = skip_ws(&folded, start);
        proof {
            lemma_ws_end(folded@, start as int);
            lemma_prefix_match(folded@, j as int);
        }
        match match_prefix(&folded, j) {
            Some(e) => {
                start = e;
            },
            None => {
                start = j;
                break ;
            },
        }
    }
    let start2 = skip_ws(&folded, start);
    assert(start2 == start);
    string_of(&sub_vec(&original, start2, original.len()))
}

} // verus!
