//! The decisions of the MCP server's tools: argument checks, the search and
//! digest pages, the validation of tasks before any of them is written, the
//! recipients and subject of a reply draft, and the place of an extracted
//! attachment. The server never sends mail and never changes read state.

use vstd::prelude::*;
use std::collections::HashMap;
use crate::text::{chars_of, string_of, push_all, push_text, trim, trim_chars, starts_with, has_prefix, dec, dec_int, dec_i64, digit_char, chars_eq, lemma_dec_int_injective};
use crate::domain::{Address, Account, Timestamp, TaskStatus, kind_name, normalized_subject, normalize_subject};
use crate::store::{SearchQuery, ThreadQuery, TaskQuery, status_name};
use crate::time::{rfc3339_parse, parse_rfc3339_utc, timestamp_in_range};
use crate::grouping::{copy_tag, TagGroup, tag_layout, tags_view, group_tags, positions_of, index_view, group_by_tag};
use crate::fsname::{sanitize_path_segment, sanitized_segment, is_safe_segment, is_reserved, lemma_sanitized_segment_is_safe};
use crate::paths::{path_join, join_path, opt_str_view};

verus! {

/// Stated in every tool description: the server cannot send mail and never
/// changes read state.
pub const SAFETY_NOTE_JA: &'static str = "送信はできません。既読状態は変更されません。";

/// The English form of [`SAFETY_NOTE_JA`].
pub const SAFETY_NOTE_EN: &'static str = "This server cannot send mail and never changes read state.";

/// The number of search results when the caller gives none.
pub fn default_limit() -> (r: usize)
    ensures
        r == 30,
{
    30
}

/// The most threads a digest shows when the caller gives no `limit`.
pub fn default_digest_limit() -> (r: usize)
    ensures
        r == 20,
{
    20
}

// ---- arguments -----------------------------------------------------------------------

/// `search_messages`.
#[derive(Debug, Clone)]
pub struct SearchMessagesArgs {
    pub query: Option<String>,
    pub account_id: Option<i64>,
    pub project: Option<String>,
    /// RFC 3339.
    pub since: Option<String>,
    pub unread_only: bool,
    pub limit: usize,
    /// Attach the start of each body to the results.
    pub include_body: bool,
}

/// `get_thread`.
#[derive(Debug, Clone)]
pub struct GetThreadArgs {
    pub thread_key: String,
    pub include_quotes: bool,
}

/// `get_message`.
#[derive(Debug, Clone)]
pub struct GetMessageArgs {
    pub id: i64,
    pub include_html: bool,
}

/// `inbox_digest`.
#[derive(Debug, Clone)]
pub struct InboxDigestArgs {
    pub project: Option<String>,
    /// RFC 3339; the last 24 hours when absent.
    pub since: Option<String>,
    /// The most threads to show; never more than 50.
    pub limit: usize,
}

/// `save_summary`.
#[derive(Debug, Clone)]
pub struct SaveSummaryArgs {
    /// `message:<id>`, `thread:<key>` or `daily:<yyyy-mm-dd>`.
    pub target: String,
    pub model: String,
    pub summary: String,
}

/// `list_tasks`.
#[derive(Debug, Clone)]
pub struct ListTasksArgs {
    /// `open`, `done` or `dismissed`.
    pub status: Option<String>,
    pub project: Option<String>,
}

/// `create_draft`.
#[derive(Debug, Clone)]
pub struct CreateDraftArgs {
    pub account_id: i64,
    pub in_reply_to: Option<i64>,
    pub to: Option<Vec<String>>,
    pub subject: Option<String>,
    pub body: String,
    pub reply_all: bool,
}

/// `get_attachment`.
#[derive(Debug, Clone, Copy)]
pub struct GetAttachmentArgs {
    pub id: i64,
}

// ---- task status -------------------------------------------------------------------------

/// The status with a given name, if any.
pub open spec fn status_named(s: Seq<char>) -> Option<TaskStatus> {
    if s == status_name(TaskStatus::Open) {
        Some(TaskStatus::Open)
    } else if s == status_name(TaskStatus::Done) {
        Some(TaskStatus::Done)
    } else if s == status_name(TaskStatus::Dismissed) {
        Some(TaskStatus::Dismissed)
    } else {
        None
    }
}

/// The error for an unknown status name.
pub open spec fn unknown_status_text(s: Seq<char>) -> Seq<char> {
    "不明な status です（open / done / dismissed のいずれか）: "@ + s
}

/// Reads a status name given by a tool caller; an unknown name is an error.
pub fn parse_task_status(s: &str) -> (r: Result<TaskStatus, String>)
    ensures
        match status_named(s@) {
            Some(st) => r matches Ok(x) && x == st,
            None => r matches Err(e) && e@ == unknown_status_text(s@),
        },
{
    let c = chars_of(s);
    let open = chars_of("open");
    let done = chars_of("done");
    let dismissed = chars_of("dismissed");
    if chars_eq(c.as_slice(), open.as_slice()) {
        Ok(TaskStatus::Open)
    } else if chars_eq(c.as_slice(), done.as_slice()) {
        Ok(TaskStatus::Done)
    } else if chars_eq(c.as_slice(), dismissed.as_slice()) {
        Ok(TaskStatus::Dismissed)
    } else {
        let mut out: Vec<char> = Vec::new();
        push_text(&mut out, "不明な status です（open / done / dismissed のいずれか）: ");
        push_all(&mut out, c.as_slice());
        Err(string_of(out.as_slice()))
    }
}

// ---- dates ---------------------------------------------------------------------------------

/// The error for a date argument that is not RFC 3339.
pub open spec fn datetime_error_text(s: Seq<char>, e: Seq<char>) -> Seq<char> {
    "日時の形式が不正です（RFC3339 で指定してください）: "@ + s + " ("@ + e + ")"@
}

/// Reads a date argument as RFC 3339, converted to UTC.
pub fn parse_datetime_arg(s: &str) -> (r: Result<Timestamp, String>)
    ensures
        match rfc3339_parse(s@) {
            Ok(p) => r matches Ok(t) && t.secs == p.0 && t.nanos == p.1 && timestamp_in_range(t),
            Err(e) => r matches Err(m) && m@ == datetime_error_text(s@, e),
        },
{
    match parse_rfc3339_utc(s) {
        Ok(t) => Ok(t),
        Err(e) => {
            let mut out: Vec<char> = Vec::new();
            push_text(&mut out, "日時の形式が不正です（RFC3339 で指定してください）: ");
            push_text(&mut out, s);
            push_text(&mut out, " (");
            push_text(&mut out, e.as_str());
            push_text(&mut out, ")");
            Err(string_of(out.as_slice()))
        },
    }
}

// ---- search --------------------------------------------------------------------------------

/// The largest page of search results.
pub const SEARCH_LIMIT_MAX: usize = 200;

/// The page size of a search: the requested limit within 1 to 200, so that a
/// caller cannot flood its context and `truncated` keeps its meaning.
pub open spec fn clamp_limit(limit: usize) -> usize {
    if limit < 1 {
        1
    } else if limit > 200 {
        200
    } else {
        limit
    }
}

/// The page size of a search.
pub fn search_limit(limit: usize) -> (r: usize)
    ensures
        r == clamp_limit(limit),
        1 <= r <= 200,
{
    if limit < 1 {
        1
    } else if limit > SEARCH_LIMIT_MAX {
        SEARCH_LIMIT_MAX
    } else {
        limit
    }
}

/// The store query of a search: the caller's conditions with one row more
/// than the page, to tell whether the page was cut.
pub fn search_query_for(args: &SearchMessagesArgs) -> (r: Result<SearchQuery, String>)
    ensures
        match args.since {
            None => r matches Ok(q) && q.since is None,
            Some(s) => match rfc3339_parse(s@) {
                Ok(p) => r matches Ok(q) && q.since matches Some(t) && t.secs == p.0 && t.nanos == p.1
                    && timestamp_in_range(t),
                Err(e) => r matches Err(m) && m@ == datetime_error_text(s@, e),
            },
        },
        r matches Ok(q) ==> {
            &&& opt_str_view(q.text) == opt_str_view(args.query)
            &&& q.account_id == args.account_id
            &&& opt_str_view(q.project_tag) == opt_str_view(args.project)
            &&& q.unread_only == args.unread_only
            &&& q.limit == clamp_limit(args.limit) + 1
        },
{
    let since = match &args.since {
        Some(s) => match parse_datetime_arg(s.as_str()) {
            Ok(t) => Some(t),
            Err(e) => {
                return Err(e);
            },
        },
        None => None,
    };
    let limit = search_limit(args.limit);
    Ok(SearchQuery {
        text: copy_tag(&args.query),
        account_id: args.account_id,
        project_tag: copy_tag(&args.project),
        since,
        unread_only: args.unread_only,
        limit: limit + 1,
    })
}

/// Cuts a list of results to `limit` and tells whether anything was cut.
pub fn cap_results<T>(results: Vec<T>, limit: usize) -> (r: (Vec<T>, bool))
    ensures
        r.1 == (results@.len() > limit),
        r.0@ == (if r.1 {
            results@.take(limit as int)
        } else {
            results@
        }),
{
    let mut v = results;
    let truncated = v.len() > limit;
    if truncated {
        v.truncate(limit);
    }
    (v, truncated)
}

/// The project tag of an account, by id; the last account with the id counts.
pub open spec fn tag_of_account(accounts: Seq<Account>, id: i64) -> Option<Seq<char>>
    decreases accounts.len(),
{
    if accounts.len() == 0 {
        None
    } else if accounts.last().id == id {
        opt_str_view(accounts.last().project_tag)
    } else {
        tag_of_account(accounts.drop_last(), id)
    }
}

/// The project tag of the account a result belongs to.
pub fn project_tag_of(accounts: &[Account], account_id: i64) -> (r: Option<String>)
    ensures
        opt_str_view(r) == tag_of_account(accounts@, account_id),
{
    let n = accounts.len();
    let mut k: usize = n;
    assert(accounts@.take(n as int) =~= accounts@);
    while k > 0
        invariant
            n == accounts@.len(),
            k <= n,
            tag_of_account(accounts@, account_id) == tag_of_account(accounts@.take(k as int), account_id),
        decreases k,
    {
        assert(accounts@.take(k as int).drop_last() =~= accounts@.take(k - 1));
        if accounts[k - 1].id == account_id {
            return copy_tag(&accounts[k - 1].project_tag);
        }
        k -= 1;
    }
    None
}

// ---- threads -------------------------------------------------------------------------

/// An address by view: display name and address.
pub open spec fn addr_view(a: Address) -> (Option<Seq<char>>, Seq<char>) {
    (opt_str_view(a.name), a.email@)
}

/// A list of addresses by view.
pub open spec fn addrs_view(v: Seq<Address>) -> Seq<(Option<Seq<char>>, Seq<char>)> {
    v.map_values(|a: Address| addr_view(a))
}

/// The addresses of a list, without names.
pub open spec fn emails_of(v: Seq<(Option<Seq<char>>, Seq<char>)>) -> Seq<Seq<char>> {
    v.map_values(|a: (Option<Seq<char>>, Seq<char>)| a.1)
}

/// The senders of a thread, each address once, in the order in which they
/// first wrote; a later message from the same address adds nothing.
pub open spec fn first_senders(s: Seq<(Option<Seq<char>>, Seq<char>)>) -> Seq<(Option<Seq<char>>, Seq<char>)>
    decreases s.len(),
{
    if s.len() == 0 {
        Seq::empty()
    } else {
        let rest = first_senders(s.drop_last());
        if emails_of(rest).contains(s.last().1) {
            rest
        } else {
            rest.push(s.last())
        }
    }
}

/// A copy of an address.
pub fn copy_address(a: &Address) -> (r: Address)
    ensures
        addr_view(r) == addr_view(*a),
{
    Address { name: copy_tag(&a.name), email: a.email.clone() }
}

fn has_email(v: &Vec<Address>, e: &str) -> (r: bool)
    ensures
        r == emails_of(addrs_view(v@)).contains(e@),
{
    let c = chars_of(e);
    let n = v.len();
    let mut i: usize = 0;
    while i < n
        invariant
            n == v@.len(),
            i <= n,
            c@ == e@,
            forall|j: int| 0 <= j < i ==> (#[trigger] v@[j]).email@ != e@,
        decreases n - i,
    {
        let x = chars_of(v[i].email.as_str());
        if chars_eq(x.as_slice(), c.as_slice()) {
            assert(emails_of(addrs_view(v@))[i as int] == e@);
            return true;
        }
        i += 1;
    }
    proof {
        if emails_of(addrs_view(v@)).contains(e@) {
            let j = choose|j: int| 0 <= j < n && emails_of(addrs_view(v@))[j] == e@;
            assert(v@[j].email@ == e@);
        }
    }
    false
}

/// The participants of a thread: its senders, each address once, in the
/// order in which they first wrote.
pub fn unique_senders(from: &[Address]) -> (r: Vec<Address>)
    ensures
        addrs_view(r@) == first_senders(addrs_view(from@)),
{
    let n = from.len();
    let mut r: Vec<Address> = Vec::new();
    let mut i: usize = 0;
    assert(addrs_view(from@).take(0) =~= Seq::<(Option<Seq<char>>, Seq<char>)>::empty());
    while i < n
        invariant
            n == from@.len(),
            i <= n,
            addrs_view(r@) == first_senders(addrs_view(from@).take(i as int)),
        decreases n - i,
    {
        let ghost s = addrs_view(from@).take(i + 1);
        assert(s.drop_last() =~= addrs_view(from@).take(i as int));
        assert(s.last() == addr_view(from@[i as int]));
        if !has_email(&r, from[i].email.as_str()) {
            let ghost before = r@;
            r.push(copy_address(&from[i]));
            assert(addrs_view(r@) =~= addrs_view(before).push(addr_view(from@[i as int])));
        }
        i += 1;
    }
    assert(addrs_view(from@).take(n as int) =~= addrs_view(from@));
    r
}

/// The error for a thread key that matches no message.
pub open spec fn thread_not_found_text() -> Seq<char> {
    "スレッドが見つかりません"@
}

/// The subject of a thread is that of its latest message; a thread without
/// messages does not exist.
pub fn latest_subject(subjects: &[String]) -> (r: Result<String, String>)
    ensures
        subjects@.len() == 0 ==> (r matches Err(e) && e@ == thread_not_found_text()),
        subjects@.len() > 0 ==> (r matches Ok(s) && s@ == subjects@.last()@),
{
    if subjects.len() == 0 {
        Err(String::from_str("スレッドが見つかりません"))
    } else {
        Ok(subjects[subjects.len() - 1].clone())
    }
}

/// The summary target of a thread.
pub open spec fn thread_target_text(key: Seq<char>) -> Seq<char> {
    "thread:"@ + key
}

/// `thread:<key>`.
pub fn thread_target(key: &str) -> (r: String)
    ensures
        r@ == thread_target_text(key@),
{
    let mut out: Vec<char> = Vec::new();
    push_text(&mut out, "thread:");
    push_text(&mut out, key);
    string_of(out.as_slice())
}

/// The summary target of a day.
pub open spec fn daily_target_text(date_key: Seq<char>) -> Seq<char> {
    "daily:"@ + date_key
}

/// `daily:<date_key>`.
pub fn daily_target(date_key: &str) -> (r: String)
    ensures
        r@ == daily_target_text(date_key@),
{
    let mut out: Vec<char> = Vec::new();
    push_text(&mut out, "daily:");
    push_text(&mut out, date_key);
    string_of(out.as_slice())
}

// ---- inbox digest ----------------------------------------------------------------------

/// The most threads an inbox digest shows, whatever its `limit`.
pub const INBOX_DIGEST_THREAD_LIMIT: usize = 50;

/// One day, in seconds.
pub const DAY_SECS: i64 = 86400;

/// Where a digest starts: the given time, or 24 hours before `now` (the
/// server knows neither "today" nor the caller's time zone).
pub fn digest_since(since: &Option<String>, now: Timestamp) -> (r: Result<Timestamp, String>)
    requires
        timestamp_in_range(now),
        now.secs >= -8334601315200 + 86400,
    ensures
        match since {
            None => r matches Ok(t) && t.secs == now.secs - 86400 && t.nanos == now.nanos,
            Some(s) => match rfc3339_parse(s@) {
                Ok(p) => r matches Ok(t) && t.secs == p.0 && t.nanos == p.1,
                Err(e) => r matches Err(m) && m@ == datetime_error_text(s@, e),
            },
        },
        r matches Ok(t) ==> timestamp_in_range(t),
{
    match since {
        Some(s) => parse_datetime_arg(s.as_str()),
        None => Ok(Timestamp { secs: now.secs - DAY_SECS, nanos: now.nanos }),
    }
}

/// The threads a digest looks at: the unread ones of the project, if one is
/// given.
pub fn digest_thread_query(args: &InboxDigestArgs) -> (r: ThreadQuery)
    ensures
        opt_str_view(r.project_tag) == opt_str_view(args.project),
        r.unread_only,
        r.account_id is None && !r.flagged_only && !r.include_archived && r.limit == 0 && r.offset == 0,
{
    ThreadQuery {
        account_id: None,
        project_tag: copy_tag(&args.project),
        unread_only: true,
        flagged_only: false,
        include_archived: false,
        limit: 0,
        offset: 0,
    }
}

/// The positions of the threads last updated at or after `since`.
pub open spec fn recent_positions(dates: Seq<Timestamp>, since: Timestamp) -> Seq<int>
    decreases dates.len(),
{
    if dates.len() == 0 {
        Seq::empty()
    } else {
        let rest = recent_positions(dates.drop_last(), since);
        if crate::domain::ts_le(since, dates.last()) {
            rest.push(dates.len() - 1)
        } else {
            rest
        }
    }
}

/// The most threads a digest with the `limit` argument shows: `limit`, but
/// never more than 50.
pub open spec fn digest_cap(limit: usize) -> int {
    if limit < 50 {
        limit as int
    } else {
        50
    }
}

/// The threads a digest shows: the first `digest_cap(limit)` of the recent
/// ones (the list comes newest first).
pub open spec fn digest_shown(dates: Seq<Timestamp>, since: Timestamp, limit: usize) -> Seq<int> {
    let kept = recent_positions(dates, since);
    if kept.len() > digest_cap(limit) {
        kept.take(digest_cap(limit))
    } else {
        kept
    }
}

/// The tags of the threads a digest shows.
pub open spec fn shown_tags(shown: Seq<int>, tags: Seq<Option<Seq<char>>>) -> Seq<Option<Seq<char>>> {
    shown.map_values(|p: int| tags[p])
}

/// Positions in the shown list, as positions in the whole list.
pub open spec fn through(ps: Seq<int>, shown: Seq<int>) -> Seq<int> {
    ps.map_values(|q: int| shown[q])
}

/// What a digest shows, grouped by project; `truncated` when threads beyond
/// the limit were left out.
#[derive(Debug, Clone)]
pub struct DigestSelection {
    pub groups: Vec<TagGroup>,
    pub truncated: bool,
}

proof fn lemma_recent_positions(dates: Seq<Timestamp>, since: Timestamp)
    ensures
        forall|q: int| 0 <= q < recent_positions(dates, since).len() ==> 0 <= #[trigger] recent_positions(dates, since)[q] < dates.len(),
    decreases dates.len(),
{
    if dates.len() > 0 {
        lemma_recent_positions(dates.drop_last(), since);
        let rest = recent_positions(dates.drop_last(), since);
        let all = recent_positions(dates, since);
        assert forall|q: int| 0 <= q < all.len() implies 0 <= #[trigger] all[q] < dates.len() by {
            if q < rest.len() {
                assert(all[q] == rest[q]);
            }
        }
    }
}

proof fn lemma_positions_bound(tags: Seq<Option<Seq<char>>>, t: Option<Seq<char>>)
    ensures
        forall|q: int| 0 <= q < positions_of(tags, t).len() ==> 0 <= #[trigger] positions_of(tags, t)[q] < tags.len(),
    decreases tags.len(),
{
    if tags.len() > 0 {
        lemma_positions_bound(tags.drop_last(), t);
        let rest = positions_of(tags.drop_last(), t);
        let all = positions_of(tags, t);
        assert forall|q: int| 0 <= q < all.len() implies 0 <= #[trigger] all[q] < tags.len() by {
            if q < rest.len() {
                assert(all[q] == rest[q]);
            }
        }
    }
}

/// The threads of an inbox digest: of the threads (given newest first, by
/// last date and project tag), those updated at or after `since`, at most
/// `limit` and never more than 50, grouped by project as the projects list
/// groups accounts; each group holds positions in the given list.
/// `truncated` when more recent threads existed than were shown.
pub fn digest_selection(
    last_dates: &[Timestamp],
    tags: &[Option<String>],
    since: Timestamp,
    limit: usize,
) -> (r: DigestSelection)
    requires
        last_dates@.len() == tags@.len(),
    ensures
        r.truncated == (recent_positions(last_dates@, since).len() > digest_cap(limit)),
        tag_layout(
            shown_tags(digest_shown(last_dates@, since, limit), tags_view(tags@)),
            group_tags(r.groups@),
        ),
        forall|j: int|
            0 <= j < r.groups@.len() ==> index_view((#[trigger] r.groups@[j]).members@) == through(
                positions_of(
                    shown_tags(digest_shown(last_dates@, since, limit), tags_view(tags@)),
                    opt_str_view(r.groups@[j].tag),
                ),
                digest_shown(last_dates@, since, limit),
            ),
{
    let n = last_dates.len();
    let mut kept: Vec<usize> = Vec::new();
    let mut i: usize = 0;
    assert(last_dates@.take(0) =~= Seq::<Timestamp>::empty());
    while i < n
        invariant
            n == last_dates@.len(),
            i <= n,
            index_view(kept@) == recent_positions(last_dates@.take(i as int), since),
        decreases n - i,
    {
        let ghost d = last_dates@.take(i + 1);
        assert(d.drop_last() =~= last_dates@.take(i as int));
        assert(d.last() == last_dates@[i as int]);
        if crate::domain::timestamp_le(since, last_dates[i]) {
            let ghost before = kept@;
            kept.push(i);
            assert(index_view(kept@) =~= index_view(before).push(i as int));
        }
        i += 1;
    }
    assert(last_dates@.take(n as int) =~= last_dates@);
    let ghost all_kept = index_view(kept@);
    let cap: usize = if limit < INBOX_DIGEST_THREAD_LIMIT {
        limit
    } else {
        INBOX_DIGEST_THREAD_LIMIT
    };
    let (shown, truncated) = cap_results(kept, cap);
    let ghost sh = digest_shown(last_dates@, since, limit);
    assert(index_view(shown@) =~= sh);
    proof {
        lemma_recent_positions(last_dates@, since);
    }
    let ns = shown.len();
    let mut stags: Vec<Option<String>> = Vec::new();
    let mut k: usize = 0;
    while k < ns
        invariant
            ns == shown@.len(),
            k <= ns,
            n == tags@.len(),
            index_view(shown@) == sh,
            sh == digest_shown(last_dates@, since, limit),
            n == last_dates@.len(),
            forall|q: int| 0 <= q < sh.len() ==> 0 <= #[trigger] sh[q] < n,
            tags_view(stags@) == shown_tags(sh, tags_view(tags@)).take(k as int),
        decreases ns - k,
    {
        let p = shown[k];
        assert(sh[k as int] == p as int);
        let ghost before = stags@;
        stags.push(copy_tag(&tags[p]));
        assert(tags_view(stags@) =~= tags_view(before).push(opt_str_view(tags@[p as int])));
        assert(shown_tags(sh, tags_view(tags@)).take(k + 1) =~= shown_tags(sh, tags_view(tags@)).take(k as int).push(
            tags_view(tags@)[sh[k as int]],
        ));
        k += 1;
    }
    assert(shown_tags(sh, tags_view(tags@)).take(ns as int) =~= shown_tags(sh, tags_view(tags@)));
    let ghost st = shown_tags(sh, tags_view(tags@));
    let groups = group_by_tag(stags.as_slice());
    let ng = groups.len();
    let mut out: Vec<TagGroup> = Vec::new();
    let mut j: usize = 0;
    while j < ng
        invariant
            ng == groups@.len(),
            j <= ng,
            out@.len() == j,
            ns == shown@.len(),
            index_view(shown@) == sh,
            st.len() == ns,
            tags_view(stags@) == st,
            forall|g: int| 0 <= g < ng ==> index_view((#[trigger] groups@[g]).members@) == positions_of(
                st,
                opt_str_view(groups@[g].tag),
            ),
            forall|g: int| 0 <= g < j ==> group_tags(out@)[g] == #[trigger] group_tags(groups@)[g],
            forall|g: int|
                0 <= g < j ==> index_view((#[trigger] out@[g]).members@) == through(
                    positions_of(st, opt_str_view(out@[g].tag)),
                    sh,
                ),
        decreases ng - j,
    {
        let ms = &groups[j].members;
        let ghost ps = positions_of(st, opt_str_view(groups@[j as int].tag));
        proof {
            lemma_positions_bound(st, opt_str_view(groups@[j as int].tag));
        }
        assert(index_view(ms@) == ps);
        let nm = ms.len();
        let mut mapped: Vec<usize> = Vec::new();
        let mut m: usize = 0;
        while m < nm
            invariant
                nm == ms@.len(),
                m <= nm,
                ns == shown@.len(),
                index_view(shown@) == sh,
                index_view(ms@) == ps,
                forall|q: int| 0 <= q < ps.len() ==> 0 <= #[trigger] ps[q] < ns,
                index_view(mapped@) == through(ps, sh).take(m as int),
            decreases nm - m,
        {
            let q = ms[m];
            assert(ps[m as int] == q as int);
            let ghost before = mapped@;
            mapped.push(shown[q]);
            assert(index_view(mapped@) =~= index_view(before).push(sh[q as int]));
            assert(through(ps, sh).take(m + 1) =~= through(ps, sh).take(m as int).push(sh[ps[m as int]]));
            m += 1;
        }
        assert(through(ps, sh).take(nm as int) =~= through(ps, sh));
        let ghost before = out@;
        out.push(TagGroup { tag: copy_tag(&groups[j].tag), members: mapped });
        assert(group_tags(out@) =~= group_tags(before).push(opt_str_view(groups@[j as int].tag)));
        j += 1;
    }
    assert(group_tags(out@) =~= group_tags(groups@));
    DigestSelection { groups: out, truncated }
}

// ---- summaries -------------------------------------------------------------------------

/// The error for a summary target of an unknown form.
pub open spec fn bad_target_text(target: Seq<char>) -> Seq<char> {
    "target の形式が不正です（thread:<key> / message:<id> / daily:<yyyy-mm-dd> のいずれかで始めてください）: "@
        + target
}

/// What `save_summary` says of its arguments: the target must name a thread,
/// a message or a day, the model must be given and the summary must not be
/// blank.
pub open spec fn summary_args_check(target: Seq<char>, model: Seq<char>, summary: Seq<char>) -> Result<(), Seq<char>> {
    if !(starts_with(target, "thread:"@) || starts_with(target, "message:"@) || starts_with(target, "daily:"@)) {
        Err(bad_target_text(target))
    } else if model.len() == 0 {
        Err("model を指定してください"@)
    } else if trim(summary).len() == 0 {
        Err("summary が空です"@)
    } else {
        Ok(())
    }
}

/// Checks the arguments of `save_summary`.
pub fn check_summary_args(args: &SaveSummaryArgs) -> (r: Result<(), String>)
    ensures
        match summary_args_check(args.target@, args.model@, args.summary@) {
            Ok(_) => r is Ok,
            Err(e) => r matches Err(m) && m@ == e,
        },
{
    let t = chars_of(args.target.as_str());
    let p1 = chars_of("thread:");
    let p2 = chars_of("message:");
    let p3 = chars_of("daily:");
    if !(has_prefix(t.as_slice(), p1.as_slice()) || has_prefix(t.as_slice(), p2.as_slice())
        || has_prefix(t.as_slice(), p3.as_slice())) {
        let mut out: Vec<char> = Vec::new();
        push_text(
            &mut out,
            "target の形式が不正です（thread:<key> / message:<id> / daily:<yyyy-mm-dd> のいずれかで始めてください）: ",
        );
        push_all(&mut out, t.as_slice());
        return Err(string_of(out.as_slice()));
    }
    if chars_of(args.model.as_str()).len() == 0 {
        return Err(String::from_str("model を指定してください"));
    }
    let body = chars_of(args.summary.as_str());
    if trim_chars(body.as_slice()).len() == 0 {
        return Err(String::from_str("summary が空です"));
    }
    Ok(())
}

// ---- tasks -----------------------------------------------------------------------------

/// A task as a caller hands it to `upsert_tasks`, without its confidence
/// (which the store keeps as given).
#[derive(Debug, Clone)]
pub struct TaskSpec {
    /// When absent, the account of the source message.
    pub account_id: Option<i64>,
    pub source_message_id: Option<i64>,
    pub title: String,
    /// RFC 3339.
    pub due: Option<String>,
}

/// A checked task, ready to be written.
#[derive(Debug, Clone)]
pub struct ValidTask {
    pub account_id: i64,
    pub source_message_id: Option<i64>,
    pub title: String,
    pub due: Option<Timestamp>,
}

/// The error for an empty task list.
pub open spec fn no_tasks_text() -> Seq<char> {
    "tasks が空です"@
}

/// `tasks[<i>]`.
pub open spec fn task_label(i: int) -> Seq<char> {
    "tasks["@ + dec_int(i) + "]"@
}

/// The error for a task that names neither account nor message.
pub open spec fn no_account_text(i: int) -> Seq<char> {
    task_label(i) + " は account_id か source_message_id のどちらかが必要です"@
}

/// The error for a task whose source message does not exist.
pub open spec fn missing_source_text(i: int, m: int) -> Seq<char> {
    task_label(i) + " の source_message_id "@ + dec_int(m) + " に対応するメールが見つかりません"@
}

/// The error for a task whose due date is not RFC 3339.
pub open spec fn bad_due_text(i: int, e: Seq<char>) -> Seq<char> {
    task_label(i) + " の due が不正です: "@ + e
}

/// The account of task `i`: its own, else that of its source message
/// (`found`, when the message exists).
pub open spec fn task_account(i: int, t: TaskSpec, found: Option<i64>) -> Result<i64, Seq<char>> {
    match t.account_id {
        Some(a) => Ok(a),
        None => match t.source_message_id {
            None => Err(no_account_text(i)),
            Some(m) => match found {
                Some(a) => Ok(a),
                None => Err(missing_source_text(i, m as int)),
            },
        },
    }
}

/// The due date of task `i`.
pub open spec fn task_due(i: int, t: TaskSpec) -> Result<Option<(int, int)>, Seq<char>> {
    match t.due {
        None => Ok(None),
        Some(s) => match rfc3339_parse(s@) {
            Ok(p) => Ok(Some(p)),
            Err(e) => Err(bad_due_text(i, datetime_error_text(s@, e))),
        },
    }
}

/// The error of task `i`, if it has one: its account is checked first.
pub open spec fn task_error(i: int, t: TaskSpec, found: Option<i64>) -> Option<Seq<char>> {
    match task_account(i, t, found) {
        Err(e) => Some(e),
        Ok(_) => match task_due(i, t) {
            Err(e) => Some(e),
            Ok(_) => None,
        },
    }
}

/// The error of the first invalid task from position `i` on.
pub open spec fn first_task_error(ts: Seq<TaskSpec>, found: Seq<Option<i64>>, i: int) -> Option<Seq<char>>
    decreases ts.len() - i,
{
    if i < 0 || i >= ts.len() {
        None
    } else {
        match task_error(i, ts[i], found[i]) {
            Some(e) => Some(e),
            None => first_task_error(ts, found, i + 1),
        }
    }
}

/// Task `v` is task `i` as checked.
pub open spec fn task_checked(i: int, t: TaskSpec, found: Option<i64>, v: ValidTask) -> bool {
    &&& task_account(i, t, found) == Ok::<i64, Seq<char>>(v.account_id)
    &&& v.source_message_id == t.source_message_id
    &&& v.title@ == t.title@
    &&& match task_due(i, t) {
        Ok(Some(p)) => v.due matches Some(d) && d.secs == p.0 && d.nanos == p.1,
        Ok(None) => v.due is None,
        Err(_) => false,
    }
}

/// Checks every task before any is written: the list must not be empty,
/// each task needs an account (its own or that of its source message) and a
/// due date, if any, in RFC 3339. `found[i]` is the account of task `i`'s
/// source message when the task has no account of its own and the message
/// exists. The first invalid task decides the error, and then nothing is
/// written.
pub fn validate_tasks(tasks: &[TaskSpec], found: &[Option<i64>]) -> (r: Result<Vec<ValidTask>, String>)
    requires
        tasks@.len() == found@.len(),
    ensures
        tasks@.len() == 0 ==> (r matches Err(e) && e@ == no_tasks_text()),
        tasks@.len() > 0 ==> match first_task_error(tasks@, found@, 0) {
            Some(e) => r matches Err(m) && m@ == e,
            None => r matches Ok(v) && v@.len() == tasks@.len() && forall|i: int|
                0 <= i < tasks@.len() ==> task_checked(i, tasks@[i], found@[i], #[trigger] v@[i]),
        },
{
    let n = tasks.len();
    if n == 0 {
        return Err(String::from_str("tasks が空です"));
    }
    let mut out: Vec<ValidTask> = Vec::new();
    let mut i: usize = 0;
    while i < n
        invariant
            n == tasks@.len(),
            n == found@.len(),
            i <= n,
            out@.len() == i,
            first_task_error(tasks@, found@, 0) == first_task_error(tasks@, found@, i as int),
            forall|k: int| 0 <= k < i ==> task_checked(k, tasks@[k], found@[k], #[trigger] out@[k]),
        decreases n - i,
    {
        let t = &tasks[i];
        let label = {
            let mut l: Vec<char> = Vec::new();
            push_text(&mut l, "tasks[");
            let d = crate::text::dec_u64(i as u64);
            push_all(&mut l, d.as_slice());
            push_text(&mut l, "]");
            l
        };
        assert(label@ == task_label(i as int));
        let account: i64 = match t.account_id {
            Some(a) => a,
            None => match t.source_message_id {
                None => {
                    let mut e = label;
                    push_text(&mut e, " は account_id か source_message_id のどちらかが必要です");
                    return Err(string_of(e.as_slice()));
                },
                Some(m) => match found[i] {
                    Some(a) => a,
                    None => {
                        let mut e = label;
                        push_text(&mut e, " の source_message_id ");
                        let d = dec_i64(m);
                        push_all(&mut e, d.as_slice());
                        push_text(&mut e, " に対応するメールが見つかりません");
                        return Err(string_of(e.as_slice()));
                    },
                },
            },
        };
        let due: Option<Timestamp> = match &t.due {
            None => None,
            Some(s) => match parse_datetime_arg(s.as_str()) {
                Ok(d) => Some(d),
                Err(de) => {
                    let mut e = label;
                    push_text(&mut e, " の due が不正です: ");
                    push_text(&mut e, de.as_str());
                    return Err(string_of(e.as_slice()));
                },
            },
        };
        out.push(ValidTask {
            account_id: account,
            source_message_id: t.source_message_id,
            title: t.title.clone(),
            due,
        });
        i += 1;
    }
    Ok(out)
}

/// How many tasks were added and how many updated.
#[derive(Debug, Clone, Copy, PartialEq, Eq, Structural)]
pub struct UpsertCounts {
    pub inserted: i64,
    pub updated: i64,
}

/// The number of `true` values.
pub open spec fn count_true(s: Seq<bool>) -> int
    decreases s.len(),
{
    if s.len() == 0 {
        0
    } else {
        count_true(s.drop_last()) + (if s.last() { 1int } else { 0int })
    }
}

proof fn lemma_count_true_bound(s: Seq<bool>)
    ensures
        0 <= count_true(s) <= s.len(),
    decreases s.len(),
{
    if s.len() > 0 {
        lemma_count_true_bound(s.drop_last());
    }
}

/// Counts the outcome of writing tasks: `true` for each task that was added,
/// `false` for each that updated an existing one.
pub fn count_upserts(was_inserted: &[bool]) -> (r: UpsertCounts)
    requires
        was_inserted@.len() <= i64::MAX,
    ensures
        r.inserted == count_true(was_inserted@),
        r.updated == was_inserted@.len() - count_true(was_inserted@),
{
    let n = was_inserted.len();
    let mut inserted: i64 = 0;
    let mut updated: i64 = 0;
    let mut i: usize = 0;
    assert(was_inserted@.take(0) =~= Seq::<bool>::empty());
    while i < n
        invariant
            n == was_inserted@.len(),
            n <= i64::MAX,
            i <= n,
            inserted == count_true(was_inserted@.take(i as int)),
            updated == i - count_true(was_inserted@.take(i as int)),
        decreases n - i,
    {
        assert(was_inserted@.take(i + 1).drop_last() =~= was_inserted@.take(i as int));
        proof {
            lemma_count_true_bound(was_inserted@.take(i as int));
        }
        if was_inserted[i] {
            inserted = inserted + 1;
        } else {
            updated = updated + 1;
        }
        i += 1;
    }
    assert(was_inserted@.take(n as int) =~= was_inserted@);
    UpsertCounts { inserted, updated }
}

/// The store query of `list_tasks`: the status, if given, must be a known
/// name; the project narrows the list; the default page size.
pub fn task_query_for(args: &ListTasksArgs) -> (r: Result<TaskQuery, String>)
    ensures
        match args.status {
            None => r matches Ok(q) && q.status is None,
            Some(s) => match status_named(s@) {
                Some(st) => r matches Ok(q) && q.status == Some(st),
                None => r matches Err(e) && e@ == unknown_status_text(s@),
            },
        },
        r matches Ok(q) ==> opt_str_view(q.project_tag) == opt_str_view(args.project) && q.due_before is None
            && q.limit == 0,
{
    let status = match &args.status {
        Some(s) => match parse_task_status(s.as_str()) {
            Ok(st) => Some(st),
            Err(e) => {
                return Err(e);
            },
        },
        None => None,
    };
    Ok(TaskQuery { status, project_tag: copy_tag(&args.project), due_before: None, limit: 0 })
}

// ---- drafts ------------------------------------------------------------------------------

/// The body of a draft must not be blank.
pub fn check_draft_body(body: &str) -> (r: Result<(), String>)
    ensures
        trim(body@).len() == 0 ==> (r matches Err(e) && e@ == "body が空です"@),
        trim(body@).len() > 0 ==> r is Ok,
{
    let c = chars_of(body);
    if trim_chars(c.as_slice()).len() == 0 {
        Err(String::from_str("body が空です"))
    } else {
        Ok(())
    }
}

/// Whether a draft needs the message it answers: when its recipients or its
/// subject are not given.
pub fn needs_original(args: &CreateDraftArgs) -> (r: bool)
    ensures
        r == (args.to is None || args.subject is None),
{
    args.to.is_none() || args.subject.is_none()
}

/// What a draft needs of the message it answers.
#[derive(Debug, Clone)]
pub struct AnsweredMessage {
    pub from: Address,
    pub to: Vec<Address>,
    pub cc: Vec<Address>,
    pub subject: String,
}

/// The message a draft is built from: `lookup` is what the store found for
/// `in_reply_to` (`None` when nothing was looked up).
pub open spec fn draft_original(
    args: CreateDraftArgs,
    lookup: Option<Option<AnsweredMessage>>,
) -> Result<Option<AnsweredMessage>, Seq<char>> {
    if (args.to is None || args.subject is None) && args.in_reply_to is Some {
        match lookup {
            Some(Some(m)) => Ok(Some(m)),
            _ => Err("in_reply_to のメッセージが見つかりません"@),
        }
    } else {
        Ok(None)
    }
}

/// The addresses of a list other than `own`, in order.
pub open spec fn not_own(
    s: Seq<(Option<Seq<char>>, Seq<char>)>,
    own: Option<Seq<char>>,
) -> Seq<(Option<Seq<char>>, Seq<char>)>
    decreases s.len(),
{
    if s.len() == 0 {
        s
    } else {
        let rest = not_own(s.drop_last(), own);
        if own == Some(s.last().1) {
            rest
        } else {
            rest.push(s.last())
        }
    }
}

proof fn lemma_not_own_append(
    a: Seq<(Option<Seq<char>>, Seq<char>)>,
    b: Seq<(Option<Seq<char>>, Seq<char>)>,
    own: Option<Seq<char>>,
)
    ensures
        not_own(a + b, own) == not_own(a, own) + not_own(b, own),
    decreases b.len(),
{
    if b.len() == 0 {
        assert(a + b =~= a);
        assert(not_own(a, own) + not_own(b, own) =~= not_own(a, own));
    } else {
        lemma_not_own_append(a, b.drop_last(), own);
        assert((a + b).drop_last() =~= a + b.drop_last());
        assert((a + b).last() == b.last());
        let x = b.last();
        if own == Some(x.1) {
        } else {
            assert(not_own(a, own) + not_own(b.drop_last(), own).push(x) =~= (not_own(a, own) + not_own(
                b.drop_last(),
                own,
            )).push(x));
        }
    }
}

/// The recipients of a reply to `m`: its sender; with `reply_all`, followed
/// by its `to` and then its `cc` recipients, leaving out the own address.
pub open spec fn reply_recipients(
    m: AnsweredMessage,
    reply_all: bool,
    own: Option<Seq<char>>,
) -> Seq<(Option<Seq<char>>, Seq<char>)> {
    if reply_all {
        seq![addr_view(m.from)] + not_own(addrs_view(m.to@) + addrs_view(m.cc@), own)
    } else {
        seq![addr_view(m.from)]
    }
}

/// Appends the addresses of `s` other than `own`.
fn push_not_own(out: &mut Vec<Address>, s: &Vec<Address>, own: &Option<String>)
    ensures
        addrs_view(final(out)@) == addrs_view(old(out)@) + not_own(addrs_view(s@), opt_str_view(*own)),
{
    let ghost o = opt_str_view(*own);
    let ghost start = addrs_view(out@);
    let oc: Option<Vec<char>> = match own {
        Some(e) => Some(chars_of(e.as_str())),
        None => None,
    };
    let n = s.len();
    let mut i: usize = 0;
    assert(addrs_view(s@).take(0) =~= Seq::<(Option<Seq<char>>, Seq<char>)>::empty());
    assert(start + Seq::<(Option<Seq<char>>, Seq<char>)>::empty() =~= start);
    while i < n
        invariant
            n == s@.len(),
            i <= n,
            o == opt_str_view(*own),
            match oc {
                Some(c) => o == Some(c@),
                None => o is None,
            },
            addrs_view(out@) == start + not_own(addrs_view(s@).take(i as int), o),
        decreases n - i,
    {
        let ghost t = addrs_view(s@).take(i + 1);
        assert(t.drop_last() =~= addrs_view(s@).take(i as int));
        assert(t.last() == addr_view(s@[i as int]));
        let is_own = match &oc {
            Some(c) => {
                let e = chars_of(s[i].email.as_str());
                chars_eq(e.as_slice(), c.as_slice())
            },
            None => false,
        };
        if !is_own {
            let ghost before = addrs_view(out@);
            out.push(copy_address(&s[i]));
            assert(addrs_view(out@) =~= before.push(addr_view(s@[i as int])));
            assert(start + not_own(t, o) =~= (start + not_own(addrs_view(s@).take(i as int), o)).push(
                t.last(),
            ));
        }
        i += 1;
    }
    assert(addrs_view(s@).take(n as int) =~= addrs_view(s@));
}

/// Recipients given as plain addresses.
pub open spec fn plain_recipients(to: Seq<String>) -> Seq<(Option<Seq<char>>, Seq<char>)> {
    to.map_values(|e: String| (None::<Seq<char>>, e@))
}

/// The error when a draft has no recipient.
pub open spec fn no_recipient_text() -> Seq<char> {
    "宛先を決められません（to か in_reply_to を指定してください）"@
}

/// The recipients and subject of a draft: those given; else the sender of
/// the answered message (with `reply_all`, followed by its `to` and `cc`
/// recipients other than the account's own address `own`) and its subject
/// with one `Re: ` in place of all its reply and forward prefixes.
pub fn resolve_draft_to_and_subject(
    args: &CreateDraftArgs,
    lookup: Option<Option<AnsweredMessage>>,
    own: Option<String>,
) -> (r: Result<(Vec<Address>, String), String>)
    ensures
        match draft_original(*args, lookup) {
            Err(e) => r matches Err(m) && m@ == e,
            Ok(orig) => match args.to {
                None if orig is None => r matches Err(m) && m@ == no_recipient_text(),
                _ => r matches Ok(res) && {
                    &&& addrs_view(res.0@) == (match args.to {
                        Some(to) => plain_recipients(to@),
                        None => match orig {
                            Some(o) => reply_recipients(o, args.reply_all, opt_str_view(own)),
                            None => Seq::empty(),
                        },
                    })
                    &&& res.1@ == (match args.subject {
                        Some(s) => s@,
                        None => match orig {
                            Some(o) => "Re: "@ + normalized_subject(o.subject@),
                            None => Seq::empty(),
                        },
                    })
                },
            },
        },
{
    let need = needs_original(args);
    let original: Option<AnsweredMessage> = if need && args.in_reply_to.is_some() {
        match lookup {
            Some(Some(m)) => Some(m),
            _ => {
                return Err(String::from_str("in_reply_to のメッセージが見つかりません"));
            },
        }
    } else {
        None
    };
    let to: Vec<Address> = match &args.to {
        Some(addrs) => {
            let n = addrs.len();
            let mut v: Vec<Address> = Vec::new();
            let mut i: usize = 0;
            while i < n
                invariant
                    n == addrs@.len(),
                    i <= n,
                    addrs_view(v@) == plain_recipients(addrs@).take(i as int),
                decreases n - i,
            {
                let ghost before = v@;
                v.push(Address { name: None, email: addrs[i].clone() });
                assert(addrs_view(v@) =~= addrs_view(before).push((None::<Seq<char>>, addrs@[i as int]@)));
                assert(plain_recipients(addrs@).take(i + 1) =~= plain_recipients(addrs@).take(i as int).push(
                    (None::<Seq<char>>, addrs@[i as int]@),
                ));
                i += 1;
            }
            assert(plain_recipients(addrs@).take(n as int) =~= plain_recipients(addrs@));
            v
        },
        None => match &original {
            Some(m) => {
                let mut v = vec![copy_address(&m.from)];
                assert(addrs_view(v@) =~= seq![addr_view(m.from)]);
                if args.reply_all {
                    push_not_own(&mut v, &m.to, &own);
                    push_not_own(&mut v, &m.cc, &own);
                    proof {
                        lemma_not_own_append(addrs_view(m.to@), addrs_view(m.cc@), opt_str_view(own));
                        assert(addrs_view(v@) =~= seq![addr_view(m.from)] + not_own(
                            addrs_view(m.to@) + addrs_view(m.cc@),
                            opt_str_view(own),
                        ));
                    }
                }
                v
            },
            None => {
                return Err(String::from_str("宛先を決められません（to か in_reply_to を指定してください）"));
            },
        },
    };
    let subject: String = match &args.subject {
        Some(s) => s.clone(),
        None => match &original {
            Some(m) => {
                let norm = normalize_subject(m.subject.as_str());
                let mut out: Vec<char> = Vec::new();
                push_text(&mut out, "Re: ");
                push_text(&mut out, norm.as_str());
                string_of(out.as_slice())
            },
            None => String::new(),
        },
    };
    Ok((to, subject))
}

// ---- attachments -------------------------------------------------------------------------

/// The name of an attachment whose own name sanitises to nothing useful.
pub open spec fn fallback_name_text(id: int) -> Seq<char> {
    "attachment-"@ + dec_int(id)
}

/// `attachment-<id>`.
pub fn fallback_attachment_name(id: i64) -> (r: String)
    ensures
        r@ == fallback_name_text(id as int),
{
    let mut out: Vec<char> = Vec::new();
    push_text(&mut out, "attachment-");
    let d = dec_i64(id);
    push_all(&mut out, d.as_slice());
    string_of(out.as_slice())
}

/// A sanitised name that says nothing: empty, `_` or `__`.
pub open spec fn useless_name(s: Seq<char>) -> bool {
    s.len() == 0 || s == seq!['_'] || s == seq!['_', '_']
}

fn is_useless_name(s: &[char]) -> (r: bool)
    ensures
        r == useless_name(s@),
{
    if s.len() == 0 {
        return true;
    }
    if s.len() == 1 {
        let r = s[0] == '_';
        if r {
            assert(s@ =~= seq!['_']);
        } else {
            assert(s@ != seq!['_']) by {
                if s@ == seq!['_'] {
                    assert(s@[0] == '_');
                }
            }
        }
        assert(s@ != seq!['_', '_']);
        return r;
    }
    if s.len() == 2 {
        let r = s[0] == '_' && s[1] == '_';
        proof {
            if !r {
                assert(s@ != seq!['_', '_']) by {
                    if s@ == seq!['_', '_'] {
                        assert(s@[0] == '_');
                        assert(s@[1] == '_');
                    }
                }
            }
        }
        assert(s@ != seq!['_']);
        if r {
            assert(s@ =~= seq!['_', '_']);
        }
        return r;
    }
    assert(s@.len() > 2);
    false
}

/// The file name of an extracted attachment: `<id>-<sanitised name>`, so
/// that attachments of one message with the same name stay apart; the
/// fallback name when the sanitised name says nothing.
pub open spec fn attachment_file_name_text(id: int, filename: Seq<char>) -> Seq<char> {
    let safe = sanitized_segment(filename);
    if useless_name(safe) {
        fallback_name_text(id)
    } else {
        dec_int(id) + "-"@ + safe
    }
}

/// The file name of an extracted attachment.
pub fn attachment_file_name(id: i64, filename: &str) -> (r: String)
    ensures
        r@ == attachment_file_name_text(id as int, filename@),
{
    let safe = sanitize_path_segment(filename);
    let sc = chars_of(safe.as_str());
    if is_useless_name(sc.as_slice()) {
        fallback_attachment_name(id)
    } else {
        let mut out: Vec<char> = Vec::new();
        let d = dec_i64(id);
        push_all(&mut out, d.as_slice());
        push_text(&mut out, "-");
        push_all(&mut out, sc.as_slice());
        string_of(out.as_slice())
    }
}

proof fn lemma_dec_safe(n: nat)
    ensures
        dec(n).len() > 0,
        forall|i: int| 0 <= i < dec(n).len() ==> !is_reserved(#[trigger] dec(n)[i]) && dec(n)[i] != '.',
    decreases n,
{
    let d = if n < 10 { n as int } else { (n % 10) as int };
    let c = digit_char(d);
    assert(c as u32 == (48 + d) as u32);
    if n >= 10 {
        lemma_dec_safe(n / 10);
        let s = dec(n);
        assert forall|i: int| 0 <= i < s.len() implies !is_reserved(#[trigger] s[i]) && s[i] != '.' by {
            if i < s.len() - 1 {
                assert(s[i] == dec(n / 10)[i]);
            }
        }
    }
}

proof fn lemma_dec_int_safe(n: int)
    ensures
        dec_int(n).len() > 0,
        forall|i: int| 0 <= i < dec_int(n).len() ==> !is_reserved(#[trigger] dec_int(n)[i]) && dec_int(n)[i] != '.',
{
    if n < 0 {
        lemma_dec_safe((-n) as nat);
        let s = dec_int(n);
        assert forall|i: int| 0 <= i < s.len() implies !is_reserved(#[trigger] s[i]) && s[i] != '.' by {
            if i > 0 {
                assert(s[i] == dec((-n) as nat)[i - 1]);
            }
        }
    } else {
        lemma_dec_safe(n as nat);
    }
}

/// The file name of an extracted attachment is always one safe path
/// segment: never empty, `.` or `..`, and without separators, so the file
/// stays inside its message's directory whatever the attachment was called.
pub proof fn law_attachment_file_name_is_one_segment(id: int, filename: Seq<char>)
    ensures
        is_safe_segment(attachment_file_name_text(id, filename)),
{
    reveal_strlit("attachment-");
    reveal_strlit("-");
    lemma_dec_int_safe(id);
    let safe = sanitized_segment(filename);
    lemma_sanitized_segment_is_safe(filename);
    let name = attachment_file_name_text(id, filename);
    let d = dec_int(id);
    if useless_name(safe) {
        let f = "attachment-"@;
        assert(name == f + d);
        assert(name[0] == 'a');
        assert(name != seq!['.']) by {
            if name == seq!['.'] {
                assert(name[0] == '.');
            }
        }
        assert(name != seq!['.', '.']) by {
            if name == seq!['.', '.'] {
                assert(name[0] == '.');
            }
        }
        assert forall|i: int| 0 <= i < name.len() implies !is_reserved(#[trigger] name[i]) by {
            if i >= f.len() {
                assert(name[i] == d[i - f.len()]);
            }
        }
    } else {
        assert(name == d + "-"@ + safe);
        assert(name.len() >= 3);
        assert(name != seq!['.']);
        assert(name != seq!['.', '.']);
        assert forall|i: int| 0 <= i < name.len() implies !is_reserved(#[trigger] name[i]) by {
            if i < d.len() {
                assert(name[i] == d[i]);
            } else if i > d.len() {
                assert(name[i] == safe[i - d.len() - 1]);
            }
        }
    }
}

/// Where an extracted attachment is written:
/// `<attachments_dir>/<message_id>/<file name>`.
pub open spec fn attachment_file_path_text(dir: Seq<char>, message_id: int, id: int, filename: Seq<char>) -> Seq<char> {
    path_join(path_join(dir, dec_int(message_id)), attachment_file_name_text(id, filename))
}

proof fn lemma_join_segment_injective(base: Seq<char>, x: Seq<char>, y: Seq<char>)
    requires
        is_safe_segment(x),
        is_safe_segment(y),
        path_join(base, x) == path_join(base, y),
    ensures
        x == y,
{
    assert(!is_reserved(x[0]));
    assert(!is_reserved(y[0]));
    let jx = path_join(base, x);
    if base.len() == 0 {
    } else if base.last() == '/' {
        assert(jx.subrange(base.len() as int, jx.len() as int) =~= x);
        assert(path_join(base, y).subrange(base.len() as int, jx.len() as int) =~= y);
    } else {
        assert(jx.subrange(base.len() as int + 1, jx.len() as int) =~= x);
        assert(path_join(base, y).subrange(base.len() as int + 1, jx.len() as int) =~= y);
    }
}

/// Attachments of one message stay apart on disk: two different attachments
/// with the same name are extracted to two different files.
pub proof fn law_same_named_attachments_stay_apart(
    dir: Seq<char>,
    message_id: int,
    id1: int,
    id2: int,
    filename: Seq<char>,
)
    requires
        id1 != id2,
    ensures
        attachment_file_path_text(dir, message_id, id1, filename) != attachment_file_path_text(
            dir,
            message_id,
            id2,
            filename,
        ),
{
    reveal_strlit("attachment-");
    reveal_strlit("-");
    let n1 = attachment_file_name_text(id1, filename);
    let n2 = attachment_file_name_text(id2, filename);
    let d1 = dec_int(id1);
    let d2 = dec_int(id2);
    let base = path_join(dir, dec_int(message_id));
    law_attachment_file_name_is_one_segment(id1, filename);
    law_attachment_file_name_is_one_segment(id2, filename);
    if path_join(base, n1) == path_join(base, n2) {
        lemma_join_segment_injective(base, n1, n2);
        let safe = sanitized_segment(filename);
        if useless_name(safe) {
            let f = "attachment-"@;
            assert(n1.subrange(f.len() as int, n1.len() as int) =~= d1);
            assert(n2.subrange(f.len() as int, n2.len() as int) =~= d2);
        } else {
            assert(d1.len() == d2.len());
            assert(n1.subrange(0, d1.len() as int) =~= d1);
            assert(n2.subrange(0, d2.len() as int) =~= d2);
        }
        lemma_dec_int_injective(id1, id2);
    }
}

/// The path an attachment is extracted to.
pub fn attachment_file_path(attachments_dir: &str, message_id: i64, id: i64, filename: &str) -> (r: String)
    ensures
        r@ == attachment_file_path_text(attachments_dir@, message_id as int, id as int, filename@),
{
    let d = string_of(dec_i64(message_id).as_slice());
    let dir = join_path(attachments_dir, d.as_str());
    let name = attachment_file_name(id, filename);
    join_path(dir.as_str(), name.as_str())
}

// ---- accounts ----------------------------------------------------------------------------

/// An account as `list_accounts` shows it: never its connection settings.
#[derive(Debug, Clone)]
pub struct AccountInfo {
    pub id: i64,
    pub name: String,
    pub email: String,
    pub project_tag: Option<String>,
    /// `imap`, `gmail` or `m365`.
    pub kind: String,
    /// RFC 3339; absent before the first synchronisation.
    pub last_synced_at: Option<String>,
    pub unread_count: i64,
}

/// The listing of one account, with the time of its last synchronisation
/// and its unread count.
pub fn account_info(a: &Account, synced_at: Option<Timestamp>, unread: &HashMap<i64, i64>) -> (r: AccountInfo)
    requires
        synced_at matches Some(t) ==> timestamp_in_range(t),
    ensures
        r.id == a.id,
        r.name@ == a.name@,
        r.email@ == a.email@,
        opt_str_view(r.project_tag) == opt_str_view(a.project_tag),
        r.kind@ == kind_name(a.kind),
        match synced_at {
            Some(t) => r.last_synced_at matches Some(s) && s@ == crate::time::rfc3339_text(t.secs as int, t.nanos as int),
            None => r.last_synced_at is None,
        },
        r.unread_count == crate::grouping::unread_of(unread@, a.id),
{
    let last_synced_at = match synced_at {
        Some(t) => Some(crate::time::to_rfc3339(t)),
        None => None,
    };
    AccountInfo {
        id: a.id,
        name: a.name.clone(),
        email: a.email.clone(),
        project_tag: copy_tag(&a.project_tag),
        kind: String::from_str(a.kind.as_str()),
        last_synced_at,
        unread_count: crate::grouping::unread_count_of(unread, a.id),
    }
}

/// The instructions the server announces.
pub open spec fn instructions_text() -> Seq<char> {
    "Meowbox のメールデータを読み取り専用で公開する MCP サーバです。"@ + SAFETY_NOTE_JA@ + "\nThis server exposes Meowbox mail data read-only. "@
        + SAFETY_NOTE_EN@
}

/// The instructions the server announces: read-only access, no sending, no
/// change of read state.
pub fn server_instructions() -> (r: String)
    ensures
        r@ == instructions_text(),
{
    let mut out: Vec<char> = Vec::new();
    push_text(&mut out, "Meowbox のメールデータを読み取り専用で公開する MCP サーバです。");
    push_text(&mut out, SAFETY_NOTE_JA);
    push_text(&mut out, "\nThis server exposes Meowbox mail data read-only. ");
    push_text(&mut out, SAFETY_NOTE_EN);
    string_of(out.as_slice())
}

} // verus!
