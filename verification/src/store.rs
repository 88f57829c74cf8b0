//! The store's own logic: the records it takes, the queries it answers and
//! the SQL it runs for them. Running the SQL against SQLite is the
//! application's part.
use vstd::prelude::*;
use crate::domain::{AccountKind, Address, TaskStatus, Timestamp, kind_from_name};
use crate::text::{
    chars_of, dec, dec_i64, dec_int, join, join_chars, push_all, replace_all, replace_chars,
    split_ws, string_of, trim, trim_chars, vv, words, occurs_at, lemma_join_has_part,
    lemma_occurs_in_concat,
};
use crate::time::{parse_rfc3339_utc, rfc3339_parse, rfc3339_text, timestamp_in_range, to_rfc3339};

verus! {

/// What `insert_message` stores for one parsed message.
#[derive(Debug, Clone)]
pub struct NewMessage {
    pub account_id: i64,
    pub folder_id: i64,
    pub uid: u32,
    pub message_id: Option<String>,
    pub thread_key: String,
    pub from: Address,
    pub to: Vec<Address>,
    pub cc: Vec<Address>,
    pub subject: String,
    pub date: Timestamp,
    pub snippet: String,
    pub body_text: String,
    pub body_html: Option<String>,
    pub has_attachments: bool,
    pub is_read: bool,
    pub is_flagged: bool,
    pub raw_path: Option<String>,
}


/// One value bound to a `?` placeholder.
#[derive(Debug, Clone, PartialEq, Eq)]
pub enum SqlArg {
    Int(i64),
    Text(String),
    Null,
}

/// An argument as (kind: 0 integer, 1 text, 2 null; integer value; text
/// value).
pub open spec fn arg_view(a: SqlArg) -> (int, int, Seq<char>) {
    match a {
        SqlArg::Int(i) => (0, i as int, seq![]),
        SqlArg::Text(t) => (1, 0, t@),
        SqlArg::Null => (2, 0, seq![]),
    }
}

pub open spec fn int_arg(i: int) -> (int, int, Seq<char>) {
    (0, i, seq![])
}

pub open spec fn text_arg(t: Seq<char>) -> (int, int, Seq<char>) {
    (1, 0, t)
}

pub open spec fn null_arg() -> (int, int, Seq<char>) {
    (2, 0, seq![])
}

/// An optional integer argument: the integer, or `NULL`.
pub open spec fn opt_int_arg(o: Option<i64>) -> (int, int, Seq<char>) {
    match o {
        Some(i) => int_arg(i as int),
        None => null_arg(),
    }
}

/// A statement with its placeholder values, in order.
#[derive(Debug, Clone)]
pub struct SqlQuery {
    pub sql: String,
    pub args: Vec<SqlArg>,
}

pub open spec fn args_view(v: Seq<SqlArg>) -> Seq<(int, int, Seq<char>)> {
    v.map_values(|a: SqlArg| arg_view(a))
}

fn push_arg(args: &mut Vec<SqlArg>, a: SqlArg)
    ensures
        args_view(final(args)@) == args_view(old(args)@).push(arg_view(a)),
{
    let ghost before = args_view(args@);
    args.push(a);
    assert(args_view(args@) =~= before.push(arg_view(a)));
}

fn push_clause(clauses: &mut Vec<Vec<char>>, c: &str)
    ensures
        vv(final(clauses)@) == vv(old(clauses)@).push(c@),
{
    let ghost before = vv(clauses@);
    let v = chars_of(c);
    clauses.push(v);
    assert(vv(clauses@) =~= before.push(c@));
}

fn push_str(out: &mut Vec<char>, s: &str)
    ensures
        final(out)@ == old(out)@ + s@,
{
    let c = chars_of(s);
    push_all(out, &c);
}

/// `parts` joined with ` AND ` after `head`, or nothing when there are no
/// parts.
pub open spec fn conj(head: Seq<char>, parts: Seq<Seq<char>>) -> Seq<char> {
    if parts.len() == 0 {
        seq![]
    } else {
        head + join(parts, " AND "@)
    }
}

fn push_conj(out: &mut Vec<char>, head: &str, parts: &Vec<Vec<char>>)
    ensures
        final(out)@ == old(out)@ + conj(head@, vv(parts@)),
{
    if parts.len() == 0 {
        assert(old(out)@ + conj(head@, vv(parts@)) =~= old(out)@);
        return ;
    }
    push_str(out, head);
    let sep = chars_of(" AND ");
    let j = join_chars(parts, &sep);
    push_all(out, &j);
}

// ---- full-text search ------------------------------------------------------------

/// One word for an FTS5 `MATCH`: quoted, with inner quotes doubled.
pub open spec fn fts_word(w: Seq<char>) -> Seq<char> {
    seq!['"'] + replace_all(w, seq!['"'], seq!['"', '"']) + seq!['"']
}

/// The text for an FTS5 `MATCH`: every whitespace-separated word quoted, so
/// that `-` or `:` in the input cannot change the query's meaning.
pub open spec fn fts_escaped(text: Seq<char>) -> Seq<char> {
    join(words(text).map_values(|w: Seq<char>| fts_word(w)), seq![' '])
}

/// Quotes every word of the text for an FTS5 `MATCH`.
pub fn fts_escape(text: &str) -> (r: String)
    ensures
        r@ == fts_escaped(text@),
{
    let ws = split_ws(&chars_of(text));
    let q = vec!['"'];
    let qq = vec!['"', '"'];
    assert(q@ =~= seq!['"']);
    assert(qq@ =~= seq!['"', '"']);
    let mut out: Vec<Vec<char>> = Vec::new();
    let mut i: usize = 0;
    while i < ws.len()
        invariant
            i <= ws@.len(),
            q@ == seq!['"'],
            qq@ == seq!['"', '"'],
            vv(out@) == vv(ws@).subrange(0, i as int).map_values(|w: Seq<char>| fts_word(w)),
        decreases ws@.len() - i,
    {
        let ghost ov = vv(out@);
        let mut w = vec!['"'];
        let inner = replace_chars(ws[i].as_slice(), &q, &qq);
        push_all(&mut w, &inner);
        w.push('"');
        assert(w@ =~= fts_word(ws@[i as int]@));
        out.push(w);
        assert(vv(out@) =~= ov.push(fts_word(vv(ws@)[i as int])));
        assert(vv(ws@).subrange(0, i + 1).map_values(|w: Seq<char>| fts_word(w)) =~= vv(
            ws@,
        ).subrange(0, i as int).map_values(|w: Seq<char>| fts_word(w)).push(
            fts_word(vv(ws@)[i as int]),
        ));
        i += 1;
    }
    assert(vv(ws@).subrange(0, ws@.len() as int) =~= vv(ws@));
    let sp = vec![' '];
    assert(sp@ =~= seq![' ']);
    string_of(&join_chars(&out, &sp))
}

/// The conditions of a message search.
#[derive(Debug, Clone)]
pub struct SearchQuery {
    pub text: Option<String>,
    pub account_id: Option<i64>,
    pub project_tag: Option<String>,
    pub since: Option<Timestamp>,
    pub unread_only: bool,
    pub limit: usize,
}

/// The search uses full-text matching when the text is not blank.
pub open spec fn search_has_text(q: SearchQuery) -> bool {
    q.text matches Some(t) && trim(t@).len() > 0
}

pub open spec fn search_clauses(q: SearchQuery) -> Seq<Seq<char>> {
    (if search_has_text(q) {
        seq!["messages_fts MATCH ?"@]
    } else {
        seq![]
    }) + (if q.account_id is Some {
        seq!["m.account_id = ?"@]
    } else {
        seq![]
    }) + (if q.project_tag is Some {
        seq!["m.account_id IN (SELECT id FROM accounts WHERE project_tag = ?)"@]
    } else {
        seq![]
    }) + (if q.since is Some {
        seq!["m.date >= ?"@]
    } else {
        seq![]
    }) + (if q.unread_only {
        seq!["m.is_read = 0"@]
    } else {
        seq![]
    })
}

pub open spec fn search_args(q: SearchQuery) -> Seq<(int, int, Seq<char>)> {
    (if search_has_text(q) {
        seq![text_arg(fts_escaped(q.text->0@))]
    } else {
        seq![]
    }) + (if q.account_id is Some {
        seq![int_arg(q.account_id->0 as int)]
    } else {
        seq![]
    }) + (if q.project_tag is Some {
        seq![text_arg(q.project_tag->0@)]
    } else {
        seq![]
    }) + (if q.since is Some {
        seq![text_arg(rfc3339_text(q.since->0.secs as int, q.since->0.nanos as int))]
    } else {
        seq![]
    }) + seq![int_arg((if q.limit == 0 { 1 } else { q.limit }) as i64 as int)]
}

pub open spec fn search_sql_text(q: SearchQuery) -> Seq<char> {
    "SELECT m.id, m.account_id, m.thread_key, m.from_addr, m.from_name, m.subject, m.date, m.snippet, m.is_read FROM messages m "@
        + (if search_has_text(q) {
        "JOIN messages_fts f ON f.rowid = m.id "@
    } else {
        seq![]
    }) + conj("WHERE "@, search_clauses(q)) + " ORDER BY m.date DESC LIMIT ?"@
}

/// A search from a date keeps the messages dated at or after it: its
/// statement holds the condition `m.date >= ?`, and the date's RFC 3339 text
/// is among its arguments.
pub proof fn law_search_since_condition(q: SearchQuery)
    requires
        q.since is Some,
    ensures
        exists|i: int| occurs_at(search_sql_text(q), i, seq!['m', '.', 'd', 'a', 't', 'e', ' ', '>', '=', ' ', '?']),
        search_args(q).contains(text_arg(rfc3339_text(q.since->0.secs as int, q.since->0.nanos as int))),
{
    reveal_strlit("m.date >= ?");
    let p = seq!['m', '.', 'd', 'a', 't', 'e', ' ', '>', '=', ' ', '?'];
    assert("m.date >= ?"@ =~= p);
    let cl = search_clauses(q);
    let k: int = (if search_has_text(q) { 1int } else { 0 }) + (if q.account_id is Some { 1int } else { 0 })
        + (if q.project_tag is Some { 1int } else { 0 });
    assert(cl[k] == p);
    let i0 = lemma_join_has_part(cl, " AND "@, k);
    let j = join(cl, " AND "@);
    lemma_occurs_in_concat("WHERE "@, j, Seq::<char>::empty(), i0, p);
    assert("WHERE "@ + j + Seq::<char>::empty() =~= conj("WHERE "@, cl));
    let head = "SELECT m.id, m.account_id, m.thread_key, m.from_addr, m.from_name, m.subject, m.date, m.snippet, m.is_read FROM messages m "@
        + (if search_has_text(q) {
        "JOIN messages_fts f ON f.rowid = m.id "@
    } else {
        seq![]
    });
    let c = conj("WHERE "@, cl);
    lemma_occurs_in_concat(head, c, " ORDER BY m.date DESC LIMIT ?"@, "WHERE "@.len() + i0, p);
    assert(head + c + " ORDER BY m.date DESC LIMIT ?"@ =~= search_sql_text(q));
    let a = search_args(q);
    let t = text_arg(rfc3339_text(q.since->0.secs as int, q.since->0.nanos as int));
    assert(a[k] == t);
}

/// The statement of a message search: full-text match when there is text,
/// then account, project, date and unread conditions, newest first, at most
/// `limit` rows (at least one).
#[verifier::spinoff_prover]
#[verifier::rlimit(40)]
pub fn search_sql(q: &SearchQuery) -> (r: SqlQuery)
    requires
        q.since matches Some(t) ==> timestamp_in_range(t),
    ensures
        r.sql@ == search_sql_text(*q),
        args_view(r.args@) == search_args(*q),
        q.since is Some ==> exists|i: int| occurs_at(r.sql@, i, seq!['m', '.', 'd', 'a', 't', 'e', ' ', '>', '=', ' ', '?']),
{
    proof {
        if q.since is Some {
            law_search_since_condition(*q);
        }
    }
    let mut clauses: Vec<Vec<char>> = Vec::new();
    let mut args: Vec<SqlArg> = Vec::new();
    let has_text = match &q.text {
        Some(t) => trim_chars(&chars_of(t.as_str())).len() > 0,
        None => false,
    };
    let ghost c0 = vv(clauses@);
    let ghost a0 = args_view(args@);
    if has_text {
        push_clause(&mut clauses, "messages_fts MATCH ?");
        let t = match &q.text {
            Some(t) => fts_escape(t.as_str()),
            None => String::new(),
        };
        push_arg(&mut args, SqlArg::Text(t));
    }
    let ghost c1 = vv(clauses@);
    let ghost a1 = args_view(args@);
    if let Some(a) = q.account_id {
        push_clause(&mut clauses, "m.account_id = ?");
        push_arg(&mut args, SqlArg::Int(a));
    }
    let ghost c2 = vv(clauses@);
    let ghost a2 = args_view(args@);
    if let Some(tag) = &q.project_tag {
        push_clause(&mut clauses, "m.account_id IN (SELECT id FROM accounts WHERE project_tag = ?)");
        push_arg(&mut args, SqlArg::Text(tag.clone()));
    }
    let ghost c3 = vv(clauses@);
    let ghost a3 = args_view(args@);
    if let Some(since) = q.since {
        push_clause(&mut clauses, "m.date >= ?");
        push_arg(&mut args, SqlArg::Text(to_rfc3339(since)));
    }
    let ghost c4 = vv(clauses@);
    if q.unread_only {
        push_clause(&mut clauses, "m.is_read = 0");
    }
    let limit: usize = if q.limit == 0 {
        1
    } else {
        q.limit
    };
    let ghost a4 = args_view(args@);
    push_arg(&mut args, SqlArg::Int(limit as i64));
    assert(vv(clauses@) =~= search_clauses(*q));
    assert(args_view(args@) =~= search_args(*q));
    let mut sql: Vec<char> = Vec::new();
    push_str(
        &mut sql,
        "SELECT m.id, m.account_id, m.thread_key, m.from_addr, m.from_name, m.subject, m.date, m.snippet, m.is_read FROM messages m ",
    );
    if has_text {
        push_str(&mut sql, "JOIN messages_fts f ON f.rowid = m.id ");
    }
    push_conj(&mut sql, "WHERE ", &clauses);
    push_str(&mut sql, " ORDER BY m.date DESC LIMIT ?");
    let r = SqlQuery { sql: string_of(&sql), args };
    assert(r.sql@ =~= search_sql_text(*q));
    r
}


// ---- thread list -------------------------------------------------------------------

/// The conditions of the thread list.
#[derive(Debug, Clone)]
pub struct ThreadQuery {
    pub account_id: Option<i64>,
    pub project_tag: Option<String>,
    /// Only threads with an unread message.
    pub unread_only: bool,
    /// Only threads with a flagged message.
    pub flagged_only: bool,
    /// Archived messages count too.
    pub include_archived: bool,
    /// 0 means 200.
    pub limit: usize,
    pub offset: usize,
}

impl ThreadQuery {
    /// No conditions: every unarchived thread, the default page size.
    pub fn all() -> (r: ThreadQuery)
        ensures
            r.account_id is None && r.project_tag is None && !r.unread_only && !r.flagged_only
                && !r.include_archived && r.limit == 0 && r.offset == 0,
    {
        ThreadQuery {
            account_id: None,
            project_tag: None,
            unread_only: false,
            flagged_only: false,
            include_archived: false,
            limit: 0,
            offset: 0,
        }
    }
}

/// The page size used when none is given.
pub const DEFAULT_PAGE: usize = 200;

/// `limit`, with 0 meaning the default page size.
pub open spec fn page_limit(limit: usize) -> usize {
    if limit == 0 {
        200
    } else {
        limit
    }
}

pub open spec fn thread_message_clauses(q: ThreadQuery) -> Seq<Seq<char>> {
    (if !q.include_archived {
        seq!["msg.is_archived = 0"@]
    } else {
        seq![]
    }) + (if q.account_id is Some {
        seq!["msg.account_id = ?"@]
    } else {
        seq![]
    }) + (if q.project_tag is Some {
        seq!["a.project_tag = ?"@]
    } else {
        seq![]
    })
}

pub open spec fn thread_group_clauses(q: ThreadQuery) -> Seq<Seq<char>> {
    (if q.unread_only {
        seq!["g.unread_count > 0"@]
    } else {
        seq![]
    }) + (if q.flagged_only {
        seq!["g.is_flagged = 1"@]
    } else {
        seq![]
    })
}

pub open spec fn thread_args(q: ThreadQuery) -> Seq<(int, int, Seq<char>)> {
    (if q.account_id is Some {
        seq![int_arg(q.account_id->0 as int)]
    } else {
        seq![]
    }) + (if q.project_tag is Some {
        seq![text_arg(q.project_tag->0@)]
    } else {
        seq![]
    }) + seq![int_arg(page_limit(q.limit) as i64 as int), int_arg(q.offset as i64 as int)]
}

pub open spec fn threads_sql_text(q: ThreadQuery) -> Seq<char> {
    "WITH m AS (SELECT msg.* FROM messages msg JOIN accounts a ON a.id = msg.account_id WHERE 1=1 "@ + conj("AND "@, thread_message_clauses(q)) + "), agg AS (SELECT thread_key, COUNT(*) AS message_count, SUM(CASE WHEN is_read = 0 THEN 1 ELSE 0 END) AS unread_count, MAX(has_attachments) AS has_attachments, MAX(is_flagged) AS is_flagged FROM m GROUP BY thread_key), latest AS (SELECT m.*, ROW_NUMBER() OVER (PARTITION BY thread_key ORDER BY date DESC, id DESC) AS rn FROM m) SELECT l.thread_key, l.id, l.account_id, acc.project_tag, l.subject, l.from_addr, l.from_name, l.snippet, l.date, g.message_count, g.unread_count, g.has_attachments, g.is_flagged FROM latest l JOIN agg g ON g.thread_key = l.thread_key JOIN accounts acc ON acc.id = l.account_id WHERE l.rn = 1 "@ + conj(
        "AND "@,
        thread_group_clauses(q),
    ) + " ORDER BY l.date DESC, l.id DESC LIMIT ? OFFSET ?"@
}

/// A thread list of unread threads keeps exactly the threads with an unread
/// message: its statement holds the condition `g.unread_count > 0`.
pub proof fn law_threads_unread_condition(q: ThreadQuery)
    requires
        q.unread_only,
    ensures
        exists|i: int| occurs_at(
            threads_sql_text(q),
            i,
            seq!['g', '.', 'u', 'n', 'r', 'e', 'a', 'd', '_', 'c', 'o', 'u', 'n', 't', ' ', '>', ' ', '0'],
        ),
{
    reveal_strlit("g.unread_count > 0");
    let p = seq!['g', '.', 'u', 'n', 'r', 'e', 'a', 'd', '_', 'c', 'o', 'u', 'n', 't', ' ', '>', ' ', '0'];
    assert("g.unread_count > 0"@ =~= p);
    let cl = thread_group_clauses(q);
    assert(cl[0] == p);
    let i0 = lemma_join_has_part(cl, " AND "@, 0);
    let j = join(cl, " AND "@);
    lemma_occurs_in_concat("AND "@, j, Seq::<char>::empty(), i0, p);
    assert("AND "@ + j + Seq::<char>::empty() =~= conj("AND "@, cl));
    let head = "WITH m AS (SELECT msg.* FROM messages msg JOIN accounts a ON a.id = msg.account_id WHERE 1=1 "@ + conj("AND "@, thread_message_clauses(q)) + "), agg AS (SELECT thread_key, COUNT(*) AS message_count, SUM(CASE WHEN is_read = 0 THEN 1 ELSE 0 END) AS unread_count, MAX(has_attachments) AS has_attachments, MAX(is_flagged) AS is_flagged FROM m GROUP BY thread_key), latest AS (SELECT m.*, ROW_NUMBER() OVER (PARTITION BY thread_key ORDER BY date DESC, id DESC) AS rn FROM m) SELECT l.thread_key, l.id, l.account_id, acc.project_tag, l.subject, l.from_addr, l.from_name, l.snippet, l.date, g.message_count, g.unread_count, g.has_attachments, g.is_flagged FROM latest l JOIN agg g ON g.thread_key = l.thread_key JOIN accounts acc ON acc.id = l.account_id WHERE l.rn = 1 "@;
    let c = conj("AND "@, cl);
    lemma_occurs_in_concat(head, c, " ORDER BY l.date DESC, l.id DESC LIMIT ? OFFSET ?"@, "AND "@.len() + i0, p);
    assert(head + c + " ORDER BY l.date DESC, l.id DESC LIMIT ? OFFSET ?"@ =~= threads_sql_text(q));
}

/// The statement of the thread list: messages filtered by archive state,
/// account and project are grouped by thread key; each thread shows its
/// latest message (newest date, then highest id), its message and unread
/// counts and whether any message has attachments or a flag; threads are
/// then filtered by unread and flagged, newest first, one page.
pub fn list_threads_sql(q: &ThreadQuery) -> (r: SqlQuery)
    ensures
        r.sql@ == threads_sql_text(*q),
        args_view(r.args@) == thread_args(*q),
        q.unread_only ==> exists|i: int| occurs_at(
            r.sql@,
            i,
            seq!['g', '.', 'u', 'n', 'r', 'e', 'a', 'd', '_', 'c', 'o', 'u', 'n', 't', ' ', '>', ' ', '0'],
        ),
{
    proof {
        if q.unread_only {
            law_threads_unread_condition(*q);
        }
    }
    let mut mc: Vec<Vec<char>> = Vec::new();
    let mut gc: Vec<Vec<char>> = Vec::new();
    let mut args: Vec<SqlArg> = Vec::new();
    if !q.include_archived {
        push_clause(&mut mc, "msg.is_archived = 0");
    }
    if let Some(a) = q.account_id {
        push_clause(&mut mc, "msg.account_id = ?");
        push_arg(&mut args, SqlArg::Int(a));
    }
    if let Some(tag) = &q.project_tag {
        push_clause(&mut mc, "a.project_tag = ?");
        push_arg(&mut args, SqlArg::Text(tag.clone()));
    }
    if q.unread_only {
        push_clause(&mut gc, "g.unread_count > 0");
    }
    if q.flagged_only {
        push_clause(&mut gc, "g.is_flagged = 1");
    }
    let limit: usize = if q.limit == 0 {
        DEFAULT_PAGE
    } else {
        q.limit
    };
    push_arg(&mut args, SqlArg::Int(limit as i64));
    push_arg(&mut args, SqlArg::Int(q.offset as i64));
    assert(vv(mc@) =~= thread_message_clauses(*q));
    assert(vv(gc@) =~= thread_group_clauses(*q));
    assert(args_view(args@) =~= thread_args(*q));
    let mut sql: Vec<char> = Vec::new();
    push_str(&mut sql, "WITH m AS (SELECT msg.* FROM messages msg JOIN accounts a ON a.id = msg.account_id WHERE 1=1 ");
    push_conj(&mut sql, "AND ", &mc);
    push_str(&mut sql, "), agg AS (SELECT thread_key, COUNT(*) AS message_count, SUM(CASE WHEN is_read = 0 THEN 1 ELSE 0 END) AS unread_count, MAX(has_attachments) AS has_attachments, MAX(is_flagged) AS is_flagged FROM m GROUP BY thread_key), latest AS (SELECT m.*, ROW_NUMBER() OVER (PARTITION BY thread_key ORDER BY date DESC, id DESC) AS rn FROM m) SELECT l.thread_key, l.id, l.account_id, acc.project_tag, l.subject, l.from_addr, l.from_name, l.snippet, l.date, g.message_count, g.unread_count, g.has_attachments, g.is_flagged FROM latest l JOIN agg g ON g.thread_key = l.thread_key JOIN accounts acc ON acc.id = l.account_id WHERE l.rn = 1 ");
    push_conj(&mut sql, "AND ", &gc);
    push_str(&mut sql, " ORDER BY l.date DESC, l.id DESC LIMIT ? OFFSET ?");
    let r = SqlQuery { sql: string_of(&sql), args };
    assert(r.sql@ =~= threads_sql_text(*q));
    r
}

// ---- flags -----------------------------------------------------------------------

/// The 0/1 columns of a message that the UI changes.
#[derive(Debug, Clone, Copy, PartialEq, Eq, Structural)]
pub enum FlagColumn {
    Read,
    Flagged,
    Archived,
}

pub open spec fn column_name(c: FlagColumn) -> Seq<char> {
    match c {
        FlagColumn::Read => "is_read"@,
        FlagColumn::Flagged => "is_flagged"@,
        FlagColumn::Archived => "is_archived"@,
    }
}

/// `?` repeated `n` times, separated by commas.
pub open spec fn placeholders(n: nat) -> Seq<char>
    decreases n,
{
    if n == 0 {
        seq![]
    } else if n == 1 {
        seq!['?']
    } else {
        placeholders((n - 1) as nat) + seq![',', '?']
    }
}

pub open spec fn flag_update_text(c: FlagColumn, n: nat) -> Seq<char> {
    "UPDATE messages SET "@ + column_name(c) + " = ?1 WHERE id IN ("@ + placeholders(n) + ")"@
}

pub open spec fn flag_update_args(ids: Seq<i64>, value: bool) -> Seq<(int, int, Seq<char>)> {
    seq![int_arg(if value { 1 } else { 0 })] + ids.map_values(|i: i64| int_arg(i as int))
}

/// The update that sets one 0/1 column of the given messages; nothing to run
/// when there are no ids. The column name never comes from input.
pub fn flag_update_sql(column: FlagColumn, ids: &[i64], value: bool) -> (r: Option<SqlQuery>)
    ensures
        ids@.len() == 0 <==> r is None,
        r matches Some(q) ==> q.sql@ == flag_update_text(column, ids@.len()) && args_view(
            q.args@,
        ) == flag_update_args(ids@, value),
{
    if ids.len() == 0 {
        return None;
    }
    let mut sql: Vec<char> = Vec::new();
    push_str(&mut sql, "UPDATE messages SET ");
    match column {
        FlagColumn::Read => push_str(&mut sql, "is_read"),
        FlagColumn::Flagged => push_str(&mut sql, "is_flagged"),
        FlagColumn::Archived => push_str(&mut sql, "is_archived"),
    }
    push_str(&mut sql, " = ?1 WHERE id IN (");
    let ghost head = sql@;
    let mut args: Vec<SqlArg> = Vec::new();
    push_arg(&mut args, SqlArg::Int(if value { 1 } else { 0 }));
    let mut i: usize = 0;
    while i < ids.len()
        invariant
            i <= ids@.len(),
            sql@ == head + placeholders(i as nat),
            args_view(args@) == seq![int_arg(if value { 1 } else { 0 })] + ids@.subrange(
                0,
                i as int,
            ).map_values(|x: i64| int_arg(x as int)),
        decreases ids@.len() - i,
    {
        if i > 0 {
            sql.push(',');
        }
        sql.push('?');
        push_arg(&mut args, SqlArg::Int(ids[i]));
        i += 1;
        assert(sql@ =~= head + placeholders(i as nat));
        assert(ids@.subrange(0, i as int).map_values(|x: i64| int_arg(x as int)) =~= ids@.subrange(
            0,
            i - 1,
        ).map_values(|x: i64| int_arg(x as int)).push(int_arg(ids@[i - 1] as int)));
    }
    push_str(&mut sql, ")");
    assert(ids@.subrange(0, ids@.len() as int) =~= ids@);
    let r = SqlQuery { sql: string_of(&sql), args };
    assert(r.sql@ =~= flag_update_text(column, ids@.len()));
    Some(r)
}

// ---- tasks ----------------------------------------------------------------------------

/// The stored name of a task status.
pub open spec fn status_name(s: TaskStatus) -> Seq<char> {
    match s {
        TaskStatus::Open => "open"@,
        TaskStatus::Done => "done"@,
        TaskStatus::Dismissed => "dismissed"@,
    }
}

/// The stored name of a task status.
pub fn task_status_str(s: TaskStatus) -> (r: &'static str)
    ensures
        r@ == status_name(s),
{
    match s {
        TaskStatus::Open => "open",
        TaskStatus::Done => "done",
        TaskStatus::Dismissed => "dismissed",
    }
}

/// The status stored under a name; unknown names read as `Open`.
pub open spec fn status_from_stored(s: Seq<char>) -> TaskStatus {
    if s == seq!['d', 'o', 'n', 'e'] {
        TaskStatus::Done
    } else if s == seq!['d', 'i', 's', 'm', 'i', 's', 's', 'e', 'd'] {
        TaskStatus::Dismissed
    } else {
        TaskStatus::Open
    }
}

/// Reads a stored task status; unknown values fall back to `Open`.
pub fn parse_task_status(s: &str) -> (r: TaskStatus)
    ensures
        r == status_from_stored(s@),
{
    let c = chars_of(s);
    let done = vec!['d', 'o', 'n', 'e'];
    let dismissed = vec!['d', 'i', 's', 'm', 'i', 's', 's', 'e', 'd'];
    assert(done@ =~= seq!['d', 'o', 'n', 'e']);
    assert(dismissed@ =~= seq!['d', 'i', 's', 'm', 'i', 's', 's', 'e', 'd']);
    if crate::text::chars_eq(&c, &done) {
        TaskStatus::Done
    } else if crate::text::chars_eq(&c, &dismissed) {
        TaskStatus::Dismissed
    } else {
        TaskStatus::Open
    }
}

/// Reading back the stored name of a status gives the status again.
pub proof fn law_status_name_round_trip(s: TaskStatus)
    ensures
        status_from_stored(status_name(s)) == s,
{
    reveal_strlit("open");
    reveal_strlit("done");
    reveal_strlit("dismissed");
    assert(status_name(TaskStatus::Done) =~= seq!['d', 'o', 'n', 'e']);
    assert(status_name(TaskStatus::Dismissed) =~= seq!['d', 'i', 's', 'm', 'i', 's', 's', 'e', 'd']);
    if s == TaskStatus::Open {
        assert(status_name(s) != seq!['d', 'o', 'n', 'e']);
        assert(status_name(s)[1] != seq!['d', 'i', 's', 'm', 'i', 's', 's', 'e', 'd'][1]);
    }
}

/// The conditions of the task list.
#[derive(Debug, Clone)]
pub struct TaskQuery {
    pub status: Option<TaskStatus>,
    pub project_tag: Option<String>,
    /// Only tasks due before this time.
    pub due_before: Option<Timestamp>,
    /// 0 means 200.
    pub limit: usize,
}

pub open spec fn task_clauses(q: TaskQuery) -> Seq<Seq<char>> {
    (if q.status is Some {
        seq!["status = ?"@]
    } else {
        seq![]
    }) + (if q.project_tag is Some {
        seq!["account_id IN (SELECT id FROM accounts WHERE project_tag = ?)"@]
    } else {
        seq![]
    }) + (if q.due_before is Some {
        seq!["due IS NOT NULL AND due < ?"@]
    } else {
        seq![]
    })
}

pub open spec fn task_args(q: TaskQuery) -> Seq<(int, int, Seq<char>)> {
    (if q.status is Some {
        seq![text_arg(status_name(q.status->0))]
    } else {
        seq![]
    }) + (if q.project_tag is Some {
        seq![text_arg(q.project_tag->0@)]
    } else {
        seq![]
    }) + (if q.due_before is Some {
        seq![text_arg(rfc3339_text(q.due_before->0.secs as int, q.due_before->0.nanos as int))]
    } else {
        seq![]
    }) + seq![int_arg(page_limit(q.limit) as i64 as int)]
}

pub open spec fn tasks_sql_text(q: TaskQuery) -> Seq<char> {
    "SELECT id, account_id, source_message_id, title, due, status, confidence, created_by, created_at FROM tasks "@ + (if task_clauses(q).len() > 0 {
        conj("WHERE "@, task_clauses(q)) + " "@
    } else {
        seq![]
    }) + "ORDER BY (due IS NULL), due ASC, id ASC LIMIT ?"@
}

/// The statement of the task list: filtered by status, project and due
/// date; nearest due date first with undated tasks last, then by id.
pub fn list_tasks_sql(q: &TaskQuery) -> (r: SqlQuery)
    requires
        q.due_before matches Some(t) ==> timestamp_in_range(t),
    ensures
        r.sql@ == tasks_sql_text(*q),
        args_view(r.args@) == task_args(*q),
{
    let mut clauses: Vec<Vec<char>> = Vec::new();
    let mut args: Vec<SqlArg> = Vec::new();
    if let Some(st) = q.status {
        push_clause(&mut clauses, "status = ?");
        push_arg(&mut args, SqlArg::Text(String::from_str(task_status_str(st))));
    }
    if let Some(tag) = &q.project_tag {
        push_clause(&mut clauses, "account_id IN (SELECT id FROM accounts WHERE project_tag = ?)");
        push_arg(&mut args, SqlArg::Text(tag.clone()));
    }
    if let Some(before) = q.due_before {
        push_clause(&mut clauses, "due IS NOT NULL AND due < ?");
        push_arg(&mut args, SqlArg::Text(to_rfc3339(before)));
    }
    let limit: usize = if q.limit == 0 {
        DEFAULT_PAGE
    } else {
        q.limit
    };
    push_arg(&mut args, SqlArg::Int(limit as i64));
    assert(vv(clauses@) =~= task_clauses(*q));
    assert(args_view(args@) =~= task_args(*q));
    let mut sql: Vec<char> = Vec::new();
    push_str(&mut sql, "SELECT id, account_id, source_message_id, title, due, status, confidence, created_by, created_at FROM tasks ");
    if clauses.len() > 0 {
        push_conj(&mut sql, "WHERE ", &clauses);
        push_str(&mut sql, " ");
    }
    push_str(&mut sql, "ORDER BY (due IS NULL), due ASC, id ASC LIMIT ?");
    let r = SqlQuery { sql: string_of(&sql), args };
    assert(r.sql@ =~= tasks_sql_text(*q));
    r
}

/// What `upsert_task` does with a task.
#[derive(Debug, Clone, Copy, PartialEq, Eq, Structural)]
pub enum UpsertPlan {
    /// Store a new task.
    Insert,
    /// Update the due date and confidence of this existing task; its status
    /// and author stay as they are.
    Update(i64),
}

/// A task is the same as an existing one when both come from the same
/// message and have the same title; a task without a source message is
/// always new.
pub fn upsert_plan(source_message_id: Option<i64>, existing: Option<i64>) -> (r: UpsertPlan)
    ensures
        source_message_id is None ==> r == UpsertPlan::Insert,
        source_message_id is Some && existing is None ==> r == UpsertPlan::Insert,
        source_message_id is Some ==> (existing matches Some(id) ==> r == UpsertPlan::Update(id)),
{
    match source_message_id {
        None => UpsertPlan::Insert,
        Some(_) => match existing {
            Some(id) => UpsertPlan::Update(id),
            None => UpsertPlan::Insert,
        },
    }
}

// ---- rows and records --------------------------------------------------------------

/// One attachment row. `path` is the extracted file, once written.
#[derive(Debug, Clone, PartialEq, Eq)]
pub struct AttachmentRow {
    pub id: i64,
    pub message_id: i64,
    pub filename: String,
    pub mime: String,
    pub size: i64,
    pub path: Option<String>,
}

/// One saved summary.
#[derive(Debug, Clone, PartialEq, Eq)]
pub struct SummaryRow {
    pub id: i64,
    pub target: String,
    pub model: String,
    pub summary: String,
    pub created_at: Timestamp,
}

/// A new reply draft.
#[derive(Debug, Clone)]
pub struct NewDraft {
    pub account_id: i64,
    pub in_reply_to: Option<i64>,
    pub to: Vec<Address>,
    pub subject: String,
    pub body: String,
}

/// The statement that stores a reply draft. Its status is always `draft`,
/// whatever the caller wants: a draft becomes anything else only through the
/// user's approval, never through this statement.
pub open spec fn insert_draft_text() -> Seq<char> {
    "INSERT INTO drafts(account_id, in_reply_to, to_json, subject, body, status, created_at) VALUES (?1, ?2, ?3, ?4, ?5, 'draft', ?6)"@
}

/// The statement that stores a reply draft: the account, the answered
/// message (or `NULL`), the recipients as JSON, subject, body and creation
/// time are bound; the status is the literal `draft`.
pub fn insert_draft_sql(d: &NewDraft, to_json: &str, created_at: &str) -> (r: SqlQuery)
    ensures
        r.sql@ == insert_draft_text(),
        args_view(r.args@) == seq![
            int_arg(d.account_id as int),
            opt_int_arg(d.in_reply_to),
            text_arg(to_json@),
            text_arg(d.subject@),
            text_arg(d.body@),
            text_arg(created_at@),
        ],
{
    let mut args: Vec<SqlArg> = Vec::new();
    push_arg(&mut args, SqlArg::Int(d.account_id));
    match d.in_reply_to {
        Some(m) => push_arg(&mut args, SqlArg::Int(m)),
        None => push_arg(&mut args, SqlArg::Null),
    }
    push_arg(&mut args, SqlArg::Text(String::from_str(to_json)));
    push_arg(&mut args, SqlArg::Text(d.subject.clone()));
    push_arg(&mut args, SqlArg::Text(d.body.clone()));
    push_arg(&mut args, SqlArg::Text(String::from_str(created_at)));
    assert(args_view(args@) =~= seq![
        int_arg(d.account_id as int),
        opt_int_arg(d.in_reply_to),
        text_arg(to_json@),
        text_arg(d.subject@),
        text_arg(d.body@),
        text_arg(created_at@),
    ]);
    SqlQuery {
        sql: String::from_str(
            "INSERT INTO drafts(account_id, in_reply_to, to_json, subject, body, status, created_at) VALUES (?1, ?2, ?3, ?4, ?5, 'draft', ?6)",
        ),
        args,
    }
}

/// The counts of the sidebar views.
#[derive(Debug, Clone, Copy, Default, PartialEq, Eq, Structural)]
pub struct ViewCounts {
    pub all: i64,
    pub unread: i64,
    pub flagged: i64,
    pub tasks: i64,
    pub drafts: i64,
}

/// The position of attachment `id` among its message's attachments (listed
/// in id order, which is the order of the raw message), if it is there.
pub open spec fn position_of(ids: Seq<i64>, id: i64) -> Option<int>
    decreases ids.len(),
{
    if ids.len() == 0 {
        None
    } else if ids[0] == id {
        Some(0)
    } else {
        match position_of(ids.skip(1), id) {
            Some(p) => Some(p + 1),
            None => None,
        }
    }
}

/// The position of an attachment among its siblings.
pub fn attachment_position(sibling_ids: &[i64], id: i64) -> (r: Option<usize>)
    ensures
        r matches Some(p) ==> position_of(sibling_ids@, id) == Some(p as int),
        r is None ==> position_of(sibling_ids@, id) is None,
{
    let n = sibling_ids.len();
    let mut i: usize = 0;
    assert(sibling_ids@.skip(0) =~= sibling_ids@);
    while i < n
        invariant
            n == sibling_ids@.len(),
            i <= n,
            position_of(sibling_ids@, id) == (match position_of(sibling_ids@.skip(i as int), id) {
                Some(p) => Some(p + i),
                None => None,
            }),
        decreases n - i,
    {
        assert(sibling_ids@.skip(i as int).skip(1) =~= sibling_ids@.skip(i + 1));
        if sibling_ids[i] == id {
            return Some(i);
        }
        i += 1;
    }
    assert(sibling_ids@.skip(n as int).len() == 0);
    None
}

/// The meta key of an account's last successful synchronisation. The MCP
/// server reads the same key from another process.
pub open spec fn synced_at_key_text(account_id: int) -> Seq<char> {
    "sync:"@ + dec_int(account_id) + ":finished_at"@
}

/// `sync:<account_id>:finished_at`.
pub fn synced_at_key(account_id: i64) -> (r: String)
    ensures
        r@ == synced_at_key_text(account_id as int),
{
    let mut v: Vec<char> = Vec::new();
    push_str(&mut v, "sync:");
    let d = dec_i64(account_id);
    push_all(&mut v, &d);
    push_str(&mut v, ":finished_at");
    string_of(&v)
}

/// A stored timestamp: its RFC 3339 text read back, or `now` when it does
/// not parse.
pub fn parse_ts(s: &str, now: Timestamp) -> (r: Timestamp)
    ensures
        rfc3339_parse(s@) matches Ok(p) ==> r.secs == p.0 && r.nanos == p.1,
        rfc3339_parse(s@) is Err ==> r == now,
{
    match parse_rfc3339_utc(s) {
        Ok(t) => t,
        Err(_) => now,
    }
}

/// The last successful synchronisation read from its meta value, if it
/// parses.
pub fn synced_at_from_meta(value: Option<String>) -> (r: Option<Timestamp>)
    ensures
        value is None ==> r is None,
        value matches Some(v) ==> (match rfc3339_parse(v@) {
            Ok(p) => r matches Some(t) && t.secs == p.0 && t.nanos == p.1,
            Err(_) => r is None,
        }),
{
    match value {
        Some(v) => match parse_rfc3339_utc(v.as_str()) {
            Ok(t) => Some(t),
            Err(_) => None,
        },
        None => None,
    }
}

/// A stored account kind; unknown names read as `Imap`.
pub fn kind_or_imap(s: &str) -> (r: AccountKind)
    ensures
        r == (match kind_from_name(s@) {
            Some(k) => k,
            None => AccountKind::Imap,
        }),
{
    match AccountKind::parse(s) {
        Some(k) => k,
        None => AccountKind::Imap,
    }
}

// ---- schema version --------------------------------------------------------------

/// The schema version this build writes.
pub const SCHEMA_VERSION: i64 = 2;

/// The value of a run of ASCII digits.
pub open spec fn digits_value(d: Seq<char>) -> int
    decreases d.len(),
{
    if d.len() == 0 {
        0
    } else {
        digits_value(d.drop_last()) * 10 + ((d.last() as u32) - ('0' as u32))
    }
}

/// Every character is an ASCII digit.
pub open spec fn all_digits(d: Seq<char>) -> bool {
    forall|k: int| 0 <= k < d.len() ==> '0' <= #[trigger] d[k] <= '9'
}

/// What `str::parse::<i64>` reads: an optional sign, then one or more ASCII
/// digits, within the range of `i64`.
pub open spec fn i64_text_value(s: Seq<char>) -> Option<i64> {
    let neg = s.len() > 0 && s[0] == '-';
    let signed = s.len() > 0 && (s[0] == '-' || s[0] == '+');
    let d = if signed {
        s.drop_first()
    } else {
        s
    };
    if d.len() == 0 || !all_digits(d) {
        None
    } else {
        let v = if neg {
            -digits_value(d)
        } else {
            digits_value(d)
        };
        if i64::MIN <= v <= i64::MAX {
            Some(v as i64)
        } else {
            None
        }
    }
}

proof fn lemma_digits_value_grows(d: Seq<char>, k: int)
    requires
        all_digits(d),
        0 <= k <= d.len(),
    ensures
        0 <= digits_value(d.take(k)) <= digits_value(d),
    decreases d.len() - k,
{
    if k < d.len() {
        lemma_digits_value_grows(d, k + 1);
        assert(d.take(k + 1).drop_last() =~= d.take(k));
        assert('0' <= d[k] <= '9');
    } else {
        assert(d.take(k) =~= d);
    }
    lemma_digits_value_nonneg(d.take(k));
}

proof fn lemma_digits_value_nonneg(d: Seq<char>)
    requires
        all_digits(d),
    ensures
        digits_value(d) >= 0,
    decreases d.len(),
{
    if d.len() > 0 {
        assert(all_digits(d.drop_last())) by {
            assert forall|k: int| 0 <= k < d.drop_last().len() implies '0' <= #[trigger] d.drop_last()[k] <= '9' by {
                assert(d.drop_last()[k] == d[k]);
            }
        }
        lemma_digits_value_nonneg(d.drop_last());
        assert('0' <= d[d.len() - 1] <= '9');
    }
}

/// Reads a decimal integer as `str::parse::<i64>` does.
pub fn parse_i64_text(s: &str) -> (r: Option<i64>)
    ensures
        r == i64_text_value(s@),
{
    let c = chars_of(s);
    let n = c.len();
    let neg = n > 0 && c[0] == '-';
    let start: usize = if n > 0 && (c[0] == '-' || c[0] == '+') { 1 } else { 0 };
    let ghost d = if start == 1 { s@.drop_first() } else { s@ };
    assert(d =~= c@.subrange(start as int, n as int));
    if start == n {
        return None;
    }
    // the magnitude may reach 2^63 for a negative number
    let limit: u64 = if neg { 9_223_372_036_854_775_808 } else { 9_223_372_036_854_775_807 };
    let mut acc: u64 = 0;
    let mut i: usize = start;
    while i < n
        invariant
            n == c@.len(),
            start <= i <= n,
            d == c@.subrange(start as int, n as int),
            acc as int == digits_value(d.take(i - start)),
            acc <= limit,
            9_223_372_036_854_775_807 <= limit <= 9_223_372_036_854_775_808,
            limit == (if neg { 9_223_372_036_854_775_808u64 } else { 9_223_372_036_854_775_807u64 }),
            all_digits(d.take(i - start)),
            c@ == s@,
            start == (if n > 0 && (c@[0] == '-' || c@[0] == '+') { 1usize } else { 0usize }),
            neg == (n > 0 && c@[0] == '-'),
            d == (if start == 1 { s@.drop_first() } else { s@ }),
        decreases n - i,
    {
        let ch = c[i];
        assert(d[i - start] == ch);
        if !('0' <= ch && ch <= '9') {
            assert(!all_digits(d));
            return None;
        }
        let v = (ch as u32 - '0' as u32) as u64;
        assert(d.take(i - start + 1).drop_last() =~= d.take(i - start));
        assert(d.take(i - start + 1).last() == ch);
        assert(all_digits(d.take(i - start + 1))) by {
            assert forall|k: int| 0 <= k < d.take(i - start + 1).len() implies '0' <= #[trigger] d.take(i - start + 1)[k] <= '9' by {
                if k < i - start {
                    assert(d.take(i - start + 1)[k] == d.take(i - start)[k]);
                }
            }
        }
        if acc > (limit - v) / 10 {
            proof {
                assert(acc * 10 + v > limit) by (nonlinear_arith)
                    requires acc > (limit - v) / 10, v <= 9, v <= limit;
                if all_digits(d) {
                    lemma_digits_value_grows(d, i - start + 1);
                }
            }
            return None;
        }
        assert(acc * 10 + v <= limit) by (nonlinear_arith)
            requires acc <= (limit - v) / 10, v <= 9, v <= limit;
        acc = acc * 10 + v;
        i += 1;
    }
    assert(d.take(n - start) =~= d);
    if neg {
        if acc == 9_223_372_036_854_775_808 {
            Some(i64::MIN)
        } else {
            Some(-(acc as i64))
        }
    } else {
        Some(acc as i64)
    }
}

/// What opening the store does with the schema: the version it upgrades
/// from, if any, or the error when the database is newer than this build.
/// `stored` is the recorded version; `has_messages` whether the messages
/// table exists (a database from before versions were recorded is
/// version 1).
pub open spec fn schema_plan_of(stored: Option<Seq<char>>, has_messages: bool) -> Result<Option<i64>, Seq<char>> {
    let parsed = match stored {
        Some(t) => i64_text_value(t),
        None => None,
    };
    let from: Option<i64> = match parsed {
        Some(v) => Some(v),
        None => if has_messages {
            Some(1)
        } else {
            None
        },
    };
    match from {
        Some(v) => if v > SCHEMA_VERSION {
            Err("database schema "@ + dec_int(v as int) + " is newer than this build (2)"@)
        } else if v < SCHEMA_VERSION {
            Ok(Some(v))
        } else {
            Ok(None)
        },
        None => Ok(None),
    }
}

/// Decides the schema upgrade when the store is opened.
pub fn schema_plan(stored: Option<&str>, has_messages: bool) -> (r: Result<Option<i64>, String>)
    ensures
        match schema_plan_of(
            match stored {
                Some(t) => Some(t@),
                None => None,
            },
            has_messages,
        ) {
            Ok(x) => r == Ok::<Option<i64>, String>(x),
            Err(e) => r matches Err(m) && m@ == e,
        },
{
    let parsed = match stored {
        Some(t) => parse_i64_text(t),
        None => None,
    };
    let from: Option<i64> = match parsed {
        Some(v) => Some(v),
        None => if has_messages {
            Some(1)
        } else {
            None
        },
    };
    match from {
        Some(v) => {
            if v > SCHEMA_VERSION {
                let mut out: Vec<char> = Vec::new();
                push_str(&mut out, "database schema ");
                let d = dec_i64(v);
                push_all(&mut out, &d);
                push_str(&mut out, " is newer than this build (2)");
                Err(string_of(&out))
            } else if v < SCHEMA_VERSION {
                Ok(Some(v))
            } else {
                Ok(None)
            }
        },
        None => Ok(None),
    }
}

} // verus!
