//! RFC822 message to stored record: thread keys, snippets, HTML to text,
//! and the removal of quoted text and signatures from bodies.
use vstd::prelude::*;
use crate::domain::{normalize_subject, normalized_subject, Address};
use crate::mime::{
    attachment_contents, attachment_count, attachment_exists, attachment_name, attachment_type,
    body_html, body_text, cc_list, date, from_first, in_reply_to, message_id, mime_attachment_contents,
    mime_attachment_count, mime_attachment_exists, mime_attachment_name, mime_attachment_type,
    mime_body_html, mime_body_text, mime_cc, mime_date, mime_from, mime_in_reply_to,
    mime_message_id, mime_parses, mime_references, mime_subject, mime_text_body_count, mime_to,
    pair_view, parse_mime, references, subject, text_body_count, to_list, MimeMessage,
};
use crate::text::{
    chars_of, dec, find_at, find_from, has_at, has_prefix, has_suffix, is_ws, join,
    join_chars, lemma_find_from, lines, lines_of, lower_chars, lower_seq, occurs_at, push_all,
    replace_all, replace_chars, split_char, split_on, split_ws, starts_with, ends_with,
    string_of, sub_vec, trim, trim_chars, trim_end, trim_end_chars, trim_start, trim_start_chars,
    vv, words, lemma_words_ok, lemma_join_collapsed, no_amp, lemma_replace_absent,
    lemma_no_amp_absent, lemma_other_entity_absent, lemma_replace_single,
};

verus! {

/// Metadata of one attachment; the bytes stay in the raw `.eml`.
#[derive(Debug, Clone)]
pub struct AttachmentMeta {
    pub filename: String,
    pub mime: String,
    pub size: usize,
}

/// The result of parsing one message.
#[derive(Debug, Clone)]
pub struct Parsed {
    pub message_id: Option<String>,
    pub in_reply_to: Option<String>,
    pub references: Vec<String>,
    pub from: Option<Address>,
    pub to: Vec<Address>,
    pub cc: Vec<Address>,
    pub subject: String,
    /// Seconds since the Unix epoch.
    pub date: Option<i64>,
    pub body_text: String,
    pub body_html: Option<String>,
    pub attachments: Vec<AttachmentMeta>,
    pub has_attachments: bool,
}

impl Default for Parsed {
    fn default() -> (r: Parsed)
        ensures
            r.message_id is None,
            r.in_reply_to is None,
            r.references@.len() == 0,
            r.from is None,
            r.to@.len() == 0,
            r.cc@.len() == 0,
            r.subject@.len() == 0,
            r.date is None,
            r.body_text@.len() == 0,
            r.body_html is None,
            r.attachments@.len() == 0,
            !r.has_attachments,
    {
        Parsed {
            message_id: None,
            in_reply_to: None,
            references: Vec::new(),
            from: None,
            to: Vec::new(),
            cc: Vec::new(),
            subject: String::new(),
            date: None,
            body_text: String::new(),
            body_html: None,
            attachments: Vec::new(),
            has_attachments: false,
        }
    }
}

pub open spec fn opt_view(o: Option<String>) -> Option<Seq<char>> {
    match o {
        Some(s) => Some(s@),
        None => None,
    }
}

pub open spec fn strings_view(v: Seq<String>) -> Seq<Seq<char>> {
    v.map_values(|s: String| s@)
}

/// The thread key: the first `References` entry, else `In-Reply-To`, else
/// `subj:` and the normalised subject.
pub open spec fn thread_key_of(
    references: Seq<Seq<char>>,
    in_reply_to: Option<Seq<char>>,
    subject: Seq<char>,
) -> Seq<char> {
    if references.len() > 0 {
        references[0]
    } else if in_reply_to is Some {
        in_reply_to->0
    } else {
        "subj:"@ + normalized_subject(subject)
    }
}

/// Chooses the thread key: References, then In-Reply-To, then the normalised
/// subject.
pub fn thread_key(p: &Parsed) -> (r: String)
    ensures
        r@ == thread_key_of(strings_view(p.references@), opt_view(p.in_reply_to), p.subject@),
{
    if p.references.len() > 0 {
        return p.references[0].clone();
    }
    if let Some(irt) = &p.in_reply_to {
        return irt.clone();
    }
    let mut s = String::from_str("subj:");
    let n = normalize_subject(p.subject.as_str());
    s.append(n.as_str());
    s
}

/// The snippet: whitespace runs collapsed to one space, at most `max_chars`
/// characters.
pub open spec fn snippet_of(body: Seq<char>, max_chars: int) -> Seq<char> {
    let j = join(words(body), seq![' ']);
    if max_chars < j.len() {
        j.take(max_chars)
    } else {
        j
    }
}

/// The first `max_chars` characters of the body with whitespace collapsed.
pub fn snippet(body_text: &str, max_chars: usize) -> (r: String)
    ensures
        r@ == snippet_of(body_text@, max_chars as int),
{
    let c = chars_of(body_text);
    let w = split_ws(&c);
    let sp = vec![' '];
    assert(sp@ =~= seq![' ']);
    let j = join_chars(&w, &sp);
    if max_chars < j.len() {
        string_of(&sub_vec(&j, 0, max_chars))
    } else {
        string_of(&j)
    }
}

/// A snippet is at most `n` characters long, starts with no whitespace,
/// holds only single spaces between words, and a longer snippet of the same
/// text begins with it.
pub proof fn law_snippet_shape(body: Seq<char>, n: int, m: int)
    requires
        0 <= n <= m,
    ensures
        ({
            let r = snippet_of(body, n);
            &&& r.len() <= n
            &&& r.len() > 0 ==> !is_ws(r[0])
            &&& forall|i: int| 0 <= i < r.len() && is_ws(#[trigger] r[i]) ==> r[i] == ' '
            &&& forall|i: int, k: int|
                #![trigger r[i], r[k]]
                0 <= i && k == i + 1 && k < r.len() && r[i] == ' ' ==> r[k] != ' '
            &&& r == snippet_of(body, m).take(r.len() as int)
        }),
{
    let j = join(words(body), seq![' ']);
    lemma_words_ok(body);
    lemma_join_collapsed(words(body));
    let r = snippet_of(body, n);
    let len = if n < j.len() { n } else { j.len() as int };
    assert(r =~= j.take(len));
    assert forall|i: int| 0 <= i < r.len() implies #[trigger] r[i] == j[i] by {}
    assert forall|i: int| 0 <= i < r.len() && is_ws(#[trigger] r[i]) implies r[i] == ' ' by {
        assert(r[i] == j[i]);
    }
    assert forall|i: int, k: int|
        #![trigger r[i], r[k]]
        0 <= i && k == i + 1 && k < r.len() && r[i] == ' ' implies r[k] != ' ' by {
        assert(r[i] == j[i]);
        assert(r[k] == j[k]);
    }
    if r.len() > 0 {
        assert(r[0] == j[0]);
    }
    assert(r =~= snippet_of(body, m).take(r.len() as int));
}

/// Message-IDs are stored with their angle brackets.
pub open spec fn wrapped_id(id: Seq<char>) -> Seq<char> {
    seq!['<'] + id + seq!['>']
}

fn wrap_id(id: &str) -> (r: String)
    ensures
        r@ == wrapped_id(id@),
{
    let mut v = vec!['<'];
    let c = chars_of(id);
    push_all(&mut v, &c);
    v.push('>');
    string_of(&v)
}

// ---- HTML to plain text -------------------------------------------------------

/// The text of `h` from position `i` with tags removed and the contents of
/// `<script>` and `<style>` elements dropped. Tag names are compared after
/// ASCII lower-casing; an unterminated tag or element ends the text.
pub open spec fn strip_tags(h: Seq<char>, i: int) -> Seq<char>
    decreases h.len() - i,
{
    let l = lower_seq(h);
    if i < 0 || i >= h.len() {
        seq![]
    } else if occurs_at(l, i, seq!['<', 's', 'c', 'r', 'i', 'p', 't']) {
        match find_from(l, i, seq!['<', '/', 's', 'c', 'r', 'i', 'p', 't', '>']) {
            Some(p) => {
                proof {
                    lemma_find_from(l, i, seq!['<', '/', 's', 'c', 'r', 'i', 'p', 't', '>']);
                }
                strip_tags(h, p + seq!['<', '/', 's', 'c', 'r', 'i', 'p', 't', '>'].len())
            },
            None => seq![],
        }
    } else if occurs_at(l, i, seq!['<', 's', 't', 'y', 'l', 'e']) {
        match find_from(l, i, seq!['<', '/', 's', 't', 'y', 'l', 'e', '>']) {
            Some(p) => {
                proof {
                    lemma_find_from(l, i, seq!['<', '/', 's', 't', 'y', 'l', 'e', '>']);
                }
                strip_tags(h, p + seq!['<', '/', 's', 't', 'y', 'l', 'e', '>'].len())
            },
            None => seq![],
        }
    } else if h[i] == '<' {
        match find_from(h, i, seq!['>']) {
            Some(p) => {
                proof {
                    lemma_find_from(h, i, seq!['>']);
                }
                strip_tags(h, p + 1)
            },
            None => seq![],
        }
    } else {
        seq![h[i]] + strip_tags(h, i + 1)
    }
}

/// The entity references that are decoded, in the order they are decoded.
pub open spec fn decode_entities(s: Seq<char>) -> Seq<char> {
    let a = replace_all(s, seq!['&', 'n', 'b', 's', 'p', ';'], seq![' ']);
    let b = replace_all(a, seq!['&', 'q', 'u', 'o', 't', ';'], seq!['"']);
    let c = replace_all(b, seq!['&', 'l', 't', ';'], seq!['<']);
    let d = replace_all(c, seq!['&', 'g', 't', ';'], seq!['>']);
    replace_all(d, seq!['&', 'a', 'm', 'p', ';'], seq!['&'])
}

/// The text after one replacement pass when `e` is in `x + e + y`.
proof fn lemma_pass(x: Seq<char>, e: Seq<char>, y: Seq<char>, p: Seq<char>, rep: Seq<char>)
    requires
        no_amp(x),
        no_amp(y),
        e.len() >= 2,
        e[0] == '&',
        forall|i: int| 1 <= i < e.len() ==> #[trigger] e[i] != '&',
        p.len() >= 2,
        p[0] == '&',
    ensures
        p == e ==> replace_all(x + e + y, p, rep) == x + rep + y,
        p[1] != e[1] ==> replace_all(x + e + y, p, rep) == x + e + y,
{
    if p == e {
        lemma_replace_single(x, e, y, rep);
    }
    if p[1] != e[1] {
        lemma_other_entity_absent(x, e, y, p);
        lemma_replace_absent(x + e + y, p, rep);
    }
}

proof fn lemma_pass_clean(s: Seq<char>, p: Seq<char>, rep: Seq<char>)
    requires
        no_amp(s),
        p.len() > 0,
        p[0] == '&',
    ensures
        replace_all(s, p, rep) == s,
{
    lemma_no_amp_absent(s, p);
    lemma_replace_absent(s, p, rep);
}

proof fn lemma_no_amp_around(x: Seq<char>, c: char, y: Seq<char>)
    requires
        no_amp(x),
        no_amp(y),
        c != '&',
    ensures
        no_amp(x + seq![c] + y),
{
    let out = x + seq![c] + y;
    assert forall|i: int| 0 <= i < out.len() implies #[trigger] out[i] != '&' by {
        if i < x.len() {
            assert(out[i] == x[i]);
        } else if i > x.len() {
            assert(out[i] == y[i - x.len() - 1]);
        }
    }
}

/// Each entity reference decodes to its character: in text without any
/// other `&`, `&nbsp;` becomes a space, `&quot;` a double quote, `&lt;` and
/// `&gt;` the angle brackets and `&amp;` an ampersand, and text without `&`
/// is left as it is.
pub proof fn law_entities_decode(x: Seq<char>, y: Seq<char>)
    requires
        no_amp(x),
        no_amp(y),
    ensures
        decode_entities(x + seq!['&', 'n', 'b', 's', 'p', ';'] + y) == x + seq![' '] + y,
        decode_entities(x + seq!['&', 'q', 'u', 'o', 't', ';'] + y) == x + seq!['"'] + y,
        decode_entities(x + seq!['&', 'l', 't', ';'] + y) == x + seq!['<'] + y,
        decode_entities(x + seq!['&', 'g', 't', ';'] + y) == x + seq!['>'] + y,
        decode_entities(x + seq!['&', 'a', 'm', 'p', ';'] + y) == x + seq!['&'] + y,
        decode_entities(x) == x,
{
    let nbsp = seq!['&', 'n', 'b', 's', 'p', ';'];
    let quot = seq!['&', 'q', 'u', 'o', 't', ';'];
    let lt = seq!['&', 'l', 't', ';'];
    let gt = seq!['&', 'g', 't', ';'];
    let amp = seq!['&', 'a', 'm', 'p', ';'];
    assert forall|i: int| 1 <= i < nbsp.len() implies #[trigger] nbsp[i] != '&' by {}
    assert forall|i: int| 1 <= i < quot.len() implies #[trigger] quot[i] != '&' by {}
    assert forall|i: int| 1 <= i < lt.len() implies #[trigger] lt[i] != '&' by {}
    assert forall|i: int| 1 <= i < gt.len() implies #[trigger] gt[i] != '&' by {}
    assert forall|i: int| 1 <= i < amp.len() implies #[trigger] amp[i] != '&' by {}
    // &nbsp;
    lemma_pass(x, nbsp, y, nbsp, seq![' ']);
    lemma_no_amp_around(x, ' ', y);
    let s1 = x + seq![' '] + y;
    lemma_pass_clean(s1, quot, seq!['"']);
    lemma_pass_clean(s1, lt, seq!['<']);
    lemma_pass_clean(s1, gt, seq!['>']);
    lemma_pass_clean(s1, amp, seq!['&']);
    // &quot;
    lemma_pass(x, quot, y, nbsp, seq![' ']);
    lemma_pass(x, quot, y, quot, seq!['"']);
    lemma_no_amp_around(x, '"', y);
    let s2 = x + seq!['"'] + y;
    lemma_pass_clean(s2, lt, seq!['<']);
    lemma_pass_clean(s2, gt, seq!['>']);
    lemma_pass_clean(s2, amp, seq!['&']);
    // &lt;
    lemma_pass(x, lt, y, nbsp, seq![' ']);
    lemma_pass(x, lt, y, quot, seq!['"']);
    lemma_pass(x, lt, y, lt, seq!['<']);
    lemma_no_amp_around(x, '<', y);
    let s3 = x + seq!['<'] + y;
    lemma_pass_clean(s3, gt, seq!['>']);
    lemma_pass_clean(s3, amp, seq!['&']);
    // &gt;
    lemma_pass(x, gt, y, nbsp, seq![' ']);
    lemma_pass(x, gt, y, quot, seq!['"']);
    lemma_pass(x, gt, y, lt, seq!['<']);
    lemma_pass(x, gt, y, gt, seq!['>']);
    lemma_no_amp_around(x, '>', y);
    lemma_pass_clean(x + seq!['>'] + y, amp, seq!['&']);
    // &amp;
    lemma_pass(x, amp, y, nbsp, seq![' ']);
    lemma_pass(x, amp, y, quot, seq!['"']);
    lemma_pass(x, amp, y, lt, seq!['<']);
    lemma_pass(x, amp, y, gt, seq!['>']);
    lemma_pass(x, amp, y, amp, seq!['&']);
    // no `&` at all
    lemma_pass_clean(x, nbsp, seq![' ']);
    lemma_pass_clean(x, quot, seq!['"']);
    lemma_pass_clean(x, lt, seq!['<']);
    lemma_pass_clean(x, gt, seq!['>']);
    lemma_pass_clean(x, amp, seq!['&']);
}

/// A line is blank when it holds only whitespace.
pub open spec fn is_blank(l: Seq<char>) -> bool {
    trim(l).len() == 0
}

/// The end of the run of blank lines that starts at `i`.
pub open spec fn blank_run(ls: Seq<Seq<char>>, i: int) -> int
    decreases ls.len() - i,
{
    if 0 <= i < ls.len() && is_blank(ls[i]) {
        blank_run(ls, i + 1)
    } else {
        i
    }
}

pub proof fn lemma_blank_run(ls: Seq<Seq<char>>, i: int)
    requires
        0 <= i <= ls.len(),
    ensures
        i <= blank_run(ls, i) <= ls.len(),
        i < ls.len() && is_blank(ls[i]) ==> i < blank_run(ls, i),
    decreases ls.len() - i,
{
    if i < ls.len() && is_blank(ls[i]) {
        lemma_blank_run(ls, i + 1);
    }
}

/// The lines from `i` on, with every run of three or more blank lines
/// replaced by its first line.
pub open spec fn collapse_from(ls: Seq<Seq<char>>, i: int) -> Seq<Seq<char>>
    decreases ls.len() - i,
{
    if i < 0 || i >= ls.len() {
        seq![]
    } else if !is_blank(ls[i]) {
        seq![ls[i]] + collapse_from(ls, i + 1)
    } else {
        let e = blank_run(ls, i);
        proof {
            lemma_blank_run(ls, i);
        }
        (if e - i >= 3 {
            seq![ls[i]]
        } else {
            ls.subrange(i, e)
        }) + collapse_from(ls, e)
    }
}

/// Runs of three or more blank lines collapsed to one.
pub open spec fn collapsed_blank_lines(text: Seq<char>) -> Seq<char> {
    join(collapse_from(split_on(text, '\n'), 0), seq!['\n'])
}

/// Plain text of an HTML body.
pub open spec fn html_plain_text(html: Seq<char>) -> Seq<char> {
    collapsed_blank_lines(decode_entities(strip_tags(html, 0)))
}

fn strip_tags_exec(h: &[char]) -> (r: Vec<char>)
    ensures
        r@ == strip_tags(h@, 0),
{
    let n = h.len();
    let l = lower_chars(h);
    let script_open = vec!['<', 's', 'c', 'r', 'i', 'p', 't'];
    let script_close = vec!['<', '/', 's', 'c', 'r', 'i', 'p', 't', '>'];
    let style_open = vec!['<', 's', 't', 'y', 'l', 'e'];
    let style_close = vec!['<', '/', 's', 't', 'y', 'l', 'e', '>'];
    let gt = vec!['>'];
    let mut out: Vec<char> = Vec::new();
    let mut i: usize = 0;
    while i < n
        invariant
            n == h@.len(),
            l@ == lower_seq(h@),
            script_open@ == seq!['<', 's', 'c', 'r', 'i', 'p', 't'],
            script_close@ == seq!['<', '/', 's', 'c', 'r', 'i', 'p', 't', '>'],
            style_open@ == seq!['<', 's', 't', 'y', 'l', 'e'],
            style_close@ == seq!['<', '/', 's', 't', 'y', 'l', 'e', '>'],
            gt@ == seq!['>'],
            i <= n,
            strip_tags(h@, 0) == out@ + strip_tags(h@, i as int),
        decreases n - i,
    {
        if has_at(&l, i, &script_open) {
            match find_at(&l, i, &script_close) {
                Some(p) => {
                    proof {
                        lemma_find_from(l@, i as int, seq!['<', '/', 's', 'c', 'r', 'i', 'p', 't', '>']);
                    }
                    i = p + script_close.len();
                },
                None => {
                    i = n;
                },
            }
        } else if has_at(&l, i, &style_open) {
            match find_at(&l, i, &style_close) {
                Some(p) => {
                    proof {
                        lemma_find_from(l@, i as int, seq!['<', '/', 's', 't', 'y', 'l', 'e', '>']);
                    }
                    i = p + style_close.len();
                },
                None => {
                    i = n;
                },
            }
        } else if h[i] == '<' {
            match find_at(h, i, &gt) {
                Some(p) => {
                    proof {
                        lemma_find_from(h@, i as int, seq!['>']);
                    }
                    i = p + 1;
                },
                None => {
                    i = n;
                },
            }
        } else {
            out.push(h[i]);
            i += 1;
        }
    }
    out
}

fn decode_entities_exec(s: &[char]) -> (r: Vec<char>)
    ensures
        r@ == decode_entities(s@),
{
    let nbsp = vec!['&', 'n', 'b', 's', 'p', ';'];
    let quot = vec!['&', 'q', 'u', 'o', 't', ';'];
    let lt = vec!['&', 'l', 't', ';'];
    let gt = vec!['&', 'g', 't', ';'];
    let amp = vec!['&', 'a', 'm', 'p', ';'];
    let r1 = vec![' '];
    let r2 = vec!['"'];
    let r3 = vec!['<'];
    let r4 = vec!['>'];
    let r5 = vec!['&'];
    assert(nbsp@ =~= seq!['&', 'n', 'b', 's', 'p', ';']);
    assert(quot@ =~= seq!['&', 'q', 'u', 'o', 't', ';']);
    assert(lt@ =~= seq!['&', 'l', 't', ';']);
    assert(gt@ =~= seq!['&', 'g', 't', ';']);
    assert(amp@ =~= seq!['&', 'a', 'm', 'p', ';']);
    assert(r1@ =~= seq![' ']);
    assert(r2@ =~= seq!['"']);
    assert(r3@ =~= seq!['<']);
    assert(r4@ =~= seq!['>']);
    assert(r5@ =~= seq!['&']);
    let a = replace_chars(s, &nbsp, &r1);
    let b = replace_chars(&a, &quot, &r2);
    let c = replace_chars(&b, &lt, &r3);
    let d = replace_chars(&c, &gt, &r4);
    replace_chars(&d, &amp, &r5)
}

fn is_blank_exec(l: &[char]) -> (r: bool)
    ensures
        r == is_blank(l@),
{
    trim_chars(l).len() == 0
}

fn collapse_blank_lines_exec(text: &[char]) -> (r: Vec<char>)
    ensures
        r@ == collapsed_blank_lines(text@),
{
    let ls = split_char(text, '\n');
    let ghost gl = split_on(text@, '\n');
    let n = ls.len();
    let mut out: Vec<Vec<char>> = Vec::new();
    let mut i: usize = 0;
    while i < n
        invariant
            n == ls@.len(),
            vv(ls@) == gl,
            i <= n,
            collapse_from(gl, 0) == vv(out@) + collapse_from(gl, i as int),
        decreases n - i,
    {
        assert(ls@[i as int]@ == gl[i as int]);
        if !is_blank_exec(ls[i].as_slice()) {
            let ghost ov = vv(out@);
            let piece = sub_vec(ls[i].as_slice(), 0, ls[i].len());
            assert(piece@ =~= gl[i as int]);
            out.push(piece);
            assert(vv(out@) =~= ov + seq![gl[i as int]]);
            i += 1;
        } else {
            let start = i;
            while i < n && is_blank_exec(ls[i].as_slice())
                invariant
                    n == ls@.len(),
                    vv(ls@) == gl,
                    start < n,
                    is_blank(gl[start as int]),
                    start <= i <= n,
                    blank_run(gl, i as int) == blank_run(gl, start as int),
                    forall|k: int| start <= k < i ==> is_blank(#[trigger] gl[k]),
                decreases n - i,
            {
                assert(ls@[i as int]@ == gl[i as int]);
                i += 1;
            }
            proof {
                lemma_blank_run(gl, start as int);
                if i < n {
                    assert(ls@[i as int]@ == gl[i as int]);
                }
            }
            assert(blank_run(gl, i as int) == i);
            let ghost ov = vv(out@);
            if i - start >= 3 {
                let piece = sub_vec(ls[start].as_slice(), 0, ls[start].len());
                assert(ls@[start as int]@ == gl[start as int]);
                assert(piece@ =~= gl[start as int]);
                out.push(piece);
                assert(vv(out@) =~= ov + seq![gl[start as int]]);
            } else {
                let mut k = start;
                while k < i
                    invariant
                        n == ls@.len(),
                        vv(ls@) == gl,
                        start <= k <= i <= n,
                        vv(out@) == ov + gl.subrange(start as int, k as int),
                    decreases i - k,
                {
                    let ghost before = vv(out@);
                    let piece = sub_vec(ls[k].as_slice(), 0, ls[k].len());
                    assert(ls@[k as int]@ == gl[k as int]);
                    assert(piece@ =~= gl[k as int]);
                    out.push(piece);
                    assert(vv(out@) =~= before.push(gl[k as int]));
                    k += 1;
                    assert(gl.subrange(start as int, k as int) =~= gl.subrange(
                        start as int,
                        k - 1,
                    ).push(gl[k - 1]));
                }
            }
        }
    }
    assert(vv(out@) =~= vv(out@) + collapse_from(gl, n as int));
    let nl = vec!['\n'];
    assert(nl@ =~= seq!['\n']);
    join_chars(&out, &nl)
}

/// Simple HTML to text, used only when there is no `text/plain` part: the
/// contents of `<script>` and `<style>` are dropped, tags removed, `&amp;
/// &lt; &gt; &quot; &nbsp;` decoded, and three or more blank lines collapsed
/// to one.
pub fn html_to_plain_text(html: &str) -> (r: String)
    ensures
        r@ == html_plain_text(html@),
{
    let h = chars_of(html);
    let stripped = strip_tags_exec(&h);
    let decoded = decode_entities_exec(&stripped);
    string_of(&collapse_blank_lines_exec(&decoded))
}


// ---- quotes and signatures ----------------------------------------------------

pub open spec fn word_on() -> Seq<char> {
    seq!['O', 'n', ' ']
}

pub open spec fn word_wrote() -> Seq<char> {
    seq![' ', 'w', 'r', 'o', 't', 'e', ':']
}

pub open spec fn label_original_en() -> Seq<char> {
    seq!['O', 'r', 'i', 'g', 'i', 'n', 'a', 'l', ' ', 'M', 'e', 's', 's', 'a', 'g', 'e']
}

pub open spec fn label_original_ja() -> Seq<char> {
    seq!['元', 'の', 'メ', 'ッ', 'セ', 'ー', 'ジ']
}

/// The end of the run of `-` that starts at `i`.
pub open spec fn dash_run(s: Seq<char>, i: int) -> int
    decreases s.len() - i,
{
    if 0 <= i < s.len() && s[i] == '-' {
        dash_run(s, i + 1)
    } else {
        i
    }
}

pub proof fn lemma_dash_run(s: Seq<char>, i: int)
    requires
        0 <= i <= s.len(),
    ensures
        i <= dash_run(s, i) <= s.len(),
    decreases s.len() - i,
{
    if i < s.len() && s[i] == '-' {
        lemma_dash_run(s, i + 1);
    }
}

/// What follows a leading run of at least three hyphens.
pub open spec fn strip_leading_dashes(s: Seq<char>) -> Option<Seq<char>> {
    let k = dash_run(s, 0);
    if k >= 3 {
        Some(s.skip(k))
    } else {
        None
    }
}

/// A line such as `-----Original Message-----` or `----- 元のメッセージ -----`:
/// at least three hyphens, the label, at least three hyphens, with any
/// whitespace around the parts.
pub open spec fn matches_dashed_marker(line: Seq<char>, label: Seq<char>) -> bool {
    match strip_leading_dashes(trim(line)) {
        None => false,
        Some(rest) => {
            let r = trim_start(rest);
            starts_with(r, label) && match strip_leading_dashes(
                trim_start(r.skip(label.len() as int)),
            ) {
                Some(x) => x.len() == 0,
                None => false,
            }
        },
    }
}

pub open spec fn is_quote_line(l: Seq<char>) -> bool {
    starts_with(trim_start(l), seq!['>'])
}

pub open spec fn is_reply_header_line(l: Seq<char>) -> bool {
    starts_with(l, word_on()) && ends_with(trim_end(l), word_wrote())
}

pub open spec fn is_original_message_marker(l: Seq<char>) -> bool {
    matches_dashed_marker(l, label_original_en()) || matches_dashed_marker(l, label_original_ja())
}

/// A signature separator: two hyphens and nothing else but trailing
/// whitespace.
pub open spec fn is_signature_marker(l: Seq<char>) -> bool {
    trim_end(l) == seq!['-', '-']
}

/// A line from which on the rest of the body is quoted or signature.
pub open spec fn ends_body(l: Seq<char>) -> bool {
    is_signature_marker(l) || is_original_message_marker(l) || is_reply_header_line(l)
}

/// The lines from `i` on that are kept: up to the first line that ends the
/// body, without quote lines.
pub open spec fn kept_from(ls: Seq<Seq<char>>, i: int) -> Seq<Seq<char>>
    decreases ls.len() - i,
{
    if i < 0 || i >= ls.len() {
        seq![]
    } else if ends_body(ls[i]) {
        seq![]
    } else if is_quote_line(ls[i]) {
        kept_from(ls, i + 1)
    } else {
        seq![ls[i]] + kept_from(ls, i + 1)
    }
}

/// The body without quoted text and signature, trimmed.
pub open spec fn stripped_body(text: Seq<char>) -> Seq<char> {
    trim(join(kept_from(lines(text), 0), seq!['\n']))
}

/// A reply header line such as `On Mon, Sep 1, 2025 Tanaka wrote:` (it
/// starts with `On ` and, trailing whitespace aside, ends with ` wrote:`)
/// ends the body: nothing from that line on is kept.
pub proof fn law_reply_header_ends_body(ls: Seq<Seq<char>>, k: int, i: int)
    requires
        0 <= i <= k < ls.len(),
        starts_with(ls[k], seq!['O', 'n', ' ']),
        ends_with(trim_end(ls[k]), seq![' ', 'w', 'r', 'o', 't', 'e', ':']),
    ensures
        kept_from(ls, i) == kept_from(ls.take(k), i),
    decreases k - i,
{
    if i == k {
        assert(ends_body(ls[k]));
    } else {
        law_reply_header_ends_body(ls, k, i + 1);
        assert(ls.take(k)[i] == ls[i]);
    }
}

/// The stripped body of a text holds nothing from a reply header line on.
pub proof fn law_stripped_body_stops_at_reply_header(text: Seq<char>, k: int)
    requires
        0 <= k < lines(text).len(),
        starts_with(lines(text)[k], seq!['O', 'n', ' ']),
        ends_with(trim_end(lines(text)[k]), seq![' ', 'w', 'r', 'o', 't', 'e', ':']),
    ensures
        stripped_body(text) == trim(join(kept_from(lines(text).take(k), 0), seq!['\n'])),
{
    law_reply_header_ends_body(lines(text), k, 0);
}

fn dash_run_exec(s: &[char]) -> (r: usize)
    ensures
        r as int == dash_run(s@, 0),
{
    let n = s.len();
    let mut i: usize = 0;
    while i < n && s[i] == '-'
        invariant
            n == s@.len(),
            i <= n,
            dash_run(s@, i as int) == dash_run(s@, 0),
        decreases n - i,
    {
        i += 1;
    }
    i
}

fn strip_leading_dashes_exec(s: &[char]) -> (r: Option<Vec<char>>)
    ensures
        r matches Some(v) ==> strip_leading_dashes(s@) == Some(v@),
        r is None ==> strip_leading_dashes(s@) is None,
{
    let k = dash_run_exec(s);
    proof {
        lemma_dash_run(s@, 0);
    }
    if k >= 3 {
        let v = sub_vec(s, k, s.len());
        assert(v@ =~= s@.skip(k as int));
        Some(v)
    } else {
        None
    }
}

fn matches_dashed_marker_exec(line: &[char], label: &[char]) -> (r: bool)
    ensures
        r == matches_dashed_marker(line@, label@),
{
    let t = trim_chars(line);
    match strip_leading_dashes_exec(&t) {
        None => false,
        Some(rest) => {
            let r = trim_start_chars(&rest);
            if !has_prefix(&r, label) {
                return false;
            }
            let after = sub_vec(&r, label.len(), r.len());
            assert(after@ =~= r@.skip(label@.len() as int));
            let after_t = trim_start_chars(&after);
            match strip_leading_dashes_exec(&after_t) {
                Some(x) => x.len() == 0,
                None => false,
            }
        },
    }
}

fn is_quote_line_exec(l: &[char]) -> (r: bool)
    ensures
        r == is_quote_line(l@),
{
    let t = trim_start_chars(l);
    let gt = vec!['>'];
    assert(gt@ =~= seq!['>']);
    has_prefix(&t, &gt)
}

fn is_reply_header_line_exec(l: &[char]) -> (r: bool)
    ensures
        r == is_reply_header_line(l@),
{
    let on = vec!['O', 'n', ' '];
    assert(on@ =~= word_on());
    let wrote = vec![' ', 'w', 'r', 'o', 't', 'e', ':'];
    assert(wrote@ =~= word_wrote());
    if !has_prefix(l, &on) {
        return false;
    }
    let t = trim_end_chars(l);
    has_suffix(&t, &wrote)
}

fn is_original_message_marker_exec(l: &[char]) -> (r: bool)
    ensures
        r == is_original_message_marker(l@),
{
    let en = vec!['O', 'r', 'i', 'g', 'i', 'n', 'a', 'l', ' ', 'M', 'e', 's', 's', 'a', 'g', 'e'];
    assert(en@ =~= label_original_en());
    let ja = vec!['元', 'の', 'メ', 'ッ', 'セ', 'ー', 'ジ'];
    assert(ja@ =~= label_original_ja());
    matches_dashed_marker_exec(l, &en) || matches_dashed_marker_exec(l, &ja)
}

fn is_signature_marker_exec(l: &[char]) -> (r: bool)
    ensures
        r == is_signature_marker(l@),
{
    let t = trim_end_chars(l);
    t.len() == 2 && t[0] == '-' && t[1] == '-' && {
        assert(t@ =~= seq!['-', '-']);
        true
    }
}

fn strip_quotes_and_signature_chars(text: &[char]) -> (r: Vec<char>)
    ensures
        r@ == stripped_body(text@),
{
    let ls = lines_of(text);
    let ghost gl = lines(text@);
    let n = ls.len();
    let mut out: Vec<Vec<char>> = Vec::new();
    let mut i: usize = 0;
    while i < n
        invariant_except_break
            n == ls@.len(),
            vv(ls@) == gl,
            i <= n,
            kept_from(gl, 0) == vv(out@) + kept_from(gl, i as int),
        ensures
            kept_from(gl, 0) == vv(out@),
        decreases n - i,
    {
        let line = ls[i].as_slice();
        assert(line@ == gl[i as int]);
        if is_signature_marker_exec(line) || is_original_message_marker_exec(line)
            || is_reply_header_line_exec(line) {
            assert(vv(out@) + seq![] =~= vv(out@));
            break ;
        }
        if is_quote_line_exec(line) {
            i += 1;
            continue ;
        }
        let ghost ov = vv(out@);
        let piece = sub_vec(line, 0, line.len());
        assert(piece@ =~= gl[i as int]);
        out.push(piece);
        assert(vv(out@) =~= ov + seq![gl[i as int]]);
        i += 1;
    }
    proof {
        if i == n {
        }
    }
    let nl = vec!['\n'];
    assert(nl@ =~= seq!['\n']);
    let j = join_chars(&out, &nl);
    trim_chars(&j)
}

/// Drops quoted text (`>` lines and everything from an `On ... wrote:`,
/// `----- Original Message -----` or `----- 元のメッセージ -----` line on) and
/// the signature (from a `--` line on), then trims.
pub fn strip_quotes_and_signature(text: &str) -> (r: String)
    ensures
        r@ == stripped_body(text@),
{
    let t = chars_of(text);
    string_of(&strip_quotes_and_signature_chars(&t))
}


// ---- parsing a message ------------------------------------------------------------

/// Why a message or one of its attachments could not be read.
#[derive(Debug, Clone, Copy, PartialEq, Eq, Structural)]
pub enum ParseError {
    /// The bytes are not an RFC822 message.
    NotAMessage,
    /// There is no attachment at the requested position.
    NoSuchAttachment,
}

pub open spec fn address_view(a: Address) -> (Option<Seq<char>>, Seq<char>) {
    (opt_view(a.name), a.email@)
}

pub open spec fn addresses_view(v: Seq<Address>) -> Seq<(Option<Seq<char>>, Seq<char>)> {
    v.map_values(|a: Address| address_view(a))
}

/// A parsed address is kept only when it has an e-mail address.
pub open spec fn address_of_pair(p: (Option<Seq<char>>, Option<Seq<char>>)) -> Option<
    (Option<Seq<char>>, Seq<char>),
> {
    match p.1 {
        Some(e) => Some((p.0, e)),
        None => None,
    }
}

/// The addresses of a list, skipping the entries without an e-mail address.
pub open spec fn addresses_of(ps: Seq<(Option<Seq<char>>, Option<Seq<char>>)>) -> Seq<
    (Option<Seq<char>>, Seq<char>),
>
    decreases ps.len(),
{
    if ps.len() == 0 {
        seq![]
    } else {
        let rest = addresses_of(ps.drop_last());
        match address_of_pair(ps.last()) {
            Some(a) => rest.push(a),
            None => rest,
        }
    }
}

pub open spec fn octet_stream() -> Seq<char> {
    seq!['a', 'p', 'p', 'l', 'i', 'c', 'a', 't', 'i', 'o', 'n', '/', 'o', 'c', 't', 'e', 't', '-', 's', 't', 'r', 'e', 'a', 'm']
}

/// `type/subtype`, `type` without a subtype, or `application/octet-stream`
/// when the part has no content type.
pub open spec fn mime_type_text(t: Option<(Seq<char>, Option<Seq<char>>)>) -> Seq<char> {
    match t {
        Some((ty, Some(sub))) => ty + seq!['/'] + sub,
        Some((ty, None)) => ty,
        None => octet_stream(),
    }
}

/// The positions, from `i` on, of the attachments that have a file name, in
/// the order the parser lists them (the listing stops at the first missing
/// part).
pub open spec fn named_attachments(raw: Seq<u8>, i: int) -> Seq<int>
    decreases mime_attachment_count(raw) - i,
{
    if i < 0 || i >= mime_attachment_count(raw) || i > u32::MAX || !mime_attachment_exists(raw, i) {
        seq![]
    } else if mime_attachment_name(raw, i) is Some {
        seq![i] + named_attachments(raw, i + 1)
    } else {
        named_attachments(raw, i + 1)
    }
}

pub open spec fn meta_view(a: AttachmentMeta) -> (Seq<char>, Seq<char>, int) {
    (a.filename@, a.mime@, a.size as int)
}

/// File name, MIME type and size of the attachment at position `i`.
pub open spec fn attachment_meta_at(raw: Seq<u8>, i: int) -> (Seq<char>, Seq<char>, int) {
    (
        mime_attachment_name(raw, i)->0,
        mime_type_text(mime_attachment_type(raw, i)),
        mime_attachment_contents(raw, i).len() as int,
    )
}

/// The body text before quote and signature removal: the first `text/plain`
/// part, else the HTML body converted to text, else nothing.
pub open spec fn body_text_source(raw: Seq<u8>) -> Seq<char> {
    if mime_text_body_count(raw) > 0 {
        match mime_body_text(raw) {
            Some(t) => t,
            None => seq![],
        }
    } else {
        match mime_body_html(raw) {
            Some(h) => html_plain_text(h),
            None => seq![],
        }
    }
}

pub open spec fn opt_wrapped(o: Option<Seq<char>>) -> Option<Seq<char>> {
    match o {
        Some(s) => Some(wrapped_id(s)),
        None => None,
    }
}

/// What `parse` extracts from the raw bytes of a message.
pub open spec fn parsed_from(p: Parsed, raw: Seq<u8>) -> bool {
    let ids_irt = mime_in_reply_to(raw);
    let refs = mime_references(raw);
    let names = named_attachments(raw, 0);
    &&& opt_view(p.message_id) == opt_wrapped(mime_message_id(raw))
    &&& opt_view(p.in_reply_to) == (if ids_irt.len() > 0 {
        Some(wrapped_id(ids_irt[0]))
    } else {
        None
    })
    &&& strings_view(p.references@) == refs.map_values(|s: Seq<char>| wrapped_id(s))
    &&& (match p.from {
        Some(a) => mime_from(raw) matches Some(q) && address_of_pair(q) == Some(address_view(a)),
        None => mime_from(raw) matches Some(q) ==> address_of_pair(q) is None,
    })
    &&& addresses_view(p.to@) == addresses_of(mime_to(raw))
    &&& addresses_view(p.cc@) == addresses_of(mime_cc(raw))
    &&& p.subject@ == (match mime_subject(raw) {
        Some(s) => s,
        None => seq![],
    })
    &&& (match p.date {
        Some(t) => mime_date(raw) == Some(t as int),
        None => mime_date(raw) is None,
    })
    &&& opt_view(p.body_html) == mime_body_html(raw)
    &&& p.body_text@ == stripped_body(body_text_source(raw))
    &&& p.attachments@.map_values(|a: AttachmentMeta| meta_view(a)) == names.map_values(
        |i: int| attachment_meta_at(raw, i),
    )
    &&& p.has_attachments == (names.len() > 0)
}

fn wrap_ids(ids: &Vec<String>) -> (r: Vec<String>)
    ensures
        strings_view(r@) == strings_view(ids@).map_values(|s: Seq<char>| wrapped_id(s)),
{
    let mut out: Vec<String> = Vec::new();
    let mut i: usize = 0;
    while i < ids.len()
        invariant
            i <= ids@.len(),
            strings_view(out@) == strings_view(ids@.subrange(0, i as int)).map_values(
                |s: Seq<char>| wrapped_id(s),
            ),
        decreases ids@.len() - i,
    {
        let ghost ov = strings_view(out@);
        let w = wrap_id(ids[i].as_str());
        out.push(w);
        assert(strings_view(out@) =~= ov.push(w@));
        assert(strings_view(ids@.subrange(0, i + 1)) =~= strings_view(ids@.subrange(0, i as int)).push(
            ids@[i as int]@,
        ));
        i += 1;
        assert(strings_view(out@) =~= strings_view(ids@.subrange(0, i as int)).map_values(
            |s: Seq<char>| wrapped_id(s),
        ));
    }
    assert(ids@.subrange(0, ids@.len() as int) =~= ids@);
    out
}

fn addresses_from_pairs(ps: &Vec<(Option<String>, Option<String>)>) -> (r: Vec<Address>)
    ensures
        addresses_view(r@) == addresses_of(
            ps@.map_values(|p: (Option<String>, Option<String>)| pair_view(p)),
        ),
{
    let ghost pv = ps@.map_values(|p: (Option<String>, Option<String>)| pair_view(p));
    let mut out: Vec<Address> = Vec::new();
    let mut i: usize = 0;
    while i < ps.len()
        invariant
            i <= ps@.len(),
            pv == ps@.map_values(|p: (Option<String>, Option<String>)| pair_view(p)),
            addresses_view(out@) == addresses_of(pv.subrange(0, i as int)),
        decreases ps@.len() - i,
    {
        let ghost ov = addresses_view(out@);
        assert(pv.subrange(0, i + 1).drop_last() =~= pv.subrange(0, i as int));
        assert(pv.subrange(0, i + 1).last() == pair_view(ps@[i as int]));
        let (n, e) = &ps[i];
        match e {
            Some(email) => {
                let a = Address { name: n.clone(), email: email.clone() };
                out.push(a);
                assert(addresses_view(out@) =~= ov.push(address_view(a)));
            },
            None => {},
        }
        i += 1;
    }
    assert(pv.subrange(0, ps@.len() as int) =~= pv);
    out
}

fn mime_type_string(t: Option<(String, Option<String>)>) -> (r: String)
    ensures
        r@ == mime_type_text(
            match t {
                Some(p) => Some(
                    (p.0@, match p.1 {
                        Some(s) => Some(s@),
                        None => None,
                    }),
                ),
                None => None,
            },
        ),
{
    match t {
        Some((ty, Some(sub))) => {
            let mut s = ty;
            s.append("/");
            s.append(sub.as_str());
            proof {
                reveal_strlit("/");
            }
            s
        },
        Some((ty, None)) => ty,
        None => {
            let v = vec!['a', 'p', 'p', 'l', 'i', 'c', 'a', 't', 'i', 'o', 'n', '/', 'o', 'c', 't', 'e', 't', '-', 's', 't', 'r', 'e', 'a', 'm'];
            assert(v@ =~= octet_stream());
            string_of(&v)
        },
    }
}

/// Position of the `index`-th named attachment, if any.
fn named_attachment_position(m: &MimeMessage, index: usize) -> (r: Option<u32>)
    ensures
        r matches Some(i) ==> index < named_attachments(m@, 0).len() && named_attachments(
            m@,
            0,
        )[index as int] == i as int && mime_attachment_exists(m@, i as int),
        r is None ==> index >= named_attachments(m@, 0).len(),
{
    let count = attachment_count(m);
    let mut i: usize = 0;
    let mut seen: usize = 0;
    while i < count && i <= u32::MAX as usize
        invariant
            count as nat == mime_attachment_count(m@),
            i <= count,
            seen <= index,
            forall|k: int| 0 <= k < i ==> mime_attachment_exists(m@, k),
            named_attachments(m@, 0) == named_attachments(m@, 0).subrange(0, seen as int)
                + named_attachments(m@, i as int),
            named_attachments(m@, 0).len() >= seen,
        decreases count - i,
    {
        let exists = attachment_exists(m, i as u32);
        if !exists {
            assert(named_attachments(m@, i as int) =~= Seq::<int>::empty());
            return None;
        }
        let name = attachment_name(m, i as u32);
        if name.is_some() {
            assert(named_attachments(m@, i as int)[0] == i as int);
            if seen == index {
                return Some(i as u32);
            }
            seen += 1;
            assert(named_attachments(m@, 0).subrange(0, seen as int) =~= named_attachments(
                m@,
                0,
            ).subrange(0, seen - 1).push(i as int));
        }
        i += 1;
    }
    assert(named_attachments(m@, i as int) =~= Seq::<int>::empty());
    None
}

/// Parses RFC822 bytes. Japanese encodings (ISO-2022-JP, Shift_JIS, EUC-JP)
/// are decoded by the MIME parser. The body text prefers `text/plain` and
/// falls back to the HTML converted to text; quotes and signature are then
/// dropped. Message-IDs keep their angle brackets.
pub fn parse(raw: &[u8]) -> (r: Result<Parsed, ParseError>)
    ensures
        r is Ok <==> mime_parses(raw@),
        r matches Ok(p) ==> parsed_from(p, raw@),
        r matches Err(e) ==> e == ParseError::NotAMessage,
{
    let m = match parse_mime(raw) {
        Some(m) => m,
        None => return Err(ParseError::NotAMessage),
    };
    let message_id_v = match message_id(&m) {
        Some(id) => Some(wrap_id(id.as_str())),
        None => None,
    };
    let irt = in_reply_to(&m);
    let in_reply_to_v = if irt.len() > 0 {
        Some(wrap_id(irt[0].as_str()))
    } else {
        None
    };
    let refs = references(&m);
    let references_v = wrap_ids(&refs);
    assert(strings_view(refs@) == mime_references(m@));
    let from_v = match from_first(&m) {
        Some((n, Some(e))) => Some(Address { name: n, email: e }),
        _ => None,
    };
    let to_v = addresses_from_pairs(&to_list(&m));
    let cc_v = addresses_from_pairs(&cc_list(&m));
    let subject_v = match subject(&m) {
        Some(s) => s,
        None => String::new(),
    };
    let date_v = date(&m);
    let body_html_v = body_html(&m);
    let body_text_raw = if text_body_count(&m) > 0 {
        match body_text(&m) {
            Some(t) => t,
            None => String::new(),
        }
    } else {
        match &body_html_v {
            Some(h) => html_to_plain_text(h.as_str()),
            None => String::new(),
        }
    };
    let body_text_v = strip_quotes_and_signature(body_text_raw.as_str());

    let mut attachments: Vec<AttachmentMeta> = Vec::new();
    let count = attachment_count(&m);
    let mut i: usize = 0;
    while i < count && i <= u32::MAX as usize && attachment_exists(&m, i as u32)
        invariant
            count as nat == mime_attachment_count(m@),
            i <= count,
            forall|k: int| 0 <= k < i ==> mime_attachment_exists(m@, k),
            named_attachments(m@, 0).map_values(|k: int| attachment_meta_at(m@, k))
                == attachments@.map_values(|a: AttachmentMeta| meta_view(a))
                + named_attachments(m@, i as int).map_values(|k: int| attachment_meta_at(m@, k)),
        decreases count - i,
    {
        let ghost av = attachments@.map_values(|a: AttachmentMeta| meta_view(a));
        match attachment_name(&m, i as u32) {
            Some(filename) => {
                let mime = mime_type_string(attachment_type(&m, i as u32));
                let size = attachment_contents(&m, i as u32).len();
                let meta = AttachmentMeta { filename, mime, size };
                attachments.push(meta);
                assert(attachments@.map_values(|a: AttachmentMeta| meta_view(a)) =~= av.push(
                    attachment_meta_at(m@, i as int),
                ));
                assert(named_attachments(m@, i as int) =~= seq![i as int] + named_attachments(
                    m@,
                    i + 1,
                ));
                assert(named_attachments(m@, i as int).map_values(
                    |k: int| attachment_meta_at(m@, k),
                ) =~= seq![attachment_meta_at(m@, i as int)] + named_attachments(
                    m@,
                    i + 1,
                ).map_values(|k: int| attachment_meta_at(m@, k)));
            },
            None => {},
        }
        i += 1;
    }
    assert(named_attachments(m@, i as int) =~= Seq::<int>::empty());
    assert(attachments@.map_values(|a: AttachmentMeta| meta_view(a)) =~= named_attachments(
        m@,
        0,
    ).map_values(|k: int| attachment_meta_at(m@, k)));
    let has_attachments = attachments.len() > 0;
    Ok(
        Parsed {
            message_id: message_id_v,
            in_reply_to: in_reply_to_v,
            references: references_v,
            from: from_v,
            to: to_v,
            cc: cc_v,
            subject: subject_v,
            date: date_v,
            body_text: body_text_v,
            body_html: body_html_v,
            attachments,
            has_attachments,
        },
    )
}

/// The bytes of the `index`-th attachment that `parse` lists.
pub fn attachment_bytes(raw: &[u8], index: usize) -> (r: Result<Vec<u8>, ParseError>)
    ensures
        !mime_parses(raw@) ==> r == Err::<Vec<u8>, ParseError>(ParseError::NotAMessage),
        mime_parses(raw@) && index >= named_attachments(raw@, 0).len() ==> r == Err::<
            Vec<u8>,
            ParseError,
        >(ParseError::NoSuchAttachment),
        mime_parses(raw@) && index < named_attachments(raw@, 0).len() ==> (r matches Ok(b)
            && b@ == mime_attachment_contents(raw@, named_attachments(raw@, 0)[index as int])),
{
    let m = match parse_mime(raw) {
        Some(m) => m,
        None => return Err(ParseError::NotAMessage),
    };
    match named_attachment_position(&m, index) {
        Some(i) => Ok(attachment_contents(&m, i)),
        None => Err(ParseError::NoSuchAttachment),
    }
}

proof fn lemma_named_attachments_named(raw: Seq<u8>, i: int)
    ensures
        forall|k: int| 0 <= k < named_attachments(raw, i).len() ==> mime_attachment_name(
            raw,
            #[trigger] named_attachments(raw, i)[k],
        ) is Some,
    decreases mime_attachment_count(raw) - i,
{
    if !(i < 0 || i >= mime_attachment_count(raw) || i > u32::MAX || !mime_attachment_exists(raw, i)) {
        lemma_named_attachments_named(raw, i + 1);
        let rest = named_attachments(raw, i + 1);
        if mime_attachment_name(raw, i) is Some {
            assert forall|k: int| 0 <= k < named_attachments(raw, i).len() implies mime_attachment_name(
                raw,
                #[trigger] named_attachments(raw, i)[k],
            ) is Some by {
                if k > 0 {
                    assert(named_attachments(raw, i)[k] == rest[k - 1]);
                }
            }
        }
    }
}

/// Attachments are numbered as `parse` lists them: attachment `i` of a
/// parsed message is what `attachment_bytes(raw, i)` extracts, with the size
/// and name that `parse` reported.
pub proof fn law_attachment_bytes_follow_parse_order(p: Parsed, raw: Seq<u8>, i: int)
    requires
        parsed_from(p, raw),
        0 <= i < p.attachments@.len(),
    ensures
        i < named_attachments(raw, 0).len(),
        mime_attachment_contents(raw, named_attachments(raw, 0)[i]).len() == p.attachments@[i].size,
        mime_attachment_name(raw, named_attachments(raw, 0)[i]) matches Some(n) && n == p.attachments@[i].filename@,
{
    let names = named_attachments(raw, 0);
    let metas = p.attachments@.map_values(|a: AttachmentMeta| meta_view(a));
    assert(metas.len() == names.map_values(|k: int| attachment_meta_at(raw, k)).len());
    assert(metas[i] == names.map_values(|k: int| attachment_meta_at(raw, k))[i]);
    lemma_named_attachments_named(raw, 0);
}

} // verus!
