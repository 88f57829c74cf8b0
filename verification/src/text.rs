//! Character-level building blocks with their specifications: Unicode
//! whitespace, ASCII case folding, trimming, prefix tests, splitting on
//! whitespace and joining.
use vstd::prelude::*;
use vstd::slice::{slice_subrange, slice_to_vec};

verus! {

/// The Unicode `White_Space` property, which `char::is_whitespace` tests.
pub open spec fn is_ws(c: char) -> bool {
    let u = c as u32;
    ||| 0x09 <= u <= 0x0D
    ||| u == 0x20
    ||| u == 0x85
    ||| u == 0xA0
    ||| u == 0x1680
    ||| 0x2000 <= u <= 0x200A
    ||| u == 0x2028
    ||| u == 0x2029
    ||| u == 0x202F
    ||| u == 0x205F
    ||| u == 0x3000
}

/// Whether `c` has the Unicode `White_Space` property.
pub fn is_whitespace(c: char) -> (r: bool)
    ensures
        r == is_ws(c),
{
    let u = c as u32;
    (0x09 <= u && u <= 0x0D) || u == 0x20 || u == 0x85 || u == 0xA0 || u == 0x1680 || (0x2000
        <= u && u <= 0x200A) || u == 0x2028 || u == 0x2029 || u == 0x202F || u == 0x205F || u
        == 0x3000
}

/// General category `Cc`, which `char::is_control` tests.
pub open spec fn is_ctrl(c: char) -> bool {
    let u = c as u32;
    u <= 0x1F || (0x7F <= u <= 0x9F)
}

/// Whether `c` is a control character.
pub fn is_control(c: char) -> (r: bool)
    ensures
        r == is_ctrl(c),
{
    let u = c as u32;
    u <= 0x1F || (0x7F <= u && u <= 0x9F)
}

/// ASCII lower-casing of one character; other characters are unchanged.
pub open spec fn lower(c: char) -> char {
    if 'A' <= c <= 'Z' {
        ((c as u32) + 32) as char
    } else {
        c
    }
}

/// ASCII lower-casing of one character.
pub fn to_lower(c: char) -> (r: char)
    ensures
        r == lower(c),
{
    if 'A' <= c && c <= 'Z' {
        ((c as u8) + 32) as char
    } else {
        c
    }
}


/// Characters of a string slice, in order.
#[verifier::external_body]
pub(crate) fn chars_of(s: &str) -> (r: Vec<char>)
    ensures
        r@ == s@,
{
    s.chars().collect()
}

/// The string made of the given characters, in order.
#[verifier::external_body]
pub(crate) fn string_of(v: &[char]) -> (r: String)
    ensures
        r@ == v@,
{
    v.iter().collect()
}

/// The characters `s[a..b]` as a new vector.
pub fn sub_vec(s: &[char], a: usize, b: usize) -> (r: Vec<char>)
    requires
        a <= b <= s@.len(),
    ensures
        r@ == s@.subrange(a as int, b as int),
{
    slice_to_vec(slice_subrange(s, a, b))
}

/// Appends `t` to `out`.
pub fn push_all(out: &mut Vec<char>, t: &[char])
    ensures
        final(out)@ == old(out)@ + t@,
{
    let mut i: usize = 0;
    while i < t.len()
        invariant
            i <= t@.len(),
            out@ == old(out)@ + t@.subrange(0, i as int),
        decreases t@.len() - i,
    {
        out.push(t[i]);
        i += 1;
        assert(t@.subrange(0, i as int) == t@.subrange(0, i - 1) + seq![t@[i - 1]]);
    }
    assert(t@.subrange(0, t@.len() as int) == t@);
}

/// Appends the characters of `s` to `out`.
pub fn push_text(out: &mut Vec<char>, s: &str)
    ensures
        final(out)@ == old(out)@ + s@,
{
    let c = chars_of(s);
    push_all(out, c.as_slice());
}

/// Lower-cases the ASCII letters of a character sequence.
pub open spec fn lower_seq(s: Seq<char>) -> Seq<char> {
    s.map_values(|c: char| lower(c))
}

/// ASCII lower-casing of every character.
pub fn lower_chars(s: &[char]) -> (r: Vec<char>)
    ensures
        r@ == lower_seq(s@),
{
    let mut out: Vec<char> = Vec::new();
    let mut i: usize = 0;
    while i < s.len()
        invariant
            i <= s@.len(),
            out@ == lower_seq(s@.subrange(0, i as int)),
        decreases s@.len() - i,
    {
        out.push(to_lower(s[i]));
        i += 1;
        assert(lower_seq(s@.subrange(0, i as int)) =~= lower_seq(s@.subrange(0, i - 1)).push(
            lower(s@[i - 1]),
        ));
    }
    assert(s@.subrange(0, s@.len() as int) == s@);
    out
}

/// The first index at or after `i` that does not hold whitespace.
pub open spec fn ws_end(s: Seq<char>, i: int) -> int
    decreases s.len() - i,
{
    if 0 <= i < s.len() && is_ws(s[i]) {
        ws_end(s, i + 1)
    } else {
        i
    }
}

/// The smallest `k <= j` such that `s[k..j]` is all whitespace.
pub open spec fn ws_start_back(s: Seq<char>, j: int) -> int
    decreases j,
{
    if 0 < j <= s.len() && is_ws(s[j - 1]) {
        ws_start_back(s, j - 1)
    } else {
        j
    }
}

pub proof fn lemma_ws_end(s: Seq<char>, i: int)
    requires
        0 <= i <= s.len(),
    ensures
        i <= ws_end(s, i) <= s.len(),
        forall|k: int| i <= k < ws_end(s, i) ==> is_ws(#[trigger] s[k]),
        ws_end(s, i) < s.len() ==> !is_ws(s[ws_end(s, i)]),
    decreases s.len() - i,
{
    if i < s.len() && is_ws(s[i]) {
        lemma_ws_end(s, i + 1);
    }
}

pub proof fn lemma_ws_start_back(s: Seq<char>, j: int)
    requires
        0 <= j <= s.len(),
    ensures
        0 <= ws_start_back(s, j) <= j,
        forall|k: int| ws_start_back(s, j) <= k < j ==> is_ws(#[trigger] s[k]),
        ws_start_back(s, j) > 0 ==> !is_ws(s[ws_start_back(s, j) - 1]),
    decreases j,
{
    if j > 0 && is_ws(s[j - 1]) {
        lemma_ws_start_back(s, j - 1);
    }
}

/// `str::trim_start`: drops leading whitespace.
pub open spec fn trim_start(s: Seq<char>) -> Seq<char> {
    s.subrange(ws_end(s, 0), s.len() as int)
}

/// `str::trim_end`: drops trailing whitespace.
pub open spec fn trim_end(s: Seq<char>) -> Seq<char> {
    s.subrange(0, ws_start_back(s, s.len() as int))
}

/// `str::trim`: drops leading and trailing whitespace.
pub open spec fn trim(s: Seq<char>) -> Seq<char> {
    trim_end(trim_start(s))
}

/// Skips whitespace from `i`.
pub fn skip_ws(s: &[char], i: usize) -> (r: usize)
    requires
        i <= s@.len(),
    ensures
        r as int == ws_end(s@, i as int),
{
    let mut j = i;
    while j < s.len() && is_whitespace(s[j])
        invariant
            i <= j <= s@.len(),
            ws_end(s@, j as int) == ws_end(s@, i as int),
        decreases s@.len() - j,
    {
        j += 1;
    }
    j
}

/// Moves `j` back over trailing whitespace.
pub fn skip_ws_back(s: &[char], j: usize) -> (r: usize)
    requires
        j <= s@.len(),
    ensures
        r as int == ws_start_back(s@, j as int),
{
    let mut k = j;
    while k > 0 && is_whitespace(s[k - 1])
        invariant
            k <= j <= s@.len(),
            ws_start_back(s@, k as int) == ws_start_back(s@, j as int),
        decreases k,
    {
        k -= 1;
    }
    k
}

/// `trim_start` on a character slice.
pub fn trim_start_chars(s: &[char]) -> (r: Vec<char>)
    ensures
        r@ == trim_start(s@),
{
    let a = skip_ws(s, 0);
    proof {
        lemma_ws_end(s@, 0);
    }
    sub_vec(s, a, s.len())
}

/// `trim_end` on a character slice.
pub fn trim_end_chars(s: &[char]) -> (r: Vec<char>)
    ensures
        r@ == trim_end(s@),
{
    let b = skip_ws_back(s, s.len());
    proof {
        lemma_ws_start_back(s@, s@.len() as int);
    }
    sub_vec(s, 0, b)
}

/// `trim` on a character slice.
pub fn trim_chars(s: &[char]) -> (r: Vec<char>)
    ensures
        r@ == trim(s@),
{
    let t = trim_start_chars(s);
    trim_end_chars(&t)
}

/// Whether `p` occurs in `s` at position `i`.
pub open spec fn occurs_at(s: Seq<char>, i: int, p: Seq<char>) -> bool {
    0 <= i && i + p.len() <= s.len() && s.subrange(i, i + p.len()) == p
}

/// `str::starts_with`.
pub open spec fn starts_with(s: Seq<char>, p: Seq<char>) -> bool {
    occurs_at(s, 0, p)
}

/// `str::ends_with`.
pub open spec fn ends_with(s: Seq<char>, p: Seq<char>) -> bool {
    p.len() <= s.len() && occurs_at(s, s.len() - p.len(), p)
}

/// Whether `p` occurs in `s` at position `i`.
pub fn has_at(s: &[char], i: usize, p: &[char]) -> (r: bool)
    ensures
        r == occurs_at(s@, i as int, p@),
{
    if i > s.len() || p.len() > s.len() - i {
        return false;
    }
    let n = s.len();
    let mut k: usize = 0;
    while k < p.len()
        invariant
            n == s@.len(),
            i + p@.len() <= s@.len(),
            k <= p@.len(),
            forall|m: int| 0 <= m < k ==> s@[i + m] == p@[m],
        decreases p@.len() - k,
    {
        if s[i + k] != p[k] {
            assert(s@.subrange(i as int, i + p@.len())[k as int] != p@[k as int]);
            return false;
        }
        k += 1;
    }
    assert(s@.subrange(i as int, i + p@.len()) =~= p@);
    true
}

/// Whether `s` starts with `p`.
pub fn has_prefix(s: &[char], p: &[char]) -> (r: bool)
    ensures
        r == starts_with(s@, p@),
{
    has_at(s, 0, p)
}

/// Whether `s` ends with `p`.
pub fn has_suffix(s: &[char], p: &[char]) -> (r: bool)
    ensures
        r == ends_with(s@, p@),
{
    if p.len() > s.len() {
        false
    } else {
        has_at(s, s.len() - p.len(), p)
    }
}

/// Sequence equality of two character slices.
pub fn chars_eq(a: &[char], b: &[char]) -> (r: bool)
    ensures
        r == (a@ == b@),
{
    if a.len() != b.len() {
        return false;
    }
    let r = has_at(a, 0, b);
    proof {
        if r {
            assert(a@.subrange(0, b@.len() as int) =~= a@);
        } else {
            assert(a@.subrange(0, a@.len() as int) =~= a@);
        }
    }
    r
}


// ---- splitting and joining --------------------------------------------------

/// `str::split_whitespace`: the maximal runs of non-whitespace characters.
pub open spec fn words(s: Seq<char>) -> Seq<Seq<char>>
    decreases s.len(),
{
    if s.len() == 0 {
        seq![]
    } else {
        let p = s.drop_last();
        let c = s.last();
        let w = words(p);
        if is_ws(c) {
            w
        } else if p.len() == 0 || is_ws(p.last()) {
            w.push(seq![c])
        } else {
            w.update(w.len() - 1, w.last().push(c))
        }
    }
}

pub proof fn lemma_words_nonempty(s: Seq<char>)
    requires
        s.len() > 0,
        !is_ws(s.last()),
    ensures
        words(s).len() > 0,
    decreases s.len(),
{
    let p = s.drop_last();
    if p.len() > 0 && !is_ws(p.last()) {
        lemma_words_nonempty(p);
    }
}

/// A word: not empty, without whitespace.
pub open spec fn word_ok(w: Seq<char>) -> bool {
    w.len() > 0 && forall|i: int| 0 <= i < w.len() ==> !is_ws(#[trigger] w[i])
}

/// Text with its whitespace collapsed: no whitespace at either end, every
/// whitespace character a space, and never two spaces in a row.
pub open spec fn collapsed(j: Seq<char>) -> bool {
    &&& j.len() > 0 ==> !is_ws(j[0]) && !is_ws(j[j.len() - 1])
    &&& forall|i: int| 0 <= i < j.len() && is_ws(#[trigger] j[i]) ==> j[i] == ' '
    &&& forall|i: int, k: int|
        #![trigger j[i], j[k]]
        0 <= i && k == i + 1 && k < j.len() && j[i] == ' ' ==> j[k] != ' '
}

/// The words of a text are words.
pub proof fn lemma_words_ok(s: Seq<char>)
    ensures
        forall|k: int| 0 <= k < words(s).len() ==> word_ok(#[trigger] words(s)[k]),
    decreases s.len(),
{
    if s.len() > 0 {
        let p = s.drop_last();
        let c = s.last();
        lemma_words_ok(p);
        let w = words(p);
        if is_ws(c) {
        } else if p.len() == 0 || is_ws(p.last()) {
            let r = w.push(seq![c]);
            assert forall|k: int| 0 <= k < r.len() implies word_ok(#[trigger] r[k]) by {
                if k < w.len() {
                    assert(r[k] == w[k]);
                } else {
                    assert(r[k] == seq![c]);
                }
            }
        } else {
            lemma_words_nonempty(p);
            let last = w.last().push(c);
            let r = w.update(w.len() - 1, last);
            assert(word_ok(w[w.len() - 1]));
            assert forall|k: int| 0 <= k < r.len() implies word_ok(#[trigger] r[k]) by {
                if k < w.len() - 1 {
                    assert(r[k] == w[k]);
                } else {
                    assert(r[k] == last);
                    assert forall|i: int| 0 <= i < last.len() implies !is_ws(#[trigger] last[i]) by {
                        if i < last.len() - 1 {
                            assert(last[i] == w.last()[i]);
                        }
                    }
                }
            }
        }
    }
}

/// Words joined by single spaces make collapsed text, which is empty only
/// when there are no words.
pub proof fn lemma_join_collapsed(ws: Seq<Seq<char>>)
    requires
        forall|k: int| 0 <= k < ws.len() ==> word_ok(#[trigger] ws[k]),
    ensures
        collapsed(join(ws, seq![' '])),
        ws.len() > 0 ==> join(ws, seq![' ']).len() > 0,
    decreases ws.len(),
{
    if ws.len() == 1 {
        assert(word_ok(ws[0]));
        let j = join(ws, seq![' ']);
        assert(j == ws[0]);
    } else if ws.len() > 1 {
        let d = ws.drop_last();
        assert forall|k: int| 0 <= k < d.len() implies word_ok(#[trigger] d[k]) by {
            assert(d[k] == ws[k]);
        }
        lemma_join_collapsed(d);
        let a = join(d, seq![' ']);
        let w = ws.last();
        assert(word_ok(ws[ws.len() - 1]));
        let j = join(ws, seq![' ']);
        assert(j == a + seq![' '] + w);
        assert(j[0] == a[0]);
        assert(j[j.len() - 1] == w[w.len() - 1]);
        assert forall|i: int| 0 <= i < j.len() && is_ws(#[trigger] j[i]) implies j[i] == ' ' by {
            if i < a.len() {
                assert(j[i] == a[i]);
            } else if i > a.len() {
                assert(j[i] == w[i - a.len() - 1]);
            }
        }
        assert forall|i: int, k: int|
            #![trigger j[i], j[k]]
            0 <= i && k == i + 1 && k < j.len() && j[i] == ' ' implies j[k] != ' ' by {
            if i < a.len() {
                assert(j[i] == a[i]);
                if k < a.len() {
                    assert(j[k] == a[k]);
                } else {
                    assert(a[a.len() - 1] == a[i]);
                }
            } else if i == a.len() {
                assert(j[k] == w[0]);
            } else {
                assert(j[i] == w[i - a.len() - 1]);
            }
        }
    }
}

/// `split_whitespace` on a character slice.
pub fn split_ws(s: &[char]) -> (r: Vec<Vec<char>>)
    ensures
        vv(r@) == words(s@),
{
    let n = s.len();
    let mut out: Vec<Vec<char>> = Vec::new();
    let mut cur: Vec<char> = Vec::new();
    let mut in_word = false;
    let mut i: usize = 0;
    while i < n
        invariant
            n == s@.len(),
            i <= n,
            in_word ==> i > 0 && !is_ws(s@[i - 1]),
            !in_word ==> cur@.len() == 0,
            !in_word ==> (i == 0 || is_ws(s@[i - 1])),
            words(s@.subrange(0, i as int)) == (if in_word {
                vv(out@).push(cur@)
            } else {
                vv(out@)
            }),
        decreases n - i,
    {
        let c = s[i];
        let ghost pre = s@.subrange(0, i as int);
        assert(s@.subrange(0, i + 1).drop_last() =~= pre);
        if is_whitespace(c) {
            if in_word {
                let ghost ov = vv(out@);
                let ghost cv = cur@;
                let w = cur;
                cur = Vec::new();
                out.push(w);
                in_word = false;
                assert(vv(out@) =~= ov.push(cv));
            }
        } else {
            if in_word {
                proof {
                    lemma_words_nonempty(pre);
                }
                cur.push(c);
                assert(words(s@.subrange(0, i + 1)) =~= vv(out@).push(cur@));
            } else {
                cur.push(c);
                in_word = true;
                assert(cur@ =~= seq![c]);
            }
        }
        i += 1;
    }
    if in_word {
        let ghost ov = vv(out@);
        let ghost cv = cur@;
        out.push(cur);
        assert(vv(out@) =~= ov.push(cv));
    }
    assert(s@.subrange(0, n as int) =~= s@);
    out
}

/// The character sequences held by a vector of character vectors.
pub open spec fn vv(v: Seq<Vec<char>>) -> Seq<Seq<char>> {
    v.map_values(|x: Vec<char>| x@)
}

/// Joins the pieces with `sep` between consecutive ones.
pub open spec fn join(ws: Seq<Seq<char>>, sep: Seq<char>) -> Seq<char>
    decreases ws.len(),
{
    if ws.len() == 0 {
        seq![]
    } else if ws.len() == 1 {
        ws[0]
    } else {
        join(ws.drop_last(), sep) + sep + ws.last()
    }
}

/// `join` on vectors of characters.
pub fn join_chars(ws: &Vec<Vec<char>>, sep: &[char]) -> (r: Vec<char>)
    ensures
        r@ == join(vv(ws@), sep@),
{
    let n = ws.len();
    let mut out: Vec<char> = Vec::new();
    let mut i: usize = 0;
    while i < n
        invariant
            n == ws@.len(),
            i <= n,
            out@ == join(vv(ws@).subrange(0, i as int), sep@),
        decreases n - i,
    {
        let ghost pre = vv(ws@).subrange(0, i as int);
        let ghost nxt = vv(ws@).subrange(0, i + 1);
        assert(nxt.drop_last() =~= pre);
        if i > 0 {
            push_all(&mut out, sep);
        }
        push_all(&mut out, ws[i].as_slice());
        i += 1;
        proof {
            if i == 1 {
                assert(out@ =~= nxt[0]);
            } else {
                assert(out@ =~= join(pre, sep@) + sep@ + nxt.last());
            }
        }
    }
    assert(vv(ws@).subrange(0, n as int) =~= vv(ws@));
    out
}


/// `str::split(d)`: the pieces between occurrences of `d` (always at least
/// one piece).
pub open spec fn split_on(s: Seq<char>, d: char) -> Seq<Seq<char>>
    decreases s.len(),
{
    if s.len() == 0 {
        seq![seq![]]
    } else {
        let w = split_on(s.drop_last(), d);
        if s.last() == d {
            w.push(seq![])
        } else {
            w.update(w.len() - 1, w.last().push(s.last()))
        }
    }
}

pub proof fn lemma_split_on_len(s: Seq<char>, d: char)
    ensures
        split_on(s, d).len() >= 1,
    decreases s.len(),
{
    if s.len() > 0 {
        lemma_split_on_len(s.drop_last(), d);
    }
}

/// `split(d)` on a character slice.
pub fn split_char(s: &[char], d: char) -> (r: Vec<Vec<char>>)
    ensures
        vv(r@) == split_on(s@, d),
        r@.len() >= 1,
{
    let n = s.len();
    let mut out: Vec<Vec<char>> = Vec::new();
    let mut cur: Vec<char> = Vec::new();
    let mut i: usize = 0;
    while i < n
        invariant
            n == s@.len(),
            i <= n,
            split_on(s@.subrange(0, i as int), d) == vv(out@).push(cur@),
        decreases n - i,
    {
        let c = s[i];
        let ghost pre = s@.subrange(0, i as int);
        assert(s@.subrange(0, i + 1).drop_last() =~= pre);
        if c == d {
            let ghost ov = vv(out@);
            let ghost cv = cur@;
            let w = cur;
            cur = Vec::new();
            out.push(w);
            assert(vv(out@) =~= ov.push(cv));
            assert(split_on(s@.subrange(0, i + 1), d) =~= vv(out@).push(cur@));
        } else {
            cur.push(c);
            assert(split_on(s@.subrange(0, i + 1), d) =~= vv(out@).push(cur@));
        }
        i += 1;
    }
    let ghost ov = vv(out@);
    let ghost cv = cur@;
    out.push(cur);
    assert(vv(out@) =~= ov.push(cv));
    assert(s@.subrange(0, n as int) =~= s@);
    out
}

/// Drops one trailing carriage return.
pub open spec fn strip_cr(l: Seq<char>) -> Seq<char> {
    if l.len() > 0 && l.last() == '\r' {
        l.drop_last()
    } else {
        l
    }
}

/// `str::lines`: the pieces between newlines, each terminated piece without a
/// trailing `\r`, and no empty last line after a final newline.
pub open spec fn lines(s: Seq<char>) -> Seq<Seq<char>> {
    let p = split_on(s, '\n');
    let k = p.len() - 1;
    let done = Seq::new(k as nat, |i: int| strip_cr(p[i]));
    if p[k].len() > 0 {
        done.push(p[k])
    } else {
        done
    }
}

/// `lines` on a character slice.
pub fn lines_of(s: &[char]) -> (r: Vec<Vec<char>>)
    ensures
        vv(r@) == lines(s@),
{
    let p = split_char(s, '\n');
    let k = p.len() - 1;
    let mut out: Vec<Vec<char>> = Vec::new();
    let mut i: usize = 0;
    while i < k
        invariant
            k == p@.len() - 1,
            vv(p@) == split_on(s@, '\n'),
            i <= k,
            vv(out@) == Seq::new(i as nat, |j: int| strip_cr(split_on(s@, '\n')[j])),
        decreases k - i,
    {
        let l = &p[i];
        let ghost ov = vv(out@);
        assert(ov =~= Seq::new(i as nat, |j: int| strip_cr(split_on(s@, '\n')[j])));
        let m = l.len();
        let piece = if m > 0 && l[m - 1] == '\r' {
            sub_vec(l.as_slice(), 0, m - 1)
        } else {
            sub_vec(l.as_slice(), 0, m)
        };
        proof {
            assert(l@ == split_on(s@, '\n')[i as int]);
            assert(piece@ =~= strip_cr(l@));
        }
        out.push(piece);
        assert(vv(out@) =~= ov.push(piece@));
        i += 1;
        assert(vv(out@) =~= Seq::new(i as nat, |j: int| strip_cr(split_on(s@, '\n')[j])));
    }
    if p[k].len() > 0 {
        let last = sub_vec(p[k].as_slice(), 0, p[k].len());
        let ghost ov = vv(out@);
        assert(last@ =~= p[k as int]@);
        assert(p[k as int]@ == split_on(s@, '\n')[k as int]);
        out.push(last);
        assert(vv(out@) =~= ov.push(split_on(s@, '\n')[k as int]));
    }
    out
}

// ---- decimal numbers ----------------------------------------------------------

pub open spec fn digit_char(d: int) -> char {
    ((48 + d) as u32) as char
}

/// The decimal representation of `n`, without leading zeros.
pub open spec fn dec(n: nat) -> Seq<char>
    decreases n,
{
    if n < 10 {
        seq![digit_char(n as int)]
    } else {
        dec(n / 10).push(digit_char((n % 10) as int))
    }
}

/// The decimal representation of `n`, with a minus sign when negative.
pub open spec fn dec_int(n: int) -> Seq<char> {
    if n < 0 {
        seq!['-'] + dec((-n) as nat)
    } else {
        dec(n as nat)
    }
}

/// Every character of a decimal representation is a digit.
pub proof fn lemma_dec_digits(n: nat)
    ensures
        dec(n).len() > 0,
        forall|i: int| 0 <= i < dec(n).len() ==> 48 <= #[trigger] (dec(n)[i] as u32) <= 57,
    decreases n,
{
    let d = if n < 10 { n as int } else { (n % 10) as int };
    assert(digit_char(d) as u32 == (48 + d) as u32);
    if n >= 10 {
        lemma_dec_digits(n / 10);
        let s = dec(n);
        assert forall|i: int| 0 <= i < s.len() implies 48 <= #[trigger] (s[i] as u32) <= 57 by {
            if i < s.len() - 1 {
                assert(s[i] == dec(n / 10)[i]);
            }
        }
    }
}

/// Different numbers have different decimal representations.
pub proof fn lemma_dec_injective(a: nat, b: nat)
    requires
        dec(a) == dec(b),
    ensures
        a == b,
    decreases a,
{
    if a < 10 && b < 10 {
        assert(dec(a)[0] == digit_char(a as int));
        assert(digit_char(a as int) as u32 == (48 + a) as u32);
        assert(digit_char(b as int) as u32 == (48 + b) as u32);
    } else if a >= 10 && b >= 10 {
        lemma_dec_digits(a / 10);
        lemma_dec_digits(b / 10);
        let da = dec(a);
        let db = dec(b);
        assert(da.last() == digit_char((a % 10) as int));
        assert(db.last() == digit_char((b % 10) as int));
        assert(digit_char((a % 10) as int) as u32 == (48 + a % 10) as u32);
        assert(digit_char((b % 10) as int) as u32 == (48 + b % 10) as u32);
        assert(da.drop_last() =~= dec(a / 10));
        assert(db.drop_last() =~= dec(b / 10));
        lemma_dec_injective(a / 10, b / 10);
    } else if a < 10 {
        lemma_dec_digits(b / 10);
        assert(dec(b).len() >= 2);
    } else {
        lemma_dec_digits(a / 10);
        assert(dec(a).len() >= 2);
    }
}

/// Different integers have different decimal representations.
pub proof fn lemma_dec_int_injective(a: int, b: int)
    requires
        dec_int(a) == dec_int(b),
    ensures
        a == b,
{
    if a < 0 && b < 0 {
        assert(dec_int(a).subrange(1, dec_int(a).len() as int) =~= dec((-a) as nat));
        assert(dec_int(b).subrange(1, dec_int(b).len() as int) =~= dec((-b) as nat));
        lemma_dec_injective((-a) as nat, (-b) as nat);
    } else if a >= 0 && b >= 0 {
        lemma_dec_injective(a as nat, b as nat);
    } else if a < 0 {
        lemma_dec_digits(b as nat);
        assert(dec_int(a)[0] == '-');
        assert(dec(b as nat)[0] as u32 >= 48);
    } else {
        lemma_dec_digits(a as nat);
        assert(dec_int(b)[0] == '-');
        assert(dec(a as nat)[0] as u32 >= 48);
    }
}

fn digit(d: u64) -> (r: char)
    requires
        d < 10,
    ensures
        r == digit_char(d as int),
{
    ((d as u8) + 48) as char
}

/// The decimal representation of `n`.
pub fn dec_u64(n: u64) -> (r: Vec<char>)
    ensures
        r@ == dec(n as nat),
    decreases n,
{
    if n < 10 {
        vec![digit(n)]
    } else {
        let mut v = dec_u64(n / 10);
        v.push(digit(n % 10));
        v
    }
}

/// The decimal representation of `n`.
pub fn dec_i64(n: i64) -> (r: Vec<char>)
    ensures
        r@ == dec_int(n as int),
{
    if n < 0 {
        let m: u64 = ((-(n + 1)) as u64) + 1;
        let mut v = vec!['-'];
        let d = dec_u64(m);
        push_all(&mut v, d.as_slice());
        v
    } else {
        dec_u64(n as u64)
    }
}

// ---- searching and replacing ------------------------------------------------------

/// The first position at or after `i` where `p` occurs in `s`.
pub open spec fn find_from(s: Seq<char>, i: int, p: Seq<char>) -> Option<int>
    decreases s.len() + 1 - i,
{
    if i < 0 || i + p.len() > s.len() {
        None
    } else if occurs_at(s, i, p) {
        Some(i)
    } else {
        find_from(s, i + 1, p)
    }
}

pub proof fn lemma_find_from(s: Seq<char>, i: int, p: Seq<char>)
    requires
        0 <= i,
    ensures
        find_from(s, i, p) matches Some(k) ==> i <= k && k + p.len() <= s.len() && occurs_at(
            s,
            k,
            p,
        ),
    decreases s.len() + 1 - i,
{
    if i + p.len() <= s.len() && !occurs_at(s, i, p) {
        lemma_find_from(s, i + 1, p);
    }
}

/// The first position at or after `i` where `p` occurs in `s`.
pub fn find_at(s: &[char], i: usize, p: &[char]) -> (r: Option<usize>)
    ensures
        r matches Some(k) ==> find_from(s@, i as int, p@) == Some(k as int),
        r is None ==> find_from(s@, i as int, p@) is None,
{
    let n = s.len();
    if i > n || p.len() > n - i {
        return None;
    }
    if p.len() == 0 {
        assert(s@.subrange(i as int, i as int) =~= p@);
        return Some(i);
    }
    let mut k = i;
    while p.len() <= n - k
        invariant
            n == s@.len(),
            i <= k <= n,
            1 <= p@.len() <= n,
            find_from(s@, k as int, p@) == find_from(s@, i as int, p@),
        decreases n - k,
    {
        if has_at(s, k, p) {
            return Some(k);
        }
        k += 1;
    }
    None
}

/// `str::replace`: every non-overlapping occurrence of `p` (scanning from the
/// left) replaced by `rep`.
pub open spec fn replace_all(s: Seq<char>, p: Seq<char>, rep: Seq<char>) -> Seq<char>
    decreases s.len(),
{
    if s.len() == 0 {
        seq![]
    } else if p.len() > 0 && starts_with(s, p) {
        rep + replace_all(s.skip(p.len() as int), p, rep)
    } else {
        seq![s[0]] + replace_all(s.skip(1), p, rep)
    }
}

/// `replace` on character slices.
pub fn replace_chars(s: &[char], p: &[char], rep: &[char]) -> (r: Vec<char>)
    requires
        p@.len() > 0,
    ensures
        r@ == replace_all(s@, p@, rep@),
{
    let n = s.len();
    let mut out: Vec<char> = Vec::new();
    let mut i: usize = 0;
    assert(s@.skip(0) =~= s@);
    while i < n
        invariant
            n == s@.len(),
            i <= n,
            p@.len() > 0,
            replace_all(s@, p@, rep@) == out@ + replace_all(s@.skip(i as int), p@, rep@),
        decreases n - i,
    {
        let ghost rest = s@.skip(i as int);
        if has_at(s, i, p) {
            assert(rest.subrange(0, p@.len() as int) =~= s@.subrange(i as int, i + p@.len()));
            assert(rest.skip(p@.len() as int) =~= s@.skip(i + p@.len()));
            push_all(&mut out, rep);
            i += p.len();
        } else {
            assert(!starts_with(rest, p@)) by {
                if p@.len() <= rest.len() {
                    assert(rest.subrange(0, p@.len() as int) =~= s@.subrange(
                        i as int,
                        i + p@.len(),
                    ));
                }
            }
            assert(rest.skip(1) =~= s@.skip(i + 1));
            assert(rest[0] == s@[i as int]);
            out.push(s[i]);
            i += 1;
        }
    }
    assert(s@.skip(n as int) =~= Seq::<char>::empty());
    out
}

/// `s` holds no `&`.
pub open spec fn no_amp(s: Seq<char>) -> bool {
    forall|i: int| 0 <= i < s.len() ==> #[trigger] s[i] != '&'
}

/// Replacing a pattern that does not occur changes nothing.
pub proof fn lemma_replace_absent(s: Seq<char>, p: Seq<char>, rep: Seq<char>)
    requires
        p.len() > 0,
        forall|i: int| !#[trigger] occurs_at(s, i, p),
    ensures
        replace_all(s, p, rep) == s,
    decreases s.len(),
{
    if s.len() > 0 {
        assert(!occurs_at(s, 0, p));
        let t = s.skip(1);
        assert forall|i: int| !#[trigger] occurs_at(t, i, p) by {
            if occurs_at(t, i, p) {
                assert(t.subrange(i, i + p.len()) =~= s.subrange(i + 1, i + 1 + p.len()));
                assert(occurs_at(s, i + 1, p));
            }
        }
        lemma_replace_absent(t, p, rep);
        assert(seq![s[0]] + t =~= s);
    }
}

/// A pattern that starts with `&` occurs nowhere in text without `&`.
pub proof fn lemma_no_amp_absent(s: Seq<char>, p: Seq<char>)
    requires
        p.len() > 0,
        p[0] == '&',
        no_amp(s),
    ensures
        forall|i: int| !#[trigger] occurs_at(s, i, p),
{
    assert forall|i: int| !#[trigger] occurs_at(s, i, p) by {
        if occurs_at(s, i, p) {
            assert(s.subrange(i, i + p.len())[0] == s[i]);
        }
    }
}

/// In text whose only `&` starts `q`, a pattern starting with `&` whose
/// second character differs from that of `q` occurs nowhere.
pub proof fn lemma_other_entity_absent(x: Seq<char>, q: Seq<char>, y: Seq<char>, p: Seq<char>)
    requires
        no_amp(x),
        no_amp(y),
        q.len() >= 2,
        q[0] == '&',
        forall|i: int| 1 <= i < q.len() ==> #[trigger] q[i] != '&',
        p.len() >= 2,
        p[0] == '&',
        p[1] != q[1],
    ensures
        forall|i: int| !#[trigger] occurs_at(x + q + y, i, p),
{
    let s = x + q + y;
    assert forall|i: int| !#[trigger] occurs_at(s, i, p) by {
        if occurs_at(s, i, p) {
            assert(s.subrange(i, i + p.len())[0] == s[i]);
            assert(s.subrange(i, i + p.len())[1] == s[i + 1]);
            if i < x.len() {
                assert(s[i] == x[i]);
            } else if i == x.len() {
                assert(s[i + 1] == q[1]);
            } else if i < x.len() + q.len() {
                assert(s[i] == q[i - x.len()]);
            } else {
                assert(s[i] == y[i - x.len() - q.len()]);
            }
        }
    }
}

/// Replacing in `x + p + y`, where `x` and `y` hold no `&` and `p` starts
/// with one, replaces exactly that `p`.
pub proof fn lemma_replace_single(x: Seq<char>, p: Seq<char>, y: Seq<char>, rep: Seq<char>)
    requires
        p.len() > 0,
        p[0] == '&',
        no_amp(x),
        no_amp(y),
    ensures
        replace_all(x + p + y, p, rep) == x + rep + y,
    decreases x.len(),
{
    let s = x + p + y;
    if x.len() == 0 {
        assert(s =~= p + y);
        assert(s.subrange(0, p.len() as int) =~= p);
        assert(s.skip(p.len() as int) =~= y);
        lemma_no_amp_absent(y, p);
        lemma_replace_absent(y, p, rep);
        assert(x + rep + y =~= rep + y);
    } else {
        assert(s[0] == x[0]);
        assert(!starts_with(s, p)) by {
            if starts_with(s, p) {
                assert(s.subrange(0, p.len() as int)[0] == s[0]);
            }
        }
        let x1 = x.skip(1);
        assert(no_amp(x1)) by {
            assert forall|i: int| 0 <= i < x1.len() implies #[trigger] x1[i] != '&' by {
                assert(x1[i] == x[i + 1]);
            }
        }
        assert(s.skip(1) =~= x1 + p + y);
        lemma_replace_single(x1, p, y, rep);
        assert(seq![x[0]] + (x1 + rep + y) =~= x + rep + y);
    }
}

/// `p` occurs in `a + s + b` where it occurs in `s`, shifted by `a`.
pub proof fn lemma_occurs_in_concat(a: Seq<char>, s: Seq<char>, b: Seq<char>, i: int, p: Seq<char>)
    requires
        occurs_at(s, i, p),
    ensures
        occurs_at(a + s + b, a.len() + i, p),
{
    let t = a + s + b;
    assert(t.subrange(a.len() + i, a.len() + i + p.len()) =~= s.subrange(i, i + p.len()));
}

/// Each part of a join occurs in it.
pub proof fn lemma_join_has_part(parts: Seq<Seq<char>>, sep: Seq<char>, k: int) -> (i: int)
    requires
        0 <= k < parts.len(),
    ensures
        occurs_at(join(parts, sep), i, parts[k]),
    decreases parts.len(),
{
    let j = join(parts, sep);
    if parts.len() == 1 {
        assert(j.subrange(0, parts[k].len() as int) =~= parts[k]);
        0
    } else if k == parts.len() - 1 {
        let a = join(parts.drop_last(), sep);
        let off: int = a.len() as int + sep.len() as int;
        assert(j == a + sep + parts.last());
        assert(j.subrange(off, off + parts[k].len()) =~= parts[k]);
        off
    } else {
        let a = join(parts.drop_last(), sep);
        let i0 = lemma_join_has_part(parts.drop_last(), sep, k);
        assert(parts.drop_last()[k] == parts[k]);
        lemma_occurs_in_concat(Seq::empty(), a, sep + parts.last(), i0, parts[k]);
        assert(Seq::<char>::empty() + a + (sep + parts.last()) =~= j);
        i0
    }
}

} // verus!
