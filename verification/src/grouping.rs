//! Grouping by project tag. Several views (the sidebar's projects, the MCP
//! `list_projects` tool, the inbox digest and the daily digest) show items
//! grouped by the project tag of their account: one group per tag, in the
//! order of the tags, followed by one group of the untagged items if there
//! are any.

use vstd::prelude::*;
use crate::text::{chars_of, string_of, chars_eq, sub_vec, vv};
use crate::paths::opt_str_view;
use crate::domain::Account;
use std::collections::HashMap;

verus! {

// ---- the order of tags -------------------------------------------------------

/// `a` comes before `b`: compared character by character by code point, a
/// proper prefix first. This is the order of `String` (the order of UTF-8
/// bytes and the order of code points agree).
pub open spec fn text_before(a: Seq<char>, b: Seq<char>) -> bool
    decreases a.len(),
{
    if a.len() == 0 {
        b.len() > 0
    } else if b.len() == 0 {
        false
    } else if a[0] != b[0] {
        (a[0] as u32) < (b[0] as u32)
    } else {
        text_before(a.drop_first(), b.drop_first())
    }
}

/// No text comes before itself.
pub proof fn lemma_text_before_irreflexive(a: Seq<char>)
    ensures
        !text_before(a, a),
    decreases a.len(),
{
    if a.len() > 0 {
        lemma_text_before_irreflexive(a.drop_first());
    }
}

/// The order is transitive.
pub proof fn lemma_text_before_transitive(a: Seq<char>, b: Seq<char>, c: Seq<char>)
    requires
        text_before(a, b),
        text_before(b, c),
    ensures
        text_before(a, c),
    decreases a.len(),
{
    if a.len() > 0 && b.len() > 0 && c.len() > 0 && a[0] == b[0] && b[0] == c[0] {
        lemma_text_before_transitive(a.drop_first(), b.drop_first(), c.drop_first());
    }
}

/// Of two different texts, one comes before the other.
pub proof fn lemma_text_before_total(a: Seq<char>, b: Seq<char>)
    ensures
        a == b || text_before(a, b) || text_before(b, a),
    decreases a.len(),
{
    if a.len() > 0 && b.len() > 0 && a[0] == b[0] {
        lemma_text_before_total(a.drop_first(), b.drop_first());
        if a.drop_first() == b.drop_first() {
            assert forall|i: int| 0 <= i < a.len() implies a[i] == b[i] by {
                if i > 0 {
                    assert(a[i] == a.drop_first()[i - 1]);
                    assert(b[i] == b.drop_first()[i - 1]);
                }
            }
            assert(a =~= b);
        }
    } else if a.len() == 0 && b.len() == 0 {
        assert(a =~= b);
    } else if a.len() > 0 && b.len() > 0 {
        vstd::utf8::char_u32_cast(a[0], a[0] as u32);
        vstd::utf8::char_u32_cast(b[0], b[0] as u32);
    }
}

/// Whether `a` comes before `b`.
pub fn text_less(a: &[char], b: &[char]) -> (r: bool)
    ensures
        r == text_before(a@, b@),
{
    let na = a.len();
    let nb = b.len();
    let mut i: usize = 0;
    assert(a@.skip(0) =~= a@);
    assert(b@.skip(0) =~= b@);
    while i < na && i < nb
        invariant
            na == a@.len(),
            nb == b@.len(),
            i <= na,
            i <= nb,
            text_before(a@, b@) == text_before(a@.skip(i as int), b@.skip(i as int)),
        decreases na - i,
    {
        if a[i] != b[i] {
            return (a[i] as u32) < (b[i] as u32);
        }
        assert(a@.skip(i as int).drop_first() =~= a@.skip(i + 1));
        assert(b@.skip(i as int).drop_first() =~= b@.skip(i + 1));
        i += 1;
    }
    i == na && i < nb
}

/// Every text comes before the next, and so before all later ones.
pub open spec fn strictly_sorted(s: Seq<Seq<char>>) -> bool {
    forall|j1: int, j2: int| 0 <= j1 < j2 < s.len() ==> text_before(#[trigger] s[j1], #[trigger] s[j2])
}

// ---- the layout of groups ------------------------------------------------------

/// The tags of a list of items, by view.
pub open spec fn tags_view(tags: Seq<Option<String>>) -> Seq<Option<Seq<char>>> {
    tags.map_values(|t: Option<String>| opt_str_view(t))
}

/// The number of groups that have a tag: all but a last untagged one.
pub open spec fn tagged_count(gt: Seq<Option<Seq<char>>>) -> int {
    if gt.len() > 0 && gt.last() is None {
        gt.len() - 1
    } else {
        gt.len() as int
    }
}

/// `gt` lists the groups for items with tags `tags`: the tags that occur,
/// each once and in order, then `None` if some item has no tag.
pub open spec fn tag_layout(tags: Seq<Option<Seq<char>>>, gt: Seq<Option<Seq<char>>>) -> bool {
    let k = tagged_count(gt);
    &&& forall|j: int| 0 <= j < k ==> (#[trigger] gt[j]) is Some
    &&& forall|j1: int, j2: int|
        0 <= j1 < j2 < k ==> text_before((#[trigger] gt[j1])->0, (#[trigger] gt[j2])->0)
    &&& forall|j: int| 0 <= j < gt.len() ==> tags.contains(#[trigger] gt[j])
    &&& forall|i: int| 0 <= i < tags.len() ==> gt.contains(#[trigger] tags[i])
}

/// The positions of the items tagged `t`, in order.
pub open spec fn positions_of(tags: Seq<Option<Seq<char>>>, t: Option<Seq<char>>) -> Seq<int>
    decreases tags.len(),
{
    if tags.len() == 0 {
        Seq::empty()
    } else {
        let rest = positions_of(tags.drop_last(), t);
        if tags.last() == t {
            rest.push(tags.len() - 1)
        } else {
            rest
        }
    }
}

/// A tag has positions exactly when it occurs.
pub proof fn lemma_positions_nonempty(tags: Seq<Option<Seq<char>>>, t: Option<Seq<char>>)
    ensures
        positions_of(tags, t).len() > 0 <==> tags.contains(t),
    decreases tags.len(),
{
    if tags.len() > 0 {
        let d = tags.drop_last();
        lemma_positions_nonempty(d, t);
        if d.contains(t) {
            let i = choose|i: int| 0 <= i < d.len() && d[i] == t;
            assert(tags[i] == t);
        }
        if tags.contains(t) {
            let i = choose|i: int| 0 <= i < tags.len() && tags[i] == t;
            if i < tags.len() - 1 {
                assert(d[i] == t);
            }
        }
    }
}

/// One group: its tag and the positions of its items.
#[derive(Debug, Clone)]
pub struct TagGroup {
    pub tag: Option<String>,
    pub members: Vec<usize>,
}

/// The positions held in a list, as integers.
pub open spec fn index_view(v: Seq<usize>) -> Seq<int> {
    v.map_values(|i: usize| i as int)
}

/// The tags of a list of groups.
pub open spec fn group_tags(g: Seq<TagGroup>) -> Seq<Option<Seq<char>>> {
    g.map_values(|x: TagGroup| opt_str_view(x.tag))
}

// ---- building the groups ---------------------------------------------------------

spec fn opt_chars(o: Option<Vec<char>>) -> Option<Seq<char>> {
    match o {
        Some(v) => Some(v@),
        None => None,
    }
}

spec fn opt_chars_view(v: Seq<Option<Vec<char>>>) -> Seq<Option<Seq<char>>> {
    v.map_values(|o: Option<Vec<char>>| opt_chars(o))
}

/// A copy of a tag.
pub fn copy_tag(t: &Option<String>) -> (r: Option<String>)
    ensures
        opt_str_view(r) == opt_str_view(*t),
{
    match t {
        Some(s) => Some(s.clone()),
        None => None,
    }
}

/// The tags that occur in a list.
pub open spec fn tag_set(tags: Seq<Option<Seq<char>>>) -> Set<Seq<char>> {
    Set::new(|t: Seq<char>| tags.contains(Some(t)))
}

fn tag_chars(tags: &[Option<String>]) -> (r: Vec<Option<Vec<char>>>)
    ensures
        opt_chars_view(r@) == tags_view(tags@),
{
    let n = tags.len();
    let mut r: Vec<Option<Vec<char>>> = Vec::new();
    let mut i: usize = 0;
    while i < n
        invariant
            n == tags@.len(),
            i <= n,
            opt_chars_view(r@) == tags_view(tags@).take(i as int),
        decreases n - i,
    {
        let ghost before = r@;
        let o = match &tags[i] {
            Some(s) => Some(chars_of(s.as_str())),
            None => None,
        };
        r.push(o);
        assert(opt_chars_view(r@) =~= opt_chars_view(before).push(opt_chars(o)));
        assert(tags_view(tags@).take(i + 1) =~= tags_view(tags@).take(i as int).push(
            opt_str_view(tags@[i as int]),
        ));
        i += 1;
    }
    assert(tags_view(tags@).take(n as int) =~= tags_view(tags@));
    r
}

/// The first position whose key does not come before `t`.
fn lower_bound(keys: &Vec<Vec<char>>, t: &Vec<char>) -> (p: usize)
    ensures
        p <= keys@.len(),
        forall|j: int| 0 <= j < p ==> text_before(#[trigger] vv(keys@)[j], t@),
        p < keys@.len() ==> !text_before(vv(keys@)[p as int], t@),
{
    let n = keys.len();
    let mut p: usize = 0;
    while p < n
        invariant
            n == keys@.len(),
            p <= n,
            forall|j: int| 0 <= j < p ==> text_before(#[trigger] vv(keys@)[j], t@),
        decreases n - p,
    {
        if !text_less(keys[p].as_slice(), t.as_slice()) {
            return p;
        }
        p += 1;
    }
    p
}

/// Adds `t` to a sorted list of distinct keys unless it is there.
fn insert_key(keys: &mut Vec<Vec<char>>, t: &Vec<char>)
    requires
        strictly_sorted(vv(old(keys)@)),
    ensures
        strictly_sorted(vv(final(keys)@)),
        vv(final(keys)@).to_set() == vv(old(keys)@).to_set().insert(t@),
{
    let p = lower_bound(keys, t);
    let ghost old_v = vv(keys@);
    if p < keys.len() && chars_eq(keys[p].as_slice(), t.as_slice()) {
        assert(old_v[p as int] == t@);
        assert(old_v.to_set().insert(t@) =~= old_v.to_set());
    } else {
        proof {
            if p < old_v.len() {
                lemma_text_before_total(old_v[p as int], t@);
            }
        }
        let c = sub_vec(t.as_slice(), 0, t.len());
        assert(c@ =~= t@);
        keys.insert(p, c);
        let ghost new_v = vv(keys@);
        assert(new_v =~= old_v.insert(p as int, t@));
        assert forall|j1: int, j2: int| 0 <= j1 < j2 < new_v.len() implies text_before(
            #[trigger] new_v[j1],
            #[trigger] new_v[j2],
        ) by {
            if j1 < p && j2 < p {
            } else if j1 < p && j2 == p {
            } else if j1 < p {
                assert(new_v[j2] == old_v[j2 - 1]);
                if j2 - 1 == p {
                    lemma_text_before_transitive(old_v[j1], t@, old_v[j2 - 1]);
                } else {
                    lemma_text_before_transitive(old_v[j1], old_v[p as int], old_v[j2 - 1]);
                }
            } else if j1 == p {
                assert(new_v[j2] == old_v[j2 - 1]);
                if j2 - 1 > p {
                    lemma_text_before_transitive(t@, old_v[p as int], old_v[j2 - 1]);
                }
            } else {
                assert(new_v[j1] == old_v[j1 - 1]);
                assert(new_v[j2] == old_v[j2 - 1]);
            }
        }
        assert forall|x: Seq<char>| new_v.to_set().contains(x) <==> old_v.to_set().insert(
            t@,
        ).contains(x) by {
            if new_v.contains(x) {
                let j = choose|j: int| 0 <= j < new_v.len() && new_v[j] == x;
                if j < p {
                    assert(old_v[j] == x);
                } else if j > p {
                    assert(old_v[j - 1] == x);
                }
            }
            if old_v.contains(x) {
                let j = choose|j: int| 0 <= j < old_v.len() && old_v[j] == x;
                if j < p {
                    assert(new_v[j] == x);
                } else {
                    assert(new_v[j + 1] == x);
                }
            }
            if x == t@ {
                assert(new_v[p as int] == x);
            }
        }
        assert(new_v.to_set() =~= old_v.to_set().insert(t@));
    }
}

/// The distinct tags of a list, sorted.
fn sorted_tags(tv: &Vec<Option<Vec<char>>>) -> (keys: Vec<Vec<char>>)
    ensures
        strictly_sorted(vv(keys@)),
        vv(keys@).to_set() == tag_set(opt_chars_view(tv@)),
{
    let n = tv.len();
    let ghost tags = opt_chars_view(tv@);
    let mut keys: Vec<Vec<char>> = Vec::new();
    let mut i: usize = 0;
    assert(vv(keys@).to_set() =~= tag_set(tags.take(0)));
    while i < n
        invariant
            n == tv@.len(),
            i <= n,
            tags == opt_chars_view(tv@),
            strictly_sorted(vv(keys@)),
            vv(keys@).to_set() == tag_set(tags.take(i as int)),
        decreases n - i,
    {
        let ghost before = vv(keys@).to_set();
        assert(tags.take(i + 1) =~= tags.take(i as int).push(tags[i as int]));
        match &tv[i] {
            Some(t) => {
                insert_key(&mut keys, t);
                assert forall|x: Seq<char>| tag_set(tags.take(i + 1)).contains(x) <==> before.insert(
                    t@,
                ).contains(x) by {
                    let s = tags.take(i as int);
                    if s.push(tags[i as int]).contains(Some(x)) {
                        let j = choose|j: int| 0 <= j < s.len() + 1 && s.push(tags[i as int])[j] == Some(x);
                        if j < s.len() {
                            assert(s[j] == Some(x));
                        }
                    }
                    if s.contains(Some(x)) {
                        let j = choose|j: int| 0 <= j < s.len() && s[j] == Some(x);
                        assert(s.push(tags[i as int])[j] == Some(x));
                    }
                    if x == t@ {
                        assert(s.push(tags[i as int])[s.len() as int] == Some(x));
                    }
                }
                assert(tag_set(tags.take(i + 1)) =~= before.insert(t@));
            },
            None => {
                assert forall|x: Seq<char>| tag_set(tags.take(i + 1)).contains(x) <==> before.contains(
                    x,
                ) by {
                    let s = tags.take(i as int);
                    if s.push(tags[i as int]).contains(Some(x)) {
                        let j = choose|j: int| 0 <= j < s.len() + 1 && s.push(tags[i as int])[j] == Some(x);
                        if j < s.len() {
                            assert(s[j] == Some(x));
                        }
                    }
                    if s.contains(Some(x)) {
                        let j = choose|j: int| 0 <= j < s.len() && s[j] == Some(x);
                        assert(s.push(tags[i as int])[j] == Some(x));
                    }
                }
                assert(tag_set(tags.take(i + 1)) =~= before);
            },
        }
        i += 1;
    }
    assert(tags.take(n as int) =~= tags);
    keys
}

/// The positions of the items whose tag is `t`.
fn positions_with(tv: &Vec<Option<Vec<char>>>, t: &Option<Vec<char>>) -> (r: Vec<usize>)
    ensures
        index_view(r@) == positions_of(opt_chars_view(tv@), opt_chars(*t)),
{
    let n = tv.len();
    let ghost tags = opt_chars_view(tv@);
    let mut r: Vec<usize> = Vec::new();
    let mut i: usize = 0;
    assert(tags.take(0) =~= Seq::<Option<Seq<char>>>::empty());
    while i < n
        invariant
            n == tv@.len(),
            i <= n,
            tags == opt_chars_view(tv@),
            index_view(r@) == positions_of(tags.take(i as int), opt_chars(*t)),
        decreases n - i,
    {
        let ghost before = r@;
        let same = match (&tv[i], t) {
            (Some(a), Some(b)) => chars_eq(a.as_slice(), b.as_slice()),
            (None, None) => true,
            _ => false,
        };
        assert(tags.take(i + 1).drop_last() =~= tags.take(i as int));
        assert(tags.take(i + 1).last() == opt_chars(tv@[i as int]));
        if same {
            r.push(i);
            assert(index_view(r@) =~= index_view(before).push(i as int));
        }
        i += 1;
    }
    assert(tags.take(n as int) =~= tags);
    r
}

/// The groups of a list of items by tag: for each tag that occurs, in order,
/// the positions of its items; then the positions of the untagged items, if
/// there are any.
pub fn group_by_tag(tags: &[Option<String>]) -> (r: Vec<TagGroup>)
    ensures
        tag_layout(tags_view(tags@), group_tags(r@)),
        forall|j: int|
            0 <= j < r@.len() ==> index_view((#[trigger] r@[j]).members@) == positions_of(
                tags_view(tags@),
                opt_str_view(r@[j].tag),
            ),
{
    let tv = tag_chars(tags);
    let ghost tg = tags_view(tags@);
    let keys = sorted_tags(&tv);
    let nk = keys.len();
    let mut r: Vec<TagGroup> = Vec::new();
    let mut j: usize = 0;
    while j < nk
        invariant
            nk == keys@.len(),
            j <= nk,
            tg == opt_chars_view(tv@),
            r@.len() == j,
            strictly_sorted(vv(keys@)),
            vv(keys@).to_set() == tag_set(tg),
            forall|g: int| 0 <= g < j ==> group_tags(r@)[g] == Some(#[trigger] vv(keys@)[g]),
            forall|g: int|
                0 <= g < j ==> index_view((#[trigger] r@[g]).members@) == positions_of(
                    tg,
                    opt_str_view(r@[g].tag),
                ),
        decreases nk - j,
    {
        let key: Option<Vec<char>> = Some(sub_vec(keys[j].as_slice(), 0, keys[j].len()));
        assert(opt_chars(key) == Some(vv(keys@)[j as int]));
        let members = positions_with(&tv, &key);
        let ghost before = r@;
        r.push(TagGroup { tag: Some(string_of(keys[j].as_slice())), members });
        assert(group_tags(r@) =~= group_tags(before).push(Some(vv(keys@)[j as int])));
        j += 1;
    }
    let none_key: Option<Vec<char>> = None;
    let rest = positions_with(&tv, &none_key);
    let ghost tagged = r@;
    if rest.len() > 0 {
        r.push(TagGroup { tag: None, members: rest });
        assert(group_tags(r@) =~= group_tags(tagged).push(None));
    }
    proof {
        lemma_positions_nonempty(tg, None);
        let gt = group_tags(r@);
        let k = tagged_count(gt);
        if nk > 0 {
            assert(gt[nk - 1] == Some(vv(keys@)[nk - 1]));
        }
        assert(k == nk);
        assert forall|g: int| 0 <= g < k implies (#[trigger] gt[g]) is Some by {
            assert(gt[g] == Some(vv(keys@)[g]));
        }
        assert forall|g: int| 0 <= g < gt.len() implies tg.contains(#[trigger] gt[g]) by {
            if g < nk {
                assert(vv(keys@).contains(vv(keys@)[g]));
                assert(tag_set(tg).contains(vv(keys@)[g]));
            }
        }
        assert forall|i: int| 0 <= i < tg.len() implies gt.contains(#[trigger] tg[i]) by {
            assert(tg.contains(tg[i]));
            match tg[i] {
                Some(x) => {
                    assert(tag_set(tg).contains(x));
                    assert(vv(keys@).to_set().contains(x));
                    let g = choose|g: int| 0 <= g < vv(keys@).len() && vv(keys@)[g] == x;
                    assert(gt[g] == Some(x));
                },
                None => {
                    assert(gt[nk as int] == tg[i]);
                },
            }
        }
        assert forall|g1: int, g2: int| 0 <= g1 < g2 < k implies text_before(
            (#[trigger] gt[g1])->0,
            (#[trigger] gt[g2])->0,
        ) by {
            assert(gt[g1] == Some(vv(keys@)[g1]));
            assert(gt[g2] == Some(vv(keys@)[g2]));
        }
    }
    r
}

// ---- accounts by project ---------------------------------------------------------

/// An account as a project lists it.
#[derive(Debug, Clone)]
pub struct ProjectAccount {
    pub id: i64,
    pub email: String,
}

/// One project: its tag (`None` for the accounts without one), its accounts
/// and their unread count.
#[derive(Debug, Clone)]
pub struct ProjectGroup {
    pub tag: Option<String>,
    pub accounts: Vec<ProjectAccount>,
    pub unread: i64,
}

/// The unread count of an account from the per-account counts; an account
/// without an entry has none unread.
pub open spec fn unread_of(unread: Map<i64, i64>, id: i64) -> int {
    if unread.contains_key(id) {
        unread[id] as int
    } else {
        0
    }
}

/// The project tags of a list of accounts.
pub open spec fn account_tags(accounts: Seq<Account>) -> Seq<Option<Seq<char>>> {
    accounts.map_values(|a: Account| opt_str_view(a.project_tag))
}

/// The accounts tagged `t`, in order, as (id, address).
pub open spec fn accounts_in(accounts: Seq<Account>, t: Option<Seq<char>>) -> Seq<(i64, Seq<char>)>
    decreases accounts.len(),
{
    if accounts.len() == 0 {
        Seq::empty()
    } else {
        let rest = accounts_in(accounts.drop_last(), t);
        let a = accounts.last();
        if opt_str_view(a.project_tag) == t {
            rest.push((a.id, a.email@))
        } else {
            rest
        }
    }
}

/// The unread count of the accounts tagged `t`.
pub open spec fn unread_in(accounts: Seq<Account>, t: Option<Seq<char>>, unread: Map<i64, i64>) -> int
    decreases accounts.len(),
{
    if accounts.len() == 0 {
        0
    } else {
        let rest = unread_in(accounts.drop_last(), t, unread);
        let a = accounts.last();
        if opt_str_view(a.project_tag) == t {
            rest + unread_of(unread, a.id)
        } else {
            rest
        }
    }
}

/// Every project's unread count fits in an `i64`.
pub open spec fn sums_fit(accounts: Seq<Account>, unread: Map<i64, i64>) -> bool {
    forall|t: Option<Seq<char>>| i64::MIN <= #[trigger] unread_in(accounts, t, unread) <= i64::MAX
}

/// The view of a project's accounts.
pub open spec fn project_accounts_view(v: Seq<ProjectAccount>) -> Seq<(i64, Seq<char>)> {
    v.map_values(|a: ProjectAccount| (a.id, a.email@))
}

/// The tags of a list of projects.
pub open spec fn project_tags(g: Seq<ProjectGroup>) -> Seq<Option<Seq<char>>> {
    g.map_values(|x: ProjectGroup| opt_str_view(x.tag))
}

proof fn lemma_unread_in_absent(accounts: Seq<Account>, t: Option<Seq<char>>, unread: Map<i64, i64>)
    requires
        forall|k: int| 0 <= k < accounts.len() ==> opt_str_view((#[trigger] accounts[k]).project_tag) != t,
    ensures
        unread_in(accounts, t, unread) == 0,
    decreases accounts.len(),
{
    if accounts.len() > 0 {
        let d = accounts.drop_last();
        assert forall|k: int| 0 <= k < d.len() implies opt_str_view((#[trigger] d[k]).project_tag) != t by {
            assert(d[k] == accounts[k]);
        }
        assert(accounts.last() == accounts[accounts.len() - 1]);
        lemma_unread_in_absent(d, t, unread);
    }
}

/// The unread count of one account.
pub fn unread_count_of(unread: &HashMap<i64, i64>, id: i64) -> (r: i64)
    ensures
        r == unread_of(unread@, id),
{
    broadcast use vstd::std_specs::hash::group_hash_axioms;
    match unread.get(&id) {
        Some(c) => *c,
        None => 0,
    }
}

fn same_tag(x: &Option<String>, tag: &Option<Vec<char>>) -> (r: bool)
    ensures
        r == (opt_str_view(*x) == opt_chars(*tag)),
{
    match (x, tag) {
        (Some(x), Some(y)) => {
            let xc = chars_of(x.as_str());
            chars_eq(xc.as_slice(), y.as_slice())
        },
        (None, None) => true,
        _ => false,
    }
}

/// The unread count of the accounts tagged `tag`, exactly (an `i128` holds
/// the sum of any number of `i64` counts that a slice can hold).
fn project_sum(accounts: &[Account], tag: &Option<Vec<char>>, unread: &HashMap<i64, i64>) -> (r: i128)
    ensures
        r == unread_in(accounts@, opt_chars(*tag), unread@),
{
    let n = accounts.len();
    let ghost t = opt_chars(*tag);
    let mut sum: i128 = 0;
    let mut i: usize = 0;
    assert(accounts@.take(0) =~= Seq::<Account>::empty());
    while i < n
        invariant
            n == accounts@.len(),
            i <= n,
            t == opt_chars(*tag),
            sum == unread_in(accounts@.take(i as int), t, unread@),
            -(i as int) * 0x8000_0000_0000_0000 <= sum <= (i as int) * 0x8000_0000_0000_0000,
        decreases n - i,
    {
        let a = &accounts[i];
        let ghost next = accounts@.take(i + 1);
        assert(next.drop_last() =~= accounts@.take(i as int));
        assert(next.last() == accounts@[i as int]);
        if same_tag(&a.project_tag, tag) {
            let c = unread_count_of(unread, a.id);
            sum = sum + c as i128;
        }
        i += 1;
    }
    assert(accounts@.take(n as int) =~= accounts@);
    sum
}

/// Whether every project's unread count fits in an `i64`.
pub fn project_sums_fit(accounts: &[Account], unread: &HashMap<i64, i64>) -> (r: bool)
    ensures
        r == sums_fit(accounts@, unread@),
{
    let n = accounts.len();
    let mut i: usize = 0;
    while i < n
        invariant
            n == accounts@.len(),
            i <= n,
            forall|k: int|
                0 <= k < i ==> i64::MIN <= #[trigger] unread_in(
                    accounts@,
                    opt_str_view(accounts@[k].project_tag),
                    unread@,
                ) <= i64::MAX,
        decreases n - i,
    {
        let key: Option<Vec<char>> = match &accounts[i].project_tag {
            Some(s) => Some(chars_of(s.as_str())),
            None => None,
        };
        assert(opt_chars(key) == opt_str_view(accounts@[i as int].project_tag));
        let s = project_sum(accounts, &key, unread);
        if s < i64::MIN as i128 || s > i64::MAX as i128 {
            return false;
        }
        i += 1;
    }
    assert forall|t: Option<Seq<char>>| i64::MIN <= #[trigger] unread_in(accounts@, t, unread@) <= i64::MAX by {
        if exists|k: int| 0 <= k < n && opt_str_view((#[trigger] accounts@[k]).project_tag) == t {
            let k = choose|k: int| 0 <= k < n && opt_str_view((#[trigger] accounts@[k]).project_tag) == t;
            assert(i64::MIN <= unread_in(accounts@, opt_str_view(accounts@[k].project_tag), unread@) <= i64::MAX);
        } else {
            lemma_unread_in_absent(accounts@, t, unread@);
        }
    }
    true
}

/// The accounts of one project and their unread count.
fn project_of(accounts: &[Account], tag: &Option<Vec<char>>, unread: &HashMap<i64, i64>) -> (r: (Vec<ProjectAccount>, i64))
    requires
        i64::MIN <= unread_in(accounts@, opt_chars(*tag), unread@) <= i64::MAX,
    ensures
        project_accounts_view(r.0@) == accounts_in(accounts@, opt_chars(*tag)),
        r.1 == unread_in(accounts@, opt_chars(*tag), unread@),
{
    let n = accounts.len();
    let ghost t = opt_chars(*tag);
    let mut out: Vec<ProjectAccount> = Vec::new();
    let mut i: usize = 0;
    assert(accounts@.take(0) =~= Seq::<Account>::empty());
    while i < n
        invariant
            n == accounts@.len(),
            i <= n,
            t == opt_chars(*tag),
            project_accounts_view(out@) == accounts_in(accounts@.take(i as int), t),
        decreases n - i,
    {
        let a = &accounts[i];
        let ghost pre = accounts@.take(i as int);
        let ghost next = accounts@.take(i + 1);
        assert(next.drop_last() =~= pre);
        assert(next.last() == accounts@[i as int]);
        if same_tag(&a.project_tag, tag) {
            let ghost before = out@;
            out.push(ProjectAccount { id: a.id, email: a.email.clone() });
            assert(project_accounts_view(out@) =~= project_accounts_view(before).push((a.id, a.email@)));
        }
        i += 1;
    }
    assert(accounts@.take(n as int) =~= accounts@);
    let sum = project_sum(accounts, tag, unread);
    (out, sum as i64)
}

/// The accounts grouped by project: one group per tag in the order of the
/// tags, then the untagged accounts if there are any. Each group lists its
/// accounts in the given order and sums their unread counts (`unread` holds
/// per-account counts, as the store reports them). Each group's count must
/// fit in an `i64` (`project_sums_fit` tells).
pub fn group_accounts_by_project(accounts: &[Account], unread: &HashMap<i64, i64>) -> (r: Vec<ProjectGroup>)
    requires
        sums_fit(accounts@, unread@),
    ensures
        tag_layout(account_tags(accounts@), project_tags(r@)),
        forall|j: int|
            0 <= j < r@.len() ==> project_accounts_view((#[trigger] r@[j]).accounts@)
                == accounts_in(accounts@, opt_str_view(r@[j].tag)),
        forall|j: int|
            0 <= j < r@.len() ==> (#[trigger] r@[j]).unread == unread_in(
                accounts@,
                opt_str_view(r@[j].tag),
                unread@,
            ),
{
    let n = accounts.len();
    let mut tags: Vec<Option<String>> = Vec::new();
    let mut i: usize = 0;
    while i < n
        invariant
            n == accounts@.len(),
            i <= n,
            tags_view(tags@) == account_tags(accounts@).take(i as int),
        decreases n - i,
    {
        let ghost before = tags@;
        tags.push(copy_tag(&accounts[i].project_tag));
        assert(tags_view(tags@) =~= tags_view(before).push(opt_str_view(accounts@[i as int].project_tag)));
        assert(account_tags(accounts@).take(i + 1) =~= account_tags(accounts@).take(i as int).push(
            opt_str_view(accounts@[i as int].project_tag),
        ));
        i += 1;
    }
    assert(account_tags(accounts@).take(n as int) =~= account_tags(accounts@));
    let groups = group_by_tag(tags.as_slice());
    let ng = groups.len();
    let mut r: Vec<ProjectGroup> = Vec::new();
    let mut j: usize = 0;
    while j < ng
        invariant
            ng == groups@.len(),
            j <= ng,
            r@.len() == j,
            sums_fit(accounts@, unread@),
            forall|g: int| 0 <= g < j ==> project_tags(r@)[g] == #[trigger] group_tags(groups@)[g],
            forall|g: int|
                0 <= g < j ==> project_accounts_view((#[trigger] r@[g]).accounts@) == accounts_in(
                    accounts@,
                    opt_str_view(r@[g].tag),
                ),
            forall|g: int|
                0 <= g < j ==> (#[trigger] r@[g]).unread == unread_in(
                    accounts@,
                    opt_str_view(r@[g].tag),
                    unread@,
                ),
        decreases ng - j,
    {
        let key: Option<Vec<char>> = match &groups[j].tag {
            Some(s) => Some(chars_of(s.as_str())),
            None => None,
        };
        assert(opt_chars(key) == opt_str_view(groups@[j as int].tag));
        assert(i64::MIN <= unread_in(accounts@, opt_chars(key), unread@) <= i64::MAX);
        let (accs, sum) = project_of(accounts, &key, unread);
        let ghost before = r@;
        r.push(ProjectGroup { tag: copy_tag(&groups[j].tag), accounts: accs, unread: sum });
        assert(project_tags(r@) =~= project_tags(before).push(opt_str_view(groups@[j as int].tag)));
        j += 1;
    }
    assert(project_tags(r@) =~= group_tags(groups@));
    r
}

} // verus!
