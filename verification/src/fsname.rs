//! Makes a name safe to use as one segment of a file-system path. IMAP
//! folder names and attachment file names come from outside the trust
//! boundary, so they pass through here before anything is written to disk.
use vstd::prelude::*;
use crate::text::{chars_of, is_control, is_ctrl, string_of};

verus! {

/// Characters that may not appear in a path segment: path separators,
/// Windows-reserved characters and control characters.
pub open spec fn is_reserved(c: char) -> bool {
    c == '/' || c == '\\' || c == ':' || c == '*' || c == '?' || c == '"' || c == '<' || c == '>'
        || c == '|' || is_ctrl(c)
}

pub open spec fn replace_reserved(s: Seq<char>) -> Seq<char> {
    s.map_values(
        |c: char|
            if is_reserved(c) {
                '_'
            } else {
                c
            },
    )
}

/// The sanitised segment: every reserved character becomes `_`, and a result
/// that would be empty, `.` or `..` becomes `_`, `_` or `__`.
pub open spec fn sanitized_segment(name: Seq<char>) -> Seq<char> {
    let r = replace_reserved(name);
    if r.len() == 0 {
        seq!['_']
    } else if r == seq!['.'] {
        seq!['_']
    } else if r == seq!['.', '.'] {
        seq!['_', '_']
    } else {
        r
    }
}

/// A segment is safe when it is not empty, not `.` or `..`, and holds no
/// reserved character.
pub open spec fn is_safe_segment(s: Seq<char>) -> bool {
    &&& s.len() > 0
    &&& s != seq!['.']
    &&& s != seq!['.', '.']
    &&& forall|i: int| 0 <= i < s.len() ==> !is_reserved(#[trigger] s[i])
}

fn is_reserved_exec(c: char) -> (r: bool)
    ensures
        r == is_reserved(c),
{
    c == '/' || c == '\\' || c == ':' || c == '*' || c == '?' || c == '"' || c == '<' || c == '>'
        || c == '|' || is_control(c)
}

/// Makes a folder or file name usable as one path segment: `/ \ : * ? " < >
/// |` and control characters become `_`; a name that would then be empty,
/// `.` or `..` (which would escape the parent directory) becomes `_`, `_` or
/// `__`. Names without such characters, Japanese ones included, pass
/// unchanged.
pub fn sanitize_path_segment(name: &str) -> (r: String)
    ensures
        r@ == sanitized_segment(name@),
{
    let c = chars_of(name);
    let n = c.len();
    let mut out: Vec<char> = Vec::new();
    let mut i: usize = 0;
    while i < n
        invariant
            n == c@.len(),
            i <= n,
            out@ == replace_reserved(c@.subrange(0, i as int)),
        decreases n - i,
    {
        let ch = c[i];
        out.push(
            if is_reserved_exec(ch) {
                '_'
            } else {
                ch
            },
        );
        i += 1;
        assert(out@ =~= replace_reserved(c@.subrange(0, i as int)));
    }
    assert(c@.subrange(0, n as int) =~= c@);
    if out.len() == 0 {
        return string_of(&vec!['_']);
    }
    if out.len() == 1 && out[0] == '.' {
        assert(out@ =~= seq!['.']);
        return string_of(&vec!['_']);
    }
    if out.len() == 2 && out[0] == '.' && out[1] == '.' {
        assert(out@ =~= seq!['.', '.']);
        return string_of(&vec!['_', '_']);
    }
    proof {
        if out@ == seq!['.'] {
            assert(out@[0] == '.');
        }
        if out@ == seq!['.', '.'] {
            assert(out@[0] == '.' && out@[1] == '.');
        }
    }
    string_of(&out)
}

/// Whatever name comes in, the sanitised segment is safe: it is not empty,
/// not `.` or `..`, and contains no separator, reserved or control character.
pub proof fn lemma_sanitized_segment_is_safe(name: Seq<char>)
    ensures
        is_safe_segment(sanitized_segment(name)),
{
    let r = replace_reserved(name);
    assert forall|i: int| 0 <= i < r.len() implies !is_reserved(#[trigger] r[i]) by {}
    let s = sanitized_segment(name);
    if r.len() == 0 || r == seq!['.'] {
        assert(s == seq!['_']);
        assert(s[0] != seq!['.'][0]);
        assert(s != seq!['.']);
        assert(s.len() != seq!['.', '.'].len());
        assert(s != seq!['.', '.']);
    } else if r == seq!['.', '.'] {
        assert(s == seq!['_', '_']);
        assert(s[0] != seq!['.', '.'][0]);
        assert(s != seq!['.', '.']);
        assert(s.len() != seq!['.'].len());
        assert(s != seq!['.']);
    }
}

/// A name that is already safe is left unchanged.
pub proof fn lemma_safe_segment_unchanged(name: Seq<char>)
    requires
        is_safe_segment(name),
    ensures
        sanitized_segment(name) == name,
{
    assert(replace_reserved(name) =~= name);
}

/// Sanitising twice gives the same result as sanitising once.
pub proof fn law_sanitize_idempotent(name: Seq<char>)
    ensures
        sanitized_segment(sanitized_segment(name)) == sanitized_segment(name),
{
    lemma_sanitized_segment_is_safe(name);
    lemma_safe_segment_unchanged(sanitized_segment(name));
}

} // verus!
