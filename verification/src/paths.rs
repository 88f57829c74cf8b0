//! Where the data lives. The CLI, the MCP server and the desktop app all
//! resolve it here so that they open the same database and mail directory.
//! Paths are `/`-separated strings; joining follows `Path::join` on Unix.
use vstd::prelude::*;
use crate::text::{chars_of, push_all, string_of};

verus! {

/// The application directory name under the OS data directory (the same as
/// the desktop app's identifier).
pub const APP_DIR_NAME: &'static str = "dev.icethink.meowbox";

/// The environment variable that overrides the data directory.
pub const DATA_DIR_ENV: &'static str = "MEOWBOX_DATA_DIR";

/// `Path::join` on Unix: an absolute `name` replaces `base`; otherwise one
/// separator is put between them unless `base` is empty or already ends with
/// one.
pub open spec fn path_join(base: Seq<char>, name: Seq<char>) -> Seq<char> {
    if name.len() > 0 && name[0] == '/' {
        name
    } else if base.len() == 0 {
        name
    } else if base.last() == '/' {
        base + name
    } else {
        base + seq!['/'] + name
    }
}

/// Joins a path segment onto a directory.
pub fn join_path(base: &str, name: &str) -> (r: String)
    ensures
        r@ == path_join(base@, name@),
{
    let b = chars_of(base);
    let n = chars_of(name);
    if n.len() > 0 && n[0] == '/' {
        return string_of(&n);
    }
    if b.len() == 0 {
        return string_of(&n);
    }
    let mut out = b.clone();
    assert(out@ == b@);
    if b[b.len() - 1] != '/' {
        out.push('/');
    }
    push_all(&mut out, &n);
    string_of(&out)
}

pub open spec fn db_file_name() -> Seq<char> {
    seq!['m', 'e', 'o', 'w', 'b', 'o', 'x', '.', 'd', 'b']
}

pub open spec fn mail_dir_name() -> Seq<char> {
    seq!['m', 'a', 'i', 'l']
}

pub open spec fn attachments_dir_name() -> Seq<char> {
    seq!['a', 't', 't', 'a', 'c', 'h', 'm', 'e', 'n', 't', 's']
}

/// The SQLite file: `<data_dir>/meowbox.db`.
pub fn db_path(data_dir: &str) -> (r: String)
    ensures
        r@ == path_join(data_dir@, db_file_name()),
{
    proof {
        reveal_strlit("meowbox.db");
    }
    join_path(data_dir, "meowbox.db")
}

/// Where raw `.eml` files are kept: `<data_dir>/mail`.
pub fn mail_dir(data_dir: &str) -> (r: String)
    ensures
        r@ == path_join(data_dir@, mail_dir_name()),
{
    proof {
        reveal_strlit("mail");
    }
    join_path(data_dir, "mail")
}

/// Where extracted attachments are written: `<data_dir>/attachments`.
pub fn attachments_dir(data_dir: &str) -> (r: String)
    ensures
        r@ == path_join(data_dir@, attachments_dir_name()),
{
    proof {
        reveal_strlit("attachments");
    }
    join_path(data_dir, "attachments")
}

/// Why no data directory could be chosen.
#[derive(Debug, Clone, Copy, PartialEq, Eq, Structural)]
pub enum PathError {
    /// Neither the environment variable nor the OS app data directory is
    /// available.
    NoDataDir,
}

/// The data directory chosen from the environment variable's value and the
/// OS app data directory.
pub open spec fn data_dir_choice(env: Option<Seq<char>>, base: Option<Seq<char>>) -> Option<
    Seq<char>,
> {
    match env {
        Some(e) if e.len() > 0 => Some(e),
        _ => match base {
            Some(b) => Some(path_join(b, APP_DIR_NAME@)),
            None => None,
        },
    }
}

pub open spec fn opt_str_view(o: Option<String>) -> Option<Seq<char>> {
    match o {
        Some(s) => Some(s@),
        None => None,
    }
}

/// The data directory: the environment value when it is set and not empty,
/// else the application directory under the OS data directory, else an error.
pub fn data_dir_from(env: Option<String>, base: Option<String>) -> (r: Result<String, PathError>)
    ensures
        r matches Ok(d) ==> data_dir_choice(opt_str_view(env), opt_str_view(base)) == Some(d@),
        r is Err ==> data_dir_choice(opt_str_view(env), opt_str_view(base)) is None,
{
    if let Some(e) = &env {
        if e.as_str().unicode_len() > 0 {
            return Ok(e.clone());
        }
    }
    match base {
        Some(b) => Ok(join_path(b.as_str(), APP_DIR_NAME)),
        None => Err(PathError::NoDataDir),
    }
}

/// An explicit directory (such as a `--data-dir` flag) wins; otherwise the
/// default from the environment value and the OS data directory.
pub fn resolve_data_dir(explicit: Option<String>, env: Option<String>, base: Option<String>) -> (r:
    Result<String, PathError>)
    ensures
        explicit matches Some(p) ==> r matches Ok(d) && d@ == p@,
        explicit is None ==> (r matches Ok(d) ==> data_dir_choice(
            opt_str_view(env),
            opt_str_view(base),
        ) == Some(d@)),
        explicit is None ==> (r is Err <==> data_dir_choice(
            opt_str_view(env),
            opt_str_view(base),
        ) is None),
{
    match explicit {
        Some(p) => Ok(p),
        None => data_dir_from(env, base),
    }
}

} // verus!
