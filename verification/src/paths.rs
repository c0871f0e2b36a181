//! Where the files of the daemon lie below its workspace directory.

use crate::text::{chars_of, push_text};
use vstd::prelude::*;

verus! {

pub const PID_FILE_NAME: &'static str = "kronid.pid";

pub const RUN_ID_FILE_NAME: &'static str = "kronid.run_id";

pub const GRPC_UDS_NAME: &'static str = "kronid.sock";

pub const HTTP_UDS_NAME: &'static str = "kronid.http.sock";

pub const DATA_DB_NAME_DUCKDB: &'static str = "data.duckdb";

pub const DATA_DB_NAME_SQLITE: &'static str = "data.sqlite3";

/// The path of `name` below `dir`: one slash stands between them, and none before a name below
/// the empty path.
pub open spec fn path_below(dir: Seq<char>, name: Seq<char>) -> Seq<char> {
    if dir.len() == 0 {
        name
    } else if dir.last() == '/' {
        dir + name
    } else {
        dir + "/"@ + name
    }
}

/// The path of `name`, which is itself a relative path, below `dir`.
pub fn join_path(dir: &str, name: &str) -> (r: String)
    ensures
        r@ == path_below(dir@, name@),
{
    let v = chars_of(dir);
    let mut path = dir.to_string();
    if v.len() > 0 && v[v.len() - 1] != '/' {
        push_text(&mut path, "/");
    }
    push_text(&mut path, name);
    assert(path@ =~= path_below(dir@, name@));
    path
}

/// Files of different names below the same directory have different paths.
pub proof fn law_paths_tell_names_apart(dir: Seq<char>, a: Seq<char>, b: Seq<char>)
    requires
        a != b,
    ensures
        path_below(dir, a) != path_below(dir, b),
{
    let head = if dir.len() == 0 || dir.last() == '/' {
        dir
    } else {
        dir + "/"@
    };
    assert(path_below(dir, a) =~= head + a);
    assert(path_below(dir, b) =~= head + b);
    if path_below(dir, a) == path_below(dir, b) {
        assert(a =~= (head + a).skip(head.len() as int));
        assert(b =~= (head + b).skip(head.len() as int));
    }
}

pub fn pid_file(workspace_dir: &str) -> (r: String)
    ensures
        r@ == path_below(workspace_dir@, "kronid.pid"@),
{
    join_path(workspace_dir, PID_FILE_NAME)
}

pub fn run_id_file(workspace_dir: &str) -> (r: String)
    ensures
        r@ == path_below(workspace_dir@, "kronid.run_id"@),
{
    join_path(workspace_dir, RUN_ID_FILE_NAME)
}

pub fn grpc_uds(workspace_dir: &str) -> (r: String)
    ensures
        r@ == path_below(workspace_dir@, "kronid.sock"@),
{
    join_path(workspace_dir, GRPC_UDS_NAME)
}

pub fn http_uds(workspace_dir: &str) -> (r: String)
    ensures
        r@ == path_below(workspace_dir@, "kronid.http.sock"@),
{
    join_path(workspace_dir, HTTP_UDS_NAME)
}

} // verus!
