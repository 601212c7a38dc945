//! Where the executable for a command's name is looked for.
//!
//! Whether a path names a file is asked of the caller, through `is_file`: the
//! functions here decide which paths to ask about, and in what order.

use vstd::prelude::*;
use vstd::string::{StrSliceExecFns, StringExecFns};
use crate::builtin::{spec_split, split, Separator};
use crate::command::words_view;

verus! {

/// The path of `name` in the directory `dir`: `name` itself where it is
/// absolute or `dir` is empty, else `dir` and `name` with one `/` between them.
pub open spec fn spec_join(dir: Seq<char>, name: Seq<char>) -> Seq<char> {
    if dir.len() == 0 || (name.len() > 0 && name[0] == '/') {
        name
    } else if dir.last() == '/' {
        dir + name
    } else {
        dir + seq!['/'] + name
    }
}

/// The path of `name` in the directory `dir`.
pub fn join(dir: &str, name: &str) -> (r: String)
    ensures
        r@ == spec_join(dir@, name@),
{
    let n: usize = dir.unicode_len();
    if n == 0 || (name.unicode_len() > 0 && name.get_char(0) == '/') {
        return String::from_str(name);
    }
    let mut path: String = String::from_str(dir);
    if dir.get_char(n - 1) != '/' {
        proof {
            reveal_strlit("/");
            assert("/"@ =~= seq!['/']);
        }
        path.append("/");
    }
    path.append(name);
    path
}

/// Whether `is_file` says of a string that reads `path` that it names a file.
pub open spec fn accepts<F: Fn(&str) -> bool>(is_file: F, path: Seq<char>) -> bool {
    exists|p: &str| p@ == path && #[trigger] call_ensures(is_file, (p,), true)
}

/// Whether `is_file` says of a string that reads `path` that it names no file.
pub open spec fn rejects<F: Fn(&str) -> bool>(is_file: F, path: Seq<char>) -> bool {
    exists|p: &str| p@ == path && #[trigger] call_ensures(is_file, (p,), false)
}

/// Looks for `cmd` in the directories `paths`, in order: returns the path of
/// `cmd` in the first directory where `is_file` finds it, and asks about no
/// directory behind that one.
pub fn find_in_paths<F: Fn(&str) -> bool>(cmd: &str, paths: Vec<&str>, is_file: F) -> (r: Option<
    String,
>)
    requires
        forall|p: &str| call_requires(is_file, (p,)),
    ensures
        match r {
            Some(path) => exists|i: int|
                {
                    &&& 0 <= i < paths@.len()
                    &&& path@ == spec_join(#[trigger] paths@[i]@, cmd@)
                    &&& accepts(is_file, path@)
                    &&& forall|j: int|
                        0 <= j < i ==> rejects(is_file, spec_join(#[trigger] paths@[j]@, cmd@))
                },
            None => forall|j: int|
                0 <= j < paths@.len() ==> rejects(is_file, spec_join(#[trigger] paths@[j]@, cmd@)),
        },
{
    let mut i: usize = 0;
    while i < paths.len()
        invariant
            i <= paths@.len(),
            forall|p: &str| call_requires(is_file, (p,)),
            forall|j: int|
                0 <= j < i ==> rejects(is_file, spec_join(#[trigger] paths@[j]@, cmd@)),
        decreases paths@.len() - i,
    {
        let path: String = join(paths[i], cmd);
        let asked: &str = path.as_str();
        if is_file(asked) {
            assert(call_ensures(is_file, (asked,), true));
            assert(paths@[i as int]@ == paths@[i as int]@);
            return Some(path);
        }
        assert(call_ensures(is_file, (asked,), false));
        i += 1;
    }
    None
}

/// Whether a command's name is a path of its own: one that begins with `/` or `./`.
pub open spec fn spec_is_path(cmd: Seq<char>) -> bool {
    (cmd.len() >= 1 && cmd[0] == '/') || (cmd.len() >= 2 && cmd[0] == '.' && cmd[1] == '/')
}

/// Whether a command's name is a path of its own.
pub fn is_path(cmd: &str) -> (r: bool)
    ensures
        r == spec_is_path(cmd@),
{
    let n: usize = cmd.unicode_len();
    (n >= 1 && cmd.get_char(0) == '/') || (n >= 2 && cmd.get_char(0) == '.' && cmd.get_char(1)
        == '/')
}

/// Finds the executable for the command `cmd`. A name that is a path of its
/// own is that executable if `is_file` says so. Any other name is looked for
/// in the directories that `search_path` lists with `:` between them, the
/// first match winning; without a `search_path` nothing is found.
pub fn resolve_path<F: Fn(&str) -> bool>(cmd: &str, search_path: Option<&str>, is_file: F) -> (r:
    Option<String>)
    requires
        forall|p: &str| call_requires(is_file, (p,)),
    ensures
        spec_is_path(cmd@) ==> match r {
            Some(path) => path@ == cmd@ && accepts(is_file, cmd@),
            None => rejects(is_file, cmd@),
        },
        !spec_is_path(cmd@) && search_path is None ==> r is None,
        !spec_is_path(cmd@) && search_path is Some ==> {
            let dirs = spec_split(search_path->Some_0@, Separator::Colon);
            match r {
                Some(path) => exists|i: int|
                    {
                        &&& 0 <= i < dirs.len()
                        &&& path@ == spec_join(#[trigger] dirs[i], cmd@)
                        &&& accepts(is_file, path@)
                        &&& forall|j: int|
                            0 <= j < i ==> rejects(is_file, spec_join(#[trigger] dirs[j], cmd@))
                    },
                None => forall|j: int|
                    0 <= j < dirs.len() ==> rejects(is_file, spec_join(#[trigger] dirs[j], cmd@)),
            }
        },
{
    if is_path(cmd) {
        return if is_file(cmd) {
            Some(String::from_str(cmd))
        } else {
            None
        };
    }
    match search_path {
        None => None,
        Some(listed) => {
            let dirs: Vec<&str> = split(listed, Separator::Colon);
            let ghost entries = dirs@;
            let found: Option<String> = find_in_paths(cmd, dirs, is_file);
            proof {
                let views = spec_split(listed@, Separator::Colon);
                assert(views.len() == entries.len());
                assert forall|j: int| 0 <= j < entries.len() implies #[trigger] entries[j]@
                    == views[j] by {
                    assert(words_view(entries)[j] == entries[j]@);
                }
                if found is Some {
                    let path = found->Some_0;
                    {
                        let i = choose|i: int|
                            {
                                &&& 0 <= i < entries.len()
                                &&& path@ == spec_join(#[trigger] entries[i]@, cmd@)
                                &&& accepts(is_file, path@)
                                &&& forall|j: int|
                                    0 <= j < i ==> rejects(
                                        is_file,
                                        spec_join(#[trigger] entries[j]@, cmd@),
                                    )
                            };
                        assert(path@ == spec_join(views[i], cmd@));
                        assert forall|j: int| 0 <= j < i implies rejects(
                            is_file,
                            spec_join(#[trigger] views[j], cmd@),
                        ) by {
                            assert(entries[j]@ == views[j]);
                        }
                    }
                } else {
                    {
                        assert forall|j: int| 0 <= j < views.len() implies rejects(
                            is_file,
                            spec_join(#[trigger] views[j], cmd@),
                        ) by {
                            assert(entries[j]@ == views[j]);
                        }
                    }
                }
            }
            found
        },
    }
}

} // verus!
