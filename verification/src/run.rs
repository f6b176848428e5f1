//! Running Lua against a tree: which search paths the process is given,
//! and what the end of the process means. The process itself is run by
//! the caller.

use crate::path::{any_has_colon, unique, Paths, PathsView};
use crate::text::{chars_of, join_seq, split_seq, string_of};
use crate::variables::{variables_view, Variable};
use vstd::prelude::*;

verus! {

/// Why Lua could not be run to a good end.
#[derive(Debug, PartialEq, Eq)]
pub enum RunLuaError {
    /// The command could not be started; given are the command and the
    /// reason.
    LuaCommandFailed { lua_cmd: String, source: String },
    /// The command ended with a status other than zero.
    LuaCommandNonZeroExitCode { lua_cmd: String, exit_code: Option<i32> },
    /// A directory of executables holds a `:`, so that no `PATH` can name
    /// it.
    Paths(String),
}

/// The search paths for a run: those of the tree, with those of the test
/// tree before them where they are wanted, and those of the build tree
/// before both where they are wanted.
pub open spec fn run_paths_of(tree: PathsView, test: Option<PathsView>, build: Option<PathsView>)
    -> PathsView {
    let with_test = match test {
        Some(t) => PathsView {
            src: t.src + tree.src,
            lib: t.lib + tree.lib,
            bin: t.bin + tree.bin,
            version: tree.version,
        },
        None => tree,
    };
    match build {
        Some(b) => PathsView {
            src: b.src + with_test.src,
            lib: b.lib + with_test.lib,
            bin: b.bin + with_test.bin,
            version: tree.version,
        },
        None => with_test,
    }
}

/// The view of search paths that may be absent.
pub open spec fn paths_view(paths: Option<&Paths>) -> Option<PathsView> {
    match paths {
        Some(p) => Some(p@),
        None => None,
    }
}

/// The search paths for a run of Lua against a tree.
pub fn run_paths(tree: Paths, test: Option<&Paths>, build: Option<&Paths>) -> (r: Paths)
    ensures
        r@ == run_paths_of(tree@, paths_view(test), paths_view(build)),
{
    let mut paths = tree;
    match test {
        Some(t) => {
            paths.prepend(t);
        },
        None => {},
    }
    match build {
        Some(b) => {
            paths.prepend(b);
        },
        None => {},
    }
    paths
}

/// The directories of executables for a run: those of `paths`, then those
/// that `env_path`, the value of `PATH`, names, each once.
pub open spec fn run_bin_dirs(paths: PathsView, env_path: Seq<char>) -> Seq<Seq<char>> {
    unique(paths.bin + split_seq(env_path, ':'))
}

/// The environment of a run: `PATH` with the directories of executables
/// before what it held, and `LUA_PATH` and `LUA_CPATH` with the search
/// paths of the tree alone.
pub open spec fn run_environment(paths: PathsView, env_path: Seq<char>) -> Seq<
    (Seq<char>, Seq<char>),
> {
    seq![
        ("PATH"@, join_seq(run_bin_dirs(paths, env_path), ":"@)),
        ("LUA_PATH"@, join_seq(unique(paths.src), ";"@)),
        ("LUA_CPATH"@, join_seq(unique(paths.lib), ";"@)),
    ]
}

/// The variables that the process is given. There are none where a
/// directory of executables holds a `:`.
pub fn lua_environment(paths: &Paths, env_path: &str) -> (r: Result<Vec<Variable>, RunLuaError>)
    ensures
        match r {
            Ok(env) => !any_has_colon(run_bin_dirs(paths@, env_path@)) && variables_view(env@)
                == run_environment(paths@, env_path@),
            Err(RunLuaError::Paths(_)) => any_has_colon(run_bin_dirs(paths@, env_path@)),
            Err(_) => false,
        },
{
    match paths.path_prepended(env_path).joined() {
        Some(path) => {
            let mut env: Vec<Variable> = Vec::new();
            env.push(Variable::new("PATH", path.as_str()));
            env.push(Variable::new("LUA_PATH", paths.package_path().joined().as_str()));
            env.push(Variable::new("LUA_CPATH", paths.package_cpath().joined().as_str()));
            proof {
                assert(variables_view(env@) =~= run_environment(paths@, env_path@));
            }
            Ok(env)
        },
        None => Err(RunLuaError::Paths(string_of(&chars_of(env_path)))),
    }
}

/// What the end of the process means: a status other than zero is an
/// error that names the command and the status.
pub fn check_lua_exit(lua_cmd: &str, success: bool, exit_code: Option<i32>) -> (r: Result<
    (),
    RunLuaError,
>)
    ensures
        match r {
            Ok(()) => success,
            Err(RunLuaError::LuaCommandNonZeroExitCode { lua_cmd: cmd, exit_code: code }) => !success
                && cmd@ == lua_cmd@ && code == exit_code,
            Err(_) => false,
        },
{
    if success {
        Ok(())
    } else {
        Err(
            RunLuaError::LuaCommandNonZeroExitCode {
                lua_cmd: string_of(&chars_of(lua_cmd)),
                exit_code,
            },
        )
    }
}

} // verus!
