//! The search paths that make the packages of a tree visible to Lua and to
//! the shell: `package.path`, `package.cpath` and `PATH`.

use crate::config::{join_path, join_path_spec, LuaVersion};
use crate::lock::entries_view;
use crate::lockfile::{clone_strings, strings_view};
use crate::lux_lock::{Lockfile, LockfilePermissions, LockfileView};
use crate::text::{
    append_str, chars_of, concat, count_char, count_of, join_chars, join_seq, split_chars,
    split_seq, string_of, trim_end_char, trim_end_matches, trim_start_char, trim_start_matches,
    views,
};
use crate::tree::{RockLayoutView, Tree, TreeView};
use vstd::prelude::*;

verus! {

/// `s` without the repetitions of its elements: of equal elements the first
/// stays.
pub open spec fn unique(s: Seq<Seq<char>>) -> Seq<Seq<char>>
    decreases s.len(),
{
    if s.len() == 0 {
        s
    } else if unique(s.drop_last()).contains(s.last()) {
        unique(s.drop_last())
    } else {
        unique(s.drop_last()).push(s.last())
    }
}

/// No element occurs twice in `unique(s)`, and its elements are those of `s`.
pub proof fn lemma_unique(s: Seq<Seq<char>>)
    ensures
        unique(s).no_duplicates(),
        forall|x: Seq<char>| #[trigger] unique(s).contains(x) <==> s.contains(x),
    decreases s.len(),
{
    if s.len() > 0 {
        let rest = s.drop_last();
        let u = unique(rest);
        let last = s.last();
        lemma_unique(rest);
        assert forall|x: Seq<char>| #[trigger] unique(s).contains(x) <==> s.contains(x) by {
            if s.contains(x) {
                let i = choose|i: int| 0 <= i < s.len() && s[i] == x;
                if i < rest.len() {
                    assert(rest[i] == x);
                    assert(rest.contains(x));
                    assert(u.contains(x));
                }
                if u.contains(x) {
                    let j = choose|j: int| 0 <= j < u.len() && u[j] == x;
                    assert(unique(s)[j] == x);
                } else {
                    assert(x == last);
                    assert(unique(s)[u.len() as int] == x);
                }
            }
            if unique(s).contains(x) {
                let j = choose|j: int| 0 <= j < unique(s).len() && unique(s)[j] == x;
                if j < u.len() {
                    assert(u[j] == x);
                    assert(u.contains(x));
                    assert(rest.contains(x));
                    let i = choose|i: int| 0 <= i < rest.len() && rest[i] == x;
                    assert(s[i] == x);
                } else {
                    assert(s[s.len() - 1] == x);
                }
            }
        }
        assert forall|i: int, j: int|
            0 <= i < unique(s).len() && 0 <= j < unique(s).len() && i != j implies unique(s)[i]
            != unique(s)[j] by {
            if i < u.len() && j < u.len() {
                assert(u[i] != u[j]);
            } else if i < u.len() {
                assert(u[i] == unique(s)[i]);
                assert(u.contains(u[i]));
            } else {
                assert(u[j] == unique(s)[j]);
                assert(u.contains(u[j]));
            }
        }
    }
}

/// The paths of `paths` without repetitions, as characters.
fn unique_paths(paths: &Vec<String>) -> (r: Vec<Vec<char>>)
    ensures
        views(r@) == unique(strings_view(paths@)),
{
    let ghost all = strings_view(paths@);
    let mut out: Vec<Vec<char>> = Vec::new();
    let mut i: usize = 0;
    while i < paths.len()
        invariant
            i <= paths.len(),
            all == strings_view(paths@),
            views(out@) == unique(all.take(i as int)),
        decreases paths.len() - i,
    {
        let candidate = chars_of(paths[i].as_str());
        proof {
            assert(all.take(i as int + 1).drop_last() =~= all.take(i as int));
            assert(all.take(i as int + 1).last() == paths@[i as int]@);
        }
        let mut seen = false;
        let mut k: usize = 0;
        while k < out.len() && !seen
            invariant
                k <= out.len(),
                seen ==> views(out@).contains(candidate@),
                !seen ==> forall|j: int| 0 <= j < k ==> views(out@)[j] != candidate@,
            decreases out.len() - k + if seen {
                0int
            } else {
                1int
            },
        {
            proof {
                assert(views(out@)[k as int] == out@[k as int]@);
            }
            if crate::text::chars_eq(&out[k], &candidate) {
                seen = true;
            } else {
                k = k + 1;
            }
        }
        if !seen {
            let ghost before = out@;
            out.push(candidate);
            proof {
                assert(views(before.push(candidate)) =~= views(before).push(candidate@));
            }
        }
        i = i + 1;
    }
    proof {
        assert(all.take(paths.len() as int) =~= all);
    }
    out
}

/// The strings that the character vectors of `parts` write.
fn strings_of(parts: &Vec<Vec<char>>) -> (r: Vec<String>)
    ensures
        strings_view(r@) == views(parts@),
{
    let mut out: Vec<String> = Vec::new();
    let mut i: usize = 0;
    while i < parts.len()
        invariant
            i <= parts.len(),
            strings_view(out@) == views(parts@).take(i as int),
        decreases parts.len() - i,
    {
        let ghost before = out@;
        let s = string_of(&parts[i]);
        out.push(s);
        proof {
            assert(strings_view(before.push(s)) =~= strings_view(before).push(s@));
            assert(views(parts@).take(i as int).push(parts@[i as int]@) =~= views(parts@).take(
                i as int + 1,
            ));
        }
        i = i + 1;
    }
    proof {
        assert(views(parts@).take(parts.len() as int) =~= views(parts@));
    }
    out
}

/// `other` followed by `own`.
fn prepended(own: &Vec<String>, other: &Vec<String>) -> (r: Vec<String>)
    ensures
        strings_view(r@) == strings_view(other@) + strings_view(own@),
{
    let mut out = clone_strings(other);
    let ghost head = strings_view(other@);
    let mut i: usize = 0;
    proof {
        assert(head + strings_view(own@).take(0) =~= head);
    }
    while i < own.len()
        invariant
            i <= own.len(),
            head == strings_view(other@),
            strings_view(out@) == head + strings_view(own@).take(i as int),
        decreases own.len() - i,
    {
        let ghost before = out@;
        let s = own[i].clone();
        out.push(s);
        proof {
            assert(strings_view(before.push(s)) =~= strings_view(before).push(s@));
            assert((head + strings_view(own@).take(i as int)).push(own@[i as int]@) =~= head
                + strings_view(own@).take(i as int + 1));
        }
        i = i + 1;
    }
    proof {
        assert(strings_view(own@).take(own.len() as int) =~= strings_view(own@));
    }
    out
}

/// A search path of Lua: a list of path templates, separated by `;` where
/// they are written in one text.
#[derive(Debug, PartialEq, Eq)]
pub struct PackagePath(Vec<String>);

impl View for PackagePath {
    type V = Seq<Seq<char>>;

    closed spec fn view(&self) -> Seq<Seq<char>> {
        strings_view(self.0@)
    }
}

/// The templates that a text of a search path of Lua holds: the text without
/// the `;` at its start and at its end, cut at each `;`.
pub open spec fn package_path_of(text: Seq<char>) -> Seq<Seq<char>> {
    split_seq(trim_end_char(trim_start_char(text, ';'), ';'), ';')
}

impl Default for PackagePath {
    fn default() -> (r: Self)
        ensures
            r@.len() == 0,
    {
        PackagePath(Vec::new())
    }
}

impl Clone for PackagePath {
    fn clone(&self) -> (r: Self)
        ensures
            r@ == self@,
    {
        PackagePath(clone_strings(&self.0))
    }
}

impl PackagePath {
    /// The search path with the given templates.
    pub fn new(paths: Vec<String>) -> (r: Self)
        ensures
            r@ == strings_view(paths@),
    {
        PackagePath(paths)
    }

    /// The search path that `text` writes.
    pub fn from_str(text: &str) -> (r: Self)
        ensures
            r@ == package_path_of(text@),
    {
        let chars = chars_of(text);
        let a = trim_start_matches(&chars, ';');
        let b = trim_end_matches(&a, ';');
        let parts = split_chars(&b, ';');
        PackagePath(strings_of(&parts))
    }

    /// Puts the templates of `other` before the own ones.
    pub fn prepend(&mut self, other: &Self)
        ensures
            final(self)@ == other@ + old(self)@,
    {
        let joined = prepended(&self.0, &other.0);
        self.0 = joined;
    }

    /// Whether the search path holds no template.
    pub fn is_empty(&self) -> (r: bool)
        ensures
            r == (self@.len() == 0),
    {
        self.0.len() == 0
    }

    /// The templates.
    pub fn paths(&self) -> (r: &Vec<String>)
        ensures
            strings_view(r@) == self@,
    {
        &self.0
    }

    /// The search path in one text: its templates, without repetitions,
    /// separated by `;`.
    pub fn joined(&self) -> (r: String)
        ensures
            r@ == join_seq(unique(self@), ";"@),
    {
        let parts = unique_paths(&self.0);
        let sep = chars_of(";");
        string_of(&join_chars(&parts, &sep))
    }

    /// The search path in one text.
    pub fn to_string(&self) -> (r: String)
        ensures
            r@ == join_seq(unique(self@), ";"@),
    {
        self.joined()
    }
}

/// The search path of the shell: a list of directories, separated by `:`
/// where they are written in one text.
#[derive(Debug, PartialEq, Eq)]
pub struct BinPath(Vec<String>);

impl View for BinPath {
    type V = Seq<Seq<char>>;

    closed spec fn view(&self) -> Seq<Seq<char>> {
        strings_view(self.0@)
    }
}

impl Default for BinPath {
    fn default() -> (r: Self)
        ensures
            r@.len() == 0,
    {
        BinPath(Vec::new())
    }
}

/// Whether one of `paths` holds a `:`.
pub open spec fn any_has_colon(paths: Seq<Seq<char>>) -> bool {
    exists|i: int| 0 <= i < paths.len() && count_of(#[trigger] paths[i], ':') > 0
}

impl BinPath {
    /// The search path with the given directories.
    pub fn new(paths: Vec<String>) -> (r: Self)
        ensures
            r@ == strings_view(paths@),
    {
        BinPath(paths)
    }

    /// The search path that `text`, the value of `PATH`, writes.
    pub fn from_str(text: &str) -> (r: Self)
        ensures
            r@ == split_seq(text@, ':'),
    {
        let parts = split_chars(&chars_of(text), ':');
        BinPath(strings_of(&parts))
    }

    /// Puts the directories of `other` before the own ones.
    pub fn prepend(&mut self, other: &Self)
        ensures
            final(self)@ == other@ + old(self)@,
    {
        let joined = prepended(&self.0, &other.0);
        self.0 = joined;
    }

    /// Whether the search path holds no directory.
    pub fn is_empty(&self) -> (r: bool)
        ensures
            r == (self@.len() == 0),
    {
        self.0.len() == 0
    }

    /// The directories.
    pub fn paths(&self) -> (r: &Vec<String>)
        ensures
            strings_view(r@) == self@,
    {
        &self.0
    }

    /// The search path in one text: its directories, without repetitions,
    /// separated by `:`. There is no such text where a directory holds a
    /// `:`.
    pub fn joined(&self) -> (r: Option<String>)
        ensures
            match r {
                Some(t) => !any_has_colon(unique(self@)) && t@ == join_seq(unique(self@), ":"@),
                None => any_has_colon(unique(self@)),
            },
    {
        let parts = unique_paths(&self.0);
        let mut i: usize = 0;
        while i < parts.len()
            invariant
                i <= parts.len(),
                views(parts@) == unique(self@),
                forall|j: int| 0 <= j < i ==> count_of(#[trigger] views(parts@)[j], ':') == 0,
            decreases parts.len() - i,
        {
            proof {
                assert(views(parts@)[i as int] == parts@[i as int]@);
            }
            if count_char(&parts[i], ':') > 0 {
                proof {
                    assert(count_of(unique(self@)[i as int], ':') > 0);
                }
                return None;
            }
            i = i + 1;
        }
        let sep = chars_of(":");
        Some(string_of(&join_chars(&parts, &sep)))
    }
}

/// The search paths of a tree.
#[derive(Debug, PartialEq, Eq)]
pub struct Paths {
    /// Where Lua finds the Lua modules of the tree.
    src: PackagePath,
    /// Where Lua finds the native modules of the tree.
    lib: PackagePath,
    /// Where the shell finds the executables of the tree.
    bin: BinPath,
    version: LuaVersion,
}

/// The search paths of a tree as plain values.
pub struct PathsView {
    pub src: Seq<Seq<char>>,
    pub lib: Seq<Seq<char>>,
    pub bin: Seq<Seq<char>>,
    pub version: LuaVersion,
}

impl View for Paths {
    type V = PathsView;

    closed spec fn view(&self) -> PathsView {
        PathsView { src: self.src@, lib: self.lib@, bin: self.bin@, version: self.version }
    }
}

/// The paths of the `n`-th package of the lockfile of a tree.
pub open spec fn layout_at(tree: TreeView, lockfile: LockfileView, n: int) -> RockLayoutView {
    let package = lockfile.lock.rocks[n].1;
    tree.layout(
        package,
        if lockfile.lock.is_entrypoint(package.spec.id()) {
            tree.entrypoint_layout
        } else {
            crate::config::default_layout()
        },
    )
}

/// The templates for the Lua modules of the first `n` packages: for each
/// package `src/?.lua` and `src/?/init.lua`.
pub open spec fn src_templates(tree: TreeView, lockfile: LockfileView, n: nat) -> Seq<Seq<char>>
    decreases n,
{
    if n == 0 {
        Seq::<Seq<char>>::empty()
    } else {
        let src = layout_at(tree, lockfile, n - 1).src;
        src_templates(tree, lockfile, (n - 1) as nat).push(join_path_spec(src, "?.lua"@)).push(
            join_path_spec(join_path_spec(src, "?"@), "init.lua"@),
        )
    }
}

/// The templates for the native modules of the first `n` packages: for each
/// package `lib/?.<ext>`, `ext` being the ending of shared libraries.
pub open spec fn lib_templates(tree: TreeView, lockfile: LockfileView, ext: Seq<char>, n: nat)
    -> Seq<Seq<char>>
    decreases n,
{
    if n == 0 {
        Seq::<Seq<char>>::empty()
    } else {
        lib_templates(tree, lockfile, ext, (n - 1) as nat).push(
            join_path_spec(layout_at(tree, lockfile, n - 1).lib, "?."@ + ext),
        )
    }
}

/// The directories of executables of the first `n` packages.
pub open spec fn bin_dirs(tree: TreeView, lockfile: LockfileView, n: nat) -> Seq<Seq<char>>
    decreases n,
{
    if n == 0 {
        Seq::<Seq<char>>::empty()
    } else {
        bin_dirs(tree, lockfile, (n - 1) as nat).push(layout_at(tree, lockfile, n - 1).bin)
    }
}

/// The text that Lua runs at its start to load the loader, if it is the Lua
/// of the given version.
pub open spec fn init_text(version: LuaVersion) -> Seq<char> {
    "if _VERSION:find('"@ + version.text() + "') then require('lux').loader() end"@
}

impl Paths {
    /// No search path yet, for the Lua version of `tree`.
    fn default(tree: &Tree) -> (r: Self)
        ensures
            r@ == (PathsView {
                src: Seq::<Seq<char>>::empty(),
                lib: Seq::<Seq<char>>::empty(),
                bin: Seq::<Seq<char>>::empty(),
                version: tree@.version,
            }),
    {
        let r = Paths {
            src: PackagePath::default(),
            lib: PackagePath::default(),
            bin: BinPath::default(),
            version: *tree.version(),
        };
        proof {
            assert(r@.src =~= Seq::<Seq<char>>::empty());
            assert(r@.lib =~= Seq::<Seq<char>>::empty());
            assert(r@.bin =~= Seq::<Seq<char>>::empty());
        }
        r
    }

    /// The search paths of `tree`, whose lockfile is `lockfile`: the paths
    /// of the installed packages in the order of the lockfile. `dylib_ext`
    /// is the ending of shared libraries on this platform. Where the
    /// loader's library lies in `lux_lib_dir`, that directory comes first
    /// among the places of native modules.
    pub fn new<P: LockfilePermissions>(
        tree: &Tree,
        lockfile: &Lockfile<P>,
        dylib_ext: &str,
        lux_lib_dir: Option<&str>,
    ) -> (r: Self)
        ensures
            r@.version == tree@.version,
            r@.src == src_templates(tree@, lockfile@, lockfile@.lock.rocks.len()),
            r@.bin == bin_dirs(tree@, lockfile@, lockfile@.lock.rocks.len()),
            r@.lib == match lux_lib_dir {
                Some(dir) => seq![join_path_spec(dir@, ".so"@)] + lib_templates(
                    tree@,
                    lockfile@,
                    dylib_ext@,
                    lockfile@.lock.rocks.len(),
                ),
                None => lib_templates(tree@, lockfile@, dylib_ext@, lockfile@.lock.rocks.len()),
            },
    {
        let mut paths = Paths::default(tree);
        let rocks = lockfile.rocks();
        let template = concat("?.", dylib_ext);
        let mut i: usize = 0;
        while i < rocks.len()
            invariant
                i <= rocks.len(),
                entries_view(rocks@) == lockfile@.lock.rocks,
                template@ == "?."@ + dylib_ext@,
                paths@.version == tree@.version,
                paths@.src == src_templates(tree@, lockfile@, i as nat),
                paths@.lib == lib_templates(tree@, lockfile@, dylib_ext@, i as nat),
                paths@.bin == bin_dirs(tree@, lockfile@, i as nat),
            decreases rocks.len() - i,
        {
            proof {
                assert(lockfile@.lock.rocks[i as int].1 == rocks@[i as int].package@);
            }
            let layout = tree.installed_rock_layout(lockfile, &rocks[i].package);
            let ghost src0 = paths.src.0@;
            let ghost lib0 = paths.lib.0@;
            let ghost bin0 = paths.bin.0@;
            let s1 = join_path(layout.src.as_str(), "?.lua");
            let s2 = join_path(join_path(layout.src.as_str(), "?").as_str(), "init.lua");
            let l1 = join_path(layout.lib.as_str(), template.as_str());
            paths.src.0.push(s1);
            paths.src.0.push(s2);
            paths.lib.0.push(l1);
            paths.bin.0.push(layout.bin);
            proof {
                assert(strings_view(src0.push(s1).push(s2)) =~= strings_view(src0).push(s1@).push(
                    s2@,
                ));
                assert(strings_view(lib0.push(l1)) =~= strings_view(lib0).push(l1@));
                assert(strings_view(bin0.push(layout.bin)) =~= strings_view(bin0).push(
                    layout.bin@,
                ));
            }
            i = i + 1;
        }
        match lux_lib_dir {
            Some(dir) => {
                let mut first: Vec<String> = Vec::new();
                first.push(join_path(dir, ".so"));
                proof {
                    assert(strings_view(first@) =~= seq![join_path_spec(dir@, ".so"@)]);
                }
                let other = Paths {
                    version: *tree.version(),
                    src: PackagePath::default(),
                    bin: BinPath::default(),
                    lib: PackagePath(first),
                };
                let ghost before = paths@;
                paths.prepend(&other);
                proof {
                    assert(other@.src + before.src =~= before.src);
                    assert(other@.bin + before.bin =~= before.bin);
                }
            },
            None => {},
        }
        paths
    }

    /// The search path of Lua modules, `package.path`.
    pub fn package_path(&self) -> (r: &PackagePath)
        ensures
            r@ == self@.src,
    {
        &self.src
    }

    /// The search path of native modules, `package.cpath`.
    pub fn package_cpath(&self) -> (r: &PackagePath)
        ensures
            r@ == self@.lib,
    {
        &self.lib
    }

    /// The search path of Lua modules, followed by what `lua_path`, the
    /// value of `LUA_PATH`, holds.
    pub fn package_path_prepended(&self, lua_path: &str) -> (r: PackagePath)
        ensures
            r@ == self@.src + package_path_of(lua_path@),
    {
        let mut path = PackagePath::from_str(lua_path);
        path.prepend(&self.src);
        path
    }

    /// The search path of native modules, followed by what `lua_cpath`,
    /// the value of `LUA_CPATH`, holds.
    pub fn package_cpath_prepended(&self, lua_cpath: &str) -> (r: PackagePath)
        ensures
            r@ == self@.lib + package_path_of(lua_cpath@),
    {
        let mut path = PackagePath::from_str(lua_cpath);
        path.prepend(&self.lib);
        path
    }

    /// The directories of executables.
    pub fn path(&self) -> (r: &BinPath)
        ensures
            r@ == self@.bin,
    {
        &self.bin
    }

    /// The value of `LUA_INIT`: the text that loads the loader where the
    /// running Lua is of the tree's version.
    pub fn init(&self) -> (r: String)
        ensures
            r@ == init_text(self@.version),
    {
        let mut out = chars_of("if _VERSION:find('");
        append_str(&mut out, self.version.to_string().as_str());
        append_str(&mut out, "') then require('lux').loader() end");
        string_of(&out)
    }

    /// The directories of executables, followed by what `env_path`, the
    /// value of `PATH`, holds.
    pub fn path_prepended(&self, env_path: &str) -> (r: BinPath)
        ensures
            r@ == self@.bin + split_seq(env_path@, ':'),
    {
        let mut path = BinPath::from_str(env_path);
        path.prepend(&self.bin);
        path
    }

    /// Puts the paths of `other` before the own ones.
    pub fn prepend(&mut self, other: &Self)
        ensures
            final(self)@ == (PathsView {
                src: other@.src + old(self)@.src,
                lib: other@.lib + old(self)@.lib,
                bin: other@.bin + old(self)@.bin,
                version: old(self)@.version,
            }),
    {
        self.src.prepend(&other.src);
        self.lib.prepend(&other.lib);
        self.bin.prepend(&other.bin);
    }
}

} // verus!
