//! What is known of a Lua installation without running anything: how the
//! version is read off what `lua -v` prints, and how the compiler and the
//! linker are told where Lua lies.

use crate::config::{join_path, join_path_spec, LuaVersion};
use crate::text::{
    chars_of, concat, has_prefix, is_space, is_space_char, slice_of, starts_with, string_of,
};
use crate::version::{
    parse_version_spec, PackageVersion, PackageVersionParseError, PackageVersionView,
};
use vstd::prelude::*;

verus! {

/// Why the version of a Lua installation is not known.
#[derive(Debug, PartialEq, Eq)]
pub enum GetLuaVersionError {
    /// The command could not be run; given are the command and the reason.
    RunLuaCommandError(String, String),
    /// The output of the command names no version; given is the output.
    ParseLuaVersionError(String),
    /// The output names something that is no version.
    PackageVersionParseError(PackageVersionParseError),
    /// The version is none that is supported.
    LuaVersionError(String),
}

/// `s` without the copies of `prefix` at its start.
pub open spec fn strip_all(s: Seq<char>, prefix: Seq<char>) -> Seq<char>
    decreases s.len(),
{
    if prefix.len() > 0 && has_prefix(s, prefix) {
        strip_all(s.skip(prefix.len() as int), prefix)
    } else {
        s
    }
}

/// How many characters at the start of `s` are no white space.
pub open spec fn word_length(s: Seq<char>) -> nat
    decreases s.len(),
{
    if s.len() == 0 || is_space(s.first()) {
        0
    } else {
        1 + word_length(s.drop_first())
    }
}

/// The first word of `s`: what stands between the white space at its start
/// and the next white space. There is none where `s` is white space only.
pub open spec fn first_word(s: Seq<char>) -> Option<Seq<char>> {
    let rest = s.skip(crate::text::leading_space(s) as int);
    if rest.len() == 0 {
        None
    } else {
        Some(rest.take(word_length(rest) as int))
    }
}

/// The word that names the version in what `lua -v` prints: the first word
/// behind the `Lua` and the `JIT` at the start.
pub open spec fn version_word(output: Seq<char>) -> Option<Seq<char>> {
    first_word(strip_all(strip_all(output, "Lua"@), "JIT"@))
}

/// Takes the copies of `prefix` off the start of `v`.
fn strip_prefix_all(v: &Vec<char>, prefix: &Vec<char>) -> (r: Vec<char>)
    ensures
        r@ == strip_all(v@, prefix@),
{
    let mut i: usize = 0;
    proof {
        assert(v@.skip(0) =~= v@);
    }
    if prefix.len() == 0 {
        return crate::text::copy_chars(v);
    }
    loop
        invariant
            i <= v.len(),
            prefix.len() > 0,
            strip_all(v@, prefix@) == strip_all(v@.skip(i as int), prefix@),
        decreases v.len() - i,
    {
        let rest = slice_of(v, i, v.len());
        proof {
            assert(v@.subrange(i as int, v.len() as int) =~= v@.skip(i as int));
        }
        if starts_with(&rest, prefix) {
            proof {
                assert(v@.skip(i as int).skip(prefix.len() as int) =~= v@.skip(
                    i as int + prefix.len() as int,
                ));
            }
            i = i + prefix.len();
        } else {
            return rest;
        }
    }
}

/// The first word of `v`.
fn take_first_word(v: &Vec<char>) -> (r: Option<Vec<char>>)
    ensures
        match r {
            Some(w) => first_word(v@) == Some(w@),
            None => first_word(v@) is None,
        },
{
    let mut a: usize = 0;
    proof {
        assert(v@.skip(0) =~= v@);
    }
    while a < v.len() && is_space_char(v[a])
        invariant
            a <= v.len(),
            crate::text::leading_space(v@) == a + crate::text::leading_space(v@.skip(a as int)),
        decreases v.len() - a,
    {
        proof {
            assert(v@.skip(a as int).first() == v@[a as int]);
            assert(v@.skip(a as int).drop_first() =~= v@.skip(a as int + 1));
        }
        a = a + 1;
    }
    proof {
        if a < v.len() {
            assert(v@.skip(a as int).first() == v@[a as int]);
        }
    }
    if a == v.len() {
        return None;
    }
    let ghost rest = v@.skip(a as int);
    let mut b: usize = a;
    proof {
        assert(rest.skip(0) =~= rest);
    }
    while b < v.len() && !is_space_char(v[b])
        invariant
            a <= b <= v.len(),
            rest == v@.skip(a as int),
            word_length(rest) == (b - a) + word_length(rest.skip(b - a)),
        decreases v.len() - b,
    {
        proof {
            assert(rest.skip(b - a).first() == v@[b as int]);
            assert(rest.skip(b - a).drop_first() =~= rest.skip(b - a + 1));
        }
        b = b + 1;
    }
    proof {
        if b < v.len() {
            assert(rest.skip(b - a).first() == v@[b as int]);
        }
        assert(rest.take(b - a) =~= v@.subrange(a as int, b as int));
    }
    Some(slice_of(v, a, b))
}

/// Reads the version of Lua off what `lua -v` prints, such as
/// `Lua 5.1.5  Copyright (C) 1994-2012 Lua.org, PUC-Rio` or
/// `LuaJIT 2.1.1713773202 -- Copyright (C) 2005-2023 Mike Pall.`
pub fn parse_lua_version_from_output(lua_output: &str) -> (r: Result<
    PackageVersion,
    GetLuaVersionError,
>)
    ensures
        match r {
            Ok(v) => version_word(lua_output@) matches Some(w) && parse_version_spec(w) == Ok::<
                PackageVersionView,
                Seq<char>,
            >(v@),
            Err(GetLuaVersionError::ParseLuaVersionError(t)) => version_word(lua_output@) is None
                && t@ == lua_output@,
            Err(GetLuaVersionError::PackageVersionParseError(_)) => version_word(
                lua_output@,
            ) matches Some(w) && parse_version_spec(w) is Err,
            Err(_) => false,
        },
{
    let chars = chars_of(lua_output);
    let a = strip_prefix_all(&chars, &chars_of("Lua"));
    let b = strip_prefix_all(&a, &chars_of("JIT"));
    match take_first_word(&b) {
        None => Err(GetLuaVersionError::ParseLuaVersionError(string_of(&chars))),
        Some(word) => match PackageVersion::parse(string_of(&word).as_str()) {
            Ok(v) => Ok(v),
            Err(e) => Err(GetLuaVersionError::PackageVersionParseError(e)),
        },
    }
}

/// The name of the pkg-config package of a Lua version.
pub open spec fn pkg_config_name(version: LuaVersion) -> Seq<char> {
    match version {
        LuaVersion::Lua51 => "lua5.1"@,
        LuaVersion::Lua52 => "lua5.2"@,
        LuaVersion::Lua53 => "lua5.3"@,
        LuaVersion::Lua54 => "lua5.4"@,
        LuaVersion::LuaJIT => "luajit"@,
        LuaVersion::LuaJIT52 => "luajit"@,
    }
}

/// The Lua that has the version `version`: the releases 5.1 to 5.4 of Lua,
/// and LuaJIT, whose releases are numbered 2. A pre-release is none of
/// them, nor is a version that is no semantic version.
pub open spec fn lua_of_version(version: PackageVersionView) -> Option<LuaVersion> {
    match version {
        PackageVersionView::SemVer(v) => if v.parts.pre.len() > 0 {
            None
        } else if v.parts.major == 2 {
            Some(LuaVersion::LuaJIT)
        } else if v.parts.major == 5 && v.parts.minor == 1 {
            Some(LuaVersion::Lua51)
        } else if v.parts.major == 5 && v.parts.minor == 2 {
            Some(LuaVersion::Lua52)
        } else if v.parts.major == 5 && v.parts.minor == 3 {
            Some(LuaVersion::Lua53)
        } else if v.parts.major == 5 && v.parts.minor == 4 {
            Some(LuaVersion::Lua54)
        } else {
            None
        },
        _ => None,
    }
}

/// The Lua that has the version `version`, if a tree can serve it.
pub fn lua_version_of(version: &PackageVersion) -> (r: Option<LuaVersion>)
    ensures
        r == lua_of_version(version@),
{
    match version {
        PackageVersion::SemVer(v) => {
            let parts = v.parts();
            if parts.pre.as_str().unicode_len() > 0 {
                None
            } else if parts.major == 2 {
                Some(LuaVersion::LuaJIT)
            } else if parts.major == 5 && parts.minor == 1 {
                Some(LuaVersion::Lua51)
            } else if parts.major == 5 && parts.minor == 2 {
                Some(LuaVersion::Lua52)
            } else if parts.major == 5 && parts.minor == 3 {
                Some(LuaVersion::Lua53)
            } else if parts.major == 5 && parts.minor == 4 {
                Some(LuaVersion::Lua54)
            } else {
                None
            }
        },
        _ => None,
    }
}

/// The name under which pkg-config knows the Lua of `version`.
pub fn pkg_name(version: LuaVersion) -> (r: String)
    ensures
        r@ == pkg_config_name(version),
{
    match version {
        LuaVersion::Lua51 => string_of(&chars_of("lua5.1")),
        LuaVersion::Lua52 => string_of(&chars_of("lua5.2")),
        LuaVersion::Lua53 => string_of(&chars_of("lua5.3")),
        LuaVersion::Lua54 => string_of(&chars_of("lua5.4")),
        LuaVersion::LuaJIT => string_of(&chars_of("luajit")),
        LuaVersion::LuaJIT52 => string_of(&chars_of("luajit")),
    }
}

/// The argument that tells the linker which Lua library to link, where
/// pkg-config knows nothing of the installation.
pub open spec fn link_lua_arg(version: LuaVersion) -> Seq<char> {
    match version {
        LuaVersion::LuaJIT => "-lluajit-5.1"@,
        LuaVersion::LuaJIT52 => "-lluajit-5.2"@,
        _ => "-llua"@,
    }
}

/// The name of the Lua library of `version`, without its ending.
pub open spec fn lua_lib_stem(version: LuaVersion) -> Seq<char> {
    match version {
        LuaVersion::LuaJIT => "luajit-5.1."@,
        LuaVersion::LuaJIT52 => "luajit-5.2."@,
        _ => "lua."@,
    }
}

/// The file name of the Lua library of `version`, `dll_extension` being the
/// ending of shared libraries on this platform.
pub fn lua_lib_name(version: LuaVersion, dll_extension: &str) -> (r: String)
    ensures
        r@ == lua_lib_stem(version) + dll_extension@,
{
    match version {
        LuaVersion::LuaJIT => concat("luajit-5.1.", dll_extension),
        LuaVersion::LuaJIT52 => concat("luajit-5.2.", dll_extension),
        _ => concat("lua.", dll_extension),
    }
}

/// The arguments for the compiler where pkg-config knows nothing of the
/// installation: the directory of the headers.
pub fn default_compile_args(include_dir: &str) -> (r: Vec<String>)
    ensures
        r@.len() == 1,
        r@[0]@ == "-I"@ + include_dir@,
{
    let mut r: Vec<String> = Vec::new();
    r.push(concat("-I", include_dir));
    r
}

/// The arguments for the linker where pkg-config knows nothing of the
/// installation: the directory of the library, and the library.
pub fn default_link_args(version: LuaVersion, lib_dir: &str) -> (r: Vec<String>)
    ensures
        r@.len() == 2,
        r@[0]@ == "-L"@ + lib_dir@,
        r@[1]@ == link_lua_arg(version),
{
    let mut r: Vec<String> = Vec::new();
    r.push(concat("-L", lib_dir));
    let arg = match version {
        LuaVersion::LuaJIT => string_of(&chars_of("-lluajit-5.1")),
        LuaVersion::LuaJIT52 => string_of(&chars_of("-lluajit-5.2")),
        _ => string_of(&chars_of("-llua")),
    };
    r.push(arg);
    r
}

/// A C define that pkg-config names, with its value where it has one.
#[derive(Debug, PartialEq, Eq)]
pub struct Define {
    pub name: String,
    pub value: Option<String>,
}

/// What pkg-config tells of a library.
#[derive(Debug, PartialEq, Eq)]
pub struct LibInfo {
    pub include_paths: Vec<String>,
    pub link_paths: Vec<String>,
    pub defines: Vec<Define>,
    pub libs: Vec<String>,
    /// The arguments for the linker, in groups that belong together.
    pub ld_args: Vec<Vec<String>>,
}

/// A Lua installation: where its headers and its library lie.
#[derive(Debug, PartialEq, Eq)]
pub struct LuaInstallation {
    pub include_dir: String,
    pub lib_dir: String,
    pub version: LuaVersion,
    /// The Lua executable, if there is one.
    pub bin: Option<String>,
    /// What pkg-config tells of the installation, where it knows it.
    pub lib_info: Option<LibInfo>,
}

/// Whether what pkg-config tells is enough to use the installation that
/// it knows: a directory of headers and a directory of libraries.
pub open spec fn is_usable(info: Option<LibInfo>) -> bool {
    info matches Some(i) && i.include_paths@.len() > 0 && i.link_paths@.len() > 0
}

/// Each of `items` with `prefix` before it.
pub open spec fn prefixed(prefix: Seq<char>, items: Seq<Seq<char>>) -> Seq<Seq<char>> {
    Seq::new(items.len(), |i: int| prefix + items[i])
}

/// The argument that hands a define to the compiler: `-DNAME=value`, or
/// `-DNAME` where it has no value.
pub open spec fn define_arg(define: Define) -> Seq<char> {
    match define.value {
        Some(v) => "-D"@ + define.name@ + "="@ + v@,
        None => "-D"@ + define.name@,
    }
}

/// The arguments that hand `defines` to the compiler.
pub open spec fn define_args(defines: Seq<Define>) -> Seq<Seq<char>> {
    Seq::new(defines.len(), |i: int| define_arg(defines[i]))
}

/// The argument that hands a group of linker arguments through the
/// compiler: each with `-Wl,` before it, with spaces between them.
pub open spec fn ld_group_arg(group: Seq<Seq<char>>) -> Seq<char> {
    crate::text::join_seq(prefixed("-Wl,"@, group), " "@)
}

/// The arguments that hand the groups `groups` through the compiler.
pub open spec fn ld_group_args(groups: Seq<Vec<String>>) -> Seq<Seq<char>> {
    Seq::new(groups.len(), |i: int| ld_group_arg(crate::lockfile::strings_view(groups[i]@)))
}

/// Each of `items` with `prefix` before it.
fn prefix_all(prefix: &str, items: &Vec<String>) -> (r: Vec<String>)
    ensures
        crate::lockfile::strings_view(r@) == prefixed(
            prefix@,
            crate::lockfile::strings_view(items@),
        ),
{
    let ghost wanted = prefixed(prefix@, crate::lockfile::strings_view(items@));
    let mut out: Vec<String> = Vec::new();
    let mut i: usize = 0;
    while i < items.len()
        invariant
            i <= items.len(),
            wanted == prefixed(prefix@, crate::lockfile::strings_view(items@)),
            crate::lockfile::strings_view(out@) == wanted.take(i as int),
        decreases items.len() - i,
    {
        let ghost before = out@;
        let arg = concat(prefix, items[i].as_str());
        out.push(arg);
        proof {
            assert(crate::lockfile::strings_view(items@)[i as int] == items@[i as int]@);
            assert(crate::lockfile::strings_view(before.push(arg))
                =~= crate::lockfile::strings_view(before).push(arg@));
            assert(wanted.take(i as int).push(arg@) =~= wanted.take(i as int + 1));
        }
        i = i + 1;
    }
    proof {
        assert(wanted.take(items.len() as int) =~= wanted);
    }
    out
}

/// The argument that hands `define` to the compiler.
fn define_argument(define: &Define) -> (r: String)
    ensures
        r@ == define_arg(*define),
{
    let mut out = chars_of("-D");
    crate::text::append_str(&mut out, define.name.as_str());
    match &define.value {
        Some(v) => {
            crate::text::append_str(&mut out, "=");
            crate::text::append_str(&mut out, v.as_str());
        },
        None => {},
    }
    string_of(&out)
}

/// The argument that hands the group `group` through the compiler.
fn ld_group_argument(group: &Vec<String>) -> (r: String)
    ensures
        r@ == ld_group_arg(crate::lockfile::strings_view(group@)),
{
    let args = prefix_all("-Wl,", group);
    let mut parts: Vec<Vec<char>> = Vec::new();
    let mut i: usize = 0;
    while i < args.len()
        invariant
            i <= args.len(),
            crate::text::views(parts@) == crate::lockfile::strings_view(args@).take(i as int),
        decreases args.len() - i,
    {
        let ghost before = parts@;
        let part = chars_of(args[i].as_str());
        parts.push(part);
        proof {
            assert(crate::lockfile::strings_view(args@)[i as int] == args@[i as int]@);
            assert(crate::text::views(before.push(part)) =~= crate::text::views(before).push(
                part@,
            ));
            assert(crate::lockfile::strings_view(args@).take(i as int).push(part@)
                =~= crate::lockfile::strings_view(args@).take(i as int + 1));
        }
        i = i + 1;
    }
    proof {
        assert(crate::lockfile::strings_view(args@).take(args.len() as int)
            =~= crate::lockfile::strings_view(args@));
    }
    string_of(&crate::text::join_chars(&parts, &chars_of(" ")))
}

/// Whether a file of the name `name` is taken for the Lua executable.
pub fn is_lua_executable_name(name: &str) -> (r: bool)
    ensures
        r == (name@ == "lua"@ || name@ == "luajit"@),
{
    crate::text::str_eq(name, "lua") || crate::text::str_eq(name, "luajit")
}

impl LuaInstallation {
    /// The installation of `version`: the one that pkg-config knows, where
    /// what it tells is enough, or else the one under the directory `root`.
    /// Its executable is yet to be found.
    pub fn located(version: LuaVersion, info: Option<LibInfo>, root: &str) -> (r: Self)
        ensures
            r.version == version,
            r.bin is None,
            is_usable(info) ==> r.lib_info == info && r.include_dir@
                == info->0.include_paths@[0]@ && r.lib_dir@ == info->0.link_paths@[0]@,
            !is_usable(info) ==> r.lib_info is None && r.include_dir@ == join_path_spec(
                root@,
                "include"@,
            ) && r.lib_dir@ == join_path_spec(root@, "lib"@),
    {
        match info {
            Some(i) => {
                if i.include_paths.len() > 0 && i.link_paths.len() > 0 {
                    LuaInstallation {
                        include_dir: i.include_paths[0].clone(),
                        lib_dir: i.link_paths[0].clone(),
                        version,
                        bin: None,
                        lib_info: Some(i),
                    }
                } else {
                    LuaInstallation {
                        include_dir: join_path(root, "include"),
                        lib_dir: join_path(root, "lib"),
                        version,
                        bin: None,
                        lib_info: None,
                    }
                }
            },
            None => LuaInstallation {
                include_dir: join_path(root, "include"),
                lib_dir: join_path(root, "lib"),
                version,
                bin: None,
                lib_info: None,
            },
        }
    }

    /// The arguments for the compiler: the directories of headers and the
    /// defines that pkg-config names, or else the directory of the headers.
    pub fn compile_args(&self) -> (r: Vec<String>)
        ensures
            crate::lockfile::strings_view(r@) == match self.lib_info {
                Some(info) => prefixed("-I"@, crate::lockfile::strings_view(info.include_paths@))
                    + define_args(info.defines@),
                None => seq!["-I"@ + self.include_dir@],
            },
    {
        match &self.lib_info {
            Some(info) => {
                let mut out = prefix_all("-I", &info.include_paths);
                let ghost head = crate::lockfile::strings_view(out@);
                let ghost wanted = define_args(info.defines@);
                let mut i: usize = 0;
                while i < info.defines.len()
                    invariant
                        i <= info.defines.len(),
                        wanted == define_args(info.defines@),
                        crate::lockfile::strings_view(out@) == head + wanted.take(i as int),
                    decreases info.defines.len() - i,
                {
                    let ghost before = out@;
                    let arg = define_argument(&info.defines[i]);
                    out.push(arg);
                    proof {
                        assert(crate::lockfile::strings_view(before.push(arg))
                            =~= crate::lockfile::strings_view(before).push(arg@));
                        assert((head + wanted.take(i as int)).push(arg@) =~= head + wanted.take(
                            i as int + 1,
                        ));
                    }
                    i = i + 1;
                }
                proof {
                    assert(wanted.take(info.defines.len() as int) =~= wanted);
                }
                out
            },
            None => {
                let r = default_compile_args(self.include_dir.as_str());
                proof {
                    assert(crate::lockfile::strings_view(r@) =~= seq!["-I"@ + self.include_dir@]);
                }
                r
            },
        }
    }

    /// The arguments for the linker: the directories of libraries, the
    /// libraries and the linker arguments that pkg-config names, or else
    /// the directory of the library and the library of the version.
    pub fn link_args(&self) -> (r: Vec<String>)
        ensures
            crate::lockfile::strings_view(r@) == match self.lib_info {
                Some(info) => prefixed("-L"@, crate::lockfile::strings_view(info.link_paths@))
                    + prefixed("-l"@, crate::lockfile::strings_view(info.libs@)) + ld_group_args(
                    info.ld_args@,
                ),
                None => seq!["-L"@ + self.lib_dir@, link_lua_arg(self.version)],
            },
    {
        match &self.lib_info {
            Some(info) => {
                let mut out = prefix_all("-L", &info.link_paths);
                let mut libs = prefix_all("-l", &info.libs);
                let ghost dirs = crate::lockfile::strings_view(out@);
                let ghost names = crate::lockfile::strings_view(libs@);
                out.append(&mut libs);
                let ghost head = dirs + names;
                proof {
                    assert(crate::lockfile::strings_view(out@) =~= head);
                }
                let ghost wanted = ld_group_args(info.ld_args@);
                let mut i: usize = 0;
                proof {
                    assert(head + wanted.take(0) =~= head);
                }
                while i < info.ld_args.len()
                    invariant
                        i <= info.ld_args.len(),
                        wanted == ld_group_args(info.ld_args@),
                        crate::lockfile::strings_view(out@) == head + wanted.take(i as int),
                    decreases info.ld_args.len() - i,
                {
                    let ghost before = out@;
                    let arg = ld_group_argument(&info.ld_args[i]);
                    out.push(arg);
                    proof {
                        assert(crate::lockfile::strings_view(before.push(arg))
                            =~= crate::lockfile::strings_view(before).push(arg@));
                        assert((head + wanted.take(i as int)).push(arg@) =~= head + wanted.take(
                            i as int + 1,
                        ));
                    }
                    i = i + 1;
                }
                proof {
                    assert(wanted.take(info.ld_args.len() as int) =~= wanted);
                }
                out
            },
            None => {
                let r = default_link_args(self.version, self.lib_dir.as_str());
                proof {
                    assert(crate::lockfile::strings_view(r@) =~= seq![
                        "-L"@ + self.lib_dir@,
                        link_lua_arg(self.version),
                    ]);
                }
                r
            },
        }
    }

    /// The Lua executable to run: the one that is configured, or else the
    /// one of the installation, if it has one.
    pub fn lua_binary(&self, configured: Option<&str>) -> (r: Option<String>)
        ensures
            match (configured, self.bin, r) {
                (Some(c), _, Some(b)) => b@ == c@,
                (None, Some(own), Some(b)) => b@ == own@,
                (None, None, None) => true,
                _ => false,
            },
    {
        match configured {
            Some(c) => Some(string_of(&chars_of(c))),
            None => match &self.bin {
                Some(b) => Some(b.clone()),
                None => None,
            },
        }
    }
}

} // verus!
