//! The built-in build: Lua modules are found by their file names, and each
//! is installed under the path that its module name stands for.

use crate::config::{join_path, join_path_spec};
use crate::fetch::{strip_suffix_all, trim_end_matches_str};
use crate::text::{
    append_str, chars_eq, chars_of, find_last, join_seq, last_index_of, lemma_last_index_of,
    slice_of, split_chars, split_seq, str_eq, string_of, views,
};
use vstd::prelude::*;

verus! {

/// The sources of a module that is built from C with more than sources.
#[derive(Debug, PartialEq, Eq)]
pub struct ModulePaths {
    /// The C sources.
    pub sources: Vec<String>,
    /// The libraries to link.
    pub libraries: Vec<String>,
    /// The C defines, such as `FOO=bar` or `USE_BLA`.
    pub defines: Vec<String>,
    /// The directories of headers.
    pub incdirs: Vec<String>,
    /// The directories of libraries.
    pub libdirs: Vec<String>,
}

/// What a module is built from.
#[derive(Debug, PartialEq, Eq)]
pub enum ModuleType {
    /// One Lua file or one C source.
    SourcePath(String),
    /// Several C sources.
    SourcePaths(Vec<String>),
    /// C sources with libraries, defines and directories.
    ModulePaths(ModulePaths),
}

/// What a rockspec says of one module, as it is read: a text, a list of
/// texts, or a table, which may lack any of its fields.
#[derive(Debug, PartialEq, Eq)]
pub enum ModuleValue {
    Text(String),
    List(Vec<String>),
    Table {
        sources: Option<Vec<String>>,
        libraries: Option<Vec<String>>,
        defines: Option<Vec<String>>,
        incdirs: Option<Vec<String>>,
        libdirs: Option<Vec<String>>,
    },
}

/// Why what a rockspec says of a module describes no module.
#[derive(Debug, PartialEq, Eq)]
pub enum ModuleSpecError {
    /// A table names no sources.
    MissingSources,
}

/// The list that a field of a table holds, empty where the table lacks
/// the field.
pub open spec fn field_or_empty(field: Option<Vec<String>>) -> Seq<String> {
    match field {
        Some(list) => list@,
        None => Seq::<String>::empty(),
    }
}

/// The list that a field of a table holds.
fn list_of(field: Option<Vec<String>>) -> (r: Vec<String>)
    ensures
        r@ == field_or_empty(field),
{
    match field {
        Some(list) => list,
        None => Vec::new(),
    }
}

/// What the module that a rockspec describes is built from: a text is
/// its one source, a list are its sources, and a table, which has to name
/// sources, gives the sources with what else it names.
pub fn module_type_of(value: ModuleValue) -> (r: Result<ModuleType, ModuleSpecError>)
    ensures
        match value {
            ModuleValue::Text(source) => r == Ok::<ModuleType, ModuleSpecError>(
                ModuleType::SourcePath(source),
            ),
            ModuleValue::List(sources) => r == Ok::<ModuleType, ModuleSpecError>(
                ModuleType::SourcePaths(sources),
            ),
            ModuleValue::Table { sources: None, .. } => r == Err::<ModuleType, ModuleSpecError>(
                ModuleSpecError::MissingSources,
            ),
            ModuleValue::Table { sources: Some(s), libraries, defines, incdirs, libdirs } => {
                &&& r matches Ok(ModuleType::ModulePaths(paths))
                &&& paths.sources == s
                &&& paths.libraries@ == field_or_empty(libraries)
                &&& paths.defines@ == field_or_empty(defines)
                &&& paths.incdirs@ == field_or_empty(incdirs)
                &&& paths.libdirs@ == field_or_empty(libdirs)
            },
        },
{
    match value {
        ModuleValue::Text(source) => Ok(ModuleType::SourcePath(source)),
        ModuleValue::List(sources) => Ok(ModuleType::SourcePaths(sources)),
        ModuleValue::Table { sources, libraries, defines, incdirs, libdirs } => match sources {
            Some(sources) => Ok(
                ModuleType::ModulePaths(
                    ModulePaths {
                        sources,
                        libraries: list_of(libraries),
                        defines: list_of(defines),
                        incdirs: list_of(incdirs),
                        libdirs: list_of(libdirs),
                    },
                ),
            ),
            None => Err(ModuleSpecError::MissingSources),
        },
    }
}

/// One module of a built-in build: its name, as `require` takes it, and
/// what it is built from.
#[derive(Debug, PartialEq, Eq)]
pub struct Module {
    pub name: String,
    pub module: ModuleType,
}

/// The modules of a built-in build.
#[derive(Debug, PartialEq, Eq)]
pub struct BuiltinBuildSpec {
    pub modules: Vec<Module>,
}

/// The names of a sequence of modules.
pub open spec fn module_names(modules: Seq<Module>) -> Seq<Seq<char>> {
    modules.map_values(|m: Module| m.name@)
}

/// `s` with every `from` replaced by `to`.
pub open spec fn replaced(s: Seq<char>, from: char, to: char) -> Seq<char> {
    s.map_values(
        |c: char|
            if c == from {
                to
            } else {
                c
            },
    )
}

/// Replaces every `from` in `v` by `to`.
pub fn replace_char(v: &Vec<char>, from: char, to: char) -> (r: Vec<char>)
    ensures
        r@ == replaced(v@, from, to),
{
    let mut out: Vec<char> = Vec::new();
    let mut i: usize = 0;
    while i < v.len()
        invariant
            i <= v.len(),
            out@ == replaced(v@, from, to).take(i as int),
        decreases v.len() - i,
    {
        if v[i] == from {
            out.push(to);
        } else {
            out.push(v[i]);
        }
        proof {
            assert(replaced(v@, from, to).take(i as int).push(replaced(v@, from, to)[i as int])
                =~= replaced(v@, from, to).take(i as int + 1));
        }
        i = i + 1;
    }
    proof {
        assert(replaced(v@, from, to).take(v.len() as int) =~= replaced(v@, from, to));
    }
    out
}

/// The path, under the directory of Lua sources, of the file of the module
/// `module_name`: the name with `/` for each `.`, and `.lua` behind it.
pub open spec fn module_file(module_name: Seq<char>) -> Seq<char> {
    replaced(module_name, '.', '/') + ".lua"@
}

/// Where the Lua module `module_name` is installed under `src_dir`.
pub fn module_target(src_dir: &str, module_name: &str) -> (r: String)
    ensures
        r@ == join_path_spec(src_dir@, module_file(module_name@)),
{
    let mut file = replace_char(&chars_of(module_name), '.', '/');
    append_str(&mut file, ".lua");
    join_path(src_dir, string_of(&file).as_str())
}

/// The ending of a file name: what stands behind its last `.`, unless the
/// name has none or starts with its only one.
pub open spec fn extension_of(file_name: Seq<char>) -> Option<Seq<char>> {
    match last_index_of(file_name, '.') {
        Some(i) => if i > 0 {
            Some(file_name.skip(i + 1))
        } else {
            None
        },
        None => None,
    }
}

/// Whether a file of the name `file_name` is taken for a Lua module: it ends
/// in `.lua`, and is neither `test.lua` nor `tests.lua`.
pub open spec fn is_module_file(file_name: Seq<char>) -> bool {
    extension_of(file_name) == Some("lua"@) && file_name != "test.lua"@ && file_name
        != "tests.lua"@
}

/// Whether the file `file_name` is taken for a Lua module.
pub fn is_lua_module_file(file_name: &str) -> (r: bool)
    ensures
        r == is_module_file(file_name@),
{
    let chars = chars_of(file_name);
    let ends_in_lua = match find_last(&chars, '.') {
        Some(i) => {
            proof {
                lemma_last_index_of(chars@, '.');
            }
            if i > 0 {
                let ext = slice_of(&chars, i + 1, chars.len());
                proof {
                    assert(chars@.subrange(i as int + 1, chars.len() as int) =~= chars@.skip(
                        i as int + 1,
                    ));
                }
                chars_eq(&ext, &chars_of("lua"))
            } else {
                false
            }
        },
        None => false,
    };
    ends_in_lua && !str_eq(file_name, "test.lua") && !str_eq(file_name, "tests.lua")
}

/// The components of a path that count: those that are neither empty nor
/// `.`.
pub open spec fn components(parts: Seq<Seq<char>>) -> Seq<Seq<char>>
    decreases parts.len(),
{
    if parts.len() == 0 {
        parts
    } else if parts.last().len() == 0 || parts.last() == "."@ {
        components(parts.drop_last())
    } else {
        components(parts.drop_last()).push(parts.last())
    }
}

/// The name of the module in the file at `path`, a path relative to the
/// root of the sources whose first component is the directory that was
/// searched: the components behind the first, without `.lua` at the end,
/// with `.` between them.
pub open spec fn module_name_of(path: Seq<char>) -> Seq<char> {
    let comps = components(split_seq(path, '/'));
    replaced(strip_suffix_all(join_seq(behind_first(comps), "/"@), ".lua"@), '/', '.')
}

/// The components behind the first.
pub open spec fn behind_first(comps: Seq<Seq<char>>) -> Seq<Seq<char>> {
    if comps.len() == 0 {
        comps
    } else {
        comps.skip(1)
    }
}

/// The name of the module in the file at `path`.
pub fn lua_module_path(path: &str) -> (r: String)
    ensures
        r@ == module_name_of(path@),
{
    let parts = split_chars(&chars_of(path), '/');
    let ghost all = views(parts@);
    let mut comps: Vec<Vec<char>> = Vec::new();
    let mut i: usize = 0;
    while i < parts.len()
        invariant
            i <= parts.len(),
            all == views(parts@),
            views(comps@) == components(all.take(i as int)),
        decreases parts.len() - i,
    {
        proof {
            assert(all.take(i as int + 1).drop_last() =~= all.take(i as int));
            assert(all.take(i as int + 1).last() == parts@[i as int]@);
        }
        if !(parts[i].len() == 0 || chars_eq(&parts[i], &chars_of("."))) {
            let ghost before = comps@;
            let c = crate::text::copy_chars(&parts[i]);
            comps.push(c);
            proof {
                assert(views(before.push(c)) =~= views(before).push(c@));
            }
        }
        i = i + 1;
    }
    proof {
        assert(all.take(parts.len() as int) =~= all);
    }
    let from = if comps.len() > 0 {
        1
    } else {
        0
    };
    let joined = crate::text::join_range(&comps, from, comps.len(), &chars_of("/"));
    proof {
        assert(views(comps@).subrange(from as int, comps.len() as int) =~= behind_first(
            views(comps@),
        ));
    }
    let stem = trim_end_matches_str(&joined, &chars_of(".lua"));
    string_of(&replace_char(&stem, '/', '.'))
}

/// The modules of `detected` whose names `declared` does not have, in
/// their order, each as it was found.
pub open spec fn undeclared(detected: Seq<Module>, declared: Seq<Module>) -> Seq<Module>
    decreases detected.len(),
{
    if detected.len() == 0 {
        detected
    } else if module_names(declared).contains(detected.last().name@) {
        undeclared(detected.drop_last(), declared)
    } else {
        undeclared(detected.drop_last(), declared).push(detected.last())
    }
}

impl BuiltinBuildSpec {
    /// Whether the build declares a module of the name `name`.
    pub fn declares(&self, name: &str) -> (r: bool)
        ensures
            r == module_names(self.modules@).contains(name@),
    {
        let mut i: usize = 0;
        while i < self.modules.len()
            invariant
                i <= self.modules.len(),
                forall|j: int| 0 <= j < i ==> module_names(self.modules@)[j] != name@,
            decreases self.modules.len() - i,
        {
            proof {
                assert(module_names(self.modules@)[i as int] == self.modules@[i as int].name@);
            }
            if str_eq(self.modules[i].name.as_str(), name) {
                return true;
            }
            i = i + 1;
        }
        false
    }

    /// The modules to build: the modules that were found, but for those
    /// whose names the build declares itself, followed by the declared ones.
    /// What is declared wins over what is found, and every module is built
    /// from what it was found or declared with.
    pub fn with_detected(self, detected: Vec<Module>) -> (r: Self)
        ensures
            r.modules@ == undeclared(detected@, self.modules@) + self.modules@,
    {
        let ghost found = detected@;
        let ghost own = self.modules@;
        let mut modules: Vec<Module> = Vec::new();
        let mut detected = detected;
        proof {
            assert(found.skip(0) =~= found);
        }
        while detected.len() > 0
            invariant
                own == self.modules@,
                detected@.len() <= found.len(),
                detected@ == found.skip(found.len() - detected@.len()),
                modules@ == undeclared(found.take(found.len() - detected@.len()), own),
            decreases detected.len(),
        {
            let ghost k = found.len() - detected@.len();
            let ghost before_detected = detected@;
            let m = detected.remove(0);
            proof {
                assert(found[k] == m);
                assert(found.skip(k).remove(0) =~= found.skip(k + 1));
                assert(found.take(k + 1).drop_last() =~= found.take(k));
                assert(found.take(k + 1).last() == m);
            }
            if !self.declares(m.name.as_str()) {
                modules.push(m);
            }
        }
        proof {
            assert(found.take(found.len() as int) =~= found);
        }
        let mut own_modules = self.modules;
        modules.append(&mut own_modules);
        BuiltinBuildSpec { modules }
    }
}

} // verus!
