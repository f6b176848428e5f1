//! What is put where once a package is built: the Lua modules and the
//! executables that a rockspec asks to have installed, and the files of
//! the directories that it asks to have copied.

use crate::builtin::{module_file, module_target};
use crate::config::{join_path, join_path_spec};
use crate::tree::{RockLayout, RockLayoutView};
use vstd::prelude::*;

verus! {

/// One thing that a rockspec asks to have installed: the name under which
/// it is installed, and where it lies among the sources.
#[derive(Debug, PartialEq, Eq)]
pub struct InstallEntry {
    pub target: String,
    pub source: String,
}

impl View for InstallEntry {
    type V = (Seq<char>, Seq<char>);

    open spec fn view(&self) -> (Seq<char>, Seq<char>) {
        (self.target@, self.source@)
    }
}

/// The views of a sequence of entries.
pub open spec fn install_entries_view(entries: Seq<InstallEntry>) -> Seq<(Seq<char>, Seq<char>)> {
    entries.map_values(|e: InstallEntry| e@)
}

/// A file to copy: from where, and to where.
#[derive(Debug, PartialEq, Eq)]
pub struct CopyStep {
    pub source: String,
    pub target: String,
}

impl View for CopyStep {
    type V = (Seq<char>, Seq<char>);

    open spec fn view(&self) -> (Seq<char>, Seq<char>) {
        (self.source@, self.target@)
    }
}

/// The views of a sequence of copies.
pub open spec fn copies_view(steps: Seq<CopyStep>) -> Seq<(Seq<char>, Seq<char>)> {
    steps.map_values(|s: CopyStep| s@)
}

/// Where in the layout of a package something is installed.
#[derive(Copy, Clone, Debug, PartialEq, Eq, Structural)]
pub enum Place {
    /// Among the Lua modules, under the path that the module name stands
    /// for.
    LuaModule,
    /// Among the executables of the tree.
    Executable,
    /// Among the other files of the package, under its path as it is.
    Etc,
}

/// The path under which `target` is installed at `place`.
pub open spec fn placed(layout: RockLayoutView, place: Place, target: Seq<char>) -> Seq<char> {
    match place {
        Place::LuaModule => join_path_spec(layout.src, module_file(target)),
        Place::Executable => join_path_spec(layout.bin, target),
        Place::Etc => join_path_spec(layout.etc, target),
    }
}

/// The copies that install `entries` at `place`: one for each entry, in
/// their order, from the source of the entry to where its target is placed.
pub open spec fn copies_for(
    entries: Seq<(Seq<char>, Seq<char>)>,
    layout: RockLayoutView,
    place: Place,
) -> Seq<(Seq<char>, Seq<char>)> {
    Seq::new(entries.len(), |i: int| (entries[i].1, placed(layout, place, entries[i].0)))
}

/// What a rockspec asks to have installed besides what its build makes.
#[derive(Debug, PartialEq, Eq)]
pub struct InstallSpec {
    /// Lua modules, by module name.
    pub lua: Vec<InstallEntry>,
    /// Executables, by file name.
    pub bin: Vec<InstallEntry>,
}

/// The copies that install what `spec` asks for: the Lua modules, then the
/// executables.
pub open spec fn install_copies_for(
    lua: Seq<(Seq<char>, Seq<char>)>,
    bin: Seq<(Seq<char>, Seq<char>)>,
    layout: RockLayoutView,
) -> Seq<(Seq<char>, Seq<char>)> {
    copies_for(lua, layout, Place::LuaModule) + copies_for(bin, layout, Place::Executable)
}

/// The files `files`, each named by its path among the sources, as entries
/// that are installed under that same path.
pub open spec fn kept_paths(files: Seq<Seq<char>>) -> Seq<(Seq<char>, Seq<char>)> {
    Seq::new(files.len(), |i: int| (files[i], files[i]))
}

impl RockLayout {
    /// The path under which `target` is installed at `place`.
    pub fn place(&self, place: Place, target: &str) -> (r: String)
        ensures
            r@ == placed(self@, place, target@),
    {
        match place {
            Place::LuaModule => module_target(self.src.as_str(), target),
            Place::Executable => join_path(self.bin.as_str(), target),
            Place::Etc => join_path(self.etc.as_str(), target),
        }
    }

    /// The copies that install `entries` at `place`.
    pub fn copies(&self, entries: &Vec<InstallEntry>, place: Place) -> (r: Vec<CopyStep>)
        ensures
            copies_view(r@) == copies_for(install_entries_view(entries@), self@, place),
    {
        let ghost wanted = copies_for(install_entries_view(entries@), self@, place);
        let mut out: Vec<CopyStep> = Vec::new();
        let mut i: usize = 0;
        while i < entries.len()
            invariant
                i <= entries.len(),
                wanted == copies_for(install_entries_view(entries@), self@, place),
                copies_view(out@) == wanted.take(i as int),
            decreases entries.len() - i,
        {
            let ghost before = out@;
            let step = CopyStep {
                source: entries[i].source.clone(),
                target: self.place(place, entries[i].target.as_str()),
            };
            out.push(step);
            proof {
                assert(install_entries_view(entries@)[i as int] == entries@[i as int]@);
                assert(copies_view(before.push(step)) =~= copies_view(before).push(step@));
                assert(wanted.take(i as int).push(step@) =~= wanted.take(i as int + 1));
            }
            i = i + 1;
        }
        proof {
            assert(wanted.take(entries.len() as int) =~= wanted);
        }
        out
    }

    /// The copies that install what `spec` asks for.
    pub fn install_copies(&self, spec: &InstallSpec) -> (r: Vec<CopyStep>)
        ensures
            copies_view(r@) == install_copies_for(
                install_entries_view(spec.lua@),
                install_entries_view(spec.bin@),
                self@,
            ),
    {
        let mut out = self.copies(&spec.lua, Place::LuaModule);
        let mut bin = self.copies(&spec.bin, Place::Executable);
        let ghost head = copies_view(out@);
        let ghost tail = copies_view(bin@);
        out.append(&mut bin);
        proof {
            assert(copies_view(out@) =~= head + tail);
        }
        out
    }

    /// The copies that put the files `files` of the directories that are
    /// to be copied under the `etc` directory of the package, each under
    /// its own path.
    pub fn directory_copies(&self, files: &Vec<String>) -> (r: Vec<CopyStep>)
        ensures
            copies_view(r@) == copies_for(
                kept_paths(crate::lockfile::strings_view(files@)),
                self@,
                Place::Etc,
            ),
    {
        let ghost wanted = copies_for(
            kept_paths(crate::lockfile::strings_view(files@)),
            self@,
            Place::Etc,
        );
        let mut out: Vec<CopyStep> = Vec::new();
        let mut i: usize = 0;
        while i < files.len()
            invariant
                i <= files.len(),
                wanted == copies_for(
                    kept_paths(crate::lockfile::strings_view(files@)),
                    self@,
                    Place::Etc,
                ),
                copies_view(out@) == wanted.take(i as int),
            decreases files.len() - i,
        {
            let ghost before = out@;
            let step = CopyStep {
                source: files[i].clone(),
                target: self.place(Place::Etc, files[i].as_str()),
            };
            out.push(step);
            proof {
                assert(crate::lockfile::strings_view(files@)[i as int] == files@[i as int]@);
                assert(copies_view(before.push(step)) =~= copies_view(before).push(step@));
                assert(wanted.take(i as int).push(step@) =~= wanted.take(i as int + 1));
            }
            i = i + 1;
        }
        proof {
            assert(wanted.take(files.len() as int) =~= wanted);
        }
        out
    }
}

} // verus!
