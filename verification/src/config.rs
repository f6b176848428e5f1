//! What a tree is configured with: the Lua version it serves and the
//! layout of the directories of an installed package. Paths are texts whose
//! components are separated by `/`.

use crate::text::{append_chars, chars_of, string_of};
use vstd::prelude::*;

verus! {

/// `base` followed by the component `component`: a component that starts at
/// the root replaces the base, as does any component where the base is
/// empty; otherwise the two are written with one `/` between them.
pub open spec fn join_path_spec(base: Seq<char>, component: Seq<char>) -> Seq<char> {
    if base.len() == 0 || (component.len() > 0 && component[0] == '/') {
        component
    } else if base.last() == '/' {
        base + component
    } else {
        base + seq!['/'] + component
    }
}

/// Appends a component to a path.
pub fn join_path(base: &str, component: &str) -> (r: String)
    ensures
        r@ == join_path_spec(base@, component@),
{
    let b = chars_of(base);
    let c = chars_of(component);
    if b.len() == 0 || (c.len() > 0 && c[0] == '/') {
        return string_of(&c);
    }
    let mut out = b;
    if out[out.len() - 1] != '/' {
        out.push('/');
    }
    append_chars(&mut out, &c);
    string_of(&out)
}

/// The versions of Lua that a tree can serve.
#[derive(Copy, Clone, Debug, PartialEq, Eq, Hash, Structural)]
pub enum LuaVersion {
    Lua51,
    Lua52,
    Lua53,
    Lua54,
    LuaJIT,
    LuaJIT52,
}

impl LuaVersion {
    /// The name of the version, which is also the name of the directory of
    /// its packages: `5.1` to `5.4`, `jit` and `jit5.2`.
    pub open spec fn text(self) -> Seq<char> {
        match self {
            LuaVersion::Lua51 => seq!['5', '.', '1'],
            LuaVersion::Lua52 => seq!['5', '.', '2'],
            LuaVersion::Lua53 => seq!['5', '.', '3'],
            LuaVersion::Lua54 => seq!['5', '.', '4'],
            LuaVersion::LuaJIT => seq!['j', 'i', 't'],
            LuaVersion::LuaJIT52 => seq!['j', 'i', 't', '5', '.', '2'],
        }
    }

    /// The version of the language that this version is compatible with, by
    /// which the remote index is keyed: LuaJIT stands with 5.1, LuaJIT in
    /// its 5.2 mode with 5.2.
    pub open spec fn compatibility_text(self) -> Seq<char> {
        match self {
            LuaVersion::LuaJIT => LuaVersion::Lua51.text(),
            LuaVersion::LuaJIT52 => LuaVersion::Lua52.text(),
            other => other.text(),
        }
    }

    /// The name of the version.
    pub fn to_string(&self) -> (r: String)
        ensures
            r@ == self.text(),
    {
        let mut v: Vec<char> = Vec::new();
        match self {
            LuaVersion::Lua51 => {
                v.push('5');
                v.push('.');
                v.push('1');
            },
            LuaVersion::Lua52 => {
                v.push('5');
                v.push('.');
                v.push('2');
            },
            LuaVersion::Lua53 => {
                v.push('5');
                v.push('.');
                v.push('3');
            },
            LuaVersion::Lua54 => {
                v.push('5');
                v.push('.');
                v.push('4');
            },
            LuaVersion::LuaJIT => {
                v.push('j');
                v.push('i');
                v.push('t');
            },
            LuaVersion::LuaJIT52 => {
                v.push('j');
                v.push('i');
                v.push('t');
                v.push('5');
                v.push('.');
                v.push('2');
            },
        }
        proof {
            assert(v@ =~= self.text());
        }
        string_of(&v)
    }

    /// The version with the name `text`, if there is one.
    pub fn from_text(text: &str) -> (r: Option<Self>)
        ensures
            match r {
                Some(v) => v.text() == text@,
                None => forall|v: LuaVersion| v.text() != text@,
            },
    {
        proof {
            reveal_strlit("5.1");
            reveal_strlit("5.2");
            reveal_strlit("5.3");
            reveal_strlit("5.4");
            reveal_strlit("jit");
            reveal_strlit("jit5.2");
            assert("5.1"@ =~= LuaVersion::Lua51.text());
            assert("5.2"@ =~= LuaVersion::Lua52.text());
            assert("5.3"@ =~= LuaVersion::Lua53.text());
            assert("5.4"@ =~= LuaVersion::Lua54.text());
            assert("jit"@ =~= LuaVersion::LuaJIT.text());
            assert("jit5.2"@ =~= LuaVersion::LuaJIT52.text());
        }
        if crate::text::str_eq(text, "5.1") {
            Some(LuaVersion::Lua51)
        } else if crate::text::str_eq(text, "5.2") {
            Some(LuaVersion::Lua52)
        } else if crate::text::str_eq(text, "5.3") {
            Some(LuaVersion::Lua53)
        } else if crate::text::str_eq(text, "5.4") {
            Some(LuaVersion::Lua54)
        } else if crate::text::str_eq(text, "jit") {
            Some(LuaVersion::LuaJIT)
        } else if crate::text::str_eq(text, "jit5.2") {
            Some(LuaVersion::LuaJIT52)
        } else {
            None
        }
    }

    /// The version of the language that this version is compatible with.
    pub fn version_compatibility_str(&self) -> (r: String)
        ensures
            r@ == self.compatibility_text(),
    {
        match self {
            LuaVersion::LuaJIT => LuaVersion::Lua51.to_string(),
            LuaVersion::LuaJIT52 => LuaVersion::Lua52.to_string(),
            other => other.to_string(),
        }
    }
}

/// Where the directories of an installed package lie. By default all of
/// them lie under the directory of the package; a layout may place the `etc`
/// directory under a directory that all packages share, in which each
/// package has a subdirectory of its name.
#[derive(Debug, PartialEq, Eq, Hash)]
pub struct RockLayoutConfig {
    /// The directory, below the root of the tree's version, under which the
    /// `etc` directories lie; the directory of the package where there is
    /// none.
    pub etc_root: Option<String>,
    /// The name of the `etc` directory of a required package.
    pub etc: String,
    /// The name of the `etc` directory of an optional package.
    pub opt_etc: String,
    /// The name of the directory of configuration files, in `etc`.
    pub conf: String,
    /// The name of the directory of documentation, in `etc`.
    pub doc: String,
}

/// A layout as plain values.
pub struct RockLayoutConfigView {
    pub etc_root: Option<Seq<char>>,
    pub etc: Seq<char>,
    pub opt_etc: Seq<char>,
    pub conf: Seq<char>,
    pub doc: Seq<char>,
}

impl View for RockLayoutConfig {
    type V = RockLayoutConfigView;

    open spec fn view(&self) -> RockLayoutConfigView {
        RockLayoutConfigView {
            etc_root: match self.etc_root {
                Some(t) => Some(t@),
                None => None,
            },
            etc: self.etc@,
            opt_etc: self.opt_etc@,
            conf: self.conf@,
            doc: self.doc@,
        }
    }
}

/// The default layout: `etc`, with `conf` and `doc` in it, under the
/// directory of the package.
pub open spec fn default_layout() -> RockLayoutConfigView {
    RockLayoutConfigView {
        etc_root: None,
        etc: seq!['e', 't', 'c'],
        opt_etc: seq!['e', 't', 'c'],
        conf: seq!['c', 'o', 'n', 'f'],
        doc: seq!['d', 'o', 'c'],
    }
}

/// The text `etc`.
fn etc_name() -> (r: String)
    ensures
        r@ == seq!['e', 't', 'c'],
{
    let mut v: Vec<char> = Vec::new();
    v.push('e');
    v.push('t');
    v.push('c');
    proof {
        assert(v@ =~= seq!['e', 't', 'c']);
    }
    string_of(&v)
}

impl Default for RockLayoutConfig {
    fn default() -> (r: Self)
        ensures
            r@ == default_layout(),
    {
        let mut conf: Vec<char> = Vec::new();
        conf.push('c');
        conf.push('o');
        conf.push('n');
        conf.push('f');
        let mut doc: Vec<char> = Vec::new();
        doc.push('d');
        doc.push('o');
        doc.push('c');
        proof {
            assert(conf@ =~= seq!['c', 'o', 'n', 'f']);
            assert(doc@ =~= seq!['d', 'o', 'c']);
        }
        RockLayoutConfig {
            etc_root: None,
            etc: etc_name(),
            opt_etc: etc_name(),
            conf: string_of(&conf),
            doc: string_of(&doc),
        }
    }
}

impl Clone for RockLayoutConfig {
    fn clone(&self) -> (r: Self)
        ensures
            r@ == self@,
    {
        RockLayoutConfig {
            etc_root: match &self.etc_root {
                Some(t) => Some(t.clone()),
                None => None,
            },
            etc: self.etc.clone(),
            opt_etc: self.opt_etc.clone(),
            conf: self.conf.clone(),
            doc: self.doc.clone(),
        }
    }
}

impl RockLayoutConfig {
    /// Whether two layouts are the same.
    pub fn same_as(&self, other: &Self) -> (r: bool)
        ensures
            r == (self@ == other@),
    {
        let roots = match (&self.etc_root, &other.etc_root) {
            (Some(a), Some(b)) => *a == *b,
            (None, None) => true,
            _ => false,
        };
        roots && self.etc == other.etc && self.opt_etc == other.opt_etc && self.conf == other.conf
            && self.doc == other.doc
    }

    /// Whether this is the default layout.
    pub fn is_default(&self) -> (r: bool)
        ensures
            r == (self@ == default_layout()),
    {
        let d = RockLayoutConfig::default();
        self.same_as(&d)
    }
}

} // verus!
