//! Merging of the parts of a rockspec: what a platform or an extra rockspec
//! says is laid over what the base says.

use crate::lockfile::strings_view;
use crate::text::str_eq;
use crate::variables::{variables_view, Variable};
use vstd::prelude::*;

verus! {

/// Values of which two can be merged into one, `other` being laid over the
/// value itself.
pub trait Merge: Sized {
    fn merge(self, other: Self) -> Self;
}

/// `s` without the elements that repeat the one before them.
pub open spec fn dedup(s: Seq<Seq<char>>) -> Seq<Seq<char>>
    decreases s.len(),
{
    if s.len() <= 1 {
        s
    } else if s.last() == s[s.len() - 2] {
        dedup(s.drop_last())
    } else {
        dedup(s.drop_last()).push(s.last())
    }
}

/// The last element of a list stays the last when repetitions go.
pub proof fn lemma_dedup_last(s: Seq<Seq<char>>)
    requires
        s.len() > 0,
    ensures
        dedup(s).len() > 0,
        dedup(s).last() == s.last(),
    decreases s.len(),
{
    if s.len() > 1 {
        lemma_dedup_last(s.drop_last());
    }
}

/// The two lists one after the other, without the elements that repeat the
/// one before them.
pub fn merge_strings(own: Vec<String>, other: Vec<String>) -> (r: Vec<String>)
    ensures
        strings_view(r@) == dedup(strings_view(own@) + strings_view(other@)),
{
    let ghost all = strings_view(own@) + strings_view(other@);
    let mut out: Vec<String> = Vec::new();
    let mut i: usize = 0;
    let mut j: usize = 0;
    while i < own.len() || j < other.len()
        invariant
            i <= own.len(),
            j <= other.len(),
            j > 0 ==> i == own.len(),
            all == strings_view(own@) + strings_view(other@),
            strings_view(out@) == dedup(all.take(i + j)),
        decreases (own.len() - i) + (other.len() - j),
    {
        let next = if i < own.len() {
            own[i].clone()
        } else {
            other[j].clone()
        };
        proof {
            let k = i + j;
            assert(all.take(k + 1).drop_last() =~= all.take(k));
            assert(all.take(k + 1).last() == all[k]);
            assert(all[k] == next@);
            if k > 0 {
                lemma_dedup_last(all.take(k));
                assert(all.take(k).last() == all[k - 1]);
                assert(all.take(k + 1)[k - 1] == all[k - 1]);
            }
        }
        let repeats = out.len() > 0 && str_eq(out[out.len() - 1].as_str(), next.as_str());
        proof {
            if out.len() > 0 {
                assert(strings_view(out@).last() == out@[out.len() - 1]@);
            }
            if i + j == 0 {
                assert(all.take(0).len() == 0);
            }
        }
        if !repeats {
            let ghost before = out@;
            out.push(next);
            proof {
                assert(strings_view(before.push(next)) =~= strings_view(before).push(next@));
                if i + j == 0 {
                    assert(all.take(1) =~= seq![all[0]]);
                    assert(strings_view(out@) =~= all.take(1));
                }
            }
        }
        if i < own.len() {
            i = i + 1;
        } else {
            j = j + 1;
        }
    }
    proof {
        assert(all.take(own.len() + other.len()) =~= all);
    }
    out
}

impl Merge for Vec<String> {
    fn merge(self, other: Self) -> (r: Self)
        ensures
            strings_view(r@) == dedup(strings_view(self@) + strings_view(other@)),
    {
        merge_strings(self, other)
    }
}

impl<T: Merge> Merge for Option<T> {
    /// What is there on one side only is taken as it is; what is there on
    /// both sides is merged.
    fn merge(self, other: Self) -> (r: Self)
        ensures
            self is None ==> r == other,
            other is None ==> r == self,
            self is Some && other is Some ==> r is Some,
    {
        match (self, other) {
            (None, None) => None,
            (None, Some(b)) => Some(b),
            (Some(a), None) => Some(a),
            (Some(a), Some(b)) => Some(a.merge(b)),
        }
    }
}

/// How a package is built with CMake.
#[derive(Debug, PartialEq, Eq)]
pub struct CMakeBuildSpec {
    /// The text of a `CMakeLists.txt` to write before the build, if any.
    pub cmake_lists_content: Option<String>,
    /// Whether to perform a build pass.
    pub build_pass: bool,
    /// Whether to perform an install pass.
    pub install_pass: bool,
    /// The variables to hand to CMake, each name once.
    pub variables: Vec<Variable>,
}

/// A CMake build as plain values.
pub struct CMakeBuildSpecView {
    pub cmake_lists_content: Option<Seq<char>>,
    pub build_pass: bool,
    pub install_pass: bool,
    pub variables: Seq<(Seq<char>, Seq<char>)>,
}

impl View for CMakeBuildSpec {
    type V = CMakeBuildSpecView;

    open spec fn view(&self) -> CMakeBuildSpecView {
        CMakeBuildSpecView {
            cmake_lists_content: match self.cmake_lists_content {
                Some(t) => Some(t@),
                None => None,
            },
            build_pass: self.build_pass,
            install_pass: self.install_pass,
            variables: variables_view(self.variables@),
        }
    }
}

/// Whether a pass is performed where the rockspec does not say.
pub fn default_pass() -> (r: bool)
    ensures
        r,
{
    true
}

impl Default for CMakeBuildSpec {
    fn default() -> (r: Self)
        ensures
            r@ == (CMakeBuildSpecView {
                cmake_lists_content: None,
                build_pass: true,
                install_pass: true,
                variables: Seq::<(Seq<char>, Seq<char>)>::empty(),
            }),
    {
        let variables: Vec<Variable> = Vec::new();
        proof {
            assert(variables_view(variables@) =~= Seq::<(Seq<char>, Seq<char>)>::empty());
        }
        CMakeBuildSpec {
            cmake_lists_content: None,
            build_pass: default_pass(),
            install_pass: default_pass(),
            variables,
        }
    }
}

/// Whether one of `vars` has the name `name`.
pub open spec fn has_name(vars: Seq<(Seq<char>, Seq<char>)>, name: Seq<char>) -> bool {
    exists|i: int| 0 <= i < vars.len() && (#[trigger] vars[i]).0 == name
}

/// The variables of `own` whose names `other` does not have, in their
/// order.
pub open spec fn not_overlaid(own: Seq<(Seq<char>, Seq<char>)>, other: Seq<(Seq<char>, Seq<char>)>)
    -> Seq<(Seq<char>, Seq<char>)>
    decreases own.len(),
{
    if own.len() == 0 {
        own
    } else if has_name(other, own.last().0) {
        not_overlaid(own.drop_last(), other)
    } else {
        not_overlaid(own.drop_last(), other).push(own.last())
    }
}

/// The variables of `own` overlaid with those of `other`: a name that both
/// have keeps the value of `other`.
pub open spec fn overlaid(own: Seq<(Seq<char>, Seq<char>)>, other: Seq<(Seq<char>, Seq<char>)>)
    -> Seq<(Seq<char>, Seq<char>)> {
    not_overlaid(own, other) + other
}

/// Whether one of `vars` has the name `name`.
fn names(vars: &Vec<Variable>, name: &str) -> (r: bool)
    ensures
        r == has_name(variables_view(vars@), name@),
{
    let mut i: usize = 0;
    while i < vars.len()
        invariant
            i <= vars.len(),
            forall|j: int| 0 <= j < i ==> (#[trigger] variables_view(vars@)[j]).0 != name@,
        decreases vars.len() - i,
    {
        proof {
            assert(variables_view(vars@)[i as int] == vars@[i as int]@);
        }
        if str_eq(vars[i].name.as_str(), name) {
            return true;
        }
        i = i + 1;
    }
    false
}

impl Merge for CMakeBuildSpec {
    /// The build that `other` makes of this one: its passes and its
    /// `CMakeLists.txt`, where it has one, count, and its variables are laid
    /// over the own ones.
    fn merge(self, other: Self) -> (r: Self)
        ensures
            r@ == (CMakeBuildSpecView {
                cmake_lists_content: if other@.cmake_lists_content is Some {
                    other@.cmake_lists_content
                } else {
                    self@.cmake_lists_content
                },
                build_pass: other@.build_pass,
                install_pass: other@.install_pass,
                variables: overlaid(self@.variables, other@.variables),
            }),
    {
        let ghost own = variables_view(self.variables@);
        let ghost over = variables_view(other.variables@);
        let mut variables: Vec<Variable> = Vec::new();
        let mut i: usize = 0;
        while i < self.variables.len()
            invariant
                i <= self.variables.len(),
                own == variables_view(self.variables@),
                over == variables_view(other.variables@),
                variables_view(variables@) == not_overlaid(own.take(i as int), over),
            decreases self.variables.len() - i,
        {
            proof {
                assert(own.take(i as int + 1).drop_last() =~= own.take(i as int));
                assert(own.take(i as int + 1).last() == self.variables@[i as int]@);
            }
            if !names(&other.variables, self.variables[i].name.as_str()) {
                let ghost before = variables@;
                let v = Variable::new(
                    self.variables[i].name.as_str(),
                    self.variables[i].value.as_str(),
                );
                variables.push(v);
                proof {
                    assert(variables_view(before.push(v)) =~= variables_view(before).push(v@));
                }
            }
            i = i + 1;
        }
        proof {
            assert(own.take(self.variables.len() as int) =~= own);
        }
        let mut k: usize = 0;
        let ghost kept = variables_view(variables@);
        proof {
            assert(kept + over.take(0) =~= kept);
        }
        while k < other.variables.len()
            invariant
                k <= other.variables.len(),
                over == variables_view(other.variables@),
                variables_view(variables@) == kept + over.take(k as int),
            decreases other.variables.len() - k,
        {
            let ghost before = variables@;
            let v = Variable::new(
                other.variables[k].name.as_str(),
                other.variables[k].value.as_str(),
            );
            variables.push(v);
            proof {
                assert(variables_view(before.push(v)) =~= variables_view(before).push(v@));
                assert((kept + over.take(k as int)).push(other.variables@[k as int]@) =~= kept
                    + over.take(k as int + 1));
            }
            k = k + 1;
        }
        proof {
            assert(over.take(other.variables.len() as int) =~= over);
        }
        CMakeBuildSpec {
            cmake_lists_content: match other.cmake_lists_content {
                Some(t) => Some(t),
                None => self.cmake_lists_content,
            },
            build_pass: other.build_pass,
            install_pass: other.install_pass,
            variables,
        }
    }
}

} // verus!
