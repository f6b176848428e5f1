//! Substitution of variables in the texts of a rockspec's build section:
//! every `$(NAME)` whose name is known is replaced by its value, and whatever
//! else a text holds stays as it is.

use crate::text::{
    append_chars, chars_eq, chars_of, find_first, first_index_of, lemma_first_index_of, slice_of,
    string_of,
};
use vstd::prelude::*;

verus! {

/// A variable: a name and the value that stands for it.
#[derive(Debug, PartialEq, Eq, Hash)]
pub struct Variable {
    pub name: String,
    pub value: String,
}

impl View for Variable {
    type V = (Seq<char>, Seq<char>);

    open spec fn view(&self) -> (Seq<char>, Seq<char>) {
        (self.name@, self.value@)
    }
}

impl Variable {
    /// The variable `name` with the value `value`.
    pub fn new(name: &str, value: &str) -> (r: Self)
        ensures
            r@ == (name@, value@),
    {
        Variable { name: string_of(&chars_of(name)), value: string_of(&chars_of(value)) }
    }
}

/// The views of a sequence of variables.
pub open spec fn variables_view(vars: Seq<Variable>) -> Seq<(Seq<char>, Seq<char>)> {
    vars.map_values(|v: Variable| v@)
}

/// The value of the first of `vars` that has the name `name`.
pub open spec fn value_of(vars: Seq<(Seq<char>, Seq<char>)>, name: Seq<char>) -> Option<Seq<char>>
    decreases vars.len(),
{
    if vars.len() == 0 {
        None
    } else if vars.first().0 == name {
        Some(vars.first().1)
    } else {
        value_of(vars.drop_first(), name)
    }
}

/// What stands for the reference `$(name)`: the value of the variable, or
/// the reference itself where no variable has that name.
pub open spec fn replacement(vars: Seq<(Seq<char>, Seq<char>)>, name: Seq<char>) -> Seq<char> {
    match value_of(vars, name) {
        Some(v) => v,
        None => seq!['$', '('] + name + seq![')'],
    }
}

/// `input` with its references replaced. A reference starts at `$(` and
/// ends at the next `)`; a `$(` that no `)` follows is no reference, and the
/// text from there on stays as it is.
pub open spec fn substituted(vars: Seq<(Seq<char>, Seq<char>)>, input: Seq<char>) -> Seq<char>
    decreases input.len(),
{
    if input.len() == 0 {
        input
    } else if input.len() >= 2 && input[0] == '$' && input[1] == '(' {
        let body = input.skip(2);
        match first_index_of(body, ')') {
            Some(j) => if 0 <= j < body.len() {
                replacement(vars, body.take(j)) + substituted(vars, body.skip(j + 1))
            } else {
                input
            },
            None => input,
        }
    } else {
        seq![input[0]] + substituted(vars, input.skip(1))
    }
}

/// Looks a variable up by name.
pub fn lookup(vars: &Vec<Variable>, name: &Vec<char>) -> (r: Option<Vec<char>>)
    ensures
        match r {
            Some(v) => value_of(variables_view(vars@), name@) == Some(v@),
            None => value_of(variables_view(vars@), name@) is None,
        },
{
    let ghost all = variables_view(vars@);
    let mut i: usize = 0;
    proof {
        assert(all.skip(0) =~= all);
    }
    while i < vars.len()
        invariant
            i <= vars.len(),
            all == variables_view(vars@),
            value_of(all, name@) == value_of(all.skip(i as int), name@),
        decreases vars.len() - i,
    {
        proof {
            assert(all.skip(i as int).first() == vars@[i as int]@);
            assert(all.skip(i as int).drop_first() =~= all.skip(i as int + 1));
        }
        let candidate = chars_of(vars[i].name.as_str());
        if chars_eq(&candidate, name) {
            return Some(chars_of(vars[i].value.as_str()));
        }
        i = i + 1;
    }
    proof {
        assert(all.skip(vars.len() as int).len() == 0);
    }
    None
}

/// Replaces the references `$(NAME)` of `input` by the values of the
/// variables that they name; references to unknown names stay.
pub fn substitute(vars: &Vec<Variable>, input: &str) -> (r: String)
    ensures
        r@ == substituted(variables_view(vars@), input@),
{
    let text = chars_of(input);
    let ghost all = variables_view(vars@);
    let mut out: Vec<char> = Vec::new();
    let mut i: usize = 0;
    proof {
        assert(text@.skip(0) =~= text@);
    }
    while i < text.len()
        invariant
            i <= text.len(),
            all == variables_view(vars@),
            substituted(all, text@) == out@ + substituted(all, text@.skip(i as int)),
        decreases text.len() - i,
    {
        let ghost rest = text@.skip(i as int);
        proof {
            assert(rest[0] == text@[i as int]);
            if i + 1 < text.len() {
                assert(rest[1] == text@[i as int + 1]);
            }
        }
        if text[i] == '$' && i + 1 < text.len() && text[i + 1] == '(' {
            let body = slice_of(&text, i + 2, text.len());
            proof {
                assert(text@.subrange(i as int + 2, text.len() as int) =~= rest.skip(2));
            }
            match find_first(&body, ')') {
                Some(j) => {
                    proof {
                        lemma_first_index_of(body@, ')');
                        assert(body@.subrange(0, j as int) =~= body@.take(j as int));
                        assert(body@.skip(j as int + 1) =~= text@.skip(i as int + 2 + j as int + 1));
                    }
                    let name = slice_of(&body, 0, j);
                    let ghost before = out@;
                    match lookup(vars, &name) {
                        Some(v) => {
                            append_chars(&mut out, &v);
                        },
                        None => {
                            out.push('$');
                            out.push('(');
                            append_chars(&mut out, &name);
                            out.push(')');
                            proof {
                                assert(out@ =~= before + (seq!['$', '('] + name@ + seq![')']));
                            }
                        },
                    }
                    proof {
                        let tail = substituted(all, body@.skip(j as int + 1));
                        assert(before + (replacement(all, name@) + tail) =~= (before + replacement(
                            all,
                            name@,
                        )) + tail);
                    }
                    i = i + 2 + j + 1;
                },
                None => {
                    let ghost before = out@;
                    let tail = slice_of(&text, i, text.len());
                    proof {
                        assert(text@.subrange(i as int, text.len() as int) =~= rest);
                    }
                    append_chars(&mut out, &tail);
                    proof {
                        assert(text@.skip(text.len() as int).len() == 0);
                        assert(out@ + substituted(all, text@.skip(text.len() as int)) =~= before
                            + rest);
                    }
                    i = text.len();
                },
            }
        } else {
            let ghost before = out@;
            out.push(text[i]);
            proof {
                assert(rest.skip(1) =~= text@.skip(i as int + 1));
                let tail = substituted(all, rest.skip(1));
                assert(before + (seq![rest[0]] + tail) =~= before.push(rest[0]) + tail);
            }
            i = i + 1;
        }
    }
    proof {
        assert(text@.skip(text.len() as int).len() == 0);
        assert(out@ + substituted(all, text@.skip(text.len() as int)) =~= out@);
    }
    string_of(&out)
}

} // verus!
