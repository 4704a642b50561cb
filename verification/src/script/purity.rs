//! Whether a script's output may be reused across builds. A cached result is
//! sound only for a script that is a function of its arguments and the files
//! it read; randomness, writing a file, and importing a module break that.
//! The scan is static and conservative: a call in a branch that never runs
//! still counts.

use vstd::prelude::*;
use crate::text::{chars_of, push_str, str_eq, string_of};

verus! {

/// Why a script cannot be cached.
#[derive(Debug, Clone, PartialEq, Eq)]
pub enum Impurity {
    /// Calls a function whose result is not a function of its inputs, or
    /// whose effect is the point of calling it.
    Calls(String),
    /// Opens a file for writing.
    WritesAFile,
    /// Imports a module.
    Imports,
}

/// The phrase naming the cause of an impurity.
pub open spec fn reason_text(i: Impurity) -> Seq<char> {
    match i {
        Impurity::Calls(name) => "`"@ + name@ + "`"@,
        Impurity::WritesAFile => "a file write"@,
        Impurity::Imports => "`import`"@,
    }
}

impl Impurity {
    /// A short phrase naming the cause, such as `` `rand` ``.
    pub fn reason(&self) -> (r: String)
        ensures
            r@ == reason_text(*self),
    {
        match self {
            Impurity::Calls(name) => {
                let mut v = chars_of("`");
                push_str(&mut v, name.as_str());
                push_str(&mut v, "`");
                string_of(&v)
            },
            Impurity::WritesAFile => String::from_str("a file write"),
            Impurity::Imports => String::from_str("`import`"),
        }
    }
}

/// The host functions whose use makes a run's bytes unsafe to reuse:
/// randomness, `File#write`, and `open_dir`'s directory listing.
pub open spec fn impure_name(name: Seq<char>) -> bool {
    name == "rand"@ || name == "rand_float"@ || name == "rand_bool"@ || name == "rand_int"@ || name
        == "rand_char"@ || name == "shuffle"@ || name == "sample"@ || name == "write"@ || name
        == "open_dir"@
}

/// Whether an `open_file` call with `arg_count` arguments and the literal
/// mode `mode` (`None` when the mode is computed) opens for writing: with no
/// mode it creates or truncates, and a mode with `w`, `a`, `+` or `x` writes.
pub open spec fn writes(arg_count: nat, mode: Option<Seq<char>>) -> bool {
    arg_count <= 1 || match mode {
        Some(m) => m.contains('w') || m.contains('a') || m.contains('+') || m.contains('x'),
        None => true,
    }
}

/// Whether an `open_file` call opens for writing.
pub fn write_mode(arg_count: usize, mode: Option<&str>) -> (r: bool)
    ensures
        r == writes(
            arg_count as nat,
            match mode {
                Some(m) => Some(m@),
                None => None,
            },
        ),
{
    if arg_count <= 1 {
        return true;
    }
    match mode {
        None => true,
        Some(m) => {
            let v = chars_of(m);
            let mut i: usize = 0;
            while i < v.len()
                invariant
                    i <= v.len(),
                    v@ == m@,
                    mode == Some(m),
                    arg_count > 1,
                    forall|j: int|
                        0 <= j < i ==> v@[j] != 'w' && v@[j] != 'a' && v@[j] != '+' && v@[j] != 'x',
                decreases v.len() - i,
            {
                let c = v[i];
                if c == 'w' || c == 'a' || c == '+' || c == 'x' {
                    assert(v@.contains(c));
                    return true;
                }
                i += 1;
            }
            assert(!v@.contains('w') && !v@.contains('a') && !v@.contains('+') && !v@.contains('x'));
            false
        },
    }
}

/// The impurity of one call: a write-mode `open_file`, a call of an impure
/// host function, or none.
pub open spec fn call_impurity_spec(name: Seq<char>, arg_count: nat, mode: Option<Seq<char>>) -> Option<
    Seq<char>,
> {
    if name == "open_file"@ {
        if writes(arg_count, mode) {
            Some("a file write"@)
        } else {
            None
        }
    } else if impure_name(name) {
        Some("`"@ + name + "`"@)
    } else {
        None
    }
}

/// Classify one call by its name, its argument count, and its literal mode
/// argument if it has one.
pub fn call_impurity(name: &str, arg_count: usize, mode: Option<&str>) -> (r: Option<Impurity>)
    ensures
        name@ == "open_file"@ ==> (r == if writes(
            arg_count as nat,
            match mode {
                Some(m) => Some(m@),
                None => None,
            },
        ) {
            Some(Impurity::WritesAFile)
        } else {
            None
        }),
        name@ != "open_file"@ && impure_name(name@) ==> (r matches Some(Impurity::Calls(n)) && n@
            == name@),
        name@ != "open_file"@ && !impure_name(name@) ==> r is None,
{
    if str_eq(name, "open_file") {
        return if write_mode(arg_count, mode) {
            Some(Impurity::WritesAFile)
        } else {
            None
        };
    }
    if str_eq(name, "rand") || str_eq(name, "rand_float") || str_eq(name, "rand_bool") || str_eq(
        name,
        "rand_int",
    ) || str_eq(name, "rand_char") || str_eq(name, "shuffle") || str_eq(name, "sample") || str_eq(
        name,
        "write",
    ) || str_eq(name, "open_dir") {
        return Some(Impurity::Calls(string_of(&chars_of(name))));
    }
    None
}

} // verus!
