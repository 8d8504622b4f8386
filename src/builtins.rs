use vstd::prelude::*;
use crate::text::same_text;

verus! {

/// The commands that the interpreter carries out itself.
#[derive(Clone, Copy, Debug, PartialEq, Eq, Structural)]
pub enum Builtin {
    Exit,
    Echo,
    Type,
    Pwd,
    Cd,
}

/// The reserved name of each builtin.
pub open spec fn builtin_name(b: Builtin) -> Seq<char> {
    match b {
        Builtin::Exit => "exit"@,
        Builtin::Echo => "echo"@,
        Builtin::Type => "type"@,
        Builtin::Pwd => "pwd"@,
        Builtin::Cd => "cd"@,
    }
}

/// The builtin that a name reserves, if any: an exact, case-sensitive match.
pub open spec fn builtin_of(name: Seq<char>) -> Option<Builtin> {
    if name == "exit"@ {
        Some(Builtin::Exit)
    } else if name == "echo"@ {
        Some(Builtin::Echo)
    } else if name == "type"@ {
        Some(Builtin::Type)
    } else if name == "pwd"@ {
        Some(Builtin::Pwd)
    } else if name == "cd"@ {
        Some(Builtin::Cd)
    } else {
        None
    }
}

/// Looks a name up in the fixed set of builtins.
pub fn describe(name: &str) -> (r: Option<Builtin>)
    ensures
        r == builtin_of(name@),
{
    if same_text(name, "exit") {
        Some(Builtin::Exit)
    } else if same_text(name, "echo") {
        Some(Builtin::Echo)
    } else if same_text(name, "type") {
        Some(Builtin::Type)
    } else if same_text(name, "pwd") {
        Some(Builtin::Pwd)
    } else if same_text(name, "cd") {
        Some(Builtin::Cd)
    } else {
        None
    }
}

/// Whether a name is reserved for a builtin.
pub fn is_builtin(name: &str) -> (r: bool)
    ensures
        r == builtin_of(name@).is_some(),
{
    describe(name).is_some()
}

} // verus!
