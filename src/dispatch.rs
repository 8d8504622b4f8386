use vstd::prelude::*;
use crate::builtins::{builtin_of, builtin_name, describe, Builtin};
use crate::search::{accepted, lemma_resolution_none, resolution, resolve, Candidate};
use crate::text::{join, join_with};

verus! {

/// `<name>: command not found`
pub open spec fn command_not_found_spec(name: Seq<char>) -> Seq<char> {
    name + ": command not found"@
}

/// `<name> is a shell builtin`
pub open spec fn builtin_line_spec(name: Seq<char>) -> Seq<char> {
    name + " is a shell builtin"@
}

/// `<name> is <path>`
pub open spec fn located_line_spec(name: Seq<char>, path: Seq<char>) -> Seq<char> {
    name + " is "@ + path
}

/// `<name>: not found`
pub open spec fn missing_line_spec(name: Seq<char>) -> Seq<char> {
    name + ": not found"@
}

/// What `type <name>` reports, given where the search path resolves the name.
pub open spec fn type_line_spec(name: Seq<char>, found: Option<Seq<char>>) -> Seq<char> {
    if builtin_of(name) is Some {
        builtin_line_spec(name)
    } else {
        match found {
            Some(path) => located_line_spec(name, path),
            None => missing_line_spec(name),
        }
    }
}

/// The line reported for a command that resolves nowhere.
pub fn command_not_found(name: &str) -> (r: String)
    ensures
        r@ == command_not_found_spec(name@),
{
    let mut r = String::from_str(name);
    r.append(": command not found");
    r
}

/// The line that `type` reports for a name, given where the search path resolves it.
/// A builtin name is reported as such whatever the search path holds.
pub fn type_line(name: &str, found: Option<String>) -> (r: String)
    ensures
        r@ == type_line_spec(name@, found.deep_view()),
{
    let mut r = String::from_str(name);
    if describe(name).is_some() {
        r.append(" is a shell builtin");
    } else {
        match found {
            Some(path) => {
                r.append(" is ");
                r.append(path.as_str());
            },
            None => {
                r.append(": not found");
            },
        }
    }
    r
}

/// `type <name>`, with the search path probed for the name.
pub fn handle_type(name: &str, cands: &Vec<Candidate>) -> (r: String)
    ensures
        r@ == type_line_spec(name@, resolution(cands@)),
{
    let found = resolve(cands);
    type_line(name, found)
}

/// What the output of `echo` is for its arguments: the arguments joined by single spaces.
pub open spec fn echo_spec(args: Seq<Seq<char>>) -> Seq<char> {
    join(args, " "@)
}

/// The line that `echo` writes: the arguments joined by single spaces, empty
/// when there are none.
pub fn handle_echo(args: &Vec<String>) -> (r: String)
    ensures
        r@ == echo_spec(args.deep_view()),
{
    join_with(args, " ")
}

/// What the interpreter does next for one parsed input line.
#[derive(Debug, PartialEq, Eq)]
pub enum Action {
    /// A blank line, or a builtin without the operand it needs: nothing happens.
    Nothing,
    /// Terminate the interpreter with status 0.
    Exit,
    /// Write this line to standard output.
    Print(String),
    /// Write the working directory.
    PrintWorkingDir,
    /// Change the working directory as this operand of `cd` says.
    ChangeDir(String),
    /// Report where the search path resolves this non-builtin name.
    Locate(String),
    /// Resolve this command on the search path and run it with these arguments.
    Run(String, Vec<String>),
}

/// The action for a command name and its arguments.
pub open spec fn action_spec(name: Seq<char>, args: Seq<Seq<char>>) -> ActionView {
    if name.len() == 0 {
        ActionView::Nothing
    } else {
        match builtin_of(name) {
            Some(Builtin::Exit) => ActionView::Exit,
            Some(Builtin::Echo) => ActionView::Print(echo_spec(args)),
            Some(Builtin::Pwd) => ActionView::PrintWorkingDir,
            Some(Builtin::Cd) => if args.len() == 0 {
                ActionView::Nothing
            } else {
                ActionView::ChangeDir(args[0])
            },
            Some(Builtin::Type) => if args.len() == 0 {
                ActionView::Nothing
            } else if builtin_of(args[0]) is Some {
                ActionView::Print(builtin_line_spec(args[0]))
            } else {
                ActionView::Locate(args[0])
            },
            None => ActionView::Run(name, args),
        }
    }
}

/// An action with its texts as character sequences.
pub enum ActionView {
    Nothing,
    Exit,
    Print(Seq<char>),
    PrintWorkingDir,
    ChangeDir(Seq<char>),
    Locate(Seq<char>),
    Run(Seq<char>, Seq<Seq<char>>),
}

impl View for Action {
    type V = ActionView;

    open spec fn view(&self) -> ActionView {
        match self {
            Action::Nothing => ActionView::Nothing,
            Action::Exit => ActionView::Exit,
            Action::Print(s) => ActionView::Print(s@),
            Action::PrintWorkingDir => ActionView::PrintWorkingDir,
            Action::ChangeDir(s) => ActionView::ChangeDir(s@),
            Action::Locate(s) => ActionView::Locate(s@),
            Action::Run(s, a) => ActionView::Run(s@, a.deep_view()),
        }
    }
}

/// Decides what a parsed input line asks for: a builtin, or an external command.
pub fn command_matcher(name: &str, args: Vec<String>) -> (r: Action)
    ensures
        r@ == action_spec(name@, args.deep_view()),
{
    if name.unicode_len() == 0 {
        return Action::Nothing;
    }
    match describe(name) {
        Some(Builtin::Exit) => Action::Exit,
        Some(Builtin::Echo) => Action::Print(handle_echo(&args)),
        Some(Builtin::Pwd) => Action::PrintWorkingDir,
        Some(Builtin::Cd) => {
            if args.len() == 0 {
                Action::Nothing
            } else {
                Action::ChangeDir(args[0].clone())
            }
        },
        Some(Builtin::Type) => {
            if args.len() == 0 {
                Action::Nothing
            } else if describe(args[0].as_str()).is_some() {
                Action::Print(type_line(args[0].as_str(), None))
            } else {
                Action::Locate(args[0].clone())
            }
        },
        None => Action::Run(String::from_str(name), args),
    }
}

/// `type` on any of the reserved names reports it as a shell builtin, whatever
/// the search path holds, and `type <name>` as a command prints that line.
pub proof fn law_type_reports_builtins(
    b: Builtin,
    found: Option<Seq<char>>,
    rest: Seq<Seq<char>>,
)
    ensures
        type_line_spec(builtin_name(b), found) == builtin_line_spec(builtin_name(b)),
        action_spec("type"@, seq![builtin_name(b)] + rest) == ActionView::Print(
            builtin_line_spec(builtin_name(b)),
        ),
{
    reveal_strlit("exit");
    reveal_strlit("echo");
    reveal_strlit("type");
    reveal_strlit("pwd");
    reveal_strlit("cd");
    assert("type"@[0] != "exit"@[0]);
    assert("type"@[0] != "echo"@[0]);
    assert(builtin_of("type"@) == Some(Builtin::Type));
    let args = seq![builtin_name(b)] + rest;
    assert(args.len() > 0);
    assert(args[0] == builtin_name(b));
    assert(builtin_of(builtin_name(b)) is Some);
}

/// Asking `type` about a builtin twice gives the same line both times: the answer
/// depends on the name alone, not on any state or search outcome.
pub proof fn law_type_builtin_repeatable(
    b: Builtin,
    first: Option<Seq<char>>,
    second: Option<Seq<char>>,
)
    ensures
        type_line_spec(builtin_name(b), first) == type_line_spec(builtin_name(b), second),
        action_spec("type"@, seq![builtin_name(b)]) == action_spec("type"@, seq![builtin_name(b)]),
{
    law_type_reports_builtins(b, first, Seq::empty());
    law_type_reports_builtins(b, second, Seq::empty());
}

/// A name that no search-path directory holds as an executable resolves to
/// nothing; `type` then reports it not found, and as a command it is run only
/// to be reported as not found.
pub proof fn law_unresolved_name(cs: Seq<Candidate>, name: Seq<char>, args: Seq<Seq<char>>)
    requires
        forall|k: int| 0 <= k < cs.len() ==> !accepted(#[trigger] cs[k].probe),
        builtin_of(name) is None,
        name.len() > 0,
    ensures
        resolution(cs) is None,
        type_line_spec(name, resolution(cs)) == missing_line_spec(name),
        action_spec(name, args) == ActionView::Run(name, args),
{
    lemma_resolution_none(cs);
}

} // verus!
