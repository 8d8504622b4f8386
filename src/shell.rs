use vstd::prelude::*;
use crate::text::{
    fields, join, join_with, lemma_tokens_plain, non_empty, same_text, separates, split_tokens, tokens,
    Separator,
};

verus! {

/// A path component that names a directory entry: not empty, without `/`, and
/// neither `.` nor `..`.
pub open spec fn plain_component(c: Seq<char>) -> bool {
    &&& c.len() > 0
    &&& forall|k: int| 0 <= k < c.len() ==> c[k] != '/'
    &&& c != "."@
    &&& c != ".."@
}

/// A working directory, as the components of an absolute path.
pub open spec fn well_formed_dirs(ds: Seq<Seq<char>>) -> bool {
    forall|i: int| 0 <= i < ds.len() ==> plain_component(#[trigger] ds[i])
}

/// One component of a path, taken from the directory `ds`.
pub open spec fn step(ds: Seq<Seq<char>>, c: Seq<char>) -> Seq<Seq<char>> {
    if c == "."@ {
        ds
    } else if c == ".."@ {
        if ds.len() == 0 {
            ds
        } else {
            ds.drop_last()
        }
    } else {
        ds.push(c)
    }
}

/// The directory reached from `base` by following the components `cs` in order.
pub open spec fn walk(base: Seq<Seq<char>>, cs: Seq<Seq<char>>) -> Seq<Seq<char>>
    decreases cs.len(),
{
    if cs.len() == 0 {
        base
    } else {
        step(walk(base, cs.drop_last()), cs.last())
    }
}

/// The text of an absolute path: `/` followed by the components joined by `/`.
pub open spec fn render(ds: Seq<Seq<char>>) -> Seq<char> {
    seq!['/'] + join(ds, seq!['/'])
}

/// Whether a path starts at the root.
pub open spec fn absolute(p: Seq<char>) -> bool {
    p.len() > 0 && p[0] == '/'
}

/// The directory that a path names, seen from the working directory `cwd`.
pub open spec fn locate(cwd: Seq<Seq<char>>, p: Seq<char>) -> Seq<Seq<char>> {
    walk(if absolute(p) { Seq::empty() } else { cwd }, tokens(p, Separator::Char('/')))
}

/// A `cd` operand with a leading `~` replaced by the home directory: `~` alone or
/// `~/...`; `~user` forms and operands without `~` are kept as they are, and so is
/// everything when no home directory is known.
pub open spec fn expand_home_spec(arg: Seq<char>, home: Option<Seq<char>>) -> Seq<char> {
    match home {
        Some(h) => if arg == seq!['~'] {
            h
        } else if arg.len() >= 2 && arg[0] == '~' && arg[1] == '/' {
            h + arg.drop_first()
        } else {
            arg
        },
        None => arg,
    }
}

/// `cd: <path>: No such file or directory`
pub open spec fn cd_error_spec(path: Seq<char>) -> Seq<char> {
    "cd: "@ + path + ": No such file or directory"@
}

proof fn lemma_step_keeps(ds: Seq<Seq<char>>, c: Seq<char>)
    requires
        well_formed_dirs(ds),
        c.len() > 0,
        forall|k: int| 0 <= k < c.len() ==> c[k] != '/',
    ensures
        well_formed_dirs(step(ds, c)),
{
    let r = step(ds, c);
    if c != "."@ && c != ".."@ {
        assert forall|i: int| 0 <= i < r.len() implies plain_component(#[trigger] r[i]) by {
            if i < ds.len() {
                assert(r[i] == ds[i]);
            }
        }
    } else if c == ".."@ && ds.len() > 0 {
        assert forall|i: int| 0 <= i < r.len() implies plain_component(#[trigger] r[i]) by {
            assert(r[i] == ds[i]);
        }
    }
}

proof fn lemma_walk_keeps(base: Seq<Seq<char>>, cs: Seq<Seq<char>>)
    requires
        well_formed_dirs(base),
        forall|i: int|
            0 <= i < cs.len() ==> (#[trigger] cs[i]).len() > 0 && forall|k: int|
                0 <= k < cs[i].len() ==> cs[i][k] != '/',
    ensures
        well_formed_dirs(walk(base, cs)),
    decreases cs.len(),
{
    if cs.len() > 0 {
        let pre = cs.drop_last();
        assert forall|i: int| 0 <= i < pre.len() implies (#[trigger] pre[i]).len() > 0 && forall|
            k: int,
        |
            0 <= k < pre[i].len() ==> pre[i][k] != '/' by {
            assert(pre[i] == cs[i]);
        }
        lemma_walk_keeps(base, pre);
        assert(cs[cs.len() - 1] == cs.last());
        lemma_step_keeps(walk(base, pre), cs.last());
    }
}

/// Following a path from a well-formed directory gives a well-formed directory.
pub proof fn lemma_locate_keeps(cwd: Seq<Seq<char>>, p: Seq<char>)
    requires
        well_formed_dirs(cwd),
    ensures
        well_formed_dirs(locate(cwd, p)),
{
    let ts = tokens(p, Separator::Char('/'));
    lemma_tokens_plain(p, Separator::Char('/'));
    assert forall|i: int| 0 <= i < ts.len() implies (#[trigger] ts[i]).len() > 0 && forall|k: int|
        0 <= k < ts[i].len() ==> ts[i][k] != '/' by {
        assert forall|k: int| 0 <= k < ts[i].len() implies ts[i][k] != '/' by {
            assert(!separates(Separator::Char('/'), ts[i][k]));
        }
    }
    lemma_walk_keeps(if absolute(p) { Seq::empty() } else { cwd }, ts);
}

proof fn lemma_fields_after_slash(s: Seq<char>, x: Seq<char>)
    requires
        forall|k: int| 0 <= k < x.len() ==> x[k] != '/',
    ensures
        fields(s + seq!['/'] + x, Separator::Char('/')) == fields(s, Separator::Char('/')).push(x),
    decreases x.len(),
{
    let sep = Separator::Char('/');
    if x.len() == 0 {
        let t = s.push('/');
        assert(s + seq!['/'] + x =~= t);
        assert(t.drop_last() =~= s);
        assert(t.last() == '/');
        assert(separates(sep, t.last()));
        assert(x =~= Seq::<char>::empty());
        assert(fields(t, sep) == fields(s, sep).push(Seq::<char>::empty()));
    } else {
        let y = x.drop_last();
        assert forall|k: int| 0 <= k < y.len() implies y[k] != '/' by {
            assert(y[k] == x[k]);
        }
        lemma_fields_after_slash(s, y);
        let t = s + seq!['/'] + x;
        assert(t.drop_last() =~= s + seq!['/'] + y);
        assert(t.last() == x.last());
        assert(x[x.len() - 1] == x.last());
        assert(y.push(x.last()) =~= x);
        let f = fields(s, sep);
        assert(!separates(sep, t.last()));
        let rest = fields(t.drop_last(), sep);
        assert(rest == f.push(y));
        assert(rest.len() - 1 == f.len());
        assert(rest.last() == y);
        assert(fields(t, sep) == rest.update(rest.len() - 1, rest.last().push(t.last())));
        assert(f.push(y).update(f.len() as int, y.push(x.last())) =~= f.push(x));
    }
}

proof fn lemma_fields_render(ds: Seq<Seq<char>>)
    requires
        well_formed_dirs(ds),
        ds.len() > 0,
    ensures
        fields(render(ds), Separator::Char('/')) == seq![Seq::<char>::empty()] + ds,
    decreases ds.len(),
{
    let sep = Separator::Char('/');
    let x = ds.last();
    assert(ds[ds.len() - 1] == x);
    assert(plain_component(x));
    if ds.len() == 1 {
        assert(render(ds) =~= Seq::<char>::empty() + seq!['/'] + x);
        lemma_fields_after_slash(Seq::<char>::empty(), x);
        assert(fields(Seq::<char>::empty(), sep) == seq![Seq::<char>::empty()]);
        assert(seq![Seq::<char>::empty()].push(x) =~= seq![Seq::<char>::empty()] + ds);
    } else {
        let pre = ds.drop_last();
        assert forall|i: int| 0 <= i < pre.len() implies plain_component(#[trigger] pre[i]) by {
            assert(pre[i] == ds[i]);
        }
        lemma_fields_render(pre);
        assert(render(ds) =~= render(pre) + seq!['/'] + x);
        lemma_fields_after_slash(render(pre), x);
        assert((seq![Seq::<char>::empty()] + pre).push(x) =~= seq![Seq::<char>::empty()] + ds);
    }
}

proof fn lemma_non_empty_all(ds: Seq<Seq<char>>)
    requires
        well_formed_dirs(ds),
    ensures
        non_empty(seq![Seq::<char>::empty()] + ds) == ds,
    decreases ds.len(),
{
    let fs = seq![Seq::<char>::empty()] + ds;
    if ds.len() == 0 {
        assert(fs.last() == Seq::<char>::empty());
        assert(fs.drop_last() =~= Seq::<Seq<char>>::empty());
        assert(non_empty(fs) == non_empty(fs.drop_last()));
        assert(ds =~= Seq::<Seq<char>>::empty());
    } else {
        let pre = ds.drop_last();
        assert forall|i: int| 0 <= i < pre.len() implies plain_component(#[trigger] pre[i]) by {
            assert(pre[i] == ds[i]);
        }
        lemma_non_empty_all(pre);
        assert(fs.drop_last() =~= seq![Seq::<char>::empty()] + pre);
        assert(fs.last() == ds[ds.len() - 1]);
        assert(plain_component(ds[ds.len() - 1]));
        assert(fs.last().len() > 0);
        assert(non_empty(fs) == non_empty(fs.drop_last()).push(fs.last()));
        assert(pre.push(ds.last()) =~= ds);
    }
}

/// The components of a rendered path are the directory's own.
pub proof fn lemma_tokens_render(ds: Seq<Seq<char>>)
    requires
        well_formed_dirs(ds),
    ensures
        tokens(render(ds), Separator::Char('/')) == ds,
{
    if ds.len() == 0 {
        assert(render(ds) =~= seq!['/']);
        assert(seq!['/'].drop_last() =~= Seq::<char>::empty());
        let sep = Separator::Char('/');
        assert(seq!['/'].last() == '/');
        assert(separates(sep, '/'));
        assert(fields(Seq::<char>::empty(), sep) == seq![Seq::<char>::empty()]);
        let f = fields(seq!['/'], sep);
        assert(f == seq![Seq::<char>::empty()].push(Seq::<char>::empty()));
        assert(f.last() == Seq::<char>::empty());
        assert(f.drop_last() =~= seq![Seq::<char>::empty()]);
        assert(f.drop_last().last() == Seq::<char>::empty());
        assert(f.drop_last().drop_last() =~= Seq::<Seq<char>>::empty());
        assert(non_empty(f.drop_last()) == non_empty(f.drop_last().drop_last()));
        assert(non_empty(f) == non_empty(f.drop_last()));
        assert(ds =~= Seq::<Seq<char>>::empty());
    } else {
        lemma_fields_render(ds);
        lemma_non_empty_all(ds);
    }
}

proof fn lemma_walk_plain(base: Seq<Seq<char>>, ds: Seq<Seq<char>>)
    requires
        well_formed_dirs(ds),
    ensures
        walk(base, ds) == base + ds,
    decreases ds.len(),
{
    if ds.len() == 0 {
        assert(base + ds =~= base);
    } else {
        let pre = ds.drop_last();
        assert forall|i: int| 0 <= i < pre.len() implies plain_component(#[trigger] pre[i]) by {
            assert(pre[i] == ds[i]);
        }
        lemma_walk_plain(base, pre);
        assert(plain_component(ds[ds.len() - 1]));
        assert((base + pre).push(ds.last()) =~= base + ds);
    }
}

/// Going to the rendered path of a well-formed directory, from anywhere, lands
/// in that directory.
pub proof fn lemma_locate_render(cwd: Seq<Seq<char>>, ds: Seq<Seq<char>>)
    requires
        well_formed_dirs(ds),
    ensures
        locate(cwd, render(ds)) == ds,
{
    lemma_tokens_render(ds);
    assert(render(ds)[0] == '/');
    lemma_walk_plain(Seq::empty(), ds);
    assert(Seq::<Seq<char>>::empty() + ds =~= ds);
}

/// The interpreter's state: its working directory.
pub struct Shell {
    dirs: Vec<String>,
}

impl View for Shell {
    type V = Seq<Seq<char>>;

    /// The components of the working directory, from the root down.
    closed spec fn view(&self) -> Seq<Seq<char>> {
        self.dirs.deep_view()
    }
}

fn step_exec(dirs: &mut Vec<String>, c: &str)
    ensures
        final(dirs).deep_view() == step(old(dirs).deep_view(), c@),
{
    if same_text(c, ".") {
    } else if same_text(c, "..") {
        if dirs.len() > 0 {
            let ghost before = dirs.deep_view();
            dirs.pop();
            assert(dirs.deep_view() =~= before.drop_last());
        }
    } else {
        let ghost before = dirs.deep_view();
        dirs.push(String::from_str(c));
        assert(dirs.deep_view() =~= before.push(c@));
    }
}

fn walk_exec(dirs: &mut Vec<String>, cs: &Vec<String>)
    ensures
        final(dirs).deep_view() == walk(old(dirs).deep_view(), cs.deep_view()),
{
    let ghost base = dirs.deep_view();
    let mut i: usize = 0;
    while i < cs.len()
        invariant
            i <= cs.len(),
            dirs.deep_view() == walk(base, cs.deep_view().subrange(0, i as int)),
        decreases cs.len() - i,
    {
        let ghost pre = cs.deep_view().subrange(0, i as int);
        let ghost next = cs.deep_view().subrange(0, i + 1);
        assert(next.drop_last() =~= pre);
        assert(next.last() == cs[i as int]@);
        step_exec(dirs, cs[i].as_str());
        i = i + 1;
    }
    assert(cs.deep_view().subrange(0, cs.len() as int) =~= cs.deep_view());
}

fn is_absolute(p: &str) -> (r: bool)
    ensures
        r == absolute(p@),
{
    p.unicode_len() > 0 && p.get_char(0) == '/'
}

fn locate_exec(dirs: &Vec<String>, p: &str) -> (r: Vec<String>)
    ensures
        r.deep_view() == locate(dirs.deep_view(), p@),
{
    let parts = split_tokens(p, Separator::Char('/'));
    let mut out: Vec<String> = if is_absolute(p) {
        Vec::new()
    } else {
        dirs.clone()
    };
    proof {
        if !absolute(p@) {
            assert(out.deep_view() =~= dirs.deep_view());
        } else {
            assert(out.deep_view() =~= Seq::<Seq<char>>::empty());
        }
    }
    walk_exec(&mut out, &parts);
    out
}

fn render_exec(dirs: &Vec<String>) -> (r: String)
    ensures
        r@ == render(dirs.deep_view()),
{
    proof {
        reveal_strlit("/");
    }
    let mut r = String::from_str("/");
    let joined = join_with(dirs, "/");
    r.append(joined.as_str());
    assert("/"@ =~= seq!['/']);
    r
}

impl Shell {
    /// The state of an interpreter whose working directory is at the path `cwd`,
    /// taken from the root.
    pub fn starting_at(cwd: &str) -> (r: Shell)
        ensures
            r@ == locate(Seq::empty(), cwd@),
            well_formed_dirs(r@),
    {
        let none: Vec<String> = Vec::new();
        let dirs = locate_exec(&none, cwd);
        proof {
            assert(none.deep_view() =~= Seq::<Seq<char>>::empty());
            lemma_locate_keeps(Seq::empty(), cwd@);
        }
        Shell { dirs }
    }
}

/// The working directory as an absolute path, as `pwd` writes it.
pub fn handle_print_working_directory(shell: &Shell) -> (r: String)
    ensures
        r@ == render(shell@),
{
    render_exec(&shell.dirs)
}

/// Replaces a leading `~` of a `cd` operand by the home directory.
pub fn expand_home(arg: &str, home: &Option<String>) -> (r: String)
    ensures
        r@ == expand_home_spec(arg@, home.deep_view()),
{
    match home {
        Some(h) => {
            let n = arg.unicode_len();
            proof {
                reveal_strlit("~");
            }
            if same_text(arg, "~") {
                assert("~"@ =~= seq!['~']);
                h.clone()
            } else if n >= 2 && arg.get_char(0) == '~' && arg.get_char(1) == '/' {
                assert("~"@ =~= seq!['~']);
                let mut r = h.clone();
                r.append(arg.substring_char(1, n));
                assert(arg@.subrange(1, n as int) =~= arg@.drop_first());
                r
            } else {
                assert("~"@ =~= seq!['~']);
                String::from_str(arg)
            }
        },
        None => String::from_str(arg),
    }
}

/// The absolute path that `cd <arg>` asks the system to enter.
pub fn cd_target(shell: &Shell, arg: &str, home: &Option<String>) -> (r: String)
    ensures
        r@ == render(locate(shell@, expand_home_spec(arg@, home.deep_view()))),
{
    let path = expand_home(arg, home);
    let dirs = locate_exec(&shell.dirs, path.as_str());
    render_exec(&dirs)
}

/// Completes `cd <arg>` once the system has tried to enter its target: on success
/// the working directory becomes the target, otherwise it stays as it was and the
/// error line is returned.
pub fn handle_cd(shell: &mut Shell, arg: &str, home: &Option<String>, entered: bool) -> (r:
    Option<String>)
    requires
        well_formed_dirs(old(shell)@),
    ensures
        well_formed_dirs(final(shell)@),
        entered ==> r is None && final(shell)@ == locate(
            old(shell)@,
            expand_home_spec(arg@, home.deep_view()),
        ),
        !entered ==> final(shell)@ == old(shell)@,
        !entered ==> r.deep_view() == Some(cd_error_spec(expand_home_spec(arg@, home.deep_view()))),
{
    let path = expand_home(arg, home);
    if entered {
        let dirs = locate_exec(&shell.dirs, path.as_str());
        proof {
            lemma_locate_keeps(shell@, path@);
        }
        shell.dirs = dirs;
        None
    } else {
        let mut line = String::from_str("cd: ");
        line.append(path.as_str());
        line.append(": No such file or directory");
        Some(line)
    }
}

/// Going back: after `cd A`, whether or not it succeeded, a `cd` to the path that
/// `pwd` showed before, once the system has entered it, restores the working
/// directory, and `pwd` shows the same path again.
pub proof fn law_cd_round_trip(
    start: Seq<Seq<char>>,
    a: Seq<char>,
    home: Option<Seq<char>>,
    first_entered: bool,
)
    requires
        well_formed_dirs(start),
    ensures
        ({
            let mid = if first_entered {
                locate(start, expand_home_spec(a, home))
            } else {
                start
            };
            let back = locate(mid, expand_home_spec(render(start), home));
            back == start && render(back) == render(start)
        }),
{
    let p = render(start);
    assert(p[0] == '/');
    assert(expand_home_spec(p, home) == p);
    let mid = if first_entered {
        locate(start, expand_home_spec(a, home))
    } else {
        start
    };
    lemma_locate_render(mid, start);
}

/// `cd ~`, once entered, puts the working directory at the home directory, when
/// that is a normalised absolute path: `pwd` then shows it exactly.
pub proof fn law_cd_home(cwd: Seq<Seq<char>>, home_dirs: Seq<Seq<char>>)
    requires
        well_formed_dirs(home_dirs),
    ensures
        locate(cwd, expand_home_spec(seq!['~'], Some(render(home_dirs)))) == home_dirs,
        render(locate(cwd, expand_home_spec(seq!['~'], Some(render(home_dirs))))) == render(
            home_dirs,
        ),
{
    lemma_locate_render(cwd, home_dirs);
}

} // verus!
