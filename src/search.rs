use vstd::prelude::*;
use crate::text::{split_tokens, tokens, Separator};

verus! {

/// The directories that a search-path value names, in order; empty entries are skipped.
pub open spec fn search_dirs_spec(path_var: Seq<char>) -> Seq<Seq<char>> {
    tokens(path_var, Separator::Char(':'))
}

/// The path at which a command would stand in a directory.
pub open spec fn candidate_spec(dir: Seq<char>, name: Seq<char>) -> Seq<char> {
    dir + seq!['/'] + name
}

/// The candidate path in each directory of the search path, in order.
pub open spec fn candidates_spec(path_var: Seq<char>, name: Seq<char>) -> Seq<Seq<char>> {
    search_dirs_spec(path_var).map_values(|d: Seq<char>| candidate_spec(d, name))
}

/// Splits a search-path value into its directories.
pub fn search_dirs(path_var: &str) -> (r: Vec<String>)
    ensures
        r.deep_view() == search_dirs_spec(path_var@),
{
    split_tokens(path_var, Separator::Char(':'))
}

/// The path of `name` inside `dir`.
pub fn candidate_path(dir: &str, name: &str) -> (r: String)
    ensures
        r@ == candidate_spec(dir@, name@),
{
    let mut r = String::from_str(dir);
    r.append("/");
    proof {
        reveal_strlit("/");
    }
    r.append(name);
    r
}

/// The places to probe for `name`, one for each directory of the search path.
pub fn candidate_paths(path_var: &str, name: &str) -> (r: Vec<String>)
    ensures
        r.deep_view() == candidates_spec(path_var@, name@),
{
    let dirs = search_dirs(path_var);
    let mut out: Vec<String> = Vec::new();
    let mut i: usize = 0;
    while i < dirs.len()
        invariant
            i <= dirs.len(),
            dirs.deep_view() == search_dirs_spec(path_var@),
            out.deep_view() =~= dirs.deep_view().subrange(0, i as int).map_values(
                |d: Seq<char>| candidate_spec(d, name@),
            ),
        decreases dirs.len() - i,
    {
        let p = candidate_path(dirs[i].as_str(), name);
        let ghost old_out = out.deep_view();
        out.push(p);
        assert(out.deep_view() =~= old_out.push(p@));
        assert(dirs.deep_view().subrange(0, i + 1) =~= dirs.deep_view().subrange(0, i as int).push(
            dirs[i as int]@,
        ));
        i = i + 1;
    }
    assert(dirs.deep_view().subrange(0, dirs.len() as int) =~= dirs.deep_view());
    out
}

/// What the file system showed at a candidate path.
#[derive(Clone, Copy, Debug, PartialEq, Eq, Structural)]
pub enum Probe {
    /// Nothing exists there.
    Absent,
    /// Something exists, but its metadata could not be read.
    Unreadable,
    /// Something exists, with these permission bits.
    Mode(u32),
}

/// Whether a permission mode has at least one execute bit (owner, group or other).
pub open spec fn executable_mode(mode: u32) -> bool {
    mode & 0o111u32 != 0
}

/// Whether a probe shows an executable entry.
pub open spec fn accepted(p: Probe) -> bool {
    match p {
        Probe::Mode(m) => executable_mode(m),
        _ => false,
    }
}

/// Tests a permission mode for an execute bit.
pub fn has_exec_bit(mode: u32) -> (r: bool)
    ensures
        r == executable_mode(mode),
{
    mode & 0o111u32 != 0
}

/// Tests whether a probe shows an executable entry.
pub fn is_accepted(p: Probe) -> (r: bool)
    ensures
        r == accepted(p),
{
    match p {
        Probe::Mode(m) => has_exec_bit(m),
        _ => false,
    }
}

/// A candidate path and what probing it showed.
pub struct Candidate {
    pub path: String,
    pub probe: Probe,
}

/// The path of the first accepted candidate, if any.
pub open spec fn resolution(cs: Seq<Candidate>) -> Option<Seq<char>>
    decreases cs.len(),
{
    if cs.len() == 0 {
        None
    } else if accepted(cs[0].probe) {
        Some(cs[0].path@)
    } else {
        resolution(cs.drop_first())
    }
}

proof fn lemma_resolution_prefix(cs: Seq<Candidate>, i: int)
    requires
        0 <= i < cs.len(),
        forall|k: int| 0 <= k < i ==> !accepted(#[trigger] cs[k].probe),
    ensures
        resolution(cs) == resolution(cs.subrange(i, cs.len() as int)),
    decreases i,
{
    if i == 0 {
        assert(cs.subrange(0, cs.len() as int) =~= cs);
    } else {
        assert(!accepted(cs[0].probe));
        let rest = cs.drop_first();
        assert forall|k: int| 0 <= k < i - 1 implies !accepted(#[trigger] rest[k].probe) by {
            assert(rest[k] == cs[k + 1]);
        }
        lemma_resolution_prefix(rest, i - 1);
        assert(rest.subrange(i - 1, rest.len() as int) =~= cs.subrange(i, cs.len() as int));
    }
}

/// With no accepted candidate there is no resolution.
pub proof fn lemma_resolution_none(cs: Seq<Candidate>)
    requires
        forall|k: int| 0 <= k < cs.len() ==> !accepted(#[trigger] cs[k].probe),
    ensures
        resolution(cs) is None,
    decreases cs.len(),
{
    if cs.len() > 0 {
        assert(!accepted(cs[0].probe));
        let rest = cs.drop_first();
        assert forall|k: int| 0 <= k < rest.len() implies !accepted(#[trigger] rest[k].probe) by {
            assert(rest[k] == cs[k + 1]);
        }
        lemma_resolution_none(rest);
    }
}

/// The executable that a command name resolves to: the first candidate, in
/// search-path order, that exists and has an execute bit.
pub fn resolve(cands: &Vec<Candidate>) -> (r: Option<String>)
    ensures
        r.deep_view() == resolution(cands@),
{
    let mut i: usize = 0;
    while i < cands.len()
        invariant
            i <= cands.len(),
            forall|k: int| 0 <= k < i ==> !accepted(#[trigger] cands@[k].probe),
        decreases cands.len() - i,
    {
        if is_accepted(cands[i].probe) {
            proof {
                lemma_resolution_prefix(cands@, i as int);
            }
            return Some(cands[i].path.clone());
        }
        i = i + 1;
    }
    proof {
        lemma_resolution_none(cands@);
    }
    None
}

/// Shadowing: when an earlier directory and a later one both hold an executable
/// match, the later one has no say. The answer is the one the search gives when
/// it stops at the earlier directory, and it is that directory's path when no
/// directory before it matches.
pub proof fn law_earlier_directory_wins(cs: Seq<Candidate>, i: int, j: int)
    requires
        0 <= i < j < cs.len(),
        accepted(cs[i].probe),
        accepted(cs[j].probe),
    ensures
        resolution(cs) is Some,
        resolution(cs) == resolution(cs.subrange(0, i + 1)),
        (forall|k: int| 0 <= k < i ==> !accepted(#[trigger] cs[k].probe)) ==> resolution(cs)
            == Some(cs[i].path@),
    decreases i,
{
    let pre = cs.subrange(0, i + 1);
    if accepted(cs[0].probe) {
        assert(pre[0] == cs[0]);
    } else {
        let rest = cs.drop_first();
        assert(rest[i - 1] == cs[i]);
        assert(rest[j - 1] == cs[j]);
        law_earlier_directory_wins(rest, i - 1, j - 1);
        assert(pre[0] == cs[0]);
        assert(pre.drop_first() =~= rest.subrange(0, i));
        if forall|k: int| 0 <= k < i ==> !accepted(#[trigger] cs[k].probe) {
            assert forall|k: int| 0 <= k < i - 1 implies !accepted(#[trigger] rest[k].probe) by {
                assert(rest[k] == cs[k + 1]);
            }
        }
    }
}

} // verus!
