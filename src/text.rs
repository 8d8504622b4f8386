use vstd::prelude::*;

verus! {

/// The characters with the Unicode White_Space property, which is what
/// `char::is_whitespace` tests.
pub open spec fn white_space(c: char) -> bool {
    let u = c as u32;
    ||| 0x09 <= u <= 0x0D
    ||| u == 0x20
    ||| u == 0x85
    ||| u == 0xA0
    ||| u == 0x1680
    ||| 0x2000 <= u <= 0x200A
    ||| u == 0x2028
    ||| u == 0x2029
    ||| u == 0x202F
    ||| u == 0x205F
    ||| u == 0x3000
}

/// Tests a character for white space.
pub fn is_white(c: char) -> (r: bool)
    ensures
        r == white_space(c),
{
    let u = c as u32;
    (0x09 <= u && u <= 0x0D) || u == 0x20 || u == 0x85 || u == 0xA0 || u == 0x1680 || (0x2000 <= u
        && u <= 0x200A) || u == 0x2028 || u == 0x2029 || u == 0x202F || u == 0x205F || u == 0x3000
}

/// Compares two texts character by character.
pub fn same_text(a: &str, b: &str) -> (r: bool)
    ensures
        r == (a@ == b@),
{
    let n = a.unicode_len();
    if n != b.unicode_len() {
        return false;
    }
    let mut i: usize = 0;
    while i < n
        invariant
            n == a@.len(),
            n == b@.len(),
            i <= n,
            a@.subrange(0, i as int) == b@.subrange(0, i as int),
        decreases n - i,
    {
        if a.get_char(i) != b.get_char(i) {
            return false;
        }
        assert(a@.subrange(0, i + 1) == a@.subrange(0, i as int).push(a@[i as int]));
        assert(b@.subrange(0, i + 1) == b@.subrange(0, i as int).push(b@[i as int]));
        i = i + 1;
    }
    assert(a@ == a@.subrange(0, n as int));
    assert(b@ == b@.subrange(0, n as int));
    true
}

/// What separates the fields of a text.
#[derive(Clone, Copy, Debug, PartialEq, Eq, Structural)]
pub enum Separator {
    /// One given character.
    Char(char),
    /// Any white-space character.
    White,
}

pub open spec fn separates(sep: Separator, c: char) -> bool {
    match sep {
        Separator::Char(d) => c == d,
        Separator::White => white_space(c),
    }
}

fn is_separator(sep: Separator, c: char) -> (r: bool)
    ensures
        r == separates(sep, c),
{
    match sep {
        Separator::Char(d) => c == d,
        Separator::White => is_white(c),
    }
}

/// The fields of `s` between separators, empty ones included: always at least one.
pub open spec fn fields(s: Seq<char>, sep: Separator) -> Seq<Seq<char>>
    decreases s.len(),
{
    if s.len() == 0 {
        seq![Seq::<char>::empty()]
    } else {
        let rest = fields(s.drop_last(), sep);
        if separates(sep, s.last()) {
            rest.push(Seq::<char>::empty())
        } else {
            rest.update(rest.len() - 1, rest.last().push(s.last()))
        }
    }
}

/// The non-empty members of `fs`, in order.
pub open spec fn non_empty(fs: Seq<Seq<char>>) -> Seq<Seq<char>>
    decreases fs.len(),
{
    if fs.len() == 0 {
        fs
    } else if fs.last().len() == 0 {
        non_empty(fs.drop_last())
    } else {
        non_empty(fs.drop_last()).push(fs.last())
    }
}

/// The non-empty fields of `s`: runs of separators count as one, and leading or
/// trailing ones give no field.
pub open spec fn tokens(s: Seq<char>, sep: Separator) -> Seq<Seq<char>> {
    non_empty(fields(s, sep))
}

proof fn lemma_fields_nonempty(s: Seq<char>, sep: Separator)
    ensures
        fields(s, sep).len() >= 1,
    decreases s.len(),
{
    if s.len() > 0 {
        lemma_fields_nonempty(s.drop_last(), sep);
    }
}

proof fn lemma_fields_free(s: Seq<char>, sep: Separator)
    ensures
        forall|i: int, k: int|
            0 <= i < fields(s, sep).len() && 0 <= k < fields(s, sep)[i].len() ==> !separates(
                sep,
                #[trigger] fields(s, sep)[i][k],
            ),
    decreases s.len(),
{
    if s.len() > 0 {
        let rest = fields(s.drop_last(), sep);
        lemma_fields_free(s.drop_last(), sep);
        lemma_fields_nonempty(s.drop_last(), sep);
        let fs = fields(s, sep);
        assert forall|i: int, k: int|
            0 <= i < fs.len() && 0 <= k < fs[i].len() implies !separates(
                sep,
                #[trigger] fs[i][k],
            ) by {
            if i < rest.len() - 1 {
                assert(fs[i] == rest[i]);
            } else if i == rest.len() - 1 {
                if !separates(sep, s.last()) {
                    assert(fs[i] == rest[i].push(s.last()));
                    if k < rest[i].len() {
                        assert(fs[i][k] == rest[i][k]);
                    }
                } else {
                    assert(fs[i] == rest[i]);
                }
            }
        }
    }
}

proof fn lemma_non_empty_members(fs: Seq<Seq<char>>)
    ensures
        forall|i: int|
            0 <= i < non_empty(fs).len() ==> (#[trigger] non_empty(fs)[i]).len() > 0 && exists|
                j: int,
            |
                0 <= j < fs.len() && non_empty(fs)[i] == fs[j],
    decreases fs.len(),
{
    if fs.len() > 0 {
        let rest = fs.drop_last();
        lemma_non_empty_members(rest);
        let ne = non_empty(fs);
        assert forall|i: int| 0 <= i < ne.len() implies (#[trigger] ne[i]).len() > 0 && exists|
            j: int,
        |
            0 <= j < fs.len() && ne[i] == fs[j] by {
            if i < non_empty(rest).len() {
                assert(ne[i] == non_empty(rest)[i]);
                let j = choose|j: int| 0 <= j < rest.len() && non_empty(rest)[i] == rest[j];
                assert(fs[j] == rest[j]);
            } else {
                assert(ne[i] == fs.last());
                assert(fs[fs.len() - 1] == fs.last());
            }
        }
    }
}

/// Every token is non-empty and holds no separator.
pub proof fn lemma_tokens_plain(s: Seq<char>, sep: Separator)
    ensures
        forall|i: int|
            0 <= i < tokens(s, sep).len() ==> (#[trigger] tokens(s, sep)[i]).len() > 0 && forall|
                k: int,
            |
                0 <= k < tokens(s, sep)[i].len() ==> !separates(sep, tokens(s, sep)[i][k]),
{
    let fs = fields(s, sep);
    lemma_fields_free(s, sep);
    lemma_non_empty_members(fs);
    assert forall|i: int| 0 <= i < tokens(s, sep).len() implies (#[trigger] tokens(
        s,
        sep,
    )[i]).len() > 0 && forall|k: int|
        0 <= k < tokens(s, sep)[i].len() ==> !separates(sep, tokens(s, sep)[i][k]) by {
        let j = choose|j: int| 0 <= j < fs.len() && non_empty(fs)[i] == fs[j];
        assert forall|k: int| 0 <= k < tokens(s, sep)[i].len() implies !separates(
            sep,
            tokens(s, sep)[i][k],
        ) by {
            assert(fs[j][k] == tokens(s, sep)[i][k]);
        }
    }
}

/// Splits `s` into its tokens.
pub fn split_tokens(s: &str, sep: Separator) -> (r: Vec<String>)
    ensures
        r.deep_view() == tokens(s@, sep),
{
    let n = s.unicode_len();
    let mut out: Vec<String> = Vec::new();
    let mut cur = String::new();
    let ghost mut done: Seq<Seq<char>> = Seq::empty();
    let mut i: usize = 0;
    while i < n
        invariant
            n == s@.len(),
            i <= n,
            fields(s@.subrange(0, i as int), sep) == done.push(cur@),
            out.deep_view() == non_empty(done),
        decreases n - i,
    {
        let c = s.get_char(i);
        let ghost pre = s@.subrange(0, i as int);
        assert(s@.subrange(0, i + 1).drop_last() == pre);
        assert(s@.subrange(0, i + 1).last() == c);
        if is_separator(sep, c) {
            proof {
                assert(done.push(cur@).drop_last() == done);
            }
            if cur.unicode_len() > 0 {
                let ghost old_out = out.deep_view();
                out.push(cur);
                assert(out.deep_view() =~= old_out.push(cur@));
            }
            proof {
                done = done.push(cur@);
            }
            cur = String::new();
        } else {
            let piece = s.substring_char(i, i + 1);
            assert(piece@ =~= seq![c]);
            let ghost before = cur@;
            cur.append(piece);
            assert(cur@ =~= before.push(c));
            assert(done.push(before).update(done.len() as int, before.push(c)) =~= done.push(cur@));
        }
        i = i + 1;
    }
    assert(s@.subrange(0, n as int) == s@);
    if cur.unicode_len() > 0 {
        let ghost old_out = out.deep_view();
        out.push(cur);
        assert(out.deep_view() =~= old_out.push(cur@));
    }
    proof {
        assert(done.push(cur@).drop_last() == done);
    }
    out
}

/// The members of `ws` with `sep` between each two neighbours.
pub open spec fn join(ws: Seq<Seq<char>>, sep: Seq<char>) -> Seq<char>
    decreases ws.len(),
{
    if ws.len() == 0 {
        Seq::empty()
    } else if ws.len() == 1 {
        ws[0]
    } else {
        join(ws.drop_last(), sep) + sep + ws.last()
    }
}

/// Joins the words with `sep` between each two neighbours.
pub fn join_with(words: &Vec<String>, sep: &str) -> (r: String)
    ensures
        r@ == join(words.deep_view(), sep@),
{
    let mut out = String::new();
    let mut i: usize = 0;
    while i < words.len()
        invariant
            i <= words.len(),
            out@ == join(words.deep_view().subrange(0, i as int), sep@),
        decreases words.len() - i,
    {
        let ghost pre = words.deep_view().subrange(0, i as int);
        let ghost next = words.deep_view().subrange(0, i + 1);
        assert(next.drop_last() =~= pre);
        assert(next.last() == words[i as int]@);
        if i > 0 {
            out.append(sep);
        }
        out.append(words[i].as_str());
        if i == 0 {
            assert(out@ =~= next[0]);
        }
        i = i + 1;
    }
    assert(words.deep_view().subrange(0, words.len() as int) =~= words.deep_view());
    out
}

/// `s` without white space at its start.
pub open spec fn trim_start(s: Seq<char>) -> Seq<char>
    decreases s.len(),
{
    if s.len() > 0 && white_space(s[0]) {
        trim_start(s.drop_first())
    } else {
        s
    }
}

/// `s` without white space at its end.
pub open spec fn trim_end(s: Seq<char>) -> Seq<char>
    decreases s.len(),
{
    if s.len() > 0 && white_space(s.last()) {
        trim_end(s.drop_last())
    } else {
        s
    }
}

/// `s` without white space at either end.
pub open spec fn trimmed(s: Seq<char>) -> Seq<char> {
    trim_end(trim_start(s))
}

/// Strips white space from both ends of `s`.
pub fn trim(s: &str) -> (r: String)
    ensures
        r@ == trimmed(s@),
{
    let n = s.unicode_len();
    let mut i: usize = 0;
    assert(s@.subrange(0, n as int) =~= s@);
    while i < n && is_white(s.get_char(i))
        invariant
            n == s@.len(),
            i <= n,
            trim_start(s@) == trim_start(s@.subrange(i as int, n as int)),
        decreases n - i,
    {
        assert(s@.subrange(i as int, n as int).drop_first() =~= s@.subrange(i + 1, n as int));
        i = i + 1;
    }
    let ghost head = s@.subrange(i as int, n as int);
    assert(trim_start(s@) == head);
    let mut j: usize = n;
    while j > i && is_white(s.get_char(j - 1))
        invariant
            n == s@.len(),
            i <= j <= n,
            head == s@.subrange(i as int, n as int),
            trim_end(head) == trim_end(s@.subrange(i as int, j as int)),
        decreases j,
    {
        assert(s@.subrange(i as int, j as int).drop_last() =~= s@.subrange(i as int, j - 1));
        j = j - 1;
    }
    String::from_str(s.substring_char(i, j))
}

/// The command name and the arguments of an input line: its first white-space
/// separated word, or nothing on a blank line, and the words after it.
pub open spec fn parse_spec(line: Seq<char>) -> (Seq<char>, Seq<Seq<char>>) {
    let ws = tokens(line, Separator::White);
    if ws.len() == 0 {
        (Seq::empty(), Seq::empty())
    } else {
        (ws[0], ws.drop_first())
    }
}

/// Splits an input line into a command name and its arguments.
pub fn parse_line(line: &str) -> (r: (String, Vec<String>))
    ensures
        r.0@ == parse_spec(line@).0,
        r.1.deep_view() == parse_spec(line@).1,
{
    let mut ws = split_tokens(line, Separator::White);
    if ws.len() == 0 {
        assert(ws.deep_view() =~= Seq::<Seq<char>>::empty());
        (String::new(), ws)
    } else {
        let ghost all = ws.deep_view();
        let name = ws.remove(0);
        assert(ws.deep_view() =~= all.drop_first());
        (name, ws)
    }
}

} // verus!
