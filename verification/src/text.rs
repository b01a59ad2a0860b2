//! Character-sequence utilities shared by the manifest patcher, the
//! call-analysis pre-filter, and the traversal engine: prefix tests,
//! whitespace trimming, substring search, and newline splitting.

use vstd::prelude::*;

verus! {

/// `p` is an initial segment of `s`.
pub open spec fn is_prefix(s: Seq<char>, p: Seq<char>) -> bool {
    p.len() <= s.len() && s.subrange(0, p.len() as int) == p
}

/// Whether `s` begins with the characters of `p`.
pub fn has_prefix(s: &str, p: &str) -> (r: bool)
    ensures
        r == is_prefix(s@, p@),
{
    let sn = s.unicode_len();
    let pn = p.unicode_len();
    if pn > sn {
        assert(!is_prefix(s@, p@));
        return false;
    }
    let mut i: usize = 0;
    while i < pn
        invariant
            0 <= i <= pn,
            pn <= sn,
            sn == s@.len(),
            pn == p@.len(),
            forall|j: int| 0 <= j < i ==> s@[j] == p@[j],
        decreases pn - i,
    {
        if s.get_char(i) != p.get_char(i) {
            assert(s@.subrange(0, pn as int)[i as int] != p@[i as int]);
            return false;
        }
        i = i + 1;
    }
    assert(s@.subrange(0, pn as int) =~= p@);
    true
}

/// Whether two string slices hold the same characters.
pub fn str_eq(a: &str, b: &str) -> (r: bool)
    ensures
        r == (a@ == b@),
{
    let an = a.unicode_len();
    let bn = b.unicode_len();
    if an != bn {
        assert(a@ != b@) by {
            assert(a@.len() != b@.len());
        }
        return false;
    }
    let mut i: usize = 0;
    while i < an
        invariant
            0 <= i <= an,
            an == a@.len(),
            an == b@.len(),
            forall|j: int| 0 <= j < i ==> a@[j] == b@[j],
        decreases an - i,
    {
        if a.get_char(i) != b.get_char(i) {
            return false;
        }
        i = i + 1;
    }
    assert(a@ =~= b@);
    true
}

/// The whitespace characters stripped from the ends of a manifest line
/// before it is compared against the patterns of the patcher.
pub open spec fn is_ws(c: char) -> bool {
    c == ' ' || c == '\t' || c == '\r' || c == '\u{000B}' || c == '\u{000C}'
}

fn is_ws_exec(c: char) -> (r: bool)
    ensures
        r == is_ws(c),
{
    c == ' ' || c == '\t' || c == '\r' || c == '\u{000B}' || c == '\u{000C}'
}

/// Index of the first character of `s` that is not whitespace (`s.len()` if
/// every character is).
pub open spec fn first_non_ws(s: Seq<char>) -> int
    decreases s.len(),
{
    if s.len() == 0 {
        0
    } else if !is_ws(s[0]) {
        0
    } else {
        1 + first_non_ws(s.drop_first())
    }
}

/// One past the index of the last character of `s` that is not whitespace
/// (`0` if every character is).
pub open spec fn last_non_ws_end(s: Seq<char>) -> int
    decreases s.len(),
{
    if s.len() == 0 {
        0
    } else if !is_ws(s[s.len() - 1]) {
        s.len() as int
    } else {
        last_non_ws_end(s.take(s.len() - 1))
    }
}

pub proof fn lemma_first_non_ws(s: Seq<char>)
    ensures
        0 <= first_non_ws(s) <= s.len(),
        forall|j: int| 0 <= j < first_non_ws(s) ==> is_ws(s[j]),
        first_non_ws(s) < s.len() ==> !is_ws(s[first_non_ws(s)]),
    decreases s.len(),
{
    if s.len() == 0 {
    } else if !is_ws(s[0]) {
    } else {
        lemma_first_non_ws(s.drop_first());
        assert forall|j: int| 0 <= j < first_non_ws(s) implies is_ws(s[j]) by {
            if j > 0 {
                assert(is_ws(s.drop_first()[j - 1]));
            }
        }
    }
}

pub proof fn lemma_last_non_ws_end(s: Seq<char>)
    ensures
        0 <= last_non_ws_end(s) <= s.len(),
        forall|j: int| last_non_ws_end(s) <= j < s.len() ==> is_ws(s[j]),
        last_non_ws_end(s) > 0 ==> !is_ws(s[last_non_ws_end(s) - 1]),
    decreases s.len(),
{
    if s.len() == 0 {
    } else if !is_ws(s[s.len() - 1]) {
    } else {
        let t = s.take(s.len() - 1);
        lemma_last_non_ws_end(t);
        assert forall|j: int| last_non_ws_end(s) <= j < s.len() implies is_ws(s[j]) by {
            if j < s.len() - 1 {
                assert(is_ws(t[j]));
            }
        }
        if last_non_ws_end(s) > 0 {
            assert(!is_ws(t[last_non_ws_end(t) - 1]));
        }
    }
}

/// `first_non_ws` is pinned down by its characteristic properties.
pub proof fn lemma_first_non_ws_unique(s: Seq<char>, a: int)
    requires
        0 <= a <= s.len(),
        forall|j: int| 0 <= j < a ==> is_ws(s[j]),
        a < s.len() ==> !is_ws(s[a]),
    ensures
        first_non_ws(s) == a,
    decreases s.len(),
{
    if s.len() == 0 {
    } else if !is_ws(s[0]) {
        assert(a == 0);
    } else {
        assert(a >= 1);
        lemma_first_non_ws_unique(s.drop_first(), a - 1);
    }
}

/// `last_non_ws_end` is pinned down by its characteristic properties.
pub proof fn lemma_last_non_ws_end_unique(s: Seq<char>, b: int)
    requires
        0 <= b <= s.len(),
        forall|j: int| b <= j < s.len() ==> is_ws(s[j]),
        b > 0 ==> !is_ws(s[b - 1]),
    ensures
        last_non_ws_end(s) == b,
    decreases s.len(),
{
    if s.len() == 0 {
    } else if !is_ws(s[s.len() - 1]) {
        assert(b == s.len());
    } else {
        assert(b < s.len());
        lemma_last_non_ws_end_unique(s.take(s.len() - 1), b);
    }
}

/// `s` with leading and trailing whitespace removed.
pub open spec fn trimmed(s: Seq<char>) -> Seq<char> {
    if first_non_ws(s) == s.len() {
        Seq::empty()
    } else {
        s.subrange(first_non_ws(s), last_non_ws_end(s))
    }
}

/// `s` with leading and trailing whitespace removed.
pub fn trim_ws(s: &str) -> (r: &str)
    ensures
        r@ == trimmed(s@),
{
    let n = s.unicode_len();
    let mut a: usize = 0;
    while a < n && is_ws_exec(s.get_char(a))
        invariant
            0 <= a <= n,
            n == s@.len(),
            forall|j: int| 0 <= j < a ==> is_ws(s@[j]),
        decreases n - a,
    {
        a = a + 1;
    }
    proof {
        lemma_first_non_ws_unique(s@, a as int);
    }
    if a == n {
        let r = s.substring_char(n, n);
        assert(r@ =~= trimmed(s@));
        return r;
    }
    let mut b: usize = n;
    while b > a && is_ws_exec(s.get_char(b - 1))
        invariant
            a <= b <= n,
            a < n,
            n == s@.len(),
            !is_ws(s@[a as int]),
            forall|j: int| b <= j < n ==> is_ws(s@[j]),
        decreases b,
    {
        b = b - 1;
    }
    proof {
        assert(b > a);
        assert(!is_ws(s@[b - 1]));
        lemma_last_non_ws_end_unique(s@, b as int);
    }
    s.substring_char(a, b)
}

/// The characters of `pat` appear in `text` starting at index `i`.
pub open spec fn occurs_at(text: Seq<char>, pat: Seq<char>, i: int) -> bool {
    0 <= i && i + pat.len() <= text.len() && text.subrange(i, i + pat.len() as int) == pat
}

/// The characters of `pat` appear somewhere in `text`.
pub open spec fn occurs(text: Seq<char>, pat: Seq<char>) -> bool {
    exists|i: int| occurs_at(text, pat, i)
}

/// Whether `pat` occurs in `text` starting at index `i`.
fn match_at(text: &str, pat: &str, i: usize) -> (r: bool)
    requires
        i + pat@.len() <= text@.len(),
    ensures
        r == occurs_at(text@, pat@, i as int),
{
    let tn = text.unicode_len();
    let pn = pat.unicode_len();
    let mut j: usize = 0;
    while j < pn
        invariant
            0 <= j <= pn,
            pn == pat@.len(),
            tn == text@.len(),
            i + pn <= tn,
            forall|k: int| 0 <= k < j ==> text@[i + k] == pat@[k],
        decreases pn - j,
    {
        if text.get_char(i + j) != pat.get_char(j) {
            assert(text@.subrange(i as int, i + pn as int)[j as int] != pat@[j as int]);
            return false;
        }
        j = j + 1;
    }
    assert(text@.subrange(i as int, i + pn as int) =~= pat@);
    true
}

/// Substring search: whether the characters of `pat` appear contiguously in
/// `text`.
pub fn contains_substr(text: &str, pat: &str) -> (r: bool)
    ensures
        r == occurs(text@, pat@),
{
    let n = text.unicode_len();
    let pn = pat.unicode_len();
    if pn > n {
        assert(forall|i: int| !occurs_at(text@, pat@, i));
        return false;
    }
    if pn == 0 {
        assert(occurs_at(text@, pat@, 0)) by {
            assert(text@.subrange(0, 0) =~= pat@);
        }
        return true;
    }
    let mut i: usize = 0;
    while i <= n - pn
        invariant
            0 <= i <= n - pn + 1,
            0 < pn <= n,
            n == text@.len(),
            pn == pat@.len(),
            forall|j: int| 0 <= j < i ==> !occurs_at(text@, pat@, j),
        decreases n - pn - i + 1,
    {
        if match_at(text, pat, i) {
            assert(occurs(text@, pat@));
            return true;
        }
        i = i + 1;
    }
    assert(forall|j: int| !occurs_at(text@, pat@, j));
    false
}

/// `s` divided at each newline character; the newline characters themselves
/// are not kept.  The result always has one more line than `s` has newlines,
/// so an empty input gives one empty line.
pub open spec fn split_lines(s: Seq<char>) -> Seq<Seq<char>>
    decreases s.len(),
{
    if s.len() == 0 {
        seq![Seq::empty()]
    } else if s[0] == '\n' {
        seq![Seq::<char>::empty()] + split_lines(s.drop_first())
    } else {
        let rest = split_lines(s.drop_first());
        rest.update(0, seq![s[0]] + rest[0])
    }
}

/// The lines joined back together with a newline between each pair.
pub open spec fn join_lines(ls: Seq<Seq<char>>) -> Seq<char>
    decreases ls.len(),
{
    if ls.len() == 0 {
        Seq::empty()
    } else if ls.len() == 1 {
        ls[0]
    } else {
        ls[0] + seq!['\n'] + join_lines(ls.drop_first())
    }
}

pub proof fn lemma_split_lines_nonempty(s: Seq<char>)
    ensures
        split_lines(s).len() >= 1,
    decreases s.len(),
{
    if s.len() == 0 {
    } else if s[0] == '\n' {
        lemma_split_lines_nonempty(s.drop_first());
    } else {
        lemma_split_lines_nonempty(s.drop_first());
    }
}

/// No line produced by `split_lines` contains a newline.
pub proof fn lemma_split_lines_no_newline(s: Seq<char>)
    ensures
        forall|i: int|
            0 <= i < split_lines(s).len() ==> !#[trigger] split_lines(s)[i].contains('\n'),
    decreases s.len(),
{
    if s.len() == 0 {
        assert(!split_lines(s)[0].contains('\n'));
    } else if s[0] == '\n' {
        lemma_split_lines_no_newline(s.drop_first());
        assert(!split_lines(s)[0].contains('\n'));
        assert(forall|i: int|
            1 <= i < split_lines(s).len() ==> split_lines(s)[i] == #[trigger] split_lines(
                s.drop_first(),
            )[i - 1]);
    } else {
        lemma_split_lines_no_newline(s.drop_first());
        lemma_split_lines_nonempty(s.drop_first());
        let rest = split_lines(s.drop_first());
        assert(split_lines(s) == rest.update(0, seq![s[0]] + rest[0]));
        assert(!rest[0].contains('\n'));
        assert forall|k: int| 0 <= k < (seq![s[0]] + rest[0]).len() implies (seq![s[0]]
            + rest[0])[k] != '\n' by {
            if k == 0 {
            } else {
                assert((seq![s[0]] + rest[0])[k] == rest[0][k - 1]);
                assert(!rest[0].contains('\n'));
            }
        }
        assert(!(seq![s[0]] + rest[0]).contains('\n'));
        assert(forall|i: int|
            1 <= i < split_lines(s).len() ==> split_lines(s)[i] == #[trigger] rest[i]);
    }
}

/// Joining the split of `s` yields `s` again.
pub proof fn lemma_join_split(s: Seq<char>)
    ensures
        join_lines(split_lines(s)) == s,
    decreases s.len(),
{
    if s.len() == 0 {
        assert(join_lines(split_lines(s)) =~= s);
    } else if s[0] == '\n' {
        lemma_join_split(s.drop_first());
        lemma_split_lines_nonempty(s.drop_first());
        let ls = split_lines(s);
        assert(ls.len() >= 2);
        assert(ls[0] == Seq::<char>::empty());
        assert(ls.drop_first() =~= split_lines(s.drop_first()));
        assert(join_lines(ls) =~= s);
    } else {
        lemma_join_split(s.drop_first());
        lemma_split_lines_nonempty(s.drop_first());
        let rest = split_lines(s.drop_first());
        let ls = rest.update(0, seq![s[0]] + rest[0]);
        assert(split_lines(s) == ls);
        assert(join_lines(rest) == s.drop_first());
        assert(s =~= seq![s[0]] + s.drop_first());
        if rest.len() == 1 {
            assert(ls.len() == 1);
            assert(join_lines(ls) == ls[0]);
            assert(join_lines(rest) == rest[0]);
            assert(join_lines(ls) =~= s);
        } else {
            assert(ls.drop_first() =~= rest.drop_first());
            assert(join_lines(ls) == ls[0] + seq!['\n'] + join_lines(ls.drop_first()));
            assert(join_lines(rest) == rest[0] + seq!['\n'] + join_lines(rest.drop_first()));
            assert(join_lines(ls) =~= seq![s[0]] + join_lines(rest));
            assert(join_lines(ls) =~= s);
        }
    }
}

/// Splitting a newline-free sequence yields that one line.
pub proof fn lemma_split_single(s: Seq<char>)
    requires
        !s.contains('\n'),
    ensures
        split_lines(s) == seq![s],
    decreases s.len(),
{
    if s.len() == 0 {
        assert(s =~= Seq::<char>::empty());
        assert(split_lines(s) =~~= seq![s]);
    } else {
        assert(s[0] != '\n');
        assert(!s.drop_first().contains('\n')) by {
            if s.drop_first().contains('\n') {
                let k = choose|k: int|
                    0 <= k < s.drop_first().len() && s.drop_first()[k] == '\n';
                assert(s[k + 1] == '\n');
            }
        }
        lemma_split_single(s.drop_first());
        let rest = split_lines(s.drop_first());
        assert(rest == seq![s.drop_first()]);
        assert(split_lines(s) == rest.update(0, seq![s[0]] + rest[0]));
        assert(rest[0] == s.drop_first());
        assert(seq![s[0]] + s.drop_first() =~= s);
        assert(split_lines(s) =~~= seq![s]);
    }
}

/// Splitting `line + '\n' + t` where `line` is newline-free peels off `line`.
pub proof fn lemma_split_peel(line: Seq<char>, t: Seq<char>)
    requires
        !line.contains('\n'),
    ensures
        split_lines(line + seq!['\n'] + t) == seq![line] + split_lines(t),
    decreases line.len(),
{
    let s = line + seq!['\n'] + t;
    if line.len() == 0 {
        assert(s[0] == '\n');
        assert(s.drop_first() =~= t);
        assert(line =~= Seq::<char>::empty());
        assert(split_lines(s) =~~= seq![line] + split_lines(t));
    } else {
        assert(s[0] == line[0]);
        assert(s[0] != '\n');
        assert(!line.drop_first().contains('\n')) by {
            if line.drop_first().contains('\n') {
                let k = choose|k: int|
                    0 <= k < line.drop_first().len() && line.drop_first()[k] == '\n';
                assert(line[k + 1] == '\n');
            }
        }
        lemma_split_peel(line.drop_first(), t);
        assert(s.drop_first() =~= line.drop_first() + seq!['\n'] + t);
        let rest = split_lines(s.drop_first());
        assert(rest == split_lines(line.drop_first() + seq!['\n'] + t));
        assert(rest == seq![line.drop_first()] + split_lines(t));
        lemma_split_lines_nonempty(t);
        assert(rest[0] == line.drop_first());
        assert(split_lines(s) == rest.update(0, seq![s[0]] + rest[0]));
        assert(seq![s[0]] + rest[0] =~= line);
        assert(split_lines(s) =~~= seq![line] + split_lines(t));
    }
}

/// Splitting the join of newline-free lines yields the lines again.
pub proof fn lemma_split_join(ls: Seq<Seq<char>>)
    requires
        ls.len() >= 1,
        forall|i: int| 0 <= i < ls.len() ==> !#[trigger] ls[i].contains('\n'),
    ensures
        split_lines(join_lines(ls)) == ls,
    decreases ls.len(),
{
    if ls.len() == 1 {
        lemma_split_single(ls[0]);
        assert(split_lines(join_lines(ls)) =~= ls);
    } else {
        lemma_split_join(ls.drop_first());
        lemma_split_peel(ls[0], join_lines(ls.drop_first()));
        assert(split_lines(join_lines(ls)) == seq![ls[0]] + split_lines(
            join_lines(ls.drop_first()),
        ));
        assert(split_lines(join_lines(ls)) =~= ls);
    }
}

/// Appending one more line to a join appends a newline and the line.
pub proof fn lemma_join_push(ls: Seq<Seq<char>>, l: Seq<char>)
    ensures
        ls.len() == 0 ==> join_lines(ls.push(l)) == l,
        ls.len() > 0 ==> join_lines(ls.push(l)) == join_lines(ls) + seq!['\n'] + l,
    decreases ls.len(),
{
    if ls.len() == 0 {
        assert(join_lines(ls.push(l)) == ls.push(l)[0]);
        assert(ls.push(l)[0] == l);
    } else if ls.len() == 1 {
        assert(ls.push(l).drop_first() =~= seq![l]);
        assert(join_lines(ls.push(l)) == ls.push(l)[0] + seq!['\n'] + join_lines(seq![l]));
        assert(join_lines(ls.push(l)) =~= join_lines(ls) + seq!['\n'] + l);
    } else {
        lemma_join_push(ls.drop_first(), l);
        assert(ls.push(l).drop_first() =~= ls.drop_first().push(l));
        assert(join_lines(ls.push(l)) == ls[0] + seq!['\n'] + join_lines(ls.drop_first().push(l)));
        assert(join_lines(ls.push(l)) =~= join_lines(ls) + seq!['\n'] + l);
    }
}

/// The view of a vector of strings, as a sequence of character sequences.
pub open spec fn views_of(v: Seq<String>) -> Seq<Seq<char>> {
    v.map_values(|l: String| l@)
}

/// `split_lines` applied one segment at a time: if the next `k` characters
/// are newline-free and followed by a newline, the first line is exactly
/// those characters.
proof fn lemma_split_step(s: Seq<char>, k: int)
    requires
        0 <= k < s.len(),
        forall|j: int| 0 <= j < k ==> s[j] != '\n',
        s[k] == '\n',
    ensures
        split_lines(s) == seq![s.take(k)] + split_lines(s.skip(k + 1)),
{
    assert(s =~= s.take(k) + seq!['\n'] + s.skip(k + 1));
    assert(!s.take(k).contains('\n')) by {
        if s.take(k).contains('\n') {
            let j = choose|j: int| 0 <= j < k && s.take(k)[j] == '\n';
            assert(s[j] == '\n');
        }
    }
    lemma_split_peel(s.take(k), s.skip(k + 1));
}

/// Divide a string at its newline characters.
pub fn split_lines_vec(s: &str) -> (r: Vec<String>)
    ensures
        views_of(r@) == split_lines(s@),
{
    let n = s.unicode_len();
    let mut out: Vec<String> = Vec::new();
    let mut start: usize = 0;
    let mut i: usize = 0;
    proof {
        assert(s@.skip(0) =~= s@);
        assert(views_of(out@) =~= Seq::<Seq<char>>::empty());
        assert(views_of(out@) + split_lines(s@) =~= split_lines(s@));
    }
    while i < n
        invariant
            0 <= start <= i <= n,
            n == s@.len(),
            forall|j: int| start <= j < i ==> s@[j] != '\n',
            split_lines(s@) == views_of(out@) + split_lines(s@.skip(start as int)),
        decreases n - i,
    {
        if s.get_char(i) == '\n' {
            let line = s.substring_char(start, i).to_owned();
            proof {
                let tail = s@.skip(start as int);
                assert(forall|j: int| 0 <= j < i - start ==> tail[j] != '\n');
                assert(tail[i - start] == '\n');
                lemma_split_step(tail, i - start);
                assert(tail.take(i - start) =~= s@.subrange(start as int, i as int));
                assert(tail.skip(i - start + 1) =~= s@.skip(i + 1));
            }
            out.push(line);
            proof {
                assert(views_of(out@) =~= views_of(out@.drop_last()).push(s@.subrange(
                    start as int,
                    i as int,
                )));
                assert(split_lines(s@) =~= views_of(out@) + split_lines(s@.skip(i + 1 as int)));
            }
            start = i + 1;
        }
        i = i + 1;
    }
    let last = s.substring_char(start, n).to_owned();
    proof {
        let tail = s@.skip(start as int);
        assert(!tail.contains('\n')) by {
            if tail.contains('\n') {
                let j = choose|j: int| 0 <= j < tail.len() && tail[j] == '\n';
                assert(s@[start + j] == '\n');
            }
        }
        lemma_split_single(tail);
        assert(tail =~= s@.subrange(start as int, n as int));
    }
    out.push(last);
    proof {
        assert(views_of(out@) =~= views_of(out@.drop_last()).push(s@.subrange(
            start as int,
            n as int,
        )));
        assert(views_of(out@) =~= split_lines(s@));
    }
    out
}

/// Join lines with a newline between each pair.
pub fn join_lines_vec(lines: &Vec<String>) -> (r: String)
    ensures
        r@ == join_lines(views_of(lines@)),
{
    let mut out = String::new();
    let mut i: usize = 0;
    while i < lines.len()
        invariant
            0 <= i <= lines@.len(),
            i == 0 ==> out@ == Seq::<char>::empty(),
            i > 0 ==> out@ == join_lines(views_of(lines@.take(i as int))),
        decreases lines@.len() - i,
    {
        if i > 0 {
            out.append("\n");
            proof {
                reveal_strlit("\n");
            }
        }
        out.append(lines[i].as_str());
        proof {
            let prev = views_of(lines@.take(i as int));
            let cur = views_of(lines@.take(i + 1));
            assert(cur =~= prev.push(lines@[i as int]@));
            lemma_join_push(prev, lines@[i as int]@);
            if i == 0 {
                assert(out@ =~= join_lines(cur));
            } else {
                assert(out@ =~= join_lines(cur));
            }
        }
        i = i + 1;
    }
    proof {
        if lines@.len() == 0 {
            assert(join_lines(views_of(lines@)) =~= Seq::<char>::empty());
        } else {
            assert(lines@.take(lines@.len() as int) =~= lines@);
        }
    }
    out
}

} // verus!
