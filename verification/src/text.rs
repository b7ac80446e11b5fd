//! Character-level text utilities: substring search, line splitting and
//! joining. Everything here treats a string as its sequence of `char`s.

use vstd::prelude::*;

verus! {

/// The pattern `n` occurs in `h` starting at index `i`.
pub open spec fn is_match_at(h: Seq<char>, n: Seq<char>, i: int) -> bool {
    0 <= i && i + n.len() <= h.len() && h.subrange(i, i + n.len() as int) == n
}

/// The pattern `n` occurs somewhere in `h`.
pub open spec fn has_sub(h: Seq<char>, n: Seq<char>) -> bool {
    exists|i: int| is_match_at(h, n, i)
}

/// Does `n` occur in `h` at index `i`? (`i + n` in bounds by precondition)
fn match_at(h: &str, n: &str, i: usize, hl: usize, nl: usize) -> (b: bool)
    requires
        hl == h@.len(),
        nl == n@.len(),
        i + nl <= hl,
    ensures
        b == is_match_at(h@, n@, i as int),
{
    let mut j: usize = 0;
    while j < nl
        invariant
            hl == h@.len(),
            nl == n@.len(),
            i + nl <= hl,
            j <= nl,
            forall|k: int| 0 <= k < j ==> h@[i + k] == n@[k],
        decreases nl - j,
    {
        let hc = h.get_char(i + j);
        let nc = n.get_char(j);
        if hc != nc {
            assert(!is_match_at(h@, n@, i as int)) by {
                if is_match_at(h@, n@, i as int) {
                    assert(h@.subrange(i as int, i + nl)[j as int] == h@[i + j]);
                }
            }
            return false;
        }
        j += 1;
    }
    assert(h@.subrange(i as int, i + nl as int) =~= n@);
    true
}

/// Index of the first occurrence of `n` in `h`, if any.
pub fn find_str(h: &str, n: &str) -> (r: Option<usize>)
    requires
        n@.len() >= 1,
    ensures
        match r {
            Some(i) => is_match_at(h@, n@, i as int) && forall|j: int|
                0 <= j < i ==> !is_match_at(h@, n@, j),
            None => !has_sub(h@, n@),
        },
{
    let hl = h.unicode_len();
    let nl = n.unicode_len();
    if nl > hl {
        return None;
    }
    let mut i: usize = 0;
    while i <= hl - nl
        invariant
            hl == h@.len(),
            nl == n@.len(),
            1 <= nl <= hl,
            i <= hl - nl + 1,
            forall|j: int| 0 <= j < i ==> !is_match_at(h@, n@, j),
        decreases hl - nl - i + 1,
    {
        if match_at(h, n, i, hl, nl) {
            return Some(i);
        }
        i += 1;
    }
    None
}

/// Index of the last occurrence of `n` in `h` that starts within
/// `[lo, hi]`, if any.
pub fn find_str_last_in(h: &str, n: &str, lo: usize, hi: usize) -> (r: Option<usize>)
    requires
        n@.len() >= 1,
    ensures
        match r {
            Some(i) => lo <= i <= hi && is_match_at(h@, n@, i as int) && forall|j: int|
                i < j <= hi ==> !is_match_at(h@, n@, j),
            None => forall|j: int| lo <= j <= hi ==> !is_match_at(h@, n@, j),
        },
{
    let hl = h.unicode_len();
    let nl = n.unicode_len();
    if nl > hl || lo > hi {
        return None;
    }
    let top = if hi <= hl - nl {
        hi
    } else {
        hl - nl
    };
    if top < lo {
        return None;
    }
    let mut j = top + 1;
    while j > lo
        invariant
            hl == h@.len(),
            nl == n@.len(),
            1 <= nl <= hl,
            lo <= j <= top + 1,
            top <= hi,
            top <= hl - nl,
            forall|k: int| j <= k <= hi ==> !is_match_at(h@, n@, k),
        decreases j,
    {
        j -= 1;
        if match_at(h, n, j, hl, nl) {
            return Some(j);
        }
    }
    None
}

/// The first index at or after `from` at which `n` matches in `h`.
pub open spec fn spec_find_from(h: Seq<char>, n: Seq<char>, from: int) -> Option<int>
    decreases h.len() - from + 1,
{
    if from < 0 || from + n.len() > h.len() {
        None
    } else if is_match_at(h, n, from) {
        Some(from)
    } else {
        spec_find_from(h, n, from + 1)
    }
}

/// The last index at most `upto` at which `n` matches in `h`.
pub open spec fn spec_rfind_upto(h: Seq<char>, n: Seq<char>, upto: int) -> Option<int>
    decreases upto + 1,
{
    if upto < 0 {
        None
    } else if upto + n.len() <= h.len() && is_match_at(h, n, upto) {
        Some(upto)
    } else {
        spec_rfind_upto(h, n, upto - 1)
    }
}

/// A match at `i` with none earlier (from `from` on) is the found one.
pub proof fn lemma_spec_find_from_some(h: Seq<char>, n: Seq<char>, from: int, i: int)
    requires
        0 <= from <= i,
        is_match_at(h, n, i),
        forall|j: int| from <= j < i ==> !is_match_at(h, n, j),
    ensures
        spec_find_from(h, n, from) == Some(i),
    decreases i - from,
{
    if from < i {
        lemma_spec_find_from_some(h, n, from + 1, i);
    }
}

/// With no match anywhere, nothing is found.
pub proof fn lemma_spec_find_from_none(h: Seq<char>, n: Seq<char>, from: int)
    requires
        0 <= from,
        n.len() >= 1,
        forall|j: int| !is_match_at(h, n, j),
    ensures
        spec_find_from(h, n, from) is None,
    decreases h.len() - from,
{
    if !(from + n.len() > h.len()) {
        lemma_spec_find_from_none(h, n, from + 1);
    }
}

/// A match at `i` with none later (up to `upto`) is the found one.
pub proof fn lemma_spec_rfind_some(h: Seq<char>, n: Seq<char>, upto: int, i: int)
    requires
        0 <= i <= upto,
        i + n.len() <= h.len(),
        is_match_at(h, n, i),
        forall|j: int| i < j <= upto ==> !is_match_at(h, n, j),
    ensures
        spec_rfind_upto(h, n, upto) == Some(i),
    decreases upto - i,
{
    if i < upto {
        lemma_spec_rfind_some(h, n, upto - 1, i);
    }
}

/// With no match at or below `upto`, nothing is found.
pub proof fn lemma_spec_rfind_none(h: Seq<char>, n: Seq<char>, upto: int)
    requires
        forall|j: int| 0 <= j <= upto ==> !is_match_at(h, n, j),
    ensures
        spec_rfind_upto(h, n, upto) is None,
    decreases upto + 1,
{
    if upto >= 0 {
        lemma_spec_rfind_none(h, n, upto - 1);
    }
}

/// A one-character pattern matches exactly where that character stands.
pub proof fn lemma_match_at_char(h: Seq<char>, c: char, i: int)
    requires
        is_match_at(h, seq![c], i),
    ensures
        h[i] == c,
{
    assert(h.subrange(i, i + 1)[0] == h[i]);
    assert(seq![c][0] == c);
}

/// A one-character pattern matches wherever that character stands.
pub proof fn lemma_char_match_at(h: Seq<char>, c: char, i: int)
    requires
        0 <= i < h.len(),
        h[i] == c,
    ensures
        is_match_at(h, seq![c], i),
{
    assert(h.subrange(i, i + 1) =~= seq![c]);
}

/// Are two string slices equal, character for character?
pub fn str_eq(a: &str, b: &str) -> (r: bool)
    ensures
        r == (a@ == b@),
{
    let al = a.unicode_len();
    let bl = b.unicode_len();
    if al != bl {
        return false;
    }
    let mut i: usize = 0;
    while i < al
        invariant
            al == a@.len(),
            al == b@.len(),
            i <= al,
            forall|k: int| 0 <= k < i ==> a@[k] == b@[k],
        decreases al - i,
    {
        if a.get_char(i) != b.get_char(i) {
            return false;
        }
        i += 1;
    }
    assert(a@ =~= b@);
    true
}

/// `l` without one trailing carriage return, if it has one.
pub open spec fn spec_strip_cr(l: Seq<char>) -> Seq<char> {
    if l.len() > 0 && l.last() == '\r' {
        l.drop_last()
    } else {
        l
    }
}

/// Helper for [`spec_lines`]: splits `s`, with `cur` the piece read so far.
/// A piece ended by a newline loses one trailing carriage return; the final
/// piece is kept as it stands and dropped when empty.
pub open spec fn lines_rec(s: Seq<char>, cur: Seq<char>) -> Seq<Seq<char>>
    decreases s.len(),
{
    if s.len() == 0 {
        if cur.len() == 0 {
            Seq::empty()
        } else {
            seq![cur]
        }
    } else if s[0] == '\n' {
        seq![spec_strip_cr(cur)] + lines_rec(s.drop_first(), Seq::empty())
    } else {
        lines_rec(s.drop_first(), cur.push(s[0]))
    }
}

/// The lines of `s`, split as `str::lines` splits them.
pub open spec fn spec_lines(s: Seq<char>) -> Seq<Seq<char>> {
    lines_rec(s, Seq::empty())
}

/// The lines of `s`, split as `str::lines` splits them.
pub fn split_lines(s: &str) -> (r: Vec<String>)
    ensures
        r.deep_view() == spec_lines(s@),
{
    let len = s.unicode_len();
    let mut res: Vec<String> = Vec::new();
    let mut start: usize = 0;
    let mut i: usize = 0;
    proof {
        assert(s@.subrange(0, len as int) =~= s@);
        assert(s@.subrange(0, 0) =~= Seq::<char>::empty());
        assert(res.deep_view() =~= Seq::<Seq<char>>::empty());
        assert(Seq::<Seq<char>>::empty() + lines_rec(s@, Seq::empty()) =~= lines_rec(
            s@,
            Seq::empty(),
        ));
    }
    while i < len
        invariant
            len == s@.len(),
            start <= i <= len,
            spec_lines(s@) == res.deep_view() + lines_rec(
                s@.subrange(i as int, len as int),
                s@.subrange(start as int, i as int),
            ),
        decreases len - i,
    {
        let ghost cur = s@.subrange(start as int, i as int);
        let ghost rest = s@.subrange(i as int, len as int);
        assert(rest[0] == s@[i as int]);
        assert(rest.drop_first() =~= s@.subrange(i + 1, len as int));
        let c = s.get_char(i);
        if c == '\n' {
            let piece = if i > start && s.get_char(i - 1) == '\r' {
                s.substring_char(start, i - 1)
            } else {
                s.substring_char(start, i)
            };
            proof {
                if i > start && s@[i - 1] == '\r' {
                    assert(cur.last() == s@[i - 1]);
                    assert(cur.drop_last() =~= s@.subrange(start as int, i - 1));
                } else if i > start {
                    assert(cur.last() == s@[i - 1]);
                }
                assert(piece@ == spec_strip_cr(cur));
            }
            let ghost old_res = res.deep_view();
            res.push(String::from_str(piece));
            proof {
                assert(res.deep_view() =~= old_res.push(piece@));
                assert(old_res + (seq![spec_strip_cr(cur)] + lines_rec(
                    rest.drop_first(),
                    Seq::empty(),
                )) =~= old_res.push(spec_strip_cr(cur)) + lines_rec(
                    rest.drop_first(),
                    Seq::empty(),
                ));
                assert(s@.subrange(i + 1, i + 1) =~= Seq::<char>::empty());
            }
            start = i + 1;
        } else {
            proof {
                assert(cur.push(s@[i as int]) =~= s@.subrange(start as int, i + 1));
            }
        }
        i += 1;
    }
    if start < len {
        let piece = s.substring_char(start, len);
        let ghost old_res = res.deep_view();
        res.push(String::from_str(piece));
        proof {
            assert(res.deep_view() =~= old_res.push(piece@));
            assert(old_res + seq![piece@] =~= old_res.push(piece@));
        }
    } else {
        proof {
            assert(s@.subrange(start as int, len as int).len() == 0);
            assert(res.deep_view() + Seq::<Seq<char>>::empty() =~= res.deep_view());
        }
    }
    res
}

/// The pieces joined with single `sep` characters between them.
pub open spec fn spec_join(ls: Seq<Seq<char>>, sep: char) -> Seq<char>
    decreases ls.len(),
{
    if ls.len() == 0 {
        Seq::empty()
    } else if ls.len() == 1 {
        ls[0]
    } else {
        spec_join(ls.drop_last(), sep) + seq![sep] + ls.last()
    }
}

/// Joining one more piece appends a separator and the piece, unless the
/// join was empty of pieces.
pub proof fn lemma_join_push(ls: Seq<Seq<char>>, x: Seq<char>, sep: char)
    ensures
        spec_join(ls.push(x), sep) == if ls.len() == 0 {
            x
        } else {
            spec_join(ls, sep) + seq![sep] + x
        },
{
    assert(ls.push(x).drop_last() =~= ls);
    assert(ls.push(x).last() == x);
}

/// The lines joined with single newlines (no trailing newline).
pub open spec fn spec_join_nl(ls: Seq<Seq<char>>) -> Seq<char> {
    spec_join(ls, '\n')
}

/// Join `lines` with single newlines (no trailing newline).
pub fn join_lines(lines: &Vec<String>) -> (r: String)
    ensures
        r@ == spec_join_nl(lines.deep_view()),
{
    let mut r = String::new();
    let mut i: usize = 0;
    while i < lines.len()
        invariant
            i <= lines.len(),
            lines.deep_view().len() == lines.len(),
            r@ == spec_join_nl(lines.deep_view().take(i as int)),
        decreases lines.len() - i,
    {
        if i > 0 {
            proof {
                reveal_strlit("\n");
            }
            r.append("\n");
            assert("\n"@ =~= seq!['\n']);
        }
        r.append(lines[i].as_str());
        proof {
            let lv = lines.deep_view();
            assert(lv.take(i + 1).drop_last() =~= lv.take(i as int));
            assert(lv.take(i + 1).last() == lv[i as int]);
        }
        i += 1;
    }
    proof {
        assert(lines.deep_view().take(lines.len() as int) =~= lines.deep_view());
    }
    r
}

/// `c` does not occur in `l`.
pub open spec fn no_char(l: Seq<char>, c: char) -> bool {
    forall|t: int| 0 <= t < l.len() ==> l[t] != c
}

/// Every line that splitting produces is free of newlines.
pub proof fn lemma_lines_rec_no_newline(s: Seq<char>, cur: Seq<char>)
    requires
        no_char(cur, '\n'),
    ensures
        forall|i: int|
            0 <= i < lines_rec(s, cur).len() ==> no_char(#[trigger] lines_rec(s, cur)[i], '\n'),
    decreases s.len(),
{
    let r = lines_rec(s, cur);
    if s.len() == 0 {
        assert forall|i: int| 0 <= i < r.len() implies no_char(#[trigger] r[i], '\n') by {
            assert(r[i] == cur);
        }
    } else if s[0] == '\n' {
        lemma_lines_rec_no_newline(s.drop_first(), Seq::empty());
        assert(no_char(spec_strip_cr(cur), '\n'));
        assert forall|i: int| 0 <= i < r.len() implies no_char(#[trigger] r[i], '\n') by {
            if i == 0 {
                assert(r[0] == spec_strip_cr(cur));
            } else {
                assert(r[i] == lines_rec(s.drop_first(), Seq::empty())[i - 1]);
            }
        }
    } else {
        assert(no_char(cur.push(s[0]), '\n'));
        lemma_lines_rec_no_newline(s.drop_first(), cur.push(s[0]));
        assert forall|i: int| 0 <= i < r.len() implies no_char(#[trigger] r[i], '\n') by {
            assert(r[i] == lines_rec(s.drop_first(), cur.push(s[0]))[i]);
        }
    }
}

/// Splitting at the first newline: everything before it (with the piece
/// read so far) becomes one line, the rest splits on its own.
proof fn lemma_lines_rec_split(s1: Seq<char>, s2: Seq<char>, cur: Seq<char>)
    requires
        no_char(s1, '\n'),
    ensures
        lines_rec(s1 + seq!['\n'] + s2, cur) == seq![spec_strip_cr(cur + s1)] + lines_rec(
            s2,
            Seq::empty(),
        ),
    decreases s1.len(),
{
    let w = s1 + seq!['\n'] + s2;
    if s1.len() == 0 {
        assert(w[0] == '\n');
        assert(w.drop_first() =~= s2);
        assert(cur + s1 =~= cur);
    } else {
        assert(w[0] == s1[0]);
        assert(w.drop_first() =~= s1.drop_first() + seq!['\n'] + s2);
        assert(no_char(s1.drop_first(), '\n')) by {
            assert(forall|t: int| 0 <= t < s1.drop_first().len() ==> s1.drop_first()[t] == s1[t
                + 1]);
        }
        lemma_lines_rec_split(s1.drop_first(), s2, cur.push(s1[0]));
        assert(cur.push(s1[0]) + s1.drop_first() =~= cur + s1);
    }
}

/// A newline-free remainder becomes at most one final line, unstripped.
proof fn lemma_lines_rec_final(s: Seq<char>, cur: Seq<char>)
    requires
        no_char(s, '\n'),
    ensures
        lines_rec(s, cur) == (if (cur + s).len() == 0 {
            Seq::<Seq<char>>::empty()
        } else {
            seq![cur + s]
        }),
    decreases s.len(),
{
    if s.len() == 0 {
        assert(cur + s =~= cur);
    } else {
        assert(s[0] != '\n');
        assert(no_char(s.drop_first(), '\n')) by {
            assert(forall|t: int| 0 <= t < s.drop_first().len() ==> s.drop_first()[t] == s[t + 1]);
        }
        lemma_lines_rec_final(s.drop_first(), cur.push(s[0]));
        assert(cur.push(s[0]) + s.drop_first() =~= cur + s);
    }
}

/// Joining from the front: the first piece, a separator, and the rest.
proof fn lemma_join_front(ls: Seq<Seq<char>>, sep: char)
    requires
        ls.len() >= 2,
    ensures
        spec_join(ls, sep) == ls[0] + seq![sep] + spec_join(ls.drop_first(), sep),
    decreases ls.len(),
{
    let dl = ls.drop_last();
    if ls.len() == 2 {
        assert(dl.len() == 1);
        assert(dl[0] == ls[0]);
        assert(ls.drop_first().len() == 1);
        assert(ls.drop_first()[0] == ls[1]);
        assert(ls.last() == ls[1]);
        assert(spec_join(ls, sep) == spec_join(dl, sep) + seq![sep] + ls.last());
        assert(spec_join(dl, sep) == dl[0]);
        assert(spec_join(ls.drop_first(), sep) == ls.drop_first()[0]);
    } else {
        lemma_join_front(dl, sep);
        assert(dl[0] == ls[0]);
        assert(ls.drop_first().drop_last() =~= dl.drop_first());
        assert(ls.drop_first().last() == ls.last());
        assert(ls.drop_first().len() >= 2);
        assert(spec_join(ls.drop_first(), sep) == spec_join(ls.drop_first().drop_last(), sep)
            + seq![sep] + ls.drop_first().last());
        assert(spec_join(ls, sep) == (ls[0] + seq![sep] + spec_join(dl.drop_first(), sep))
            + seq![sep] + ls.last());
        assert((ls[0] + seq![sep] + spec_join(dl.drop_first(), sep)) + seq![sep] + ls.last()
            =~= ls[0] + seq![sep] + (spec_join(dl.drop_first(), sep) + seq![sep] + ls.last()));
    }
}

/// Splitting the joined lines gives the lines back, as long as none holds
/// a newline, none ends in a carriage return, and the last is nonempty.
pub proof fn lemma_lines_of_join(ls: Seq<Seq<char>>)
    requires
        forall|i: int| 0 <= i < ls.len() ==> no_char(#[trigger] ls[i], '\n'),
        forall|i: int|
            0 <= i < ls.len() && (#[trigger] ls[i]).len() > 0 ==> ls[i].last() != '\r',
        ls.len() > 0 ==> ls.last().len() > 0,
    ensures
        spec_lines(spec_join_nl(ls)) == ls,
    decreases ls.len(),
{
    if ls.len() == 0 {
        assert(spec_join_nl(ls) =~= Seq::<char>::empty());
    } else if ls.len() == 1 {
        assert(spec_join_nl(ls) == ls[0]);
        lemma_lines_rec_final(ls[0], Seq::empty());
        assert(Seq::<char>::empty() + ls[0] =~= ls[0]);
        assert(ls.last() == ls[0]);
        assert(seq![ls[0]] =~= ls);
    } else {
        lemma_join_front(ls, '\n');
        let rest = spec_join(ls.drop_first(), '\n');
        lemma_lines_rec_split(ls[0], rest, Seq::empty());
        assert(Seq::<char>::empty() + ls[0] =~= ls[0]);
        assert(spec_strip_cr(ls[0]) == ls[0]);
        assert(forall|i: int|
            0 <= i < ls.drop_first().len() ==> ls.drop_first()[i] == ls[i + 1]);
        assert(ls.drop_first().len() > 0 ==> ls.drop_first().last() == ls.last());
        lemma_lines_of_join(ls.drop_first());
        assert(seq![ls[0]] + ls.drop_first() =~= ls);
    }
}

/// Does `n` occur anywhere in `h`?
pub fn contains_str(h: &str, n: &str) -> (b: bool)
    requires
        n@.len() >= 1,
    ensures
        b == has_sub(h@, n@),
{
    find_str(h, n).is_some()
}

} // verus!
