//! Character-sequence utilities the caption parser is built on: whitespace
//! trimming, substring search, splitting and joining, each with an exact
//! specification.

use vstd::prelude::*;
use vstd::std_specs::iter::IteratorSpec;

verus! {

/// Unicode white space (the `White_Space` property, as `str::trim` strips
/// it): the characters stripped from line edges.
pub open spec fn is_space(c: char) -> bool {
    c == ' ' || c == '\t' || c == '\n' || c == '\u{b}' || c == '\u{c}' || c == '\r'
        || c == '\u{85}' || c == '\u{a0}' || c == '\u{1680}' || c == '\u{2000}'
        || c == '\u{2001}' || c == '\u{2002}' || c == '\u{2003}' || c == '\u{2004}'
        || c == '\u{2005}' || c == '\u{2006}' || c == '\u{2007}' || c == '\u{2008}'
        || c == '\u{2009}' || c == '\u{200a}' || c == '\u{2028}' || c == '\u{2029}'
        || c == '\u{202f}' || c == '\u{205f}' || c == '\u{3000}'
}

/// Bracket characters stripped from the edges of a raw time-span line.
pub open spec fn is_bracket(c: char) -> bool {
    c == '[' || c == ']'
}

pub open spec fn trim_front(s: Seq<char>) -> Seq<char>
    decreases s.len(),
{
    if s.len() > 0 && is_space(s[0]) {
        trim_front(s.drop_first())
    } else {
        s
    }
}

pub open spec fn trim_back(s: Seq<char>) -> Seq<char>
    decreases s.len(),
{
    if s.len() > 0 && is_space(s.last()) {
        trim_back(s.drop_last())
    } else {
        s
    }
}

/// Whitespace removed from both ends, the model of `str::trim`.
pub open spec fn trim(s: Seq<char>) -> Seq<char> {
    trim_back(trim_front(s))
}

pub open spec fn trim_brackets_front(s: Seq<char>) -> Seq<char>
    decreases s.len(),
{
    if s.len() > 0 && is_bracket(s[0]) {
        trim_brackets_front(s.drop_first())
    } else {
        s
    }
}

pub open spec fn trim_brackets_back(s: Seq<char>) -> Seq<char>
    decreases s.len(),
{
    if s.len() > 0 && is_bracket(s.last()) {
        trim_brackets_back(s.drop_last())
    } else {
        s
    }
}

/// Bracket characters removed from both ends.
pub open spec fn trim_brackets(s: Seq<char>) -> Seq<char> {
    trim_brackets_back(trim_brackets_front(s))
}

/// `pat` occurs in `s` starting at index `i`.
pub open spec fn match_at(s: Seq<char>, pat: Seq<char>, i: int) -> bool {
    0 <= i && i + pat.len() <= s.len() && s.subrange(i, i + pat.len() as int) == pat
}

/// Index of the leftmost occurrence of `pat` in `s`, if any.
pub open spec fn find_sub(s: Seq<char>, pat: Seq<char>) -> Option<int>
    decreases s.len(),
{
    if pat.len() == 0 {
        Some(0)
    } else if s.len() < pat.len() {
        None
    } else if s.take(pat.len() as int) == pat {
        Some(0)
    } else {
        match find_sub(s.drop_first(), pat) {
            Some(i) => Some(i + 1),
            None => None,
        }
    }
}

pub open spec fn contains_sub(s: Seq<char>, pat: Seq<char>) -> bool {
    find_sub(s, pat) is Some
}

/// The value of `find_sub` is the leftmost match position.
pub proof fn lemma_find_sub(s: Seq<char>, pat: Seq<char>)
    ensures
        match find_sub(s, pat) {
            Some(i) => match_at(s, pat, i) && (forall|j: int|
                0 <= j < i ==> !match_at(s, pat, j)),
            None => forall|j: int| !match_at(s, pat, j),
        },
    decreases s.len(),
{
    if pat.len() == 0 {
        assert(s.subrange(0, 0) =~= pat);
    } else if s.len() < pat.len() {
        assert forall|j: int| !match_at(s, pat, j) by {}
    } else if s.take(pat.len() as int) == pat {
        assert(s.subrange(0, pat.len() as int) =~= s.take(pat.len() as int));
    } else {
        lemma_find_sub(s.drop_first(), pat);
        assert forall|j: int| 1 <= j && match_at(s, pat, j) implies match_at(
            s.drop_first(),
            pat,
            j - 1,
        ) by {
            assert(s.drop_first().subrange(j - 1, j - 1 + pat.len() as int) =~= s.subrange(
                j,
                j + pat.len() as int,
            ));
        }
        assert forall|j: int| match_at(s.drop_first(), pat, j) implies match_at(
            s,
            pat,
            j + 1,
        ) by {
            assert(s.subrange(j + 1, j + 1 + pat.len() as int) =~= s.drop_first().subrange(
                j,
                j + pat.len() as int,
            ));
        }
        assert(!match_at(s, pat, 0)) by {
            assert(s.subrange(0, pat.len() as int) =~= s.take(pat.len() as int));
        }
    }
}

/// Lines interleaved with the separator character, the model of `join`.
pub open spec fn join_with(ls: Seq<Seq<char>>, sep: char) -> Seq<char>
    decreases ls.len(),
{
    if ls.len() == 0 {
        Seq::empty()
    } else if ls.len() == 1 {
        ls[0]
    } else {
        ls[0].push(sep) + join_with(ls.drop_first(), sep)
    }
}

/// Split at every occurrence of the separator character; always at least
/// one (possibly empty) part.
pub open spec fn split_at_char(s: Seq<char>, sep: char) -> Seq<Seq<char>>
    decreases s.len(),
{
    if s.len() == 0 {
        seq![Seq::<char>::empty()]
    } else if s[0] == sep {
        seq![Seq::<char>::empty()] + split_at_char(s.drop_first(), sep)
    } else {
        let r = split_at_char(s.drop_first(), sep);
        seq![seq![s[0]] + r[0]] + r.drop_first()
    }
}

pub proof fn lemma_split_len(s: Seq<char>, sep: char)
    ensures
        split_at_char(s, sep).len() >= 1,
    decreases s.len(),
{
    if s.len() == 0 {
    } else {
        lemma_split_len(s.drop_first(), sep);
    }
}

/// Joining the parts of a split restores the original sequence.
pub proof fn lemma_join_split(s: Seq<char>, sep: char)
    ensures
        join_with(split_at_char(s, sep), sep) == s,
    decreases s.len(),
{
    if s.len() == 0 {
    } else if s[0] == sep {
        lemma_join_split(s.drop_first(), sep);
        lemma_split_len(s.drop_first(), sep);
        let rest = split_at_char(s.drop_first(), sep);
        let parts = seq![Seq::<char>::empty()] + rest;
        assert(parts.drop_first() =~= rest);
        assert(parts[0] =~= Seq::<char>::empty());
        if rest.len() >= 1 {
            assert(join_with(parts, sep) =~= parts[0].push(sep) + join_with(rest, sep));
            assert(parts[0].push(sep) =~= seq![sep]);
            assert(seq![sep] + s.drop_first() =~= s);
        }
    } else {
        lemma_join_split(s.drop_first(), sep);
        lemma_split_len(s.drop_first(), sep);
        let r = split_at_char(s.drop_first(), sep);
        let parts = seq![seq![s[0]] + r[0]] + r.drop_first();
        assert(parts[0] == seq![s[0]] + r[0]);
        if r.len() == 1 {
            assert(parts.len() == 1);
            assert(join_with(parts, sep) == parts[0]);
            assert(join_with(r, sep) == r[0]);
            assert(seq![s[0]] + r[0] =~= s);
        } else {
            assert(parts.drop_first() =~= r.drop_first());
            assert(join_with(parts, sep) == parts[0].push(sep) + join_with(r.drop_first(), sep));
            assert(join_with(r, sep) == r[0].push(sep) + join_with(r.drop_first(), sep));
            assert(parts[0].push(sep) =~= seq![s[0]] + r[0].push(sep));
            assert(parts[0].push(sep) + join_with(r.drop_first(), sep) =~= seq![s[0]] + (
            r[0].push(sep) + join_with(r.drop_first(), sep)));
            assert(seq![s[0]] + s.drop_first() =~= s);
        }
    }
}

/// Exec test for `is_space`.
pub fn space_char(c: char) -> (b: bool)
    ensures
        b == is_space(c),
{
    c == ' ' || c == '\t' || c == '\n' || c == '\u{b}' || c == '\u{c}' || c == '\r'
        || c == '\u{85}' || c == '\u{a0}' || c == '\u{1680}' || c == '\u{2000}'
        || c == '\u{2001}' || c == '\u{2002}' || c == '\u{2003}' || c == '\u{2004}'
        || c == '\u{2005}' || c == '\u{2006}' || c == '\u{2007}' || c == '\u{2008}'
        || c == '\u{2009}' || c == '\u{200a}' || c == '\u{2028}' || c == '\u{2029}'
        || c == '\u{202f}' || c == '\u{205f}' || c == '\u{3000}'
}

/// Exec test for `is_bracket`.
pub fn bracket_char(c: char) -> (b: bool)
    ensures
        b == is_bracket(c),
{
    c == '[' || c == ']'
}

/// Copy of `v[lo..hi]`.
pub fn subrange_chars(v: &Vec<char>, lo: usize, hi: usize) -> (r: Vec<char>)
    requires
        lo <= hi <= v@.len(),
    ensures
        r@ == v@.subrange(lo as int, hi as int),
{
    let mut r: Vec<char> = Vec::new();
    let mut i: usize = lo;
    while i < hi
        invariant
            lo <= i <= hi <= v@.len(),
            r@ =~= v@.subrange(lo as int, i as int),
        decreases hi - i,
    {
        r.push(v[i]);
        assert(r@ =~= v@.subrange(lo as int, i + 1));
        i += 1;
    }
    r
}

/// Whitespace trimmed from both ends.
pub fn trim_chars(v: &Vec<char>) -> (r: Vec<char>)
    ensures
        r@ == trim(v@),
{
    let n = v.len();
    let mut lo: usize = 0;
    proof {
        assert(v@.skip(0) =~= v@);
    }
    while lo < n && space_char(v[lo])
        invariant
            lo <= n,
            n == v@.len(),
            trim_front(v@) == trim_front(v@.skip(lo as int)),
        decreases n - lo,
    {
        proof {
            assert(v@.skip(lo as int).drop_first() =~= v@.skip(lo + 1));
        }
        lo += 1;
    }
    proof {
        if lo == n {
            assert(v@.skip(lo as int) =~= Seq::<char>::empty());
        }
        assert(trim_front(v@) == v@.skip(lo as int));
    }
    let mut hi: usize = n;
    while hi > lo && space_char(v[hi - 1])
        invariant
            lo <= hi <= n,
            n == v@.len(),
            trim_front(v@) == v@.skip(lo as int),
            trim_back(v@.skip(lo as int)) == trim_back(v@.subrange(lo as int, hi as int)),
        decreases hi,
    {
        proof {
            let cur = v@.subrange(lo as int, hi as int);
            assert(cur.last() == v@[hi - 1]);
            assert(cur.drop_last() =~= v@.subrange(lo as int, hi - 1));
        }
        hi -= 1;
    }
    proof {
        let cur = v@.subrange(lo as int, hi as int);
        if hi == lo {
            assert(cur.len() == 0);
        }
        assert(trim(v@) == cur);
    }
    subrange_chars(v, lo, hi)
}

/// Bracket characters trimmed from both ends.
pub fn trim_bracket_chars(v: &Vec<char>) -> (r: Vec<char>)
    ensures
        r@ == trim_brackets(v@),
{
    let n = v.len();
    let mut lo: usize = 0;
    proof {
        assert(v@.skip(0) =~= v@);
    }
    while lo < n && bracket_char(v[lo])
        invariant
            lo <= n,
            n == v@.len(),
            trim_brackets_front(v@) == trim_brackets_front(v@.skip(lo as int)),
        decreases n - lo,
    {
        proof {
            assert(v@.skip(lo as int).drop_first() =~= v@.skip(lo + 1));
        }
        lo += 1;
    }
    proof {
        if lo == n {
            assert(v@.skip(lo as int) =~= Seq::<char>::empty());
        }
        assert(trim_brackets_front(v@) == v@.skip(lo as int));
    }
    let mut hi: usize = n;
    while hi > lo && bracket_char(v[hi - 1])
        invariant
            lo <= hi <= n,
            n == v@.len(),
            trim_brackets_front(v@) == v@.skip(lo as int),
            trim_brackets_back(v@.skip(lo as int)) == trim_brackets_back(
                v@.subrange(lo as int, hi as int),
            ),
        decreases hi,
    {
        proof {
            let cur = v@.subrange(lo as int, hi as int);
            assert(cur.last() == v@[hi - 1]);
            assert(cur.drop_last() =~= v@.subrange(lo as int, hi - 1));
        }
        hi -= 1;
    }
    proof {
        let cur = v@.subrange(lo as int, hi as int);
        if hi == lo {
            assert(cur.len() == 0);
        }
        assert(trim_brackets(v@) == cur);
    }
    subrange_chars(v, lo, hi)
}

/// Leftmost occurrence of `pat` in `v`, as `find_sub` names it.
pub fn find_pattern(v: &Vec<char>, pat: &Vec<char>) -> (r: Option<usize>)
    requires
        pat@.len() >= 1,
    ensures
        match r {
            Some(i) => find_sub(v@, pat@) == Some(i as int) && i + pat@.len() <= v@.len(),
            None => find_sub(v@, pat@) is None,
        },
{
    proof {
        lemma_find_sub(v@, pat@);
    }
    let n = v.len();
    let m = pat.len();
    if m > n {
        return None;
    }
    let mut i: usize = 0;
    while i <= n - m
        invariant
            m >= 1,
            m <= n,
            n == v@.len(),
            m == pat@.len(),
            i <= n - m + 1,
            forall|j: int| 0 <= j < i ==> !match_at(v@, pat@, j),
        decreases n - i,
    {
        let mut k: usize = 0;
        let mut ok = true;
        while k < m
            invariant
                i + m <= n,
                n == v@.len(),
                m == pat@.len(),
                k <= m,
                ok <==> (forall|t: int| 0 <= t < k ==> v@[i + t] == pat@[t]),
            decreases m - k,
        {
            if v[i + k] != pat[k] {
                ok = false;
                k = m;
            } else {
                k += 1;
            }
        }
        if ok {
            proof {
                assert(v@.subrange(i as int, i + m) =~= pat@);
                assert(match_at(v@, pat@, i as int));
                lemma_find_sub(v@, pat@);
                // find_sub is Some by the characterization: a match exists.
                if find_sub(v@, pat@) is None {
                    assert(!match_at(v@, pat@, i as int));
                }
                let f = find_sub(v@, pat@)->Some_0;
                assert(f <= i as int);
                assert(f >= i as int);
            }
            return Some(i);
        }
        proof {
            let witness = choose|t: int| 0 <= t < m && v@[i + t] != pat@[t];
            if match_at(v@, pat@, i as int) {
                assert(v@.subrange(i as int, i + m)[witness] == v@[i + witness]);
            }
        }
        i += 1;
    }
    proof {
        assert forall|j: int| !match_at(v@, pat@, j) by {
            if 0 <= j <= n - m {
                assert(!match_at(v@, pat@, j));
            }
        }
        if find_sub(v@, pat@) is Some {
            let f = find_sub(v@, pat@)->Some_0;
            assert(match_at(v@, pat@, f));
        }
    }
    None
}

/// The parts joined with `sep` between them.
pub fn join_chars(ls: &Vec<Vec<char>>, sep: char) -> (r: Vec<char>)
    ensures
        r@ == join_with(ls.deep_view(), sep),
{
    let mut r: Vec<char> = Vec::new();
    let n = ls.len();
    if n == 0 {
        return r;
    }
    let mut i: usize = 0;
    proof {
        assert(ls.deep_view().skip(0) =~= ls.deep_view());
    }
    while i < n
        invariant
            1 <= n,
            i <= n,
            n == ls.deep_view().len(),
            ls.deep_view().len() == ls@.len(),
            forall|j: int| 0 <= j < n ==> ls.deep_view()[j] == #[trigger] ls@[j]@,
            join_with(ls.deep_view(), sep) =~= if i < n {
                r@ + join_with(ls.deep_view().skip(i as int), sep)
            } else {
                r@
            },
        decreases n - i,
    {
        proof {
            let tail = ls.deep_view().skip(i as int);
            assert(tail[0] == ls.deep_view()[i as int]);
            if i + 1 < n {
                assert(tail.drop_first() =~= ls.deep_view().skip(i + 1));
                assert(join_with(tail, sep) =~= tail[0].push(sep) + join_with(
                    ls.deep_view().skip(i + 1),
                    sep,
                ));
            } else {
                assert(tail.len() == 1);
            }
        }
        let part = &ls[i];
        let mut k: usize = 0;
        let ghost r0 = r@;
        while k < part.len()
            invariant
                k <= part@.len(),
                r@ =~= r0 + part@.take(k as int),
            decreases part@.len() - k,
        {
            r.push(part[k]);
            assert(r@ =~= r0 + part@.take(k + 1));
            k += 1;
        }
        proof {
            assert(part@.take(part@.len() as int) =~= part@);
            assert(part@ == ls.deep_view()[i as int]);
        }
        if i + 1 < n {
            r.push(sep);
        }
        i += 1;
    }
    r
}

/// The parts of `v` between occurrences of `sep`, as `split_at_char`
/// describes them.
pub fn split_chars(v: &Vec<char>, sep: char) -> (r: Vec<Vec<char>>)
    ensures
        r.deep_view() == split_at_char(v@, sep),
{
    let mut out: Vec<Vec<char>> = Vec::new();
    let mut cur: Vec<char> = Vec::new();
    let n = v.len();
    let mut i: usize = 0;
    proof {
        assert(v@.skip(0) =~= v@);
        assert(out.deep_view() =~= Seq::<Seq<char>>::empty());
    }
    while i < n
        invariant
            i <= n,
            n == v@.len(),
            split_at_char(v@, sep) =~~= out.deep_view() + seq![
                cur@ + split_at_char(v@.skip(i as int), sep)[0],
            ] + split_at_char(v@.skip(i as int), sep).drop_first(),
        decreases n - i,
    {
        proof {
            let tail = v@.skip(i as int);
            assert(tail[0] == v@[i as int]);
            assert(tail.drop_first() =~= v@.skip(i + 1));
            lemma_split_len(v@.skip(i + 1), sep);
        }
        let ghost out0 = out.deep_view();
        let ghost cur0 = cur@;
        if v[i] == sep {
            out.push(cur);
            cur = Vec::new();
            proof {
                assert(out.deep_view() =~~= out0.push(cur0));
                let next = split_at_char(v@.skip(i + 1), sep);
                assert(split_at_char(v@.skip(i as int), sep) == seq![Seq::<char>::empty()]
                    + next);
                assert(split_at_char(v@.skip(i as int), sep)[0] =~= Seq::<char>::empty());
                assert(cur0 + split_at_char(v@.skip(i as int), sep)[0] =~= cur0);
                assert(split_at_char(v@.skip(i as int), sep).drop_first() =~= next);
                assert(out0 + seq![cur0] + seq![cur@ + next[0]] + next.drop_first() =~~= out0
                    + seq![cur0] + (seq![next[0]] + next.drop_first()));
                assert(seq![next[0]] + next.drop_first() =~= next);
            }
        } else {
            cur.push(v[i]);
            proof {
                let next = split_at_char(v@.skip(i + 1), sep);
                assert(split_at_char(v@.skip(i as int), sep) == seq![
                    seq![v@[i as int]] + next[0],
                ] + next.drop_first());
                assert(split_at_char(v@.skip(i as int), sep)[0] == seq![v@[i as int]] + next[0]);
                assert(split_at_char(v@.skip(i as int), sep).drop_first() =~= next.drop_first());
                assert(cur0 + (seq![v@[i as int]] + next[0]) =~= cur@ + next[0]);
            }
        }
        i += 1;
    }
    proof {
        let tail = v@.skip(n as int);
        assert(tail =~= Seq::<char>::empty());
        assert(split_at_char(tail, sep) == seq![Seq::<char>::empty()]);
        assert(cur@ + split_at_char(tail, sep)[0] =~= cur@);
        assert(split_at_char(tail, sep).drop_first() =~= Seq::<Seq<char>>::empty());
    }
    let ghost out0 = out.deep_view();
    let ghost cur0 = cur@;
    out.push(cur);
    proof {
        assert(out.deep_view() =~~= out0.push(cur0));
        assert(out0 + seq![cur0] =~= out0.push(cur0));
    }
    out
}

/// The characters of a string, in order.
pub fn chars_of_str(s: &str) -> (r: Vec<char>)
    ensures
        r@ == s@,
{
    broadcast use vstd::string::group_string_axioms;

    let mut it = s.chars();
    let mut r: Vec<char> = Vec::new();
    proof {
        assert(r@ + it.remaining() =~= s@);
    }
    loop
        invariant
            it.obeys_prophetic_iter_laws(),
            it.decrease() is Some,
            r@ + it.remaining() =~= s@,
        decreases it.decrease()->0,
    {
        let ghost r0 = r@;
        let ghost rem0 = it.remaining();
        match it.next() {
            Some(c) => {
                r.push(c);
                proof {
                    assert(r@ =~= r0.push(c));
                    assert(r0.push(rem0[0]) + rem0.drop_first() =~= r0 + rem0);
                }
            },
            None => {
                proof {
                    assert(r@ + it.remaining() =~= r@);
                }
                return r;
            },
        }
    }
}

/// The string holding exactly the given characters.
///
/// Relies on `String`'s `FromIterator` over `char`: collecting yields a
/// string whose characters are exactly the collected ones, in order.
#[verifier::external_body]
pub fn string_from_chars(v: &Vec<char>) -> (r: String)
    ensures
        r@ == v@,
{
    v.iter().collect()
}

} // verus!
