//! Character-level string operations: substring containment and splitting
//! on commas, each with a mathematical definition over `Seq<char>`.
use vstd::prelude::*;

verus! {

/// `needle` occurs in `hay` as a contiguous run of characters.
pub open spec fn contains(hay: Seq<char>, needle: Seq<char>) -> bool {
    exists|i: int|
        0 <= i <= hay.len() - needle.len() && #[trigger] hay.subrange(i, i + needle.len())
            == needle
}

/// The pieces of `s` between commas, as `str::split(',')` yields them: an
/// empty string gives one empty piece, and each comma starts a new piece.
pub open spec fn split_commas(s: Seq<char>) -> Seq<Seq<char>>
    decreases s.len(),
{
    if s.len() == 0 {
        seq![Seq::<char>::empty()]
    } else {
        let rest = split_commas(s.drop_last());
        if s.last() == ',' {
            rest.push(Seq::<char>::empty())
        } else {
            rest.update(rest.len() - 1, rest.last().push(s.last()))
        }
    }
}

pub proof fn lemma_split_nonempty(s: Seq<char>)
    ensures
        split_commas(s).len() >= 1,
    decreases s.len(),
{
    if s.len() > 0 {
        lemma_split_nonempty(s.drop_last());
    }
}

/// Splitting `a` followed by text `b` continues the last piece of `a` with the
/// first piece of `b`.
pub proof fn lemma_split_append(a: Seq<char>, b: Seq<char>)
    ensures
        split_commas(a + b) == split_commas(a).drop_last().push(
            split_commas(a).last() + split_commas(b)[0],
        ) + split_commas(b).drop_first(),
    decreases b.len(),
{
    lemma_split_nonempty(a);
    lemma_split_nonempty(b);
    if b.len() == 0 {
        assert(a + b =~= a);
        assert(split_commas(b) =~= seq![Seq::<char>::empty()]);
        assert(split_commas(a).last() + split_commas(b)[0] =~= split_commas(a).last());
        assert(split_commas(a).drop_last().push(split_commas(a).last()) =~= split_commas(a));
        assert(split_commas(b).drop_first() =~= Seq::<Seq<char>>::empty());
        assert(split_commas(a).drop_last().push(split_commas(a).last()) + Seq::<
            Seq<char>,
        >::empty() =~= split_commas(a));
    } else {
        let b0 = b.drop_last();
        let c = b.last();
        lemma_split_append(a, b0);
        lemma_split_nonempty(b0);
        assert((a + b).drop_last() =~= a + b0);
        assert((a + b).last() == c);
        let sa = split_commas(a);
        let sb0 = split_commas(b0);
        let left = sa.drop_last().push(sa.last() + sb0[0]);
        if c == ',' {
            assert(split_commas(b) == sb0.push(Seq::<char>::empty()));
            if sb0.len() == 1 {
                assert(split_commas(b).drop_first() =~= seq![Seq::<char>::empty()]);
                assert(sb0.drop_first() =~= Seq::<Seq<char>>::empty());
                assert(left + sb0.drop_first() =~= left);
                assert((left + sb0.drop_first()).push(Seq::<char>::empty()) =~= left
                    + split_commas(b).drop_first());
            } else {
                assert(split_commas(b).drop_first() =~= sb0.drop_first().push(
                    Seq::<char>::empty(),
                ));
                assert((left + sb0.drop_first()).push(Seq::<char>::empty()) =~= left
                    + split_commas(b).drop_first());
            }
        } else {
            let sb = split_commas(b);
            assert(sb == sb0.update(sb0.len() - 1, sb0.last().push(c)));
            if sb0.len() == 1 {
                assert(sb[0] == sb0[0].push(c));
                assert(sb.drop_first() =~= Seq::<Seq<char>>::empty());
                assert(sb0.drop_first() =~= Seq::<Seq<char>>::empty());
                assert(left + sb0.drop_first() =~= left);
                assert(sa.last() + sb0[0].push(c) =~= (sa.last() + sb0[0]).push(c));
                assert(left.update(left.len() - 1, left.last().push(c)) =~= sa.drop_last().push(
                    sa.last() + sb[0],
                ) + sb.drop_first());
            } else {
                assert(sb[0] == sb0[0]);
                let whole = left + sb0.drop_first();
                assert(whole.update(whole.len() - 1, whole.last().push(c)) =~= left
                    + sb.drop_first());
            }
        }
    }
}

/// Splitting at a comma: the pieces of `a`, then those of `b`.
pub proof fn lemma_split_at_comma(a: Seq<char>, b: Seq<char>)
    ensures
        split_commas(a + seq![','] + b) == split_commas(a) + split_commas(b),
{
    let ac = a + seq![','];
    lemma_split_append(ac, b);
    lemma_split_nonempty(a);
    lemma_split_nonempty(b);
    assert(ac.drop_last() =~= a);
    assert(split_commas(ac) == split_commas(a).push(Seq::<char>::empty()));
    let sac = split_commas(ac);
    assert(sac.drop_last() =~= split_commas(a));
    assert(Seq::<char>::empty() + split_commas(b)[0] =~= split_commas(b)[0]);
    assert(split_commas(a).push(split_commas(b)[0]) + split_commas(b).drop_first()
        =~= split_commas(a) + split_commas(b));
}

/// The characters of `s`, one by one.
pub fn chars_of(s: &str) -> (r: Vec<char>)
    ensures
        r@ == s@,
{
    let n = s.unicode_len();
    let mut r: Vec<char> = Vec::new();
    let mut i: usize = 0;
    while i < n
        invariant
            n == s@.len(),
            i <= n,
            r@ == s@.subrange(0, i as int),
        decreases n - i,
    {
        r.push(s.get_char(i));
        i += 1;
        assert(r@ =~= s@.subrange(0, i as int));
    }
    assert(r@ =~= s@);
    r
}

fn occurs_at(hay: &Vec<char>, needle: &Vec<char>, at: usize) -> (r: bool)
    requires
        at + needle@.len() <= hay@.len(),
    ensures
        r == (hay@.subrange(at as int, at + needle@.len()) == needle@),
{
    let m = needle.len();
    let mut j: usize = 0;
    while j < m
        invariant
            m == needle@.len(),
            at + m <= hay.len(),
            j <= m,
            forall|k: int| 0 <= k < j ==> hay@[at + k] == needle@[k],
        decreases m - j,
    {
        if hay[at + j] != needle[j] {
            assert(hay@.subrange(at as int, at + m)[j as int] != needle@[j as int]);
            return false;
        }
        j += 1;
    }
    assert(hay@.subrange(at as int, at + m) =~= needle@);
    true
}

/// Whether `needle` occurs in `hay`, as `str::contains` decides it.
pub fn str_contains(hay: &str, needle: &str) -> (r: bool)
    ensures
        r == contains(hay@, needle@),
{
    let h = chars_of(hay);
    let nd = chars_of(needle);
    let n = h.len();
    let m = nd.len();
    if m > n {
        return false;
    }
    let last = n - m;
    let mut i: usize = 0;
    while i < last
        invariant
            n == hay@.len(),
            m == needle@.len(),
            last == n - m,
            h@ == hay@,
            nd@ == needle@,
            i <= last,
            forall|k: int|
                0 <= k < i ==> #[trigger] hay@.subrange(k, k + needle@.len()) != needle@,
        decreases last - i,
    {
        if occurs_at(&h, &nd, i) {
            assert(hay@.subrange(i as int, i + m) == needle@);
            return true;
        }
        i += 1;
    }
    let r = occurs_at(&h, &nd, last);
    if r {
        assert(hay@.subrange(last as int, last + m) == needle@);
    }
    r
}

/// The pieces of `q` between commas, in order.
pub fn split_terms(q: &str) -> (r: Vec<String>)
    ensures
        r.deep_view() == split_commas(q@),
{
    let n = q.unicode_len();
    let mut out: Vec<String> = Vec::new();
    let mut start: usize = 0;
    let mut i: usize = 0;
    assert(q@.subrange(0, 0) =~= Seq::<char>::empty());
    assert(out.deep_view().push(Seq::<char>::empty()) =~= seq![Seq::<char>::empty()]);
    while i < n
        invariant
            n == q@.len(),
            start <= i <= n,
            split_commas(q@.subrange(0, i as int)) == out.deep_view().push(
                q@.subrange(start as int, i as int),
            ),
        decreases n - i,
    {
        let ghost before = out.deep_view();
        assert(q@.subrange(0, i + 1).drop_last() =~= q@.subrange(0, i as int));
        if q.get_char(i) == ',' {
            let piece = q.substring_char(start, i).to_owned();
            out.push(piece);
            assert(out.deep_view() =~= before.push(q@.subrange(start as int, i as int)));
            start = i + 1;
            assert(q@.subrange(start as int, start as int) =~= Seq::<char>::empty());
        } else {
            assert(q@.subrange(start as int, i + 1) =~= q@.subrange(start as int, i as int).push(
                q@[i as int],
            ));
            assert(before.push(q@.subrange(start as int, i as int)).update(
                before.len() as int,
                q@.subrange(start as int, i + 1),
            ) =~= before.push(q@.subrange(start as int, i + 1)));
        }
        i += 1;
    }
    let ghost before = out.deep_view();
    let last = q.substring_char(start, n).to_owned();
    out.push(last);
    assert(out.deep_view() =~= before.push(q@.subrange(start as int, n as int)));
    assert(q@.subrange(0, n as int) =~= q@);
    out
}

/// The first position at or after `from` where `needle` occurs in `hay`.
pub open spec fn first_at(hay: Seq<char>, needle: Seq<char>, from: int) -> Option<int>
    decreases hay.len() - from,
{
    if from < 0 || from + needle.len() > hay.len() {
        None
    } else if hay.subrange(from, from + needle.len()) == needle {
        Some(from)
    } else if from >= hay.len() {
        None
    } else {
        first_at(hay, needle, from + 1)
    }
}

/// The first position at or after `from` that holds `c`.
pub open spec fn first_char_at(hay: Seq<char>, c: char, from: int) -> Option<int>
    decreases hay.len() - from,
{
    if from < 0 || from >= hay.len() {
        None
    } else if hay[from] == c {
        Some(from)
    } else {
        first_char_at(hay, c, from + 1)
    }
}

/// Where `needle` first occurs in `hay` at or after `from`.
pub fn find_from(hay: &Vec<char>, needle: &Vec<char>, from: usize) -> (r: Option<usize>)
    ensures
        match r {
            Some(i) => first_at(hay@, needle@, from as int) == Some(i as int) && from <= i && i
                + needle@.len() <= hay@.len(),
            None => first_at(hay@, needle@, from as int) is None,
        },
{
    let n = hay.len();
    let m = needle.len();
    let mut i = from;
    while i <= n && n - i >= m
        invariant
            n == hay@.len(),
            m == needle@.len(),
            from <= i,
            first_at(hay@, needle@, i as int) == first_at(hay@, needle@, from as int),
        decreases n + 1 - i,
    {
        if occurs_at(hay, needle, i) {
            return Some(i);
        }
        if i == n {
            return None;
        }
        i += 1;
    }
    None
}

/// Where `c` first stands in `hay` at or after `from`.
pub fn find_char_from(hay: &Vec<char>, c: char, from: usize) -> (r: Option<usize>)
    ensures
        match r {
            Some(i) => first_char_at(hay@, c, from as int) == Some(i as int) && from <= i && i
                < hay@.len(),
            None => first_char_at(hay@, c, from as int) is None,
        },
{
    let n = hay.len();
    let mut i = from;
    while i < n
        invariant
            n == hay@.len(),
            from <= i,
            first_char_at(hay@, c, i as int) == first_char_at(hay@, c, from as int),
        decreases n - i,
    {
        if hay[i] == c {
            return Some(i);
        }
        i += 1;
    }
    None
}

} // verus!
