//! Character-level string utilities. Verified code works over `Vec<char>`
//! whose view is the same `Seq<char>` a `String` views to, so results carry
//! over to the `String` values the public types hold.

use vstd::prelude::*;

verus! {

/// Relies on std's `FromIterator<char>` for `String`: collecting the
/// characters of a vector yields the string of exactly those characters.
#[verifier::external_body]
pub fn chars_to_string(v: &Vec<char>) -> (s: String)
    ensures
        s@ == v@,
{
    v.iter().collect()
}

/// The characters of a string slice, as a vector.
pub fn str_to_chars(s: &str) -> (v: Vec<char>)
    ensures
        v@ == s@,
{
    let n = s.unicode_len();
    let mut v: Vec<char> = Vec::new();
    let mut i: usize = 0;
    while i < n
        invariant
            n == s@.len(),
            0 <= i <= n,
            v@ == s@.subrange(0, i as int),
        decreases n - i,
    {
        let c = s.get_char(i);
        v.push(c);
        i = i + 1;
        proof {
            assert(v@ =~= s@.subrange(0, i as int));
        }
    }
    proof {
        assert(v@ =~= s@);
    }
    v
}

/// Whether the characters of `v` spell exactly the string `s`.
pub fn chars_eq_str(v: &Vec<char>, s: &str) -> (r: bool)
    ensures
        r == (v@ == s@),
{
    let n = s.unicode_len();
    if v.len() != n {
        proof {
            assert(v@ != s@);
        }
        return false;
    }
    let mut i: usize = 0;
    while i < n
        invariant
            n == s@.len() == v@.len(),
            0 <= i <= n,
            forall|k: int| 0 <= k < i ==> v@[k] == s@[k],
        decreases n - i,
    {
        if v[i] != s.get_char(i) {
            return false;
        }
        i = i + 1;
    }
    proof {
        assert(v@ =~= s@);
    }
    true
}

/// Whether two string slices hold the same characters.
pub fn str_eq(a: &str, b: &str) -> (r: bool)
    ensures
        r == (a@ == b@),
{
    let av = str_to_chars(a);
    chars_eq_str(&av, b)
}

/// Appends the characters of `s` to `out`.
pub fn push_str_chars(out: &mut Vec<char>, s: &str)
    ensures
        final(out)@ == old(out)@ + s@,
{
    let mut tail = str_to_chars(s);
    out.append(&mut tail);
}

/// `sub` occurs as a contiguous run somewhere in `s`.
pub open spec fn has_substring(s: Seq<char>, sub: Seq<char>) -> bool {
    exists|i: int|
        0 <= i && i + sub.len() <= s.len() && #[trigger] s.subrange(i, i + sub.len()) == sub
}

/// Whether the characters of `sub` occur contiguously in `s`.
pub fn contains_sub(s: &Vec<char>, sub: &str) -> (r: bool)
    ensures
        r == has_substring(s@, sub@),
{
    let m = sub.unicode_len();
    if m > s.len() {
        return false;
    }
    if m == 0 {
        proof {
            assert(s@.subrange(0, 0 + sub@.len() as int) =~= sub@);
        }
        return true;
    }
    let mut i: usize = 0;
    let last = s.len() - m;
    while i <= last
        invariant
            m == sub@.len(),
            1 <= m <= s@.len(),
            s@.len() <= usize::MAX,
            last == s@.len() - m,
            0 <= i <= last + 1,
            forall|k: int| 0 <= k < i ==> #[trigger] s@.subrange(k, k + sub@.len()) != sub@,
        decreases last + 1 - i,
    {
        let mut j: usize = 0;
        let mut all_match = true;
        while j < m
            invariant
                m == sub@.len(),
                i + m <= s@.len(),
                s@.len() <= usize::MAX,
                0 <= j <= m,
                all_match <==> (forall|k: int| 0 <= k < j ==> s@[i + k] == #[trigger] sub@[k]),
            decreases m - j,
        {
            if s[i + j] != sub.get_char(j) {
                all_match = false;
                proof {
                    assert(s@[i + j] != sub@[j as int]);
                }
                j = m;
            } else {
                j = j + 1;
            }
        }
        if all_match {
            proof {
                assert(s@.subrange(i as int, i + sub@.len()) =~= sub@);
            }
            return true;
        }
        proof {
            assert(s@.subrange(i as int, i + sub@.len()) != sub@);
        }
        i = i + 1;
    }
    proof {
        assert forall|k: int| 0 <= k && k + sub@.len() <= s@.len() implies #[trigger] s@.subrange(
            k,
            k + sub@.len(),
        ) != sub@ by {
            assert(k < i);
        }
    }
    false
}

/// The first position at or after `pos` holding `c`, or the end of `s`.
pub open spec fn find_char(s: Seq<char>, c: char, pos: int) -> int
    decreases s.len() - pos,
{
    if 0 <= pos < s.len() {
        if s[pos] == c {
            pos
        } else {
            find_char(s, c, pos + 1)
        }
    } else {
        s.len() as int
    }
}

/// `find_char` yields the first occurrence of `c` at or after `pos`.
pub proof fn lemma_find_char(s: Seq<char>, c: char, pos: int)
    requires
        0 <= pos <= s.len(),
    ensures
        pos <= find_char(s, c, pos) <= s.len(),
        find_char(s, c, pos) < s.len() ==> s[find_char(s, c, pos)] == c,
        forall|k: int| pos <= k < find_char(s, c, pos) ==> s[k] != c,
    decreases s.len() - pos,
{
    if pos < s.len() && s[pos] != c {
        lemma_find_char(s, c, pos + 1);
    }
}

/// Finds the first occurrence of `c` at or after `pos`, or `s.len()`.
pub fn find_char_from(s: &Vec<char>, c: char, pos: usize) -> (r: usize)
    requires
        pos <= s@.len(),
    ensures
        r as int == find_char(s@, c, pos as int),
{
    let mut i: usize = pos;
    while i < s.len()
        invariant
            pos <= i <= s@.len(),
            find_char(s@, c, pos as int) == find_char(s@, c, i as int),
        decreases s@.len() - i,
    {
        if s[i] == c {
            return i;
        }
        i = i + 1;
    }
    i
}

/// The views of a sequence of strings.
pub open spec fn strs_view(v: Seq<String>) -> Seq<Seq<char>> {
    v.map_values(|s: String| s@)
}

/// The items joined with `sep` between consecutive items.
pub open spec fn spec_join(items: Seq<Seq<char>>, sep: Seq<char>) -> Seq<char>
    decreases items.len(),
{
    if items.len() == 0 {
        Seq::empty()
    } else if items.len() == 1 {
        items[0]
    } else {
        spec_join(items.drop_last(), sep) + sep + items.last()
    }
}

/// A nonempty join unfolds from the front: the first item, the
/// separator, then the join of the rest.
pub proof fn lemma_join_front(items: Seq<Seq<char>>, sep: Seq<char>)
    requires
        items.len() >= 1,
    ensures
        items.len() == 1 ==> spec_join(items, sep) == items[0],
        items.len() >= 2 ==> spec_join(items, sep) == items[0] + sep + spec_join(
            items.drop_first(),
            sep,
        ),
    decreases items.len(),
{
    if items.len() >= 2 {
        let dl = items.drop_last();
        lemma_join_front(dl, sep);
        if items.len() == 2 {
            assert(items.drop_first().len() == 1);
            assert(spec_join(items.drop_first(), sep) == items.drop_first()[0]);
            assert(items.drop_first()[0] == items[1]);
            assert(dl[0] == items[0]);
            assert(spec_join(dl, sep) == items[0]);
            assert(spec_join(items, sep) == spec_join(dl, sep) + sep + items.last());
            assert(items[0] + sep + spec_join(items.drop_first(), sep) =~= spec_join(items, sep));
        } else {
            assert(dl.len() >= 2);
            assert(dl[0] == items[0]);
            let dldf = dl.drop_first();
            let dfdl = items.drop_first().drop_last();
            assert(dldf =~= dfdl);
            assert(items.drop_first().len() >= 2);
            assert(spec_join(items.drop_first(), sep) == spec_join(dfdl, sep) + sep
                + items.drop_first().last());
            assert(items.drop_first().last() == items.last());
            assert(spec_join(items, sep) == spec_join(dl, sep) + sep + items.last());
            assert(spec_join(dl, sep) == dl[0] + sep + spec_join(dldf, sep));
            assert(items[0] + sep + spec_join(items.drop_first(), sep) =~= spec_join(items, sep));
        }
    }
}

/// Peels a concatenation: when `a + b` stands at `pos` in `s`, `a`
/// stands at `pos` and `b` right after it.
pub proof fn lemma_slice_parts(s: Seq<char>, pos: int, a: Seq<char>, b: Seq<char>)
    requires
        0 <= pos,
        pos + a.len() + b.len() <= s.len(),
        s.subrange(pos, pos + a.len() + b.len()) == a + b,
    ensures
        s.subrange(pos, pos + a.len() as int) == a,
        s.subrange(pos + a.len(), pos + a.len() + b.len()) == b,
{
    let whole = s.subrange(pos, pos + a.len() + b.len());
    assert forall|k: int| 0 <= k < a.len() implies s.subrange(pos, pos + a.len() as int)[k] == a[k]
        by {
        assert(whole[k] == (a + b)[k]);
    }
    assert(s.subrange(pos, pos + a.len() as int) =~= a);
    assert forall|k: int| 0 <= k < b.len() implies s.subrange(
        pos + a.len(),
        pos + a.len() + b.len(),
    )[k] == b[k] by {
        assert(whole[a.len() + k] == (a + b)[a.len() + k]);
    }
    assert(s.subrange(pos + a.len(), pos + a.len() + b.len()) =~= b);
}

/// Joins the items with `sep` between consecutive items.
pub fn join_strs(items: &Vec<String>, sep: &str) -> (r: Vec<char>)
    ensures
        r@ == spec_join(strs_view(items@), sep@),
{
    let mut out: Vec<char> = Vec::new();
    let mut i: usize = 0;
    while i < items.len()
        invariant
            0 <= i <= items@.len(),
            out@ == spec_join(strs_view(items@).take(i as int), sep@),
        decreases items@.len() - i,
    {
        if i > 0 {
            push_str_chars(&mut out, sep);
        }
        push_str_chars(&mut out, items[i].as_str());
        i = i + 1;
        proof {
            let vs = strs_view(items@);
            assert(vs.take(i as int).drop_last() =~= vs.take(i - 1));
            if i - 1 == 0 {
                assert(out@ =~= spec_join(vs.take(i as int), sep@));
            } else {
                assert(vs.take(i as int).last() == vs[i - 1]);
            }
        }
    }
    proof {
        assert(strs_view(items@).take(items@.len() as int) =~= strs_view(items@));
    }
    out
}

} // verus!
