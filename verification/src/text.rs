//! Character-level string operations used to clean up tag text and to
//! relate file locations to the music root folder.

use vstd::prelude::*;

verus! {

/// `s` with every occurrence of the character `c` taken out, the other
/// characters kept in order.
pub open spec fn without_char(s: Seq<char>, c: char) -> Seq<char> {
    s.filter(|x: char| x != c)
}

/// `pat` occurs in `s` starting at index `i`.
pub open spec fn occurs_at(s: Seq<char>, pat: Seq<char>, i: int) -> bool {
    &&& 0 <= i
    &&& i + pat.len() <= s.len()
    &&& s.subrange(i, i + pat.len()) == pat
}

/// The first index, at or after `from`, at which `pat` occurs in `s`.
pub open spec fn find_from(s: Seq<char>, pat: Seq<char>, from: int) -> Option<int>
    decreases s.len() + 1 - from,
{
    if from < 0 || from + pat.len() > s.len() {
        None
    } else if occurs_at(s, pat, from) {
        Some(from)
    } else {
        find_from(s, pat, from + 1)
    }
}

/// `s` with its first occurrence of `pat` cut out; `s` itself when `pat`
/// does not occur in it.
pub open spec fn cut_first(s: Seq<char>, pat: Seq<char>) -> Seq<char> {
    match find_from(s, pat, 0) {
        Some(i) => s.take(i) + s.skip(i + pat.len()),
        None => s,
    }
}

/// `find_from` gives the first index at or after `from` at which `pat`
/// occurs in `s`, and nothing only when `pat` occurs nowhere there.
pub proof fn law_find_from_is_first(s: Seq<char>, pat: Seq<char>, from: int)
    requires
        0 <= from,
    ensures
        match find_from(s, pat, from) {
            Some(i) => from <= i && occurs_at(s, pat, i) && forall|j: int|
                from <= j < i ==> !occurs_at(s, pat, j),
            None => forall|j: int| from <= j ==> !occurs_at(s, pat, j),
        },
    decreases s.len() + 1 - from,
{
    if from + pat.len() > s.len() {
    } else if occurs_at(s, pat, from) {
    } else {
        law_find_from_is_first(s, pat, from + 1);
    }
}

/// Cutting `pat` from a text that starts with it leaves the rest of the
/// text: `pat` followed by what is left is the text again.
pub proof fn law_cut_leading(s: Seq<char>, pat: Seq<char>)
    requires
        occurs_at(s, pat, 0),
    ensures
        cut_first(s, pat) == s.skip(pat.len() as int),
        pat + cut_first(s, pat) == s,
{
    assert(s.take(0) + s.skip(pat.len() as int) =~= s.skip(pat.len() as int));
    assert(pat + s.skip(pat.len() as int) =~= s) by {
        assert(s.subrange(0, pat.len() as int) == pat);
    }
}

/// Cutting `pat` out of a text removes exactly its first occurrence: when
/// `pat` first occurs at `i`, what is left is the text before `i` followed
/// by the text after that occurrence.
pub proof fn law_cut_first_occurrence(s: Seq<char>, pat: Seq<char>, i: int)
    requires
        occurs_at(s, pat, i),
        forall|j: int| 0 <= j < i ==> !occurs_at(s, pat, j),
    ensures
        cut_first(s, pat) == s.take(i) + s.skip(i + pat.len()),
        cut_first(s, pat).len() == s.len() - pat.len(),
{
    law_find_from_is_first(s, pat, 0);
    let k = find_from(s, pat, 0);
    if k is None {
        assert(!occurs_at(s, pat, i));
    } else {
        let f = k->0;
        if f < i {
            assert(!occurs_at(s, pat, f));
        } else if f > i {
            assert(!occurs_at(s, pat, i));
        }
    }
}

/// A text in which `pat` does not occur is left as it is.
pub proof fn law_cut_absent(s: Seq<char>, pat: Seq<char>)
    requires
        forall|j: int| !occurs_at(s, pat, j),
    ensures
        cut_first(s, pat) == s,
{
    law_find_from_is_first(s, pat, 0);
    if find_from(s, pat, 0) is Some {
        let i = find_from(s, pat, 0)->0;
        assert(occurs_at(s, pat, i));
    }
}

/// Taking a character out of a text goes character by character: a text
/// of one character loses it exactly when it is `c`, and the text made of
/// two parts becomes the two parts with `c` taken out, one after the other.
pub proof fn law_without_char_pieces(a: Seq<char>, b: Seq<char>, x: char, c: char)
    ensures
        without_char(seq![x], c) == (if x == c {
            Seq::<char>::empty()
        } else {
            seq![x]
        }),
        without_char(a + b, c) == without_char(a, c) + without_char(b, c),
        without_char(Seq::<char>::empty(), c) == Seq::<char>::empty(),
{
    reveal(Seq::filter);
    let one = seq![x];
    assert(one.drop_last() =~= Seq::<char>::empty());
    assert(one.last() == x);
    assert(without_char(one.drop_last(), c) =~= Seq::<char>::empty());
    if x == c {
        assert(without_char(one, c) =~= Seq::<char>::empty());
    } else {
        assert(without_char(one, c) =~= Seq::<char>::empty().push(x));
        assert(Seq::<char>::empty().push(x) =~= one);
    }
    Seq::filter_distributes_over_add(a, b, |x: char| x != c);
}

/// Taking a character out of a text leaves no occurrence of it, keeps every
/// other character, and changes nothing in a text without it.
pub proof fn law_without_char(s: Seq<char>, c: char)
    ensures
        !without_char(s, c).contains(c),
        forall|i: int| 0 <= i < s.len() && s[i] != c ==> without_char(s, c).contains(s[i]),
        !s.contains(c) ==> without_char(s, c) == s,
    decreases s.len(),
{
    reveal(Seq::filter);
    broadcast use Seq::lemma_filter_pred, Seq::lemma_filter_contains;

    let f = without_char(s, c);
    if f.contains(c) {
        let k = choose|k: int| 0 <= k < f.len() && f[k] == c;
        assert(f[k] != c);
    }
    if s.len() > 0 {
        law_without_char(s.drop_last(), c);
        if !s.contains(c) {
            assert forall|i: int| 0 <= i < s.drop_last().len() implies s.drop_last()[i] != c by {
                assert(s[i] == s.drop_last()[i]);
            }
            assert(s.last() != c) by {
                assert(s[s.len() - 1] == s.last());
            }
            assert(s.drop_last().push(s.last()) =~= s);
        }
    }
}

/// Appends one character to a string (`String::push`).
#[verifier::external_body]
fn push_char(s: &mut String, c: char)
    ensures
        final(s)@ == old(s)@.push(c),
{
    s.push(c);
}

/// The characters of a string, in order.
pub fn chars_of(s: &str) -> (v: Vec<char>)
    ensures
        v@ == s@,
{
    let mut v: Vec<char> = Vec::new();
    for c in it: s.chars()
        invariant
            v@ == it.seq().take(it.index() as int),
    {
        v.push(c);
    }
    v
}

/// The string made of the characters `v[from..to]`.
pub fn string_of_range(v: &Vec<char>, from: usize, to: usize) -> (s: String)
    requires
        from <= to <= v.len(),
    ensures
        s@ == v@.subrange(from as int, to as int),
{
    let mut s = String::new();
    let mut i = from;
    while i < to
        invariant
            from <= i <= to <= v.len(),
            s@ == v@.subrange(from as int, i as int),
        decreases to - i,
    {
        push_char(&mut s, v[i]);
        assert(v@.subrange(from as int, i as int).push(v@[i as int]) == v@.subrange(
            from as int,
            i + 1,
        ));
        i = i + 1;
    }
    s
}

/// Whether two strings hold the same characters.
pub fn same_text(a: &str, b: &str) -> (r: bool)
    ensures
        r == (a@ == b@),
{
    let x = chars_of(a);
    let y = chars_of(b);
    if x.len() != y.len() {
        return false;
    }
    for i in 0..x.len()
        invariant
            x@ == a@,
            y@ == b@,
            x.len() == y.len(),
            forall|j: int| 0 <= j < i ==> x@[j] == y@[j],
    {
        if x[i] != y[i] {
            return false;
        }
    }
    assert(x@ =~= y@);
    true
}

/// `s` without any occurrence of the character `c`
/// (`str::replace(s, c, "")`).
pub fn remove_char(s: &str, c: char) -> (r: String)
    ensures
        r@ == without_char(s@, c),
{
    let mut r = String::new();
    let mut seen: Vec<char> = Vec::new();
    for x in it: s.chars()
        invariant
            seen@ == it.seq().take(it.index() as int),
            r@ == without_char(seen@, c),
    {
        let ghost before = seen@;
        if x != c {
            push_char(&mut r, x);
        }
        seen.push(x);
        proof {
            reveal(Seq::filter);
            assert(seen@.drop_last() == before);
        }
    }
    assert(seen@ == s@);
    r
}

/// Whether `pat` occurs in `v` at index `i`.
fn matches_at(v: &Vec<char>, pat: &Vec<char>, i: usize) -> (r: bool)
    requires
        i + pat.len() <= v.len(),
    ensures
        r == occurs_at(v@, pat@, i as int),
{
    for j in 0..pat.len()
        invariant
            i + pat.len() <= v.len(),
            forall|k: int| 0 <= k < j ==> v@[i + k] == pat@[k],
    {
        if v[i + j] != pat[j] {
            assert(v@.subrange(i as int, i + pat.len())[j as int] != pat@[j as int]);
            return false;
        }
    }
    assert(v@.subrange(i as int, i + pat.len()) =~= pat@);
    true
}

/// `s` with its first occurrence of `pat` cut out
/// (`str::replacen(s, pat, "", 1)`).
pub fn remove_first(s: &str, pat: &str) -> (r: String)
    ensures
        r@ == cut_first(s@, pat@),
{
    let v = chars_of(s);
    let p = chars_of(pat);
    if p.len() > v.len() || p.len() == 0 {
        proof {
            if p.len() == 0 {
                assert(s@.subrange(0, 0) =~= pat@);
                assert(occurs_at(s@, pat@, 0));
            }
        }
        return string_of_range(&v, 0, v.len());
    }
    let last = v.len() - p.len();
    for i in 0..last + 1
        invariant
            v@ == s@,
            p@ == pat@,
            0 < p.len() <= v.len(),
            last == v.len() - p.len(),
            find_from(s@, pat@, 0) == find_from(s@, pat@, i as int),
    {
        if matches_at(&v, &p, i) {
            let r = string_of_range(&v, 0, i);
            let rest = string_of_range(&v, i + p.len(), v.len());
            let r = r.concat(rest.as_str());
            assert(v@.take(i as int) == v@.subrange(0, i as int));
            assert(v@.skip(i + p.len()) == v@.subrange(i + p.len(), v.len() as int));
            return r;
        }
    }
    string_of_range(&v, 0, v.len())
}

} // verus!
