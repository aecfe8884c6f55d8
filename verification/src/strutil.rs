//! Small character-level helpers shared by the address and option modules.

use vstd::prelude::*;
use vstd::string::*;

verus! {

/// Relies on `String`'s `FromIterator<char>` implementation: collecting an
/// iterator of characters yields the string of exactly those characters, in
/// order.
#[verifier::external_body]
pub fn chars_to_string(v: &Vec<char>) -> (r: String)
    ensures
        r@ == v@,
{
    v.iter().collect()
}

/// Character-by-character equality test for string slices.
pub fn str_eq(a: &str, b: &str) -> (r: bool)
    ensures
        r == (a@ == b@),
{
    let alen = a.unicode_len();
    let blen = b.unicode_len();
    if alen != blen {
        return false;
    }
    let mut i: usize = 0;
    while i < alen
        invariant
            0 <= i <= alen,
            alen == a@.len(),
            blen == b@.len(),
            alen == blen,
            forall|j: int| 0 <= j < i ==> a@[j] == b@[j],
        decreases alen - i,
    {
        if a.get_char(i) != b.get_char(i) {
            return false;
        }
        i = i + 1;
    }
    proof {
        assert(a@ =~= b@);
    }
    true
}

// ---------------------------------------------------------------------------
// Character search
// ---------------------------------------------------------------------------

pub open spec fn contains_char(s: Seq<char>, c: char) -> bool {
    exists|i: int| 0 <= i < s.len() && s[i] == c
}

/// First index of `c` in `s`, if any.
pub fn find_char(s: &str, c: char) -> (r: Option<usize>)
    ensures
        match r {
            Some(i) => i < s@.len() && s@[i as int] == c && forall|k: int|
                0 <= k < i ==> s@[k] != c,
            None => !contains_char(s@, c),
        },
{
    let n = s.unicode_len();
    let mut i: usize = 0;
    while i < n
        invariant
            0 <= i <= n,
            n == s@.len(),
            forall|k: int| 0 <= k < i ==> s@[k] != c,
        decreases n - i,
    {
        if s.get_char(i) == c {
            return Some(i);
        }
        i = i + 1;
    }
    None
}

pub fn str_contains_char(s: &str, c: char) -> (r: bool)
    ensures
        r == contains_char(s@, c),
{
    match find_char(s, c) {
        Some(_) => true,
        None => false,
    }
}

// ---------------------------------------------------------------------------
// Splitting on a separator character
// ---------------------------------------------------------------------------

/// The fields of `s` between occurrences of the separator `c`; always at
/// least one field, and one more field than there are separators.
pub open spec fn split_seq(s: Seq<char>, c: char) -> Seq<Seq<char>>
    decreases s.len(),
{
    if s.len() == 0 {
        seq![Seq::<char>::empty()]
    } else if s[0] == c {
        seq![Seq::<char>::empty()] + split_seq(s.drop_first(), c)
    } else {
        let rest = split_seq(s.drop_first(), c);
        seq![seq![s[0]] + rest[0]] + rest.drop_first()
    }
}

pub proof fn lemma_split_seq_len(s: Seq<char>, c: char)
    ensures
        split_seq(s, c).len() >= 1,
    decreases s.len(),
{
    if s.len() > 0 {
        lemma_split_seq_len(s.drop_first(), c);
    }
}

/// Peeling the first field: if the first `j` characters are separator-free
/// and position `j` is a separator (or the end), the split starts with that
/// prefix.
pub proof fn lemma_split_peel(s: Seq<char>, c: char, j: int)
    requires
        0 <= j <= s.len(),
        forall|k: int| 0 <= k < j ==> s[k] != c,
        j == s.len() || s[j] == c,
    ensures
        j == s.len() ==> split_seq(s, c) == seq![s],
        j < s.len() ==> split_seq(s, c) == seq![s.take(j)] + split_seq(s.skip(j + 1), c),
    decreases j,
{
    lemma_split_seq_len(s, c);
    if j == 0 {
        if s.len() == 0 {
            assert(s =~= Seq::<char>::empty());
            assert(split_seq(s, c) =~= seq![s]);
        } else {
            assert(s[0] == c);
            assert(s.take(0) =~= Seq::<char>::empty());
            assert(s.skip(1) =~= s.drop_first());
        }
    } else {
        assert(s.len() > 0 && s[0] != c);
        let t = s.drop_first();
        assert(forall|k: int| 0 <= k < j - 1 ==> t[k] != c);
        lemma_split_peel(t, c, j - 1);
        lemma_split_seq_len(t, c);
        let rest = split_seq(t, c);
        if j == s.len() {
            assert(rest == seq![t]);
            assert(seq![s[0]] + rest[0] =~= s);
            assert(split_seq(s, c) =~= seq![s]);
        } else {
            assert(rest == seq![t.take(j - 1)] + split_seq(t.skip(j), c));
            assert(seq![s[0]] + rest[0] =~= s.take(j));
            assert(t.skip(j) =~= s.skip(j + 1));
            assert(rest.drop_first() =~= split_seq(s.skip(j + 1), c));
            assert(split_seq(s, c) =~= seq![s.take(j)] + split_seq(s.skip(j + 1), c));
        }
    }
}

/// A separator-free string splits into a single field.
pub proof fn lemma_split_whole(s: Seq<char>, c: char)
    requires
        forall|k: int| 0 <= k < s.len() ==> s[k] != c,
    ensures
        split_seq(s, c) == seq![s],
{
    lemma_split_peel(s, c, s.len() as int);
}

/// Prepending a separator-free field and a separator prepends that field to
/// the split.
pub proof fn lemma_split_cons(x: Seq<char>, rest: Seq<char>, c: char)
    requires
        forall|k: int| 0 <= k < x.len() ==> x[k] != c,
    ensures
        split_seq(x + seq![c] + rest, c) == seq![x] + split_seq(rest, c),
{
    let s = x + seq![c] + rest;
    assert(forall|k: int| 0 <= k < x.len() ==> s[k] != c);
    assert(s[x.len() as int] == c);
    lemma_split_peel(s, c, x.len() as int);
    assert(s.take(x.len() as int) =~= x);
    assert(s.skip(x.len() as int + 1) =~= rest);
}

/// Splits `s` into its fields between occurrences of `sep`.
pub fn split_str(s: &str, sep: char) -> (r: Vec<String>)
    ensures
        r@.len() == split_seq(s@, sep).len(),
        forall|i: int| 0 <= i < r@.len() ==> (#[trigger] r@[i])@ == split_seq(s@, sep)[i],
{
    let n = s.unicode_len();
    let mut toks: Vec<String> = Vec::new();
    let mut start: usize = 0;
    let mut i: usize = 0;
    proof {
        lemma_split_seq_len(s@, sep);
        assert(s@.skip(0) =~= s@);
    }
    while i < n
        invariant
            0 <= start <= i <= n,
            n == s@.len(),
            forall|k: int| start <= k < i ==> s@[k] != sep,
            split_seq(s@, sep).len() == toks@.len() + split_seq(s@.skip(start as int), sep).len(),
            forall|k: int| 0 <= k < toks@.len() ==> (#[trigger] toks@[k])@ == split_seq(s@, sep)[k],
            forall|k: int| 0 <= k < split_seq(s@.skip(start as int), sep).len()
                ==> split_seq(s@.skip(start as int), sep)[k]
                    == split_seq(s@, sep)[toks@.len() + k],
        decreases n - i,
    {
        if s.get_char(i) == sep {
            let tok = s.substring_char(start, i).to_owned();
            proof {
                let tail = s@.skip(start as int);
                assert(forall|k: int| 0 <= k < i - start ==> tail[k] != sep);
                assert(tail[i - start] == sep);
                lemma_split_peel(tail, sep, i - start);
                assert(tail.take(i - start) =~= s@.subrange(start as int, i as int));
                assert(tail.skip(i - start + 1) =~= s@.skip(i + 1));
                lemma_split_seq_len(s@.skip(i + 1), sep);
                assert(split_seq(tail, sep) == seq![s@.subrange(start as int, i as int)]
                    + split_seq(s@.skip(i + 1), sep));
                assert(split_seq(tail, sep)[0] == s@.subrange(start as int, i as int));
                assert(split_seq(s@, sep)[toks@.len() as int] == s@.subrange(
                    start as int,
                    i as int,
                ));
                assert forall|k: int|
                    0 <= k < split_seq(s@.skip(i + 1), sep).len() implies #[trigger] split_seq(
                    s@.skip(i + 1),
                    sep,
                )[k] == split_seq(s@, sep)[toks@.len() + 1 + k] by {
                    assert(split_seq(tail, sep)[k + 1] == split_seq(s@, sep)[toks@.len() + (k
                        + 1)]);
                }
            }
            toks.push(tok);
            i = i + 1;
            start = i;
        } else {
            i = i + 1;
        }
    }
    let tok = s.substring_char(start, n).to_owned();
    proof {
        let tail = s@.skip(start as int);
        lemma_split_peel(tail, sep, (n - start) as int);
        assert(tail =~= s@.subrange(start as int, n as int));
        assert(split_seq(tail, sep)[0] == tail);
        assert(split_seq(s@, sep)[toks@.len() as int] == tail);
    }
    toks.push(tok);
    toks
}

} // verus!
