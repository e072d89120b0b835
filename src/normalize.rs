use vstd::prelude::*;

use crate::text::range_eq;

verus! {

/// Whether `pat` occurs in `s` at index `i`.
pub open spec fn match_at(s: Seq<char>, i: int, pat: Seq<char>) -> bool {
    0 <= i && i + pat.len() <= s.len() && s.subrange(i, i + pat.len()) == pat
}

/// `s[i..]` with the occurrences of `pat`, found from left to right without
/// overlap, replaced by `rep`.
pub open spec fn replace_from(s: Seq<char>, i: int, pat: Seq<char>, rep: Seq<char>) -> Seq<char>
    decreases s.len() - i,
{
    if i < 0 || i >= s.len() || pat.len() == 0 {
        Seq::empty()
    } else if match_at(s, i, pat) {
        rep + replace_from(s, i + pat.len(), pat, rep)
    } else {
        seq![s[i]] + replace_from(s, i + 1, pat, rep)
    }
}

pub open spec fn replace_all(s: Seq<char>, pat: Seq<char>, rep: Seq<char>) -> Seq<char> {
    replace_from(s, 0, pat, rep)
}

pub open spec fn open_delim() -> Seq<char> {
    seq!['{', '{']
}

pub open spec fn close_delim() -> Seq<char> {
    seq!['}', '}']
}

/// One layer of padding taken off every placeholder delimiter: a space, then a
/// tab, after each `{{`; a space, then a tab, before each `}}`.
pub open spec fn strip_once(s: Seq<char>) -> Seq<char> {
    let a = replace_all(s, seq!['{', '{', ' '], open_delim());
    let b = replace_all(a, seq!['{', '{', '\t'], open_delim());
    let c = replace_all(b, seq![' ', '}', '}'], close_delim());
    replace_all(c, seq!['\t', '}', '}'], close_delim())
}

/// The normal form of a document: `strip_once` repeated until it changes nothing.
pub open spec fn normalize(s: Seq<char>) -> Seq<char>
    decreases s.len(),
    via normalize_decreases
{
    let t = strip_once(s);
    if t == s {
        s
    } else {
        normalize(t)
    }
}

/// A replacement that shortens each match never lengthens the text, and leaves it
/// unchanged when the length stays.
pub proof fn lemma_replace_shrinks(s: Seq<char>, i: int, pat: Seq<char>, rep: Seq<char>)
    requires
        0 <= i <= s.len(),
        rep.len() < pat.len(),
    ensures
        replace_from(s, i, pat, rep).len() <= s.len() - i,
        replace_from(s, i, pat, rep).len() == s.len() - i ==> replace_from(s, i, pat, rep)
            == s.subrange(i, s.len() as int),
    decreases s.len() - i,
{
    if i < s.len() {
        if match_at(s, i, pat) {
            lemma_replace_shrinks(s, i + pat.len(), pat, rep);
        } else {
            lemma_replace_shrinks(s, i + 1, pat, rep);
            let r = replace_from(s, i + 1, pat, rep);
            if r.len() == s.len() - i - 1 {
                assert(seq![s[i]] + r =~= s.subrange(i, s.len() as int));
            }
        }
    } else {
        assert(s.subrange(i, s.len() as int) =~= Seq::<char>::empty());
    }
}

pub proof fn lemma_strip_once_shrinks(s: Seq<char>)
    ensures
        strip_once(s).len() <= s.len(),
        strip_once(s).len() == s.len() ==> strip_once(s) == s,
{
    let a = replace_all(s, seq!['{', '{', ' '], open_delim());
    let b = replace_all(a, seq!['{', '{', '\t'], open_delim());
    let c = replace_all(b, seq![' ', '}', '}'], close_delim());
    lemma_replace_shrinks(s, 0, seq!['{', '{', ' '], open_delim());
    lemma_replace_shrinks(a, 0, seq!['{', '{', '\t'], open_delim());
    lemma_replace_shrinks(b, 0, seq![' ', '}', '}'], close_delim());
    lemma_replace_shrinks(c, 0, seq!['\t', '}', '}'], close_delim());
    assert(s.subrange(0, s.len() as int) =~= s);
    assert(a.subrange(0, a.len() as int) =~= a);
    assert(b.subrange(0, b.len() as int) =~= b);
    assert(c.subrange(0, c.len() as int) =~= c);
}

#[via_fn]
proof fn normalize_decreases(s: Seq<char>) {
    lemma_strip_once_shrinks(s);
}

/// `s` with the occurrences of `pat` replaced by `rep` (see `replace_all`).
pub fn replace_chars(s: &Vec<char>, pat: &Vec<char>, rep: &Vec<char>) -> (r: Vec<char>)
    requires
        pat@.len() > 0,
    ensures
        r@ == replace_all(s@, pat@, rep@),
{
    let mut out: Vec<char> = Vec::new();
    let mut i: usize = 0;
    let n = s.len();
    let m = pat.len();
    while i < n
        invariant
            n == s@.len(),
            m == pat@.len() > 0,
            i <= n,
            out@ + replace_from(s@, i as int, pat@, rep@) == replace_all(s@, pat@, rep@),
        decreases n - i,
    {
        let ghost before = out@;
        if m <= n - i && range_eq(s, i, i + m, pat) {
            let mut k: usize = 0;
            while k < rep.len()
                invariant
                    k <= rep@.len(),
                    out@ == before + rep@.take(k as int),
                decreases rep@.len() - k,
            {
                out.push(rep[k]);
                k += 1;
                assert(out@ =~= before + rep@.take(k as int));
            }
            assert(rep@.take(rep@.len() as int) =~= rep@);
            assert(out@ + replace_from(s@, (i + m) as int, pat@, rep@) =~= before
                + replace_from(s@, i as int, pat@, rep@));
            i = i + m;
        } else {
            out.push(s[i]);
            assert(out@ + replace_from(s@, i + 1, pat@, rep@) =~= before + replace_from(
                s@,
                i as int,
                pat@,
                rep@,
            ));
            i = i + 1;
        }
    }
    assert(out@ =~= replace_all(s@, pat@, rep@));
    out
}

/// One application of `strip_once`.
pub fn strip_once_chars(s: &Vec<char>) -> (r: Vec<char>)
    ensures
        r@ == strip_once(s@),
{
    let open = vec!['{', '{'];
    let close = vec!['}', '}'];
    let a = replace_chars(s, &vec!['{', '{', ' '], &open);
    let b = replace_chars(&a, &vec!['{', '{', '\t'], &open);
    let c = replace_chars(&b, &vec![' ', '}', '}'], &close);
    replace_chars(&c, &vec!['\t', '}', '}'], &close)
}

/// The normal form of `s` (see `normalize`).
pub fn normalize_chars(s: Vec<char>) -> (r: Vec<char>)
    ensures
        r@ == normalize(s@),
{
    let mut cur = s;
    loop
        invariant
            normalize(cur@) == normalize(s@),
        decreases cur@.len(),
    {
        let next = strip_once_chars(&cur);
        proof {
            lemma_strip_once_shrinks(cur@);
        }
        if next.len() == cur.len() {
            return cur;
        }
        cur = next;
    }
}

} // verus!
