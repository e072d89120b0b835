use vstd::prelude::*;

verus! {

/// Relies on `String::push`: appends one character at the end.
#[verifier::external_body]
pub(crate) fn push_char(s: &mut String, c: char)
    ensures
        final(s)@ == old(s)@.push(c),
{
    s.push(c);
}

/// The characters of `s`, in order.
pub fn chars_of(s: &str) -> (r: Vec<char>)
    ensures
        r@ == s@,
{
    let mut r: Vec<char> = Vec::new();
    for c in it: s.chars()
        invariant
            it.seq() == s@,
            r@ == s@.take(it.index() as int),
    {
        r.push(c);
        proof {
            assert(r@ =~= s@.take(it.index() as int + 1));
        }
    }
    assert(r@ =~= s@);
    r
}

/// Appends the characters `s[a..b]` to `out`.
pub fn push_range(out: &mut String, s: &Vec<char>, a: usize, b: usize)
    requires
        a <= b <= s@.len(),
    ensures
        final(out)@ == old(out)@ + s@.subrange(a as int, b as int),
{
    let mut i: usize = a;
    while i < b
        invariant
            a <= i <= b <= s@.len(),
            out@ == old(out)@ + s@.subrange(a as int, i as int),
        decreases b - i,
    {
        push_char(out, s[i]);
        i += 1;
        assert(out@ =~= old(out)@ + s@.subrange(a as int, i as int));
    }
}

/// The string made of the characters `s[a..b]`.
pub fn string_of_range(s: &Vec<char>, a: usize, b: usize) -> (r: String)
    requires
        a <= b <= s@.len(),
    ensures
        r@ == s@.subrange(a as int, b as int),
{
    let mut r = String::new();
    push_range(&mut r, s, a, b);
    assert(r@ =~= s@.subrange(a as int, b as int));
    r
}

/// Whether `s[a..b]` and `k` hold the same characters.
pub fn range_eq(s: &Vec<char>, a: usize, b: usize, k: &Vec<char>) -> (r: bool)
    requires
        a <= b <= s@.len(),
    ensures
        r == (s@.subrange(a as int, b as int) == k@),
{
    if b - a != k.len() {
        assert(s@.subrange(a as int, b as int).len() != k@.len());
        return false;
    }
    let mut i: usize = 0;
    while i < k.len()
        invariant
            a <= b <= s@.len(),
            b - a == k@.len(),
            i <= k@.len(),
            forall|j: int| 0 <= j < i ==> s@[a + j] == k@[j],
        decreases k@.len() - i,
    {
        if s[a + i] != k[i] {
            assert(s@.subrange(a as int, b as int)[i as int] != k@[i as int]);
            return false;
        }
        i += 1;
    }
    assert(s@.subrange(a as int, b as int) =~= k@);
    true
}

} // verus!
