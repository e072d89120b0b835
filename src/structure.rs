use vstd::prelude::*;

use crate::text::string_of_range;

verus! {

/// Positions, from index `i` on, of the pairs `dd` found from left to right
/// without overlap.
pub open spec fn delims_from(s: Seq<char>, i: int, d: char) -> Seq<int>
    decreases s.len() - i,
{
    if i < 0 || i + 1 >= s.len() {
        Seq::empty()
    } else if s[i] == d && s[i + 1] == d {
        seq![i] + delims_from(s, i + 2, d)
    } else {
        delims_from(s, i + 1, d)
    }
}

/// Positions of the opening delimiters `{{`.
pub open spec fn opens(s: Seq<char>) -> Seq<int> {
    delims_from(s, 0, '{')
}

/// Positions of the closing delimiters `}}`.
pub open spec fn closes(s: Seq<char>) -> Seq<int> {
    delims_from(s, 0, '}')
}

pub open spec fn balanced(s: Seq<char>) -> bool {
    opens(s).len() == closes(s).len()
}

/// The `k`-th pair is in order: its `}}` follows its `{{` and comes before the
/// next `{{`.
pub open spec fn pair_ok(o: Seq<int>, c: Seq<int>, k: int) -> bool {
    o[k] < c[k] && (k + 1 < o.len() ==> c[k] < o[k + 1])
}

/// The first pair from `k` on that is out of order.
pub open spec fn first_crossed_from(o: Seq<int>, c: Seq<int>, k: int) -> Option<int>
    decreases o.len() - k,
{
    if k < 0 || k >= o.len() {
        None
    } else if !pair_ok(o, c, k) {
        Some(k)
    } else {
        first_crossed_from(o, c, k + 1)
    }
}

pub open spec fn first_crossed(s: Seq<char>) -> Option<int> {
    first_crossed_from(opens(s), closes(s), 0)
}

/// A document whose placeholder delimiters are balanced and in order.
pub open spec fn well_formed(s: Seq<char>) -> bool {
    balanced(s) && first_crossed(s) is None
}

/// White space as Unicode's White_Space property gives it (what
/// `char::is_whitespace` tests).
pub open spec fn is_space(c: char) -> bool {
    ||| c == ' '
    ||| ('\t' <= c && c <= '\r')
    ||| c == '\u{85}'
    ||| c == '\u{a0}'
    ||| c == '\u{1680}'
    ||| ('\u{2000}' <= c && c <= '\u{200a}')
    ||| c == '\u{2028}'
    ||| c == '\u{2029}'
    ||| c == '\u{202f}'
    ||| c == '\u{205f}'
    ||| c == '\u{3000}'
}

fn is_space_exec(c: char) -> (r: bool)
    ensures
        r == is_space(c),
{
    c == ' ' || ('\t' <= c && c <= '\r') || c == '\u{85}' || c == '\u{a0}' || c == '\u{1680}'
        || ('\u{2000}' <= c && c <= '\u{200a}') || c == '\u{2028}' || c == '\u{2029}' || c
        == '\u{202f}' || c == '\u{205f}' || c == '\u{3000}'
}

pub open spec fn has_space(s: Seq<char>) -> bool {
    exists|j: int| 0 <= j < s.len() && is_space(#[trigger] s[j])
}

/// The text between the delimiters of the `k`-th pair.
pub open spec fn interior(s: Seq<char>, o: Seq<int>, c: Seq<int>, k: int) -> Seq<char> {
    s.subrange(o[k] + 2, c[k])
}

/// The interiors without white space of the pairs from `k` on.
pub open spec fn names_from(s: Seq<char>, o: Seq<int>, c: Seq<int>, k: int) -> Seq<Seq<char>>
    decreases o.len() - k,
{
    if k < 0 || k >= o.len() {
        Seq::empty()
    } else if has_space(interior(s, o, c, k)) {
        names_from(s, o, c, k + 1)
    } else {
        seq![interior(s, o, c, k)] + names_from(s, o, c, k + 1)
    }
}

/// The variable names that a document declares, in document order.
pub open spec fn declared(s: Seq<char>) -> Seq<Seq<char>> {
    names_from(s, opens(s), closes(s), 0)
}

pub open spec fn views(v: Seq<String>) -> Seq<Seq<char>> {
    v.map_values(|x: String| x@)
}

proof fn lemma_delims_in_range(s: Seq<char>, i: int, d: char)
    ensures
        forall|j: int|
            0 <= j < delims_from(s, i, d).len() ==> 0 <= #[trigger] delims_from(s, i, d)[j] < s.len(),
    decreases s.len() - i,
{
    if 0 <= i && i + 1 < s.len() {
        lemma_delims_in_range(s, i + 1, d);
        lemma_delims_in_range(s, i + 2, d);
        if s[i] == d && s[i + 1] == d {
            let r = delims_from(s, i, d);
            assert forall|j: int| 0 <= j < r.len() implies 0 <= #[trigger] r[j] < s.len() by {
                if j > 0 {
                    assert(r[j] == delims_from(s, i + 2, d)[j - 1]);
                }
            }
        } else {
            assert(delims_from(s, i, d) == delims_from(s, i + 1, d));
        }
    }
}

proof fn lemma_first_crossed_from(o: Seq<int>, c: Seq<int>, k: int)
    requires
        0 <= k,
    ensures
        first_crossed_from(o, c, k) matches Some(x) ==> k <= x < o.len(),
    decreases o.len() - k,
{
    if k < o.len() && pair_ok(o, c, k) {
        lemma_first_crossed_from(o, c, k + 1);
    }
}

/// The pair that `first_crossed` names lies within the document.
pub proof fn lemma_crossed_in_range(s: Seq<char>)
    requires
        balanced(s),
        first_crossed(s) is Some,
    ensures
        0 <= first_crossed(s)->0 < opens(s).len(),
        0 <= opens(s)[first_crossed(s)->0] < s.len(),
        0 <= closes(s)[first_crossed(s)->0] < s.len(),
{
    lemma_first_crossed_from(opens(s), closes(s), 0);
    lemma_delims_in_range(s, 0, '{');
    lemma_delims_in_range(s, 0, '}');
}

/// The positions of the pairs `dd` in `s` (see `delims_from`).
pub fn delim_positions(s: &Vec<char>, d: char) -> (r: Vec<usize>)
    ensures
        r@.map_values(|x: usize| x as int) == delims_from(s@, 0, d),
        forall|j: int|
            0 <= j < r@.len() ==> r@[j] + 1 < s@.len() && s@[r@[j] as int] == d && s@[r@[j]
                + 1] == d,
{
    let mut r: Vec<usize> = Vec::new();
    let mut i: usize = 0;
    let n = s.len();
    while n - i > 1
        invariant
            n == s@.len(),
            i <= n,
            r@.map_values(|x: usize| x as int) + delims_from(s@, i as int, d) == delims_from(
                s@,
                0,
                d,
            ),
            forall|j: int|
                0 <= j < r@.len() ==> r@[j] + 1 < s@.len() && s@[r@[j] as int] == d && s@[r@[j]
                    + 1] == d,
        decreases n - i,
    {
        let ghost before = r@.map_values(|x: usize| x as int);
        if s[i] == d && s[i + 1] == d {
            r.push(i);
            assert(r@.map_values(|x: usize| x as int) =~= before.push(i as int));
            assert(before.push(i as int) + delims_from(s@, i + 2, d) =~= before + delims_from(
                s@,
                i as int,
                d,
            ));
            i = i + 2;
        } else {
            i = i + 1;
        }
    }
    assert(delims_from(s@, i as int, d) =~= Seq::<int>::empty());
    assert(r@.map_values(|x: usize| x as int) =~= delims_from(s@, 0, d));
    r
}

fn has_space_range(s: &Vec<char>, a: usize, b: usize) -> (r: bool)
    requires
        a <= b <= s@.len(),
    ensures
        r == has_space(s@.subrange(a as int, b as int)),
{
    let mut i = a;
    while i < b
        invariant
            a <= i <= b <= s@.len(),
            forall|j: int| a <= j < i ==> !is_space(s@[j]),
        decreases b - i,
    {
        let c = s[i];
        if is_space_exec(c) {
            assert(s@.subrange(a as int, b as int)[i - a] == c);
            return true;
        }
        i += 1;
    }
    assert forall|j: int| 0 <= j < b - a implies !is_space(
        #[trigger] s@.subrange(a as int, b as int)[j],
    ) by {
        assert(s@.subrange(a as int, b as int)[j] == s@[a + j]);
    }
    false
}

/// How a document's delimiters stand.
pub enum Shape {
    /// Balanced and in order, with the declared names.
    Sound(Vec<String>),
    /// A different number of `{{` and `}}`.
    Unbalanced,
    /// The pair at these character positions is out of order.
    Crossed(usize, usize),
}

/// Checks the delimiters of `s` and collects its declared names.
pub fn check_shape(s: &Vec<char>) -> (r: Shape)
    ensures
        match r {
            Shape::Sound(names) => well_formed(s@) && views(names@) == declared(s@),
            Shape::Unbalanced => !balanced(s@),
            Shape::Crossed(a, b) => balanced(s@) && first_crossed(s@) is Some && a == opens(
                s@,
            )[first_crossed(s@)->0] && b == closes(s@)[first_crossed(s@)->0],
        },
{
    let o = delim_positions(s, '{');
    let c = delim_positions(s, '}');
    let ghost os = o@.map_values(|x: usize| x as int);
    let ghost cs = c@.map_values(|x: usize| x as int);
    if o.len() != c.len() {
        assert(os.len() == o@.len());
        return Shape::Unbalanced;
    }
    let n = o.len();
    let mut names: Vec<String> = Vec::new();
    let mut k: usize = 0;
    while k < n
        invariant
            n == o@.len() == c@.len(),
            os == o@.map_values(|x: usize| x as int),
            cs == c@.map_values(|x: usize| x as int),
            os == opens(s@),
            cs == closes(s@),
            forall|j: int|
                0 <= j < o@.len() ==> o@[j] + 1 < s@.len() && s@[o@[j] as int] == '{' && s@[o@[j]
                    + 1] == '{',
            forall|j: int|
                0 <= j < c@.len() ==> c@[j] + 1 < s@.len() && s@[c@[j] as int] == '}' && s@[c@[j]
                    + 1] == '}',
            k <= n,
            first_crossed_from(os, cs, 0) == first_crossed_from(os, cs, k as int),
            views(names@) + names_from(s@, os, cs, k as int) == names_from(s@, os, cs, 0),
        decreases n - k,
    {
        let ok = o[k] < c[k] && (k + 1 >= n || c[k] < o[k + 1]);
        assert(ok == pair_ok(os, cs, k as int));
        if !ok {
            return Shape::Crossed(o[k], c[k]);
        }
        let a = o[k] + 2;
        let b = c[k];
        let ghost before = views(names@);
        assert(interior(s@, os, cs, k as int) == s@.subrange(a as int, b as int));
        if !has_space_range(s, a, b) {
            let name = string_of_range(s, a, b);
            names.push(name);
            assert(views(names@) =~= before.push(name@));
            assert(before.push(name@) + names_from(s@, os, cs, k + 1) =~= before + names_from(
                s@,
                os,
                cs,
                k as int,
            ));
        }
        k += 1;
    }
    assert(names_from(s@, os, cs, n as int) =~= Seq::<Seq<char>>::empty());
    assert(views(names@) =~= declared(s@));
    Shape::Sound(names)
}

} // verus!
