use vstd::prelude::*;

use crate::text::push_char;
use crate::value::{Bindings, TempelVar, VarView, text_of};

verus! {

/// The first position from `i` on where `}}` starts, or -1.
pub open spec fn close_from(s: Seq<char>, i: int) -> int
    decreases s.len() - i,
{
    if i < 0 || i + 1 >= s.len() {
        -1
    } else if s[i] == '}' && s[i + 1] == '}' {
        i
    } else {
        close_from(s, i + 1)
    }
}

/// Whether a placeholder `{{name}}` starts at `i` whose name is bound in `m`;
/// the name runs up to the first `}}` after the `{{`.
pub open spec fn bound_at(s: Seq<char>, i: int, m: Map<Seq<char>, VarView>) -> bool {
    &&& 0 <= i && i + 1 < s.len()
    &&& s[i] == '{' && s[i + 1] == '{'
    &&& i + 2 <= close_from(s, i + 2) && close_from(s, i + 2) + 1 < s.len()
    &&& m.contains_key(s.subrange(i + 2, close_from(s, i + 2)))
}

/// `s[i..]` with each placeholder whose name is bound in `m` replaced by the
/// text of its value, scanning from left to right; other text is kept as it is.
pub open spec fn subst_from(s: Seq<char>, i: int, m: Map<Seq<char>, VarView>) -> Seq<char>
    decreases s.len() - i,
{
    if i < 0 || i >= s.len() {
        Seq::empty()
    } else if bound_at(s, i, m) {
        text_of(m[s.subrange(i + 2, close_from(s, i + 2))]) + subst_from(
            s,
            close_from(s, i + 2) + 2,
            m,
        )
    } else {
        seq![s[i]] + subst_from(s, i + 1, m)
    }
}

/// `s` with every bound placeholder replaced by the text of its value.
pub open spec fn subst(s: Seq<char>, m: Map<Seq<char>, VarView>) -> Seq<char> {
    subst_from(s, 0, m)
}

/// The bindings `m`, with `over`'s name bound to its value where given.
pub open spec fn with_override(
    m: Map<Seq<char>, VarView>,
    over: Option<(&Vec<char>, &TempelVar)>,
) -> Map<Seq<char>, VarView> {
    match over {
        Some(p) => m.insert(p.0@, p.1@),
        None => m,
    }
}

/// The first position from `i` on where `}}` starts (see `close_from`).
pub fn find_close(s: &Vec<char>, i: usize) -> (r: Option<usize>)
    requires
        i <= s@.len(),
    ensures
        match r {
            Some(j) => close_from(s@, i as int) == j && i <= j && j + 1 < s@.len(),
            None => close_from(s@, i as int) == -1,
        },
{
    let n = s.len();
    let mut k = i;
    while n - k > 1
        invariant
            n == s@.len(),
            i <= k <= n,
            close_from(s@, i as int) == close_from(s@, k as int),
        decreases n - k,
    {
        if s[k] == '}' && s[k + 1] == '}' {
            return Some(k);
        }
        k += 1;
    }
    None
}

fn lookup<'a>(
    vars: &'a Bindings,
    over: Option<(&'a Vec<char>, &'a TempelVar)>,
    s: &Vec<char>,
    a: usize,
    b: usize,
) -> (r: Option<&'a TempelVar>)
    requires
        vars.wf(),
        a <= b <= s@.len(),
    ensures
        match r {
            Some(v) => with_override(vars@, over).contains_key(s@.subrange(a as int, b as int))
                && with_override(vars@, over)[s@.subrange(a as int, b as int)] == v@,
            None => !with_override(vars@, over).contains_key(s@.subrange(a as int, b as int)),
        },
{
    match over {
        Some((k, v)) => {
            if crate::text::range_eq(s, a, b, k) {
                return Some(v);
            }
        },
        None => {},
    }
    vars.get_range(s, a, b)
}

/// Appends the text of `v` to `out`.
pub(crate) fn push_text(out: &mut String, v: &TempelVar)
    ensures
        final(out)@ == old(out)@ + text_of(v@),
{
    match v {
        TempelVar::String(x) => out.append(x.as_str()),
        TempelVar::List(_) => {
            let t = v.as_string();
            out.append(t.as_str());
        },
    }
}

/// `s` with its bound placeholders replaced (see `subst`), under the bindings
/// `vars` and, where given, the binding `over`.
pub fn subst_chars(s: &Vec<char>, vars: &Bindings, over: Option<(&Vec<char>, &TempelVar)>) -> (r:
    String)
    requires
        vars.wf(),
    ensures
        r@ == subst(s@, with_override(vars@, over)),
{
    let ghost m = with_override(vars@, over);
    let n = s.len();
    let mut out = String::new();
    let mut i: usize = 0;
    while i < n
        invariant
            vars.wf(),
            m == with_override(vars@, over),
            n == s@.len(),
            i <= n,
            out@ + subst_from(s@, i as int, m) == subst(s@, m),
        decreases n - i,
    {
        let ghost before = out@;
        if n - i > 1 && s[i] == '{' && s[i + 1] == '{' {
            match find_close(s, i + 2) {
                Some(j) => {
                    match lookup(vars, over, s, i + 2, j) {
                        Some(v) => {
                            push_text(&mut out, v);
                            assert(bound_at(s@, i as int, m));
                            assert(out@ + subst_from(s@, j + 2, m) =~= before + subst_from(
                                s@,
                                i as int,
                                m,
                            ));
                            i = j + 2;
                            continue ;
                        },
                        None => {},
                    }
                },
                None => {},
            }
        }
        assert(!bound_at(s@, i as int, m));
        push_char(&mut out, s[i]);
        assert(out@ + subst_from(s@, i + 1, m) =~= before + subst_from(s@, i as int, m));
        i += 1;
    }
    assert(out@ =~= subst(s@, m));
    out
}

} // verus!
