use vstd::prelude::*;

use crate::error::TempelError;
use crate::normalize::match_at;
use crate::subst::{bound_at, close_from, find_close, push_text, subst, subst_chars, with_override};
use crate::text::{push_char, range_eq, string_of_range};
use crate::value::{Bindings, TempelVar, VarView, text_of};

verus! {

pub open spec fn is_pad(c: char) -> bool {
    c == ' ' || c == '\t'
}

pub open spec fn is_ident(c: char) -> bool {
    ('a' <= c && c <= 'z') || ('A' <= c && c <= 'Z') || c == '_'
}

/// The end of the run of spaces and tabs that starts at `p`.
pub open spec fn pad_end(t: Seq<char>, p: int) -> int
    decreases t.len() - p,
{
    if p < 0 || p >= t.len() || !is_pad(t[p]) {
        p
    } else {
        pad_end(t, p + 1)
    }
}

/// The end of the run of name characters that starts at `p`.
pub open spec fn ident_end(t: Seq<char>, p: int) -> int
    decreases t.len() - p,
{
    if p < 0 || p >= t.len() || !is_ident(t[p]) {
        p
    } else {
        ident_end(t, p + 1)
    }
}

pub open spec fn item_start(t: Seq<char>, i: int) -> int {
    pad_end(t, i + 2) + 4
}

pub open spec fn item_end(t: Seq<char>, i: int) -> int {
    ident_end(t, item_start(t, i))
}

pub open spec fn list_start(t: Seq<char>, i: int) -> int {
    item_end(t, i) + 4
}

pub open spec fn list_end(t: Seq<char>, i: int) -> int {
    ident_end(t, list_start(t, i))
}

pub open spec fn head_end(t: Seq<char>, i: int) -> int {
    pad_end(t, list_end(t, i)) + 2
}

/// A loop head `{% for item in list %}` starts at `i`: padding is allowed after
/// `{%` and before `%}`, and the two names are runs of letters and `_`.
pub open spec fn head_at(t: Seq<char>, i: int) -> bool {
    &&& match_at(t, i, seq!['{', '%'])
    &&& match_at(t, pad_end(t, i + 2), seq!['f', 'o', 'r', ' '])
    &&& item_end(t, i) > item_start(t, i)
    &&& match_at(t, item_end(t, i), seq![' ', 'i', 'n', ' '])
    &&& list_end(t, i) > list_start(t, i)
    &&& match_at(t, pad_end(t, list_end(t, i)), seq!['%', '}'])
}

pub open spec fn endfor_end(t: Seq<char>, j: int) -> int {
    pad_end(t, pad_end(t, j + 2) + 6) + 2
}

/// A loop end `{% endfor %}` starts at `j`, with padding allowed inside.
pub open spec fn endfor_at(t: Seq<char>, j: int) -> bool {
    &&& match_at(t, j, seq!['{', '%'])
    &&& match_at(t, pad_end(t, j + 2), seq!['e', 'n', 'd', 'f', 'o', 'r'])
    &&& match_at(t, pad_end(t, pad_end(t, j + 2) + 6), seq!['%', '}'])
}

/// Where the body that starts at `j` ends: at the first loop end, provided no
/// line break comes before it; -1 where there is none.
pub open spec fn body_end_from(t: Seq<char>, j: int) -> int
    decreases t.len() - j,
{
    if j < 0 || j >= t.len() {
        -1
    } else if endfor_at(t, j) {
        j
    } else if t[j] == '\n' {
        -1
    } else {
        body_end_from(t, j + 1)
    }
}

pub open spec fn body_end(t: Seq<char>, i: int) -> int {
    body_end_from(t, head_end(t, i))
}

/// A whole loop block starts at `i`.
pub open spec fn block_at(t: Seq<char>, i: int) -> bool {
    head_at(t, i) && body_end(t, i) >= 0
}

pub open spec fn block_end(t: Seq<char>, i: int) -> int {
    endfor_end(t, body_end(t, i))
}

/// The body once for each of `items`, in order, each time with the loop variable
/// `item` bound to that element.
pub open spec fn repeat_body(
    body: Seq<char>,
    item: Seq<char>,
    items: Seq<Seq<char>>,
    m: Map<Seq<char>, VarView>,
) -> Seq<char>
    decreases items.len(),
{
    if items.len() == 0 {
        Seq::empty()
    } else {
        repeat_body(body, item, items.drop_last(), m) + subst(
            body,
            m.insert(item, VarView::Scalar(items.last())),
        )
    }
}

/// `t[i..]` with each loop block expanded over its list; `Err` holds the name
/// of the first list, in document order, that is not bound to a list.
pub open spec fn expand_from(t: Seq<char>, i: int, m: Map<Seq<char>, VarView>) -> Result<
    Seq<char>,
    Seq<char>,
>
    decreases t.len() - i,
    via expand_from_decreases
{
    if i < 0 || i >= t.len() {
        Ok(Seq::empty())
    } else if block_at(t, i) {
        let list = t.subrange(list_start(t, i), list_end(t, i));
        if m.contains_key(list) && m[list] is List {
            let piece = repeat_body(
                t.subrange(head_end(t, i), body_end(t, i)),
                t.subrange(item_start(t, i), item_end(t, i)),
                m[list]->List_0,
                m,
            );
            match expand_from(t, block_end(t, i), m) {
                Ok(rest) => Ok(piece + rest),
                Err(name) => Err(name),
            }
        } else {
            Err(list)
        }
    } else {
        match expand_from(t, i + 1, m) {
            Ok(rest) => Ok(seq![t[i]] + rest),
            Err(name) => Err(name),
        }
    }
}

pub open spec fn expand(t: Seq<char>, m: Map<Seq<char>, VarView>) -> Result<Seq<char>, Seq<char>> {
    expand_from(t, 0, m)
}

proof fn lemma_pad_end(t: Seq<char>, p: int)
    requires
        p >= 0,
    ensures
        pad_end(t, p) >= p,
    decreases t.len() - p,
{
    if p < t.len() && is_pad(t[p]) {
        lemma_pad_end(t, p + 1);
    }
}

proof fn lemma_body_end(t: Seq<char>, j: int)
    ensures
        body_end_from(t, j) >= 0 ==> body_end_from(t, j) >= j && endfor_at(t, body_end_from(t, j)),
    decreases t.len() - j,
{
    if 0 <= j < t.len() && !endfor_at(t, j) && t[j] != '\n' {
        lemma_body_end(t, j + 1);
    }
}

#[via_fn]
proof fn expand_from_decreases(t: Seq<char>, i: int, m: Map<Seq<char>, VarView>) {
    lemma_block_end(t, i);
}

/// A loop block ends after it starts and within the document.
pub proof fn lemma_block_end(t: Seq<char>, i: int)
    ensures
        0 <= i < t.len() && block_at(t, i) ==> i < block_end(t, i) <= t.len(),
{
    if 0 <= i < t.len() && block_at(t, i) {
        let j = body_end(t, i);
        lemma_pad_end(t, i + 2);
        lemma_body_end(t, head_end(t, i));
        lemma_pad_end(t, j + 2);
        lemma_pad_end(t, pad_end(t, j + 2) + 6);
        lemma_pad_end(t, list_end(t, i));
        assert(block_end(t, i) > i);
        assert(block_end(t, i) <= t.len());
    }
}

/// `prefix` put before the text of an expansion; an error is passed on.
pub open spec fn prepend(prefix: Seq<char>, r: Result<Seq<char>, Seq<char>>) -> Result<
    Seq<char>,
    Seq<char>,
> {
    match r {
        Ok(rest) => Ok(prefix + rest),
        Err(name) => Err(name),
    }
}

fn pad_end_exec(t: &Vec<char>, p: usize) -> (r: usize)
    requires
        p <= t@.len(),
    ensures
        r == pad_end(t@, p as int),
        p <= r <= t@.len(),
{
    let mut k = p;
    while k < t.len() && (t[k] == ' ' || t[k] == '\t')
        invariant
            p <= k <= t@.len(),
            pad_end(t@, p as int) == pad_end(t@, k as int),
        decreases t@.len() - k,
    {
        k += 1;
    }
    k
}

fn ident_end_exec(t: &Vec<char>, p: usize) -> (r: usize)
    requires
        p <= t@.len(),
    ensures
        r == ident_end(t@, p as int),
        p <= r <= t@.len(),
{
    let mut k = p;
    while k < t.len() && (('a' <= t[k] && t[k] <= 'z') || ('A' <= t[k] && t[k] <= 'Z') || t[k]
        == '_')
        invariant
            p <= k <= t@.len(),
            ident_end(t@, p as int) == ident_end(t@, k as int),
        decreases t@.len() - k,
    {
        k += 1;
    }
    k
}

fn lit_exec(t: &Vec<char>, p: usize, lit: &Vec<char>) -> (r: bool)
    requires
        p <= t@.len(),
    ensures
        r == match_at(t@, p as int, lit@),
        r ==> p + lit@.len() <= t@.len() <= usize::MAX,
{
    if lit.len() > t.len() - p {
        false
    } else {
        range_eq(t, p, p + lit.len(), lit)
    }
}

fn lit2(a: char, b: char) -> (r: Vec<char>)
    ensures
        r@ == seq![a, b],
        r@.len() == 2,
{
    vec![a, b]
}

fn lit4(a: char, b: char, c: char, d: char) -> (r: Vec<char>)
    ensures
        r@ == seq![a, b, c, d],
        r@.len() == 4,
{
    vec![a, b, c, d]
}

fn endfor_exec(t: &Vec<char>, j: usize) -> (r: bool)
    requires
        j <= t@.len(),
    ensures
        r == endfor_at(t@, j as int),
{
    if !lit_exec(t, j, &lit2('{', '%')) {
        return false;
    }
    let p = pad_end_exec(t, j + 2);
    let word = vec!['e', 'n', 'd', 'f', 'o', 'r'];
    assert(word@.len() == 6);
    if !lit_exec(t, p, &word) {
        return false;
    }
    let q = pad_end_exec(t, p + 6);
    lit_exec(t, q, &lit2('%', '}'))
}

fn body_end_exec(t: &Vec<char>, h: usize) -> (r: Option<usize>)
    requires
        h <= t@.len(),
    ensures
        match r {
            Some(j) => body_end_from(t@, h as int) == j && h <= j < t@.len() && endfor_at(
                t@,
                j as int,
            ),
            None => body_end_from(t@, h as int) == -1,
        },
{
    let mut k = h;
    while k < t.len()
        invariant
            h <= k <= t@.len(),
            body_end_from(t@, h as int) == body_end_from(t@, k as int),
        decreases t@.len() - k,
    {
        if endfor_exec(t, k) {
            return Some(k);
        }
        if t[k] == '\n' {
            return None;
        }
        k += 1;
    }
    None
}

/// The positions of a loop block.
pub struct LoopInfo {
    pub item_start: usize,
    pub item_end: usize,
    pub list_start: usize,
    pub list_end: usize,
    pub body_start: usize,
    pub body_end: usize,
    pub end: usize,
}

/// The loop block that starts at `i`, if one does (see `block_at`).
pub fn block_info(t: &Vec<char>, i: usize) -> (r: Option<LoopInfo>)
    requires
        i < t@.len(),
    ensures
        r is Some <==> block_at(t@, i as int),
        r matches Some(b) ==> {
            &&& b.item_start == item_start(t@, i as int)
            &&& b.item_end == item_end(t@, i as int)
            &&& b.list_start == list_start(t@, i as int)
            &&& b.list_end == list_end(t@, i as int)
            &&& b.body_start == head_end(t@, i as int)
            &&& b.body_end == body_end(t@, i as int)
            &&& b.end == block_end(t@, i as int)
            &&& i < b.item_start <= b.item_end <= b.list_start <= b.list_end <= b.body_start
                <= b.body_end < b.end <= t@.len()
        },
{
    if !lit_exec(t, i, &lit2('{', '%')) {
        return None;
    }
    let p = pad_end_exec(t, i + 2);
    if !lit_exec(t, p, &lit4('f', 'o', 'r', ' ')) {
        return None;
    }
    let a = p + 4;
    let b = ident_end_exec(t, a);
    if b == a {
        return None;
    }
    if !lit_exec(t, b, &lit4(' ', 'i', 'n', ' ')) {
        return None;
    }
    let c = b + 4;
    let d = ident_end_exec(t, c);
    if d == c {
        return None;
    }
    let e = pad_end_exec(t, d);
    if !lit_exec(t, e, &lit2('%', '}')) {
        return None;
    }
    let h = e + 2;
    match body_end_exec(t, h) {
        None => None,
        Some(j) => {
            let q = pad_end_exec(t, j + 2);
            let q2 = pad_end_exec(t, q + 6);
            Some(
                LoopInfo {
                    item_start: a,
                    item_end: b,
                    list_start: c,
                    list_end: d,
                    body_start: h,
                    body_end: j,
                    end: q2 + 2,
                },
            )
        },
    }
}

fn copy_range(s: &Vec<char>, a: usize, b: usize) -> (r: Vec<char>)
    requires
        a <= b <= s@.len(),
    ensures
        r@ == s@.subrange(a as int, b as int),
{
    let mut r: Vec<char> = Vec::new();
    let mut k = a;
    while k < b
        invariant
            a <= k <= b <= s@.len(),
            r@ == s@.subrange(a as int, k as int),
        decreases b - k,
    {
        r.push(s[k]);
        k += 1;
        assert(r@ =~= s@.subrange(a as int, k as int));
    }
    r
}

/// The body once per element of `items`, with `item` bound to the element.
fn repeat_chars(body: &Vec<char>, item: &Vec<char>, items: &Vec<String>, vars: &Bindings) -> (r:
    String)
    requires
        vars.wf(),
    ensures
        r@ == repeat_body(body@, item@, items@.map_values(|x: String| x@), vars@),
{
    let ghost its = items@.map_values(|x: String| x@);
    let mut out = String::new();
    let mut k: usize = 0;
    while k < items.len()
        invariant
            vars.wf(),
            its == items@.map_values(|x: String| x@),
            k <= items@.len(),
            out@ == repeat_body(body@, item@, its.take(k as int), vars@),
        decreases items@.len() - k,
    {
        let v = TempelVar::String(items[k].clone());
        let piece = subst_chars(body, vars, Some((item, &v)));
        out.append(piece.as_str());
        proof {
            let t = its.take(k as int + 1);
            assert(t.drop_last() =~= its.take(k as int));
            assert(t.last() == items@[k as int]@);
        }
        k += 1;
    }
    assert(its.take(items@.len() as int) =~= its);
    out
}

/// `t` with its loop blocks expanded (see `expand`).
pub fn expand_chars(t: &Vec<char>, vars: &Bindings) -> (r: Result<String, TempelError>)
    requires
        vars.wf(),
    ensures
        match expand(t@, vars@) {
            Ok(s) => r matches Ok(x) && x@ == s,
            Err(name) => r matches Err(e) && e matches TempelError::NoSuchList(n) && n@ == name,
        },
{
    let ghost m = vars@;
    let n = t.len();
    let mut out = String::new();
    let mut i: usize = 0;
    while i < n
        invariant
            vars.wf(),
            m == vars@,
            n == t@.len(),
            i <= n,
            expand(t@, m) == prepend(out@, expand_from(t@, i as int, m)),
        decreases n - i,
    {
        let ghost before = out@;
        match block_info(t, i) {
            Some(b) => {
                match vars.get_range(t, b.list_start, b.list_end) {
                    Some(TempelVar::List(l)) => {
                        let item = copy_range(t, b.item_start, b.item_end);
                        let body = copy_range(t, b.body_start, b.body_end);
                        let piece = repeat_chars(&body, &item, l, vars);
                        out.append(piece.as_str());
                        proof {
                            let rest = expand_from(t@, b.end as int, m);
                            assert(expand_from(t@, i as int, m) == prepend(piece@, rest));
                            match rest {
                                Ok(x) => {
                                    assert(before + (piece@ + x) =~= out@ + x);
                                },
                                Err(_) => {},
                            }
                        }
                        i = b.end;
                    },
                    _ => {
                        let name = string_of_range(t, b.list_start, b.list_end);
                        return Err(TempelError::NoSuchList(name));
                    },
                }
            },
            None => {
                push_char(&mut out, t[i]);
                proof {
                    let rest = expand_from(t@, i + 1, m);
                    match rest {
                        Ok(x) => {
                            assert(before + (seq![t@[i as int]] + x) =~= out@ + x);
                        },
                        Err(_) => {},
                    }
                }
                i += 1;
            },
        }
    }
    assert(out@ + Seq::<char>::empty() =~= out@);
    Ok(out)
}

/// How a document renders under `m`, from index `i` on. Scanning from left to
/// right, a loop block is replaced by its body once per element of its list,
/// each copy substituted under `m` with the loop variable bound to that element;
/// outside blocks, a placeholder whose name is bound in `m` is replaced by the
/// text of its value; all other text is kept. `Err` holds the name of the first
/// list, in document order, that is not bound to a list.
pub open spec fn render_from(t: Seq<char>, i: int, m: Map<Seq<char>, VarView>) -> Result<
    Seq<char>,
    Seq<char>,
>
    decreases t.len() - i,
    via render_from_decreases
{
    if i < 0 || i >= t.len() {
        Ok(Seq::empty())
    } else if block_at(t, i) {
        let list = t.subrange(list_start(t, i), list_end(t, i));
        if m.contains_key(list) && m[list] is List {
            prepend(
                repeat_body(
                    t.subrange(head_end(t, i), body_end(t, i)),
                    t.subrange(item_start(t, i), item_end(t, i)),
                    m[list]->List_0,
                    m,
                ),
                render_from(t, block_end(t, i), m),
            )
        } else {
            Err(list)
        }
    } else if bound_at(t, i, m) {
        prepend(
            text_of(m[t.subrange(i + 2, close_from(t, i + 2))]),
            render_from(t, close_from(t, i + 2) + 2, m),
        )
    } else {
        prepend(seq![t[i]], render_from(t, i + 1, m))
    }
}

#[via_fn]
proof fn render_from_decreases(t: Seq<char>, i: int, m: Map<Seq<char>, VarView>) {
    lemma_block_end(t, i);
}

pub proof fn lemma_prepend_assoc(a: Seq<char>, b: Seq<char>, r: Result<Seq<char>, Seq<char>>)
    ensures
        prepend(a, prepend(b, r)) == prepend(a + b, r),
{
    match r {
        Ok(x) => {
            assert(a + (b + x) =~= (a + b) + x);
        },
        Err(_) => {},
    }
}

/// Renders `t` under `vars` (see `render_from`).
pub fn render_chars(t: &Vec<char>, vars: &Bindings) -> (r: Result<String, TempelError>)
    requires
        vars.wf(),
    ensures
        match render_from(t@, 0, vars@) {
            Ok(s) => r matches Ok(x) && x@ == s,
            Err(name) => r matches Err(e) && e matches TempelError::NoSuchList(n) && n@ == name,
        },
{
    let ghost m = vars@;
    let n = t.len();
    let mut out = String::new();
    let mut i: usize = 0;
    while i < n
        invariant
            vars.wf(),
            m == vars@,
            n == t@.len(),
            i <= n,
            render_from(t@, 0, m) == prepend(out@, render_from(t@, i as int, m)),
        decreases n - i,
    {
        let ghost before = out@;
        let blk = block_info(t, i);
        match blk {
            Some(b) => {
                match vars.get_range(t, b.list_start, b.list_end) {
                    Some(TempelVar::List(l)) => {
                        let item = copy_range(t, b.item_start, b.item_end);
                        let body = copy_range(t, b.body_start, b.body_end);
                        let piece = repeat_chars(&body, &item, l, vars);
                        out.append(piece.as_str());
                        proof {
                            assert(render_from(t@, i as int, m) == prepend(
                                piece@,
                                render_from(t@, b.end as int, m),
                            ));
                            lemma_prepend_assoc(before, piece@, render_from(t@, b.end as int, m));
                        }
                        i = b.end;
                        continue ;
                    },
                    _ => {
                        let name = string_of_range(t, b.list_start, b.list_end);
                        return Err(TempelError::NoSuchList(name));
                    },
                }
            },
            None => {},
        }
        assert(!block_at(t@, i as int));
        if n - i > 1 && t[i] == '{' && t[i + 1] == '{' {
            match find_close(t, i + 2) {
                Some(j) => {
                    match vars.get_range(t, i + 2, j) {
                        Some(v) => {
                            push_text(&mut out, v);
                            assert(bound_at(t@, i as int, m));
                            proof {
                                assert(render_from(t@, i as int, m) == prepend(
                                    text_of(v@),
                                    render_from(t@, j + 2, m),
                                ));
                                lemma_prepend_assoc(
                                    before,
                                    text_of(v@),
                                    render_from(t@, j + 2, m),
                                );
                            }
                            i = j + 2;
                            continue ;
                        },
                        None => {},
                    }
                },
                None => {},
            }
        }
        assert(!bound_at(t@, i as int, m));
        push_char(&mut out, t[i]);
        proof {
            assert(out@ =~= before + seq![t@[i as int]]);
            lemma_prepend_assoc(before, seq![t@[i as int]], render_from(t@, i + 1, m));
        }
        i += 1;
    }
    assert(out@ + Seq::<char>::empty() =~= out@);
    Ok(out)
}

} // verus!
