use vstd::prelude::*;

use crate::loops::{
    block_at,
    block_end,
    expand,
    expand_from,
    is_ident,
    is_pad,
    lemma_block_end,
    list_end,
    list_start,
    render_from,
};
use crate::normalize::{
    close_delim,
    match_at,
    normalize,
    open_delim,
    replace_all,
    replace_from,
    strip_once,
};
use crate::template::rendered;
use crate::subst::{bound_at, subst, subst_from};
use crate::value::VarView;

verus! {

/// Normalizing twice gives what normalizing once gives.
pub proof fn law_normalize_idempotent(s: Seq<char>)
    ensures
        normalize(normalize(s)) == normalize(s),
    decreases s.len(),
{
    crate::normalize::lemma_strip_once_shrinks(s);
    let t = strip_once(s);
    if t != s {
        law_normalize_idempotent(t);
    }
}

proof fn lemma_subst_empty_from(s: Seq<char>, i: int)
    requires
        0 <= i <= s.len(),
    ensures
        subst_from(s, i, Map::empty()) == s.subrange(i, s.len() as int),
    decreases s.len() - i,
{
    if i < s.len() {
        assert(!bound_at(s, i, Map::empty()));
        lemma_subst_empty_from(s, i + 1);
        assert(seq![s[i]] + s.subrange(i + 1, s.len() as int) =~= s.subrange(i, s.len() as int));
    } else {
        assert(s.subrange(i, s.len() as int) =~= Seq::<char>::empty());
    }
}

proof fn lemma_render_empty_from(s: Seq<char>, i: int)
    ensures
        render_from(s, i, Map::empty()) == expand_from(s, i, Map::empty()),
    decreases s.len() - i,
{
    if 0 <= i < s.len() {
        lemma_block_end(s, i);
        if block_at(s, i) {
            lemma_render_empty_from(s, block_end(s, i));
        } else {
            assert(!bound_at(s, i, Map::empty()));
            lemma_render_empty_from(s, i + 1);
        }
    }
}

/// With no bindings, substitution leaves every placeholder, and all other
/// text, exactly as it was; rendering then only expands the loop blocks.
pub proof fn law_no_bindings_keep_text(s: Seq<char>)
    ensures
        subst(s, Map::empty()) == s,
        rendered(s, Map::empty()) == expand(s, Map::empty()),
{
    lemma_subst_empty_from(s, 0);
    assert(s.subrange(0, s.len() as int) =~= s);
    lemma_render_empty_from(s, 0);
}

/// Whether the list that the loop block at `j` names is bound to a list.
pub open spec fn list_bound(t: Seq<char>, j: int, m: Map<Seq<char>, VarView>) -> bool {
    m.contains_key(t.subrange(list_start(t, j), list_end(t, j))) && m[t.subrange(
        list_start(t, j),
        list_end(t, j),
    )] is List
}

/// Rendering fails only by naming the list of a loop block of the document
/// that is not bound to a list.
pub proof fn law_failure_names_an_unbound_list(t: Seq<char>, i: int, m: Map<Seq<char>, VarView>)
    requires
        0 <= i,
        render_from(t, i, m) is Err,
    ensures
        exists|j: int|
            i <= j < t.len() && #[trigger] block_at(t, j) && !list_bound(t, j, m) && t.subrange(
                list_start(t, j),
                list_end(t, j),
            ) == render_from(t, i, m)->Err_0,
    decreases t.len() - i,
{
    lemma_block_end(t, i);
    if block_at(t, i) {
        if list_bound(t, i, m) {
            law_failure_names_an_unbound_list(t, block_end(t, i), m);
        }
    } else if bound_at(t, i, m) {
        law_failure_names_an_unbound_list(t, crate::subst::close_from(t, i + 2) + 2, m);
    } else {
        law_failure_names_an_unbound_list(t, i + 1, m);
    }
}

/// Where every loop block of the document names a list that is bound to a
/// list, rendering succeeds.
pub proof fn law_bound_lists_render(t: Seq<char>, i: int, m: Map<Seq<char>, VarView>)
    requires
        0 <= i,
        forall|j: int| i <= j < t.len() && #[trigger] block_at(t, j) ==> list_bound(t, j, m),
    ensures
        render_from(t, i, m) is Ok,
    decreases t.len() - i,
{
    lemma_block_end(t, i);
    if i < t.len() {
        if block_at(t, i) {
            law_bound_lists_render(t, block_end(t, i), m);
        } else if bound_at(t, i, m) {
            law_bound_lists_render(t, crate::subst::close_from(t, i + 2) + 2, m);
        } else {
            law_bound_lists_render(t, i + 1, m);
        }
    }
}

/// A loop block whose list is not bound to a list makes the expansion fail
/// with that list's name, whatever follows it.
pub proof fn law_missing_list_fails(t: Seq<char>, i: int, m: Map<Seq<char>, VarView>)
    requires
        0 <= i < t.len(),
        block_at(t, i),
        !(m.contains_key(t.subrange(list_start(t, i), list_end(t, i))) && m[t.subrange(
            list_start(t, i),
            list_end(t, i),
        )] is List),
    ensures
        render_from(t, i, m) == Err::<Seq<char>, Seq<char>>(
            t.subrange(list_start(t, i), list_end(t, i)),
        ),
        expand_from(t, i, m) == Err::<Seq<char>, Seq<char>>(
            t.subrange(list_start(t, i), list_end(t, i)),
        ),
{
}

/// A loop block over an empty list expands to nothing: the expansion goes on
/// with the text after the block, unchanged.
pub proof fn law_empty_list_expands_to_nothing(t: Seq<char>, i: int, m: Map<Seq<char>, VarView>)
    requires
        0 <= i < t.len(),
        block_at(t, i),
        m.contains_key(t.subrange(list_start(t, i), list_end(t, i))),
        m[t.subrange(list_start(t, i), list_end(t, i))] == VarView::List(Seq::empty()),
    ensures
        render_from(t, i, m) == render_from(t, block_end(t, i), m),
        expand_from(t, i, m) == expand_from(t, block_end(t, i), m),
{
    match expand_from(t, block_end(t, i), m) {
        Ok(rest) => {
            assert(Seq::<char>::empty() + rest =~= rest);
        },
        Err(_) => {},
    }
    match render_from(t, block_end(t, i), m) {
        Ok(rest) => {
            assert(Seq::<char>::empty() + rest =~= rest);
        },
        Err(_) => {},
    }
}

/// A variable name: one or more letters or underscores.
pub open spec fn is_name(n: Seq<char>) -> bool {
    n.len() > 0 && forall|j: int| 0 <= j < n.len() ==> is_ident(#[trigger] n[j])
}

/// A run of spaces and tabs.
pub open spec fn is_padding(a: Seq<char>) -> bool {
    forall|j: int| 0 <= j < a.len() ==> is_pad(#[trigger] a[j])
}

/// The placeholder `{{` a n b `}}`.
pub open spec fn placeholder(a: Seq<char>, n: Seq<char>, b: Seq<char>) -> Seq<char> {
    open_delim() + a + n + b + close_delim()
}

spec fn drop_front(a: Seq<char>, x: char) -> Seq<char> {
    if a.len() > 0 && a[0] == x {
        a.skip(1)
    } else {
        a
    }
}

spec fn drop_back(b: Seq<char>, x: char) -> Seq<char> {
    if b.len() > 0 && b.last() == x {
        b.drop_last()
    } else {
        b
    }
}

proof fn lemma_replace_skip(s: Seq<char>, i: int, k: int, pat: Seq<char>, rep: Seq<char>)
    requires
        0 <= i <= k <= s.len(),
        pat.len() > 0,
        forall|j: int| i <= j < k ==> !match_at(s, j, pat),
    ensures
        replace_from(s, i, pat, rep) == s.subrange(i, k) + replace_from(s, k, pat, rep),
    decreases k - i,
{
    if i < k {
        lemma_replace_skip(s, i + 1, k, pat, rep);
        assert(seq![s[i]] + s.subrange(i + 1, k) =~= s.subrange(i, k));
        assert(seq![s[i]] + (s.subrange(i + 1, k) + replace_from(s, k, pat, rep)) =~= s.subrange(
            i,
            k,
        ) + replace_from(s, k, pat, rep));
    } else {
        assert(s.subrange(i, k) =~= Seq::<char>::empty());
        assert(Seq::<char>::empty() + replace_from(s, k, pat, rep) =~= replace_from(s, k, pat, rep));
    }
}

proof fn lemma_match_chars(s: Seq<char>, j: int, pat: Seq<char>)
    requires
        match_at(s, j, pat),
    ensures
        forall|k: int| 0 <= k < pat.len() ==> s[j + k] == pat[k],
{
    assert forall|k: int| 0 <= k < pat.len() implies s[j + k] == pat[k] by {
        assert(s.subrange(j, j + pat.len())[k] == s[j + k]);
    }
}

/// Text without braces.
pub open spec fn is_plain(x: Seq<char>) -> bool {
    forall|j: int| 0 <= j < x.len() ==> #[trigger] x[j] != '{' && x[j] != '}'
}

/// The placeholder `{{` a n b `}}` between the texts `pre` and `post`.
pub open spec fn in_text(
    pre: Seq<char>,
    a: Seq<char>,
    n: Seq<char>,
    b: Seq<char>,
    post: Seq<char>,
) -> Seq<char> {
    pre + placeholder(a, n, b) + post
}

proof fn lemma_in_text_chars(
    pre: Seq<char>,
    a: Seq<char>,
    n: Seq<char>,
    b: Seq<char>,
    post: Seq<char>,
)
    requires
        is_plain(pre),
        is_padding(a),
        is_name(n),
        is_padding(b),
        is_plain(post),
    ensures
        ({
            let s = in_text(pre, a, n, b, post);
            let p = pre.len() as int;
            let q = p + a.len() + n.len() + b.len() + 4;
            &&& s.len() == q + post.len()
            &&& s[p] == '{' && s[p + 1] == '{'
            &&& s[q - 2] == '}' && s[q - 1] == '}'
            &&& forall|j: int|
                0 <= j < s.len() && j != p && j != p + 1 && j != q - 2 && j != q - 1 ==> s[j]
                    != '{' && s[j] != '}'
            &&& a.len() > 0 ==> s[p + 2] == a[0]
            &&& a.len() == 0 ==> s[p + 2] == n[0]
            &&& b.len() > 0 ==> s[q - 3] == b.last()
            &&& b.len() == 0 ==> s[q - 3] == n.last()
        }),
{
    let s = in_text(pre, a, n, b, post);
    let p = pre.len() as int;
    let q = p + a.len() + n.len() + b.len() + 4;
    assert forall|j: int|
        0 <= j < s.len() && j != p && j != p + 1 && j != q - 2 && j != q - 1 implies s[j] != '{'
        && s[j] != '}' by {
        if j < p {
            assert(s[j] == pre[j]);
        } else if j < p + 2 + a.len() {
            assert(s[j] == a[j - p - 2]);
        } else if j < p + 2 + a.len() + n.len() {
            assert(s[j] == n[j - p - 2 - a.len()]);
        } else if j < q - 2 {
            assert(s[j] == b[j - p - 2 - a.len() - n.len()]);
        } else {
            assert(s[j] == post[j - q]);
        }
    }
}

proof fn lemma_strip_open(
    pre: Seq<char>,
    a: Seq<char>,
    n: Seq<char>,
    b: Seq<char>,
    post: Seq<char>,
    x: char,
)
    requires
        is_plain(pre),
        is_padding(a),
        is_name(n),
        is_padding(b),
        is_plain(post),
        is_pad(x),
    ensures
        replace_all(in_text(pre, a, n, b, post), seq!['{', '{', x], open_delim()) == in_text(
            pre,
            drop_front(a, x),
            n,
            b,
            post,
        ),
        is_padding(drop_front(a, x)),
{
    let s = in_text(pre, a, n, b, post);
    let len = s.len() as int;
    let p = pre.len() as int;
    let pat = seq!['{', '{', x];
    lemma_in_text_chars(pre, a, n, b, post);
    assert forall|j: int| 0 <= j < len && j != p implies !match_at(s, j, pat) by {
        if match_at(s, j, pat) {
            lemma_match_chars(s, j, pat);
            assert(s[j] == '{');
            assert(s[j + 1] == '{');
        }
    }
    lemma_replace_skip(s, 0, p, pat, open_delim());
    assert(replace_from(s, len, pat, open_delim()) =~= Seq::<char>::empty());
    if a.len() > 0 && a[0] == x {
        assert(match_at(s, p, pat)) by {
            assert(s.subrange(p, p + 3) =~= pat);
        }
        lemma_replace_skip(s, p + 3, len, pat, open_delim());
        assert(s.subrange(0, p) + (open_delim() + (s.subrange(p + 3, len) + Seq::<char>::empty()))
            =~= in_text(pre, a.skip(1), n, b, post));
    } else {
        assert(!match_at(s, p, pat)) by {
            if match_at(s, p, pat) {
                lemma_match_chars(s, p, pat);
            }
        }
        lemma_replace_skip(s, p, len, pat, open_delim());
        assert(s.subrange(0, p) + (s.subrange(p, len) + Seq::<char>::empty()) =~= s);
    }
    assert forall|j: int| 0 <= j < drop_front(a, x).len() implies is_pad(
        #[trigger] drop_front(a, x)[j],
    ) by {
        if a.len() > 0 && a[0] == x {
            assert(drop_front(a, x)[j] == a[j + 1]);
        }
    }
}

proof fn lemma_strip_close(
    pre: Seq<char>,
    a: Seq<char>,
    n: Seq<char>,
    b: Seq<char>,
    post: Seq<char>,
    x: char,
)
    requires
        is_plain(pre),
        is_padding(a),
        is_name(n),
        is_padding(b),
        is_plain(post),
        is_pad(x),
    ensures
        replace_all(in_text(pre, a, n, b, post), seq![x, '}', '}'], close_delim()) == in_text(
            pre,
            a,
            n,
            drop_back(b, x),
            post,
        ),
        is_padding(drop_back(b, x)),
{
    let s = in_text(pre, a, n, b, post);
    let len = s.len() as int;
    let p = pre.len() as int;
    let q = p + a.len() + n.len() + b.len() + 4;
    let pat = seq![x, '}', '}'];
    lemma_in_text_chars(pre, a, n, b, post);
    assert forall|j: int| 0 <= j < len && j != q - 3 implies !match_at(s, j, pat) by {
        if match_at(s, j, pat) {
            lemma_match_chars(s, j, pat);
            assert(s[j + 1] == '}');
            assert(s[j + 2] == '}');
        }
    }
    lemma_replace_skip(s, 0, q - 3, pat, close_delim());
    assert(replace_from(s, len, pat, close_delim()) =~= Seq::<char>::empty());
    if b.len() > 0 && b.last() == x {
        assert(match_at(s, q - 3, pat)) by {
            assert(s.subrange(q - 3, q) =~= pat);
        }
        lemma_replace_skip(s, q, len, pat, close_delim());
        assert(s.subrange(0, q - 3) + (close_delim() + (s.subrange(q, len)
            + Seq::<char>::empty())) =~= in_text(pre, a, n, b.drop_last(), post));
    } else {
        assert(!match_at(s, q - 3, pat)) by {
            if match_at(s, q - 3, pat) {
                lemma_match_chars(s, q - 3, pat);
            }
        }
        lemma_replace_skip(s, q - 3, len, pat, close_delim());
        assert(s.subrange(0, q - 3) + (s.subrange(q - 3, len) + Seq::<char>::empty()) =~= s);
    }
    assert forall|j: int| 0 <= j < drop_back(b, x).len() implies is_pad(
        #[trigger] drop_back(b, x)[j],
    ) by {
        assert(drop_back(b, x)[j] == b[j]);
    }
}

/// However a name is padded with spaces and tabs inside its delimiters, in a
/// document whose other text holds no braces, the document normalizes to the
/// one with the bare `{{name}}`, and so renders the same under any bindings.
pub proof fn law_padding_is_irrelevant(
    pre: Seq<char>,
    a: Seq<char>,
    n: Seq<char>,
    b: Seq<char>,
    post: Seq<char>,
    m: Map<Seq<char>, VarView>,
)
    requires
        is_plain(pre),
        is_padding(a),
        is_name(n),
        is_padding(b),
        is_plain(post),
    ensures
        normalize(in_text(pre, a, n, b, post)) == in_text(
            pre,
            Seq::empty(),
            n,
            Seq::empty(),
            post,
        ),
        rendered(normalize(in_text(pre, a, n, b, post)), m) == rendered(
            normalize(in_text(pre, Seq::empty(), n, Seq::empty(), post)),
            m,
        ),
    decreases a.len() + b.len(),
{
    let a1 = drop_front(a, ' ');
    let a2 = drop_front(a1, '\t');
    let b1 = drop_back(b, ' ');
    let b2 = drop_back(b1, '\t');
    lemma_strip_open(pre, a, n, b, post, ' ');
    lemma_strip_open(pre, a1, n, b, post, '\t');
    lemma_strip_close(pre, a2, n, b, post, ' ');
    lemma_strip_close(pre, a2, n, b1, post, '\t');
    let s = in_text(pre, a, n, b, post);
    assert(strip_once(s) == in_text(pre, a2, n, b2, post));
    let e = Seq::<char>::empty();
    lemma_strip_open(pre, e, n, e, post, ' ');
    lemma_strip_open(pre, e, n, e, post, '\t');
    lemma_strip_close(pre, e, n, e, post, ' ');
    lemma_strip_close(pre, e, n, e, post, '\t');
    assert(drop_front(e, ' ') == e);
    assert(drop_front(e, '\t') == e);
    assert(drop_back(e, ' ') == e);
    assert(drop_back(e, '\t') == e);
    assert(strip_once(in_text(pre, e, n, e, post)) == in_text(pre, e, n, e, post));
    if a.len() + b.len() == 0 {
        assert(a =~= e);
        assert(b =~= e);
    } else {
        assert(a2.len() + b2.len() < a.len() + b.len());
        assert(strip_once(s).len() != s.len());
        law_padding_is_irrelevant(pre, a2, n, b2, post, m);
    }
}

/// Text without `{` renders as itself under any bindings.
proof fn lemma_plain_run(t: Seq<char>, i: int, k: int, m: Map<Seq<char>, VarView>)
    requires
        0 <= i <= k <= t.len(),
        forall|j: int| i <= j < k ==> t[j] != '{',
    ensures
        render_from(t, i, m) == crate::loops::prepend(t.subrange(i, k), render_from(t, k, m)),
    decreases k - i,
{
    if i < k {
        assert(!block_at(t, i)) by {
            if block_at(t, i) {
                lemma_match_chars(t, i, seq!['{', '%']);
            }
        }
        assert(!bound_at(t, i, m));
        lemma_plain_run(t, i + 1, k, m);
        crate::loops::lemma_prepend_assoc(seq![t[i]], t.subrange(i + 1, k), render_from(t, k, m));
        assert(seq![t[i]] + t.subrange(i + 1, k) =~= t.subrange(i, k));
    } else {
        match render_from(t, k, m) {
            Ok(x) => {
                assert(t.subrange(i, k) + x =~= x);
            },
            Err(_) => {},
        }
    }
}

/// A loop block over an empty list, with text without `{` before and after
/// it, renders as that text alone: the block becomes empty and the text
/// around it is kept.
pub proof fn law_empty_list_block_in_text(
    pre: Seq<char>,
    blk: Seq<char>,
    post: Seq<char>,
    m: Map<Seq<char>, VarView>,
)
    requires
        forall|j: int| 0 <= j < pre.len() ==> pre[j] != '{',
        forall|j: int| 0 <= j < post.len() ==> post[j] != '{',
        block_at(pre + blk + post, pre.len() as int),
        block_end(pre + blk + post, pre.len() as int) == pre.len() + blk.len(),
        m.contains_key((pre + blk + post).subrange(
            list_start(pre + blk + post, pre.len() as int),
            list_end(pre + blk + post, pre.len() as int),
        )),
        m[(pre + blk + post).subrange(
            list_start(pre + blk + post, pre.len() as int),
            list_end(pre + blk + post, pre.len() as int),
        )] == VarView::List(Seq::empty()),
    ensures
        rendered(pre + blk + post, m) == Ok::<Seq<char>, Seq<char>>(pre + post),
{
    let t = pre + blk + post;
    let p = pre.len() as int;
    let e = p + blk.len();
    assert(t.len() > p) by {
        lemma_match_chars(t, p, seq!['{', '%']);
    }
    assert forall|j: int| 0 <= j < p implies t[j] != '{' by {
        assert(t[j] == pre[j]);
    }
    assert forall|j: int| e <= j < t.len() implies t[j] != '{' by {
        assert(t[j] == post[j - e]);
    }
    lemma_plain_run(t, 0, p, m);
    law_empty_list_expands_to_nothing(t, p, m);
    lemma_plain_run(t, e, t.len() as int, m);
    assert(t.subrange(0, p) =~= pre);
    assert(t.subrange(e, t.len() as int) =~= post);
    assert(render_from(t, t.len() as int, m) == Ok::<Seq<char>, Seq<char>>(Seq::empty()));
    assert(post + Seq::<char>::empty() =~= post);
}

/// The first loop block of a document, with text without `{` before it,
/// whose list is not bound to a list makes rendering fail with that list's
/// name, whatever follows the block.
pub proof fn law_first_unbound_list_fails(
    pre: Seq<char>,
    rest: Seq<char>,
    m: Map<Seq<char>, VarView>,
)
    requires
        forall|j: int| 0 <= j < pre.len() ==> pre[j] != '{',
        block_at(pre + rest, pre.len() as int),
        !list_bound(pre + rest, pre.len() as int, m),
    ensures
        rendered(pre + rest, m) == Err::<Seq<char>, Seq<char>>(
            (pre + rest).subrange(
                list_start(pre + rest, pre.len() as int),
                list_end(pre + rest, pre.len() as int),
            ),
        ),
{
    let t = pre + rest;
    let p = pre.len() as int;
    assert(t.len() > p) by {
        lemma_match_chars(t, p, seq!['{', '%']);
    }
    assert forall|j: int| 0 <= j < p implies t[j] != '{' by {
        assert(t[j] == pre[j]);
    }
    lemma_plain_run(t, 0, p, m);
}

} // verus!
