use vstd::prelude::*;

use crate::text::{push_char, range_eq, chars_of};

verus! {

/// A value bound to a name: one string, or a list of strings.
#[derive(Debug, Clone)]
pub enum TempelVar {
    String(String),
    List(Vec<String>),
}

/// What a `TempelVar` holds, as sequences of characters.
pub enum VarView {
    Scalar(Seq<char>),
    List(Seq<Seq<char>>),
}

impl View for TempelVar {
    type V = VarView;

    open spec fn view(&self) -> VarView {
        match self {
            TempelVar::String(s) => VarView::Scalar(s@),
            TempelVar::List(l) => VarView::List(l@.map_values(|x: String| x@)),
        }
    }
}

/// The items of `l` separated by a comma and a space.
pub open spec fn join(l: Seq<Seq<char>>) -> Seq<char>
    decreases l.len(),
{
    if l.len() == 0 {
        Seq::empty()
    } else if l.len() == 1 {
        l[0]
    } else {
        join(l.drop_last()) + seq![',', ' '] + l.last()
    }
}

/// The text that stands for a value in rendered output: a scalar as it is,
/// a list as `[a, b, c]`.
pub open spec fn text_of(v: VarView) -> Seq<char> {
    match v {
        VarView::Scalar(s) => s,
        VarView::List(l) => seq!['['] + join(l) + seq![']'],
    }
}

impl TempelVar {
    /// The text of this value (see `text_of`).
    pub fn as_string(&self) -> (r: String)
        ensures
            r@ == text_of(self@),
    {
        match self {
            TempelVar::String(s) => s.clone(),
            TempelVar::List(l) => {
                let ghost items = l@.map_values(|x: String| x@);
                let mut r = String::new();
                push_char(&mut r, '[');
                let mut i: usize = 0;
                while i < l.len()
                    invariant
                        i <= l@.len(),
                        items == l@.map_values(|x: String| x@),
                        r@ == seq!['['] + join(items.take(i as int)),
                    decreases l@.len() - i,
                {
                    if i > 0 {
                        push_char(&mut r, ',');
                        push_char(&mut r, ' ');
                    }
                    r.append(l[i].as_str());
                    proof {
                        let t = items.take(i as int + 1);
                        assert(t.drop_last() =~= items.take(i as int));
                        assert(t.last() == l@[i as int]@);
                        if i == 0 {
                            assert(join(t) == t[0]);
                        }
                    }
                    i += 1;
                    assert(r@ =~= seq!['['] + join(items.take(i as int)));
                }
                push_char(&mut r, ']');
                assert(items.take(l@.len() as int) =~= items);
                r
            }
        }
    }
}

/// A set of bindings from names to values; each name is bound at most once.
pub struct Bindings {
    keys: Vec<Vec<char>>,
    values: Vec<TempelVar>,
    model: Ghost<Map<Seq<char>, VarView>>,
}

impl View for Bindings {
    type V = Map<Seq<char>, VarView>;

    closed spec fn view(&self) -> Map<Seq<char>, VarView> {
        self.model@
    }
}

impl Bindings {
    /// Each stored name is bound in the model to its stored value, and the model
    /// binds no other name.
    pub closed spec fn wf(&self) -> bool {
        &&& self.keys@.len() == self.values@.len()
        &&& forall|i: int|
            0 <= i < self.keys@.len() ==> #[trigger] self.model@.contains_key(self.keys@[i]@)
                && self.model@[self.keys@[i]@] == self.values@[i]@
        &&& forall|i: int, j: int|
            0 <= i < j < self.keys@.len() ==> #[trigger] self.keys@[i]@ != #[trigger] self.keys@[j]@
        &&& forall|k: Seq<char>|
            #[trigger] self.model@.contains_key(k) ==> exists|i: int|
                0 <= i < self.keys@.len() && self.keys@[i]@ == k
    }

    /// An empty set of bindings.
    pub fn new() -> (r: Bindings)
        ensures
            r.wf(),
            r@ == Map::<Seq<char>, VarView>::empty(),
    {
        Bindings { keys: Vec::new(), values: Vec::new(), model: Ghost(Map::empty()) }
    }

    /// Binds `key` to `value`, replacing any earlier binding of `key`.
    pub fn insert(&mut self, key: &str, value: TempelVar)
        requires
            old(self).wf(),
        ensures
            final(self).wf(),
            final(self)@ == old(self)@.insert(key@, value@),
    {
        let k = chars_of(key);
        let mut i: usize = 0;
        while i < self.keys.len()
            invariant
                self.wf(),
                self == old(self),
                k@ == key@,
                i <= self.keys@.len(),
                forall|j: int| 0 <= j < i ==> self.keys@[j]@ != k@,
            decreases self.keys@.len() - i,
        {
            let kl = self.keys[i].len();
            if range_eq(&self.keys[i], 0, kl, &k) {
                assert(self.keys@[i as int]@.subrange(0, kl as int) =~= self.keys@[i as int]@);
                assert(self.keys@[i as int]@ == key@);
                let ghost old_keys = self.keys@;
                let ghost m = self.model@.insert(key@, value@);
                self.values.set(i, value);
                self.model = Ghost(m);
                proof {
                    assert(self.keys@ == old_keys);
                    assert forall|j: int| 0 <= j < self.keys@.len() implies #[trigger] self.model@.contains_key(self.keys@[j]@)
                        && self.model@[self.keys@[j]@] == self.values@[j]@ by {
                        if j != i {
                            assert(old(self).model@.contains_key(old_keys[j]@));
                            assert(self.values@[j] == old(self).values@[j]);
                            if j < i {
                                assert(old(self).keys@[j]@ != old(self).keys@[i as int]@);
                            } else {
                                assert(old(self).keys@[i as int]@ != old(self).keys@[j]@);
                            }
                        }
                    }
                    assert forall|kk: Seq<char>| #[trigger] m.contains_key(kk) implies exists|j: int|
                        0 <= j < self.keys@.len() && self.keys@[j]@ == kk by {
                        if kk == key@ {
                            assert(self.keys@[i as int]@ == kk);
                        } else {
                            assert(old(self).model@.contains_key(kk));
                        }
                    }
                }
                return;
            }
            assert(self.keys@[i as int]@.subrange(0, kl as int) =~= self.keys@[i as int]@);
            i += 1;
        }
        let ghost m = self.model@.insert(key@, value@);
        let ghost old_keys = self.keys@;
        self.keys.push(k);
        self.values.push(value);
        self.model = Ghost(m);
        proof {
            let n = old_keys.len() as int;
            assert forall|j: int| 0 <= j < self.keys@.len() implies #[trigger] self.model@.contains_key(self.keys@[j]@)
                && self.model@[self.keys@[j]@] == self.values@[j]@ by {
                if j < n {
                    assert(self.keys@[j] == old_keys[j]);
                    assert(old_keys[j]@ != k@);
                }
            }
            assert forall|a: int, b: int| 0 <= a < b < self.keys@.len() implies #[trigger] self.keys@[a]@ != #[trigger] self.keys@[b]@ by {
                if b == n {
                    assert(old_keys[a]@ != k@);
                } else {
                    assert(old_keys[a]@ != old_keys[b]@);
                }
            }
            assert forall|kk: Seq<char>| #[trigger] m.contains_key(kk) implies exists|j: int|
                0 <= j < self.keys@.len() && self.keys@[j]@ == kk by {
                if kk == key@ {
                    assert(self.keys@[old_keys.len() as int]@ == kk);
                } else {
                    assert(old(self).model@.contains_key(kk));
                    let j = choose|j: int| 0 <= j < old_keys.len() && old_keys[j]@ == kk;
                    assert(self.keys@[j]@ == kk);
                }
            }
        }
    }

    /// The value bound to the name `s[a..b]`, if any.
    pub fn get_range(&self, s: &Vec<char>, a: usize, b: usize) -> (r: Option<&TempelVar>)
        requires
            self.wf(),
            a <= b <= s@.len(),
        ensures
            match r {
                Some(v) => self@.contains_key(s@.subrange(a as int, b as int))
                    && self@[s@.subrange(a as int, b as int)] == v@,
                None => !self@.contains_key(s@.subrange(a as int, b as int)),
            },
    {
        let mut i: usize = 0;
        while i < self.keys.len()
            invariant
                self.wf(),
                a <= b <= s@.len(),
                i <= self.keys@.len(),
                forall|j: int| 0 <= j < i ==> self.keys@[j]@ != s@.subrange(a as int, b as int),
            decreases self.keys@.len() - i,
        {
            if range_eq(s, a, b, &self.keys[i]) {
                return Some(&self.values[i]);
            }
            i += 1;
        }
        None
    }
}

} // verus!
