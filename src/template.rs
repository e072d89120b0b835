use vstd::prelude::*;
use vstd::string::StrSliceExecFns;
use vstd::utf8::encode_utf8;

use crate::error::{TempelError, TempelResult};
use crate::loops::{expand, expand_chars, render_chars, render_from};
use crate::normalize::{normalize, normalize_chars};
use crate::structure::{
    Shape,
    balanced,
    check_shape,
    closes,
    declared,
    first_crossed,
    opens,
    views,
    well_formed,
};
use crate::subst::{subst, subst_chars};
use crate::text::{chars_of, string_of_range};
use crate::value::{Bindings, VarView};

verus! {

/// The byte offset, in UTF-8, of the character at position `p` of `s`.
pub open spec fn byte_offset(s: Seq<char>, p: int) -> nat {
    encode_utf8(s.subrange(0, p)).len()
}

/// What a compiled template renders under the bindings `m` (see
/// `render_from`). `Err` holds the name of the first loop list that is not
/// bound to a list.
pub open spec fn rendered(content: Seq<char>, m: Map<Seq<char>, VarView>) -> Result<
    Seq<char>,
    Seq<char>,
> {
    render_from(content, 0, m)
}

/// A compiled template: its normalized text and the names it declares.
#[derive(Debug)]
pub struct Template {
    content: String,
    variables: Vec<String>,
}

/// What a `Template` holds, as sequences of characters.
pub struct TemplateView {
    pub content: Seq<char>,
    pub variables: Seq<Seq<char>>,
}

impl View for Template {
    type V = TemplateView;

    closed spec fn view(&self) -> TemplateView {
        TemplateView { content: self.content@, variables: views(self.variables@) }
    }
}

/// The byte offset of the character at position `p` of `s`.
fn byte_at(s: &String, p: usize) -> (r: usize)
    requires
        p <= s@.len(),
    ensures
        r == byte_offset(s@, p as int) as usize,
{
    s.as_str().substring_char(0, p).len()
}

impl Template {
    /// Compiles `content`: normalizes its placeholders, checks that their
    /// delimiters are balanced and in order, and collects the declared names.
    pub fn new(content: &str) -> (r: TempelResult<Self>)
        ensures
            match r {
                Ok(t) => {
                    &&& well_formed(normalize(content@))
                    &&& t@.content == normalize(content@)
                    &&& t@.variables == declared(normalize(content@))
                },
                Err(TempelError::UnbalancedBraces) => !balanced(normalize(content@)),
                Err(TempelError::FormatError { start, end }) => {
                    let c = normalize(content@);
                    &&& balanced(c)
                    &&& first_crossed(c) is Some
                    &&& start == byte_offset(c, opens(c)[first_crossed(c)->0]) as usize
                    &&& end == byte_offset(c, closes(c)[first_crossed(c)->0]) as usize
                },
                Err(_) => false,
            },
    {
        let mut ret = Template { content: content.to_owned(), variables: Vec::new() };
        ret.normalize_template();
        match ret.parse_vars() {
            Ok(()) => Ok(ret),
            Err(e) => Err(e),
        }
    }

    /// Strips the spaces and tabs that pad placeholder names (see `normalize`).
    pub fn normalize_template(&mut self)
        ensures
            final(self)@.content == normalize(old(self)@.content),
            normalize(final(self)@.content) == final(self)@.content,
            final(self)@.variables == old(self)@.variables,
    {
        proof {
            crate::laws::law_normalize_idempotent(self.content@);
        }
        let cur = chars_of(self.content.as_str());
        let new = normalize_chars(cur);
        self.content = string_of_range(&new, 0, new.len());
        assert(new@.subrange(0, new@.len() as int) =~= new@);
    }

    /// Checks the delimiters of the content and records the declared names.
    fn parse_vars(&mut self) -> (r: TempelResult<()>)
        ensures
            final(self)@.content == old(self)@.content,
            match r {
                Ok(()) => {
                    &&& well_formed(old(self)@.content)
                    &&& final(self)@.variables == old(self)@.variables + declared(old(self)@.content)
                },
                Err(TempelError::UnbalancedBraces) => !balanced(old(self)@.content),
                Err(TempelError::FormatError { start, end }) => {
                    let c = old(self)@.content;
                    &&& balanced(c)
                    &&& first_crossed(c) is Some
                    &&& start == byte_offset(c, opens(c)[first_crossed(c)->0]) as usize
                    &&& end == byte_offset(c, closes(c)[first_crossed(c)->0]) as usize
                },
                Err(_) => false,
            },
    {
        let c = chars_of(self.content.as_str());
        match check_shape(&c) {
            Shape::Sound(names) => {
                let ghost start = views(self.variables@);
                let mut k: usize = 0;
                while k < names.len()
                    invariant
                        k <= names@.len(),
                        self.content@ == old(self).content@,
                        views(self.variables@) == start + views(names@).take(k as int),
                    decreases names@.len() - k,
                {
                    let ghost prev = self.variables@;
                    let name = names[k].clone();
                    assert(name@ == names@[k as int]@);
                    self.variables.push(name);
                    assert(self.variables@ == prev.push(name));
                    assert(views(self.variables@) =~= views(prev).push(name@));
                    assert(views(self.variables@) =~= start + views(names@).take(k + 1));
                    k += 1;
                }
                assert(views(names@).take(names@.len() as int) =~= views(names@));
                Ok(())
            },
            Shape::Unbalanced => Err(TempelError::UnbalancedBraces),
            Shape::Crossed(a, b) => {
                proof {
                    crate::structure::lemma_crossed_in_range(c@);
                }
                let start = byte_at(&self.content, a);
                let end = byte_at(&self.content, b);
                Err(TempelError::FormatError { start, end })
            },
        }
    }

    /// The names declared by the template's placeholders, in document order.
    pub fn variables(&self) -> (r: &Vec<String>)
        ensures
            views(r@) == self@.variables,
    {
        &self.variables
    }

    /// `template` with every placeholder whose name is bound in `vars`
    /// replaced by the text of its value; other placeholders stay verbatim.
    pub fn replace_vars(template: String, vars: &Bindings) -> (r: String)
        requires
            vars.wf(),
        ensures
            r@ == subst(template@, vars@),
    {
        let t = chars_of(template.as_str());
        subst_chars(&t, vars, None)
    }

    /// `template` with each loop block expanded over the list it names.
    pub fn parse_loops(template: String, vars: &Bindings) -> (r: TempelResult<String>)
        requires
            vars.wf(),
        ensures
            match expand(template@, vars@) {
                Ok(s) => r matches Ok(x) && x@ == s,
                Err(name) => r matches Err(e) && e matches TempelError::NoSuchList(n) && n@
                    == name,
            },
    {
        let t = chars_of(template.as_str());
        expand_chars(&t, vars)
    }

    /// Renders the template under `vars` (see `rendered`).
    pub fn render(&self, vars: Bindings) -> (r: TempelResult<String>)
        requires
            vars.wf(),
        ensures
            match rendered(self@.content, vars@) {
                Ok(s) => r matches Ok(x) && x@ == s,
                Err(name) => r matches Err(e) && e matches TempelError::NoSuchList(n) && n@
                    == name,
            },
    {
        let t = chars_of(self.content.as_str());
        render_chars(&t, &vars)
    }
}

} // verus!
