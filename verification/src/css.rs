//! The stylesheet data model: selectors and their specificity. Stylesheet
//! parsing has no entry point and is out of scope; only the selector model
//! and its specificity computation are part of the core.

use vstd::prelude::*;

verus! {

/// A stylesheet: a placeholder with no working parser behind it.
pub struct Stylesheet {}

/// A selector; only simple selectors exist.
pub enum Selector {
    Simple(SimpleSelector),
}

/// A simple selector: an optional tag name, an optional id, and a list of
/// classes.
pub struct SimpleSelector {
    tag_name: Option<String>,
    id: Option<String>,
    class: Vec<String>,
}

/// The mathematical value of a [`SimpleSelector`].
#[verifier::ext_equal]
pub struct SimpleSelectorVal {
    pub tag_name: Option<Seq<char>>,
    pub id: Option<Seq<char>>,
    pub class: Seq<Seq<char>>,
}

impl View for SimpleSelector {
    type V = SimpleSelectorVal;

    closed spec fn view(&self) -> SimpleSelectorVal {
        SimpleSelectorVal {
            tag_name: match self.tag_name {
                Option::Some(t) => Some(t@),
                Option::None => None,
            },
            id: match self.id {
                Option::Some(t) => Some(t@),
                Option::None => None,
            },
            class: self.class@.map_values(|c: String| c@),
        }
    }
}

impl SimpleSelector {
    pub fn new(tag_name: Option<String>, id: Option<String>, class: Vec<String>) -> (s:
        SimpleSelector)
        ensures
            s@.tag_name is Some <==> tag_name is Some,
            tag_name is Some ==> s@.tag_name.unwrap() == tag_name.unwrap()@,
            s@.id is Some <==> id is Some,
            id is Some ==> s@.id.unwrap() == id.unwrap()@,
            s@.class == class@.map_values(|c: String| c@),
    {
        SimpleSelector { tag_name, id, class }
    }
}

/// A selector's specificity: id count, class count, tag-name count.
pub type Specificity = (usize, usize, usize);

/// The specificity a selector's parts yield: one point per present id, one
/// per class, one per present tag name.
pub open spec fn spec_specificity(s: SimpleSelectorVal) -> (int, int, int) {
    (
        if s.id is Some {
            1int
        } else {
            0int
        },
        s.class.len() as int,
        if s.tag_name is Some {
            1int
        } else {
            0int
        },
    )
}

impl Selector {
    /// The selector's specificity, as [`spec_specificity`] states.
    pub fn specificity(&self) -> (r: Specificity)
        ensures
            ({
                let simple = match self {
                    Selector::Simple(simple) => simple,
                };
                (r.0 as int, r.1 as int, r.2 as int) == spec_specificity(simple@)
            }),
    {
        let simple = match self {
            Selector::Simple(simple) => simple,
        };
        let a: usize = if simple.id.is_some() {
            1
        } else {
            0
        };
        let b: usize = simple.class.len();
        let c: usize = if simple.tag_name.is_some() {
            1
        } else {
            0
        };
        (a, b, c)
    }
}

} // verus!
