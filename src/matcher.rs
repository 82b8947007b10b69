use vstd::prelude::*;
use crate::textual::{selector_text, text_of_matchers};

verus! {

/// The mathematical value of a matcher: a name is its characters.
pub enum MatcherView {
    Root,
    WildcardChild,
    NamedChild(Seq<char>),
}

/// One step of a path.
#[derive(Clone, Debug, PartialEq, Eq)]
pub enum Matcher {
    /// Anchors at the root of the value tree; only ever first in a path.
    Root,
    /// Selects every direct child of the current position.
    WildcardChild,
    /// Selects the direct child keyed by this name.
    NamedChild(String),
}

impl View for Matcher {
    type V = MatcherView;

    open spec fn view(&self) -> MatcherView {
        match self {
            Matcher::Root => MatcherView::Root,
            Matcher::WildcardChild => MatcherView::WildcardChild,
            Matcher::NamedChild(n) => MatcherView::NamedChild(n@),
        }
    }
}

/// `Root` stands nowhere but at index 0.
pub open spec fn root_only_first(ms: Seq<MatcherView>) -> bool {
    forall|k: int| 0 < k < ms.len() ==> !(#[trigger] ms[k] is Root)
}

/// Starts with `Root`, which stands nowhere else.
pub open spec fn is_path_shape(ms: Seq<MatcherView>) -> bool {
    ms.len() > 0 && ms[0] is Root && root_only_first(ms)
}

/// The models of a sequence of matchers.
pub open spec fn views_of(ms: Seq<Matcher>) -> Seq<MatcherView> {
    ms.map_values(|m: Matcher| m@)
}

/// An ordered sequence of matchers, applied one after the other from the
/// root of a value tree down.
#[derive(Debug, PartialEq, Eq)]
pub struct Path {
    matchers: Vec<Matcher>,
}

impl View for Path {
    type V = Seq<MatcherView>;

    closed spec fn view(&self) -> Seq<MatcherView> {
        views_of(self.matchers@)
    }
}

impl Path {
    #[verifier::type_invariant]
    spec fn well_formed(&self) -> bool {
        is_path_shape(views_of(self.matchers@))
    }

    pub(crate) fn from_matchers(matchers: Vec<Matcher>) -> (p: Path)
        requires
            is_path_shape(views_of(matchers@)),
        ensures
            p@ == views_of(matchers@),
    {
        Path { matchers }
    }

    /// The textual form of the path, which parses back to the same matchers.
    pub fn to_selector(&self) -> (r: String)
        ensures
            r@ == selector_text(self@),
    {
        text_of_matchers(self.matchers.as_slice())
    }

    /// The number of matchers.
    pub fn len(&self) -> (r: usize)
        ensures
            r == self@.len(),
    {
        self.matchers.len()
    }

    /// Whether the path holds no matcher.
    pub fn is_empty(&self) -> (r: bool)
        ensures
            r == (self@.len() == 0),
    {
        self.matchers.len() == 0
    }

    /// The matcher at index `i`.
    pub fn get(&self, i: usize) -> (r: &Matcher)
        requires
            i < self@.len(),
        ensures
            r@ == self@[i as int],
    {
        &self.matchers[i]
    }

    /// The matchers, in order.
    pub fn matchers(&self) -> (r: &[Matcher])
        ensures
            views_of(r@) == self@,
            is_path_shape(self@),
    {
        proof { use_type_invariant(self); }
        self.matchers.as_slice()
    }
}

} // verus!
