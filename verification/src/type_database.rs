//! What the user asked for: which symbols to generate, which types they vouch
//! for, and which declarations to keep out.

use vstd::prelude::*;
use crate::names::names_view;
use crate::names::contains_name;
use crate::names::same_name;

verus! {

/// The user's statement that a type may, or may not, be passed by value.
#[derive(Clone, Debug, PartialEq, Eq)]
pub struct SafetyAssertion {
    pub ty_name: String,
    pub safe: bool,
}

/// What a [`SafetyAssertion`] stands for in contracts.
pub struct AssertionView {
    pub ty_name: Seq<char>,
    pub safe: bool,
}

impl View for SafetyAssertion {
    type V = AssertionView;

    open spec fn view(&self) -> AssertionView {
        AssertionView { ty_name: self.ty_name@, safe: self.safe }
    }
}

/// The user's configuration. Nothing in the pipeline writes to it.
#[derive(Clone, Debug, PartialEq, Eq)]
pub struct TypeDatabase {
    /// The symbols generation starts from.
    pub allowlist: Vec<String>,
    /// Explicit claims about value safety.
    pub assertions: Vec<SafetyAssertion>,
    /// Declarations to drop whatever reaches them.
    pub exclusions: Vec<String>,
}

/// What a [`TypeDatabase`] stands for in contracts.
pub struct DatabaseView {
    pub allowlist: Seq<Seq<char>>,
    pub assertions: Seq<AssertionView>,
    pub exclusions: Seq<Seq<char>>,
}

impl DatabaseView {
    /// Whether `name` is on the allow-list.
    pub open spec fn is_root(self, name: Seq<char>) -> bool {
        self.allowlist.contains(name)
    }

    /// Whether `name` is excluded.
    pub open spec fn is_excluded(self, name: Seq<char>) -> bool {
        self.exclusions.contains(name)
    }

    /// Whether some assertion about `name` carries the flag `safe`.
    pub open spec fn asserts(self, name: Seq<char>, safe: bool) -> bool {
        exists|i: int|
            0 <= i < self.assertions.len() && #[trigger] self.assertions[i].ty_name == name
                && self.assertions[i].safe == safe
    }
}

impl View for TypeDatabase {
    type V = DatabaseView;

    open spec fn view(&self) -> DatabaseView {
        DatabaseView {
            allowlist: names_view(self.allowlist@),
            assertions: self.assertions@.map_values(|a: SafetyAssertion| a@),
            exclusions: names_view(self.exclusions@),
        }
    }
}

impl TypeDatabase {
    /// A configuration that asks for nothing.
    pub fn new() -> (r: Self)
        ensures
            r@.allowlist.len() == 0,
            r@.assertions.len() == 0,
            r@.exclusions.len() == 0,
    {
        TypeDatabase { allowlist: Vec::new(), assertions: Vec::new(), exclusions: Vec::new() }
    }

    /// Adds `name` to the symbols generation starts from.
    pub fn add_to_allowlist(&mut self, name: String)
        ensures
            final(self)@ == (DatabaseView { allowlist: old(self)@.allowlist.push(name@), ..old(self)@ }),
    {
        self.allowlist.push(name);
        assert(names_view(self.allowlist@) =~= names_view(old(self).allowlist@).push(name@));
    }

    /// Records the claim that `ty_name` is, or is not, safe to pass by value.
    pub fn assert_safety(&mut self, ty_name: String, safe: bool)
        ensures
            final(self)@ == (DatabaseView {
                assertions: old(self)@.assertions.push(AssertionView { ty_name: ty_name@, safe }),
                ..old(self)@
            }),
    {
        self.assertions.push(SafetyAssertion { ty_name, safe });
        assert(self@.assertions =~= old(self)@.assertions.push(
            AssertionView { ty_name: ty_name@, safe },
        ));
    }

    /// Keeps `name` out of the generated code.
    pub fn exclude(&mut self, name: String)
        ensures
            final(self)@ == (DatabaseView { exclusions: old(self)@.exclusions.push(name@), ..old(self)@ }),
    {
        self.exclusions.push(name);
        assert(names_view(self.exclusions@) =~= names_view(old(self).exclusions@).push(name@));
    }

    /// Whether `name` is on the allow-list.
    pub fn is_on_allowlist(&self, name: &String) -> (r: bool)
        ensures
            r == self@.is_root(name@),
    {
        contains_name(&self.allowlist, name)
    }

    /// Whether `name` is excluded.
    pub fn is_excluded(&self, name: &String) -> (r: bool)
        ensures
            r == self@.is_excluded(name@),
    {
        contains_name(&self.exclusions, name)
    }

    /// Whether the user made a claim about `name` with the flag `safe`.
    pub fn asserts(&self, name: &String, safe: bool) -> (r: bool)
        ensures
            r == self@.asserts(name@, safe),
    {
        let mut i: usize = 0;
        while i < self.assertions.len()
            invariant
                i <= self.assertions.len(),
                forall|j: int|
                    0 <= j < i ==> !(#[trigger] self@.assertions[j].ty_name == name@
                        && self@.assertions[j].safe == safe),
            decreases self.assertions.len() - i,
        {
            if same_name(&self.assertions[i].ty_name, name) && self.assertions[i].safe == safe {
                assert(self@.assertions[i as int].ty_name == name@);
                return true;
            }
            i += 1;
        }
        false
    }
}

} // verus!
