//! The registry of type names: every name the declarations mention gets one
//! identity here, and with it the place where its safety is recorded.

use vstd::prelude::*;
use crate::conversion::api::Safety;
use crate::names::first_index;
use crate::names::is_first_index;
use crate::names::lemma_first_index;
use crate::names::lemma_first_index_unique;
use crate::names::same_name;

verus! {

/// One entry of the registry. Its position in the registry is its identity.
#[derive(Debug, PartialEq, Eq)]
pub struct TypeReference {
    pub name: String,
    pub safety: Safety,
}

/// What a [`TypeReference`] stands for in contracts.
pub struct TypeRefView {
    pub name: Seq<char>,
    pub safety: Safety,
}

impl View for TypeReference {
    type V = TypeRefView;

    open spec fn view(&self) -> TypeRefView {
        TypeRefView { name: self.name@, safety: self.safety }
    }
}

/// A name from elsewhere that a namespace brought into scope.
#[derive(Debug, PartialEq, Eq)]
pub struct UseAlias {
    /// The namespace, by its path; empty for the global one.
    pub scope: String,
    pub name: String,
}

/// What a [`UseAlias`] stands for in contracts.
pub struct UseView {
    pub scope: Seq<char>,
    pub name: Seq<char>,
}

impl View for UseAlias {
    type V = UseView;

    open spec fn view(&self) -> UseView {
        UseView { scope: self.scope@, name: self.name@ }
    }
}

impl Clone for UseAlias {
    fn clone(&self) -> (r: Self)
        ensures
            r@ == self@,
    {
        UseAlias { scope: self.scope.clone(), name: self.name.clone() }
    }
}

/// The aliases of a list, as contracts see them.
pub open spec fn uses_view(uses: Seq<UseAlias>) -> Seq<UseView> {
    uses.map_values(|u: UseAlias| u@)
}

/// A copy of a list of aliases.
pub fn clone_uses(v: &Vec<UseAlias>) -> (r: Vec<UseAlias>)
    ensures
        uses_view(r@) == uses_view(v@),
{
    let mut r: Vec<UseAlias> = Vec::new();
    let mut i: usize = 0;
    while i < v.len()
        invariant
            i <= v.len(),
            r@.len() == i,
            forall|j: int| 0 <= j < i ==> r@[j]@ == v@[j]@,
        decreases v.len() - i,
    {
        r.push(v[i].clone());
        i += 1;
    }
    assert(uses_view(r@) =~= uses_view(v@));
    r
}

/// The registry. A name occurs in it at most once.
pub struct TypeConverter {
    types: Vec<TypeReference>,
    uses: Vec<UseAlias>,
}

/// What a [`TypeConverter`] stands for in contracts.
pub struct RegistryView {
    pub types: Seq<TypeRefView>,
    pub uses: Seq<UseView>,
}

/// The registry that knows nothing.
pub open spec fn empty_registry() -> RegistryView {
    RegistryView { types: Seq::empty(), uses: Seq::empty() }
}

/// The names of the entries of a registry, in order.
pub open spec fn type_names(types: Seq<TypeRefView>) -> Seq<Seq<char>> {
    types.map_values(|t: TypeRefView| t.name)
}

impl RegistryView {
    /// No name is registered twice.
    pub open spec fn wf(self) -> bool {
        forall|i: int, j: int|
            0 <= i < j < self.types.len() ==> self.types[i].name != self.types[j].name
    }

    /// The identity of `name`, if it is registered.
    pub open spec fn id_of(self, name: Seq<char>) -> Option<int> {
        first_index(type_names(self.types), name)
    }

    /// Whether `name` is registered.
    pub open spec fn knows(self, name: Seq<char>) -> bool {
        type_names(self.types).contains(name)
    }

    /// What is recorded about `name`. A name that was never registered is
    /// as undecided as one that was registered and not yet analysed.
    pub open spec fn tag(self, name: Seq<char>) -> Safety {
        match self.id_of(name) {
            Some(i) => self.types[i].safety,
            None => Safety::PendingAnalysis,
        }
    }

    /// The registry after `name` was resolved in it.
    pub open spec fn resolved(self, name: Seq<char>) -> RegistryView {
        if self.knows(name) {
            self
        } else {
            RegistryView {
                types: self.types.push(TypeRefView { name, safety: Safety::PendingAnalysis }),
                ..self
            }
        }
    }

    /// The registry after every name of `names` was resolved in it, in order.
    pub open spec fn resolved_all(self, names: Seq<Seq<char>>) -> RegistryView
        decreases names.len(),
    {
        if names.len() == 0 {
            self
        } else {
            self.resolved_all(names.drop_last()).resolved(names.last())
        }
    }

    /// The identity under which `name` is resolved.
    pub open spec fn resolved_id(self, name: Seq<char>) -> int {
        match self.id_of(name) {
            Some(i) => i,
            None => self.types.len() as int,
        }
    }

    /// The registry after entry `id` was given the verdict `safety`. Only an
    /// undecided entry takes a verdict, and only a final one.
    pub open spec fn classified(self, id: int, safety: Safety) -> RegistryView {
        if self.accepts(id, safety) {
            RegistryView {
                types: self.types.update(id, TypeRefView { name: self.types[id].name, safety }),
                ..self
            }
        } else {
            self
        }
    }

    /// Whether entry `id` takes the verdict `safety`.
    pub open spec fn accepts(self, id: int, safety: Safety) -> bool {
        &&& 0 <= id < self.types.len()
        &&& self.types[id].safety == Safety::PendingAnalysis
        &&& safety != Safety::PendingAnalysis
    }

    /// The names that `scope` brought into scope, in the order it did.
    pub open spec fn uses_in(self, scope: Seq<char>) -> Seq<Seq<char>> {
        self.uses.filter(|u: UseView| u.scope == scope).map_values(|u: UseView| u.name)
    }
}

/// Resolving a name a second time changes nothing and gives the same identity.
pub proof fn lemma_resolve_idempotent(reg: RegistryView, name: Seq<char>)
    ensures
        reg.resolved(name).resolved(name) == reg.resolved(name),
        reg.resolved(name).resolved_id(name) == reg.resolved_id(name),
        reg.resolved(name).knows(name),
        0 <= reg.resolved_id(name) < reg.resolved(name).types.len(),
        reg.resolved(name).types[reg.resolved_id(name)].name == name,
{
    let names = type_names(reg.types);
    lemma_first_index(names, name);
    if reg.knows(name) {
    } else {
        let after = reg.resolved(name);
        let names2 = type_names(after.types);
        assert(names2 =~= names.push(name));
        assert(names2[names.len() as int] == name);
        assert(names2.contains(name));
        assert(is_first_index(names2, name, names.len() as int)) by {
            assert forall|j: int| 0 <= j < names.len() implies names2[j] != name by {
                assert(names2[j] == names[j]);
                assert(names.contains(names[j]));
            }
        }
        lemma_first_index_unique(names2, name, names.len() as int);
    }
}

/// Resolving a name leaves every earlier identity, name and verdict as it was,
/// and keeps the registry free of repeated names.
pub proof fn lemma_resolve_preserves(reg: RegistryView, name: Seq<char>, other: Seq<char>)
    requires
        reg.wf(),
    ensures
        reg.resolved(name).wf(),
        reg.knows(other) ==> reg.resolved(name).id_of(other) == reg.id_of(other),
        other != name ==> reg.resolved(name).knows(other) == reg.knows(other),
        other != name ==> reg.resolved(name).tag(other) == reg.tag(other),
        reg.knows(name) ==> reg.resolved(name).tag(other) == reg.tag(other),
        !reg.knows(name) ==> reg.resolved(name).tag(name) == Safety::PendingAnalysis,
{
    let names = type_names(reg.types);
    let after = reg.resolved(name);
    let names2 = type_names(after.types);
    lemma_resolve_idempotent(reg, name);
    lemma_first_index(names, other);
    lemma_first_index(names2, other);
    if !reg.knows(name) {
        assert(names2 =~= names.push(name));
        assert forall|i: int, j: int| 0 <= i < j < after.types.len() implies after.types[i].name
            != after.types[j].name by {
            if j == names.len() {
                assert(names[i] == reg.types[i].name);
                assert(names.contains(names[i]));
            }
        }
        match first_index(names, other) {
            Some(i) => {
                assert(names2[i] == names[i]);
                assert forall|j: int| 0 <= j < i implies names2[j] != other by {
                    assert(names2[j] == names[j]);
                }
                lemma_first_index_unique(names2, other, i);
            },
            None => {
                if other != name {
                    assert forall|j: int| 0 <= j < names2.len() implies names2[j] != other by {
                        if j < names.len() {
                            assert(names2[j] == names[j]);
                            assert(names.contains(names[j]));
                        }
                    }
                }
            },
        }
    }
}

/// Resolving one list of names and then another is resolving the two in a row.
pub proof fn lemma_resolved_all_concat(reg: RegistryView, a: Seq<Seq<char>>, b: Seq<Seq<char>>)
    ensures
        reg.resolved_all(a + b) == reg.resolved_all(a).resolved_all(b),
    decreases b.len(),
{
    if b.len() == 0 {
        assert(a + b =~= a);
    } else {
        lemma_resolved_all_concat(reg, a, b.drop_last());
        assert((a + b).drop_last() =~= a + b.drop_last());
        assert((a + b).last() == b.last());
    }
}

/// A verdict stays: classifying an entry that has one changes nothing.
pub proof fn lemma_classified_once(reg: RegistryView, id: int, first: Safety, second: Safety)
    requires
        first != Safety::PendingAnalysis,
        0 <= id < reg.types.len(),
        reg.types[id].safety == Safety::PendingAnalysis,
    ensures
        reg.classified(id, first).classified(id, second) == reg.classified(id, first),
        reg.classified(id, first).types[id].safety == first,
{
}

/// Resolving names notes no alias.
pub proof fn lemma_resolved_all_uses(reg: RegistryView, names: Seq<Seq<char>>)
    ensures
        reg.resolved_all(names).uses == reg.uses,
    decreases names.len(),
{
    if names.len() > 0 {
        lemma_resolved_all_uses(reg, names.drop_last());
    }
}

/// After a list of names was resolved, the registry knows each of them, no
/// name twice, and has kept what it recorded about the names it knew before.
pub proof fn lemma_resolved_all(reg: RegistryView, names: Seq<Seq<char>>, n: Seq<char>)
    requires
        reg.wf(),
    ensures
        reg.resolved_all(names).wf(),
        reg.resolved_all(names).uses == reg.uses,
        reg.resolved_all(names).knows(n) == (reg.knows(n) || names.contains(n)),
        reg.knows(n) ==> reg.resolved_all(names).tag(n) == reg.tag(n),
        !reg.knows(n) ==> reg.resolved_all(names).tag(n) == Safety::PendingAnalysis,
    decreases names.len(),
{
    lemma_first_index(type_names(reg.types), n);
    if names.len() == 0 {
    } else {
        let front = names.drop_last();
        let mid = reg.resolved_all(front);
        lemma_resolved_all(reg, front, n);
        lemma_resolve_preserves(mid, names.last(), n);
        lemma_resolve_idempotent(mid, names.last());
        lemma_first_index(type_names(mid.types), n);
        assert(names.contains(n) == (front.contains(n) || names.last() == n)) by {
            if front.contains(n) {
                let k = choose|k: int| 0 <= k < front.len() && front[k] == n;
                assert(names[k] == n);
            }
            if names.last() == n {
                assert(names[names.len() - 1] == n);
            }
            if names.contains(n) {
                let k = choose|k: int| 0 <= k < names.len() && names[k] == n;
                if k < names.len() - 1 {
                    assert(front[k] == n);
                }
            }
        }
    }
}

impl View for TypeConverter {
    type V = RegistryView;

    closed spec fn view(&self) -> RegistryView {
        RegistryView {
            types: self.types@.map_values(|t: TypeReference| t@),
            uses: uses_view(self.uses@),
        }
    }
}

impl TypeConverter {
    /// The names that `scope` brought into scope, in the order it did.
    pub fn uses_in(&self, scope: &String) -> (r: Vec<String>)
        ensures
            crate::names::names_view(r@) == self@.uses_in(scope@),
    {
        let ghost all = self@.uses;
        let ghost test = |u: UseView| u.scope == scope@;
        let mut r: Vec<String> = Vec::new();
        let mut i: usize = 0;
        assert(all.take(0).filter(test) =~= Seq::<UseView>::empty()) by {
            reveal(Seq::filter);
        }
        assert(crate::names::names_view(r@) =~= all.take(0).filter(test).map_values(
            |u: UseView| u.name,
        ));
        while i < self.uses.len()
            invariant
                i <= self.uses.len(),
                all == self@.uses,
                test == (|u: UseView| u.scope == scope@),
                crate::names::names_view(r@) == all.take(i as int).filter(test).map_values(
                    |u: UseView| u.name,
                ),
            decreases self.uses.len() - i,
        {
            proof {
                reveal(Seq::filter);
                assert(all.take(i + 1).drop_last() =~= all.take(i as int));
                assert(all.take(i + 1).last() == self.uses@[i as int]@);
            }
            let ghost before = crate::names::names_view(r@);
            if same_name(&self.uses[i].scope, scope) {
                r.push(self.uses[i].name.clone());
                assert(crate::names::names_view(r@) =~= before.push(self.uses@[i as int]@.name));
                assert(crate::names::names_view(r@) =~= all.take(i + 1).filter(test).map_values(
                    |u: UseView| u.name,
                ));
            }
            i += 1;
        }
        assert(all.take(self.uses.len() as int) =~= all);
        r
    }

    /// An empty registry.
    pub fn new() -> (r: Self)
        ensures
            r@ == empty_registry(),
            r@.wf(),
    {
        let r = TypeConverter { types: Vec::new(), uses: Vec::new() };
        assert(r@.types =~= Seq::<TypeRefView>::empty());
        assert(r@.uses =~= Seq::<UseView>::empty());
        r
    }

    /// How many names are registered.
    pub fn len(&self) -> (n: usize)
        ensures
            n == self@.types.len(),
    {
        self.types.len()
    }

    /// The identity of `name`, if it is registered.
    pub fn lookup(&self, name: &String) -> (r: Option<usize>)
        ensures
            match r {
                Some(i) => self@.id_of(name@) == Some(i as int) && i < self@.types.len()
                    && self@.types[i as int].name == name@ && self@.knows(name@),
                None => self@.id_of(name@) == None::<int> && !self@.knows(name@),
            },
    {
        let ghost names = type_names(self@.types);
        let mut i: usize = 0;
        while i < self.types.len()
            invariant
                i <= self.types.len(),
                names == type_names(self@.types),
                forall|j: int| 0 <= j < i ==> names[j] != name@,
            decreases self.types.len() - i,
        {
            if same_name(&self.types[i].name, name) {
                proof {
                    lemma_first_index_unique(names, name@, i as int);
                    assert(names[i as int] == name@);
                }
                return Some(i);
            }
            i += 1;
        }
        proof {
            lemma_first_index(names, name@);
        }
        None
    }

    /// The identity of `name`. A name that is new to the registry is entered
    /// as undecided; one that is known keeps the identity it has.
    pub fn resolve(&mut self, name: &String) -> (id: usize)
        ensures
            final(self)@ == old(self)@.resolved(name@),
            id == old(self)@.resolved_id(name@),
            old(self)@.wf() ==> final(self)@.wf(),
    {
        proof {
            if self@.wf() {
                lemma_resolve_preserves(self@, name@, name@);
            }
        }
        match self.lookup(name) {
            Some(i) => i,
            None => {
                let id = self.types.len();
                self.types.push(TypeReference { name: name.clone(), safety: Safety::PendingAnalysis });
                assert(self@.types =~= old(self)@.resolved(name@).types);
                id
            },
        }
    }

    /// The identity of the type that the path `segments` stands for: the
    /// path is reduced to the name the type goes by, and that name resolved.
    pub fn resolve_path(&mut self, segments: &Vec<String>) -> (id: usize)
        ensures
            final(self)@ == old(self)@.resolved(
                crate::names::canonical_type_name(crate::names::names_view(segments@)),
            ),
            id == old(self)@.resolved_id(
                crate::names::canonical_type_name(crate::names::names_view(segments@)),
            ),
            old(self)@.wf() ==> final(self)@.wf(),
    {
        let name = crate::names::type_name_from_path(segments);
        self.resolve(&name)
    }

    /// Resolves every name of `names`, in order.
    pub fn resolve_all(&mut self, names: &Vec<String>)
        ensures
            final(self)@ == old(self)@.resolved_all(crate::names::names_view(names@)),
            old(self)@.wf() ==> final(self)@.wf(),
    {
        let ghost all = crate::names::names_view(names@);
        let mut i: usize = 0;
        assert(all.take(0) =~= Seq::<Seq<char>>::empty());
        while i < names.len()
            invariant
                i <= names.len(),
                all == crate::names::names_view(names@),
                self@ == old(self)@.resolved_all(all.take(i as int)),
                old(self)@.wf() ==> self@.wf(),
            decreases names.len() - i,
        {
            self.resolve(&names[i]);
            proof {
                assert(all.take(i + 1).drop_last() =~= all.take(i as int));
                assert(all.take(i + 1).last() == names@[i as int]@);
            }
            i += 1;
        }
        assert(all.take(names.len() as int) =~= all);
    }

    /// What is recorded about `name`.
    pub fn safety_of(&self, name: &String) -> (s: Safety)
        ensures
            s == self@.tag(name@),
    {
        match self.lookup(name) {
            Some(i) => self.types[i].safety,
            None => Safety::PendingAnalysis,
        }
    }

    /// Records a verdict for entry `id`. Says whether the entry took it: a
    /// verdict, once recorded, stays.
    pub fn classify(&mut self, id: usize, safety: Safety) -> (applied: bool)
        ensures
            applied == old(self)@.accepts(id as int, safety),
            final(self)@ == old(self)@.classified(id as int, safety),
            old(self)@.wf() ==> final(self)@.wf(),
    {
        if id >= self.types.len() {
            return false;
        }
        if self.types[id].safety != Safety::PendingAnalysis {
            return false;
        }
        if safety == Safety::PendingAnalysis {
            return false;
        }
        let name = self.types[id].name.clone();
        self.types.set(id, TypeReference { name, safety });
        assert(self@.types =~= old(self)@.classified(id as int, safety).types);
        assert(old(self)@.wf() ==> self@.wf()) by {
            if old(self)@.wf() {
                assert forall|i: int, j: int|
                    0 <= i < j < self@.types.len() implies self@.types[i].name
                    != self@.types[j].name by {
                    assert(old(self)@.types[i].name != old(self)@.types[j].name);
                }
            }
        }
        true
    }

    /// Notes that the namespace `scope` brought `name` into scope.
    pub fn note_use(&mut self, scope: &String, name: &String)
        ensures
            final(self)@.types == old(self)@.types,
            final(self)@.uses == old(self)@.uses.push(UseView { scope: scope@, name: name@ }),
            old(self)@.wf() ==> final(self)@.wf(),
    {
        self.uses.push(UseAlias { scope: scope.clone(), name: name.clone() });
        assert(self@.uses =~= old(self)@.uses.push(UseView { scope: scope@, name: name@ }));
    }

    /// Every alias noted so far, oldest first.
    pub fn uses(&self) -> (r: Vec<UseAlias>)
        ensures
            uses_view(r@) == self@.uses,
    {
        clone_uses(&self.uses)
    }

    /// The name registered under `id`.
    pub fn name_of(&self, id: usize) -> (r: Option<String>)
        ensures
            match r {
                Some(n) => id < self@.types.len() && n@ == self@.types[id as int].name,
                None => id >= self@.types.len(),
            },
    {
        if id < self.types.len() {
            Some(self.types[id].name.clone())
        } else {
            None
        }
    }
}

} // verus!
