//! Which types may be copied across the language boundary.
//!
//! An enum may. A typedef may if its target may. A record may if the user did
//! not say otherwise, if it declares no special member of its own, and if
//! every member's type may. A name that nothing declares may if it is that of
//! a primitive type. Nothing else may: the rule is the least one that
//! satisfies these sentences, so a record that contains itself, directly or
//! through others, may not.

use vstd::prelude::*;
use crate::bindings::RawItem;
use crate::bindings::items_view;
use crate::conversion::api::ConvertError;
use crate::conversion::api::ErrorView;
use crate::conversion::api::Declaration;
use crate::conversion::api::DeclView;
use crate::conversion::api::Shape;
use crate::conversion::api::ShapeView;
use crate::conversion::api::decls_view;
use crate::conversion::api::decl_names;
use crate::conversion::api::first_decl;
use crate::conversion::api::find_declaration;
use crate::conversion::parse::flat_decls;
use crate::conversion::parse::flatten;
use crate::conversion::parse::type_converter::UseAlias;
use crate::flags::count_unset;
use crate::flags::lemma_count_unset_update;
use crate::flags::unset_flags;
use crate::names::first_index;
use crate::names::lemma_first_index;
use crate::names::lemma_first_index_unique;
use crate::names::is_primitive_name;
use crate::names::is_primitive;
use crate::names::same_name;
use crate::search::first_such;
use crate::search::lemma_first_such_is;
use crate::search::lemma_first_such_none;
use crate::type_database::TypeDatabase;
use crate::type_database::DatabaseView;
use crate::conversion::api::Api;
use crate::conversion::api::ApiView;
use crate::conversion::api::Safety;
use crate::conversion::api::apis_view;
use crate::conversion::api::is_type_api;
use crate::conversion::api::find_api;
use crate::conversion::parse::type_converter::TypeConverter;
use crate::conversion::parse::type_converter::RegistryView;
use crate::conversion::parse::type_converter::TypeRefView;
use crate::conversion::parse::type_converter::type_names;
use crate::conversion::parse::apis_result_view;
use crate::names::names_view;

verus! {

/// Whether the type called `name` can be shown safe in at most `depth` steps
/// through the declarations.
pub open spec fn safe_within(
    decls: Seq<DeclView>,
    db: DatabaseView,
    name: Seq<char>,
    depth: nat,
) -> bool
    decreases depth, 1nat,
{
    match first_decl(decls, name) {
        Some(d) => decl_safe_within(decls, db, d, depth),
        None => is_primitive_name(name),
    }
}

/// Whether the declaration `d` can be shown safe in at most `depth` steps.
pub open spec fn decl_safe_within(
    decls: Seq<DeclView>,
    db: DatabaseView,
    d: DeclView,
    depth: nat,
) -> bool
    decreases depth, 0nat,
{
    depth > 0 && match d.shape {
        ShapeView::Record(r) => {
            &&& !db.asserts(d.name, false)
            &&& !r.special.any()
            &&& forall|m: int|
                0 <= m < r.members.len() ==> safe_within(
                    decls,
                    db,
                    (#[trigger] r.members[m]).ty.name,
                    (depth - 1) as nat,
                )
        },
        ShapeView::Enum(_) => true,
        ShapeView::Typedef(t) => safe_within(decls, db, t.target.name, (depth - 1) as nat),
        _ => false,
    }
}

/// Whether the type called `name` may be passed by value.
pub open spec fn by_value_safe(decls: Seq<DeclView>, db: DatabaseView, name: Seq<char>) -> bool {
    exists|depth: nat| safe_within(decls, db, name, depth)
}

/// Whether the type that `d` declares may be passed by value.
pub open spec fn decl_safe(decls: Seq<DeclView>, db: DatabaseView, d: DeclView) -> bool {
    exists|depth: nat| decl_safe_within(decls, db, d, depth)
}

/// What can be shown in some number of steps can be shown in any larger number.
pub proof fn lemma_safe_monotone(
    decls: Seq<DeclView>,
    db: DatabaseView,
    name: Seq<char>,
    a: nat,
    b: nat,
)
    requires
        a <= b,
        safe_within(decls, db, name, a),
    ensures
        safe_within(decls, db, name, b),
    decreases a, 1nat,
{
    if first_decl(decls, name) is Some {
        lemma_decl_safe_monotone(decls, db, first_decl(decls, name).unwrap(), a, b);
    }
}

/// What can be shown in some number of steps can be shown in any larger number.
pub proof fn lemma_decl_safe_monotone(
    decls: Seq<DeclView>,
    db: DatabaseView,
    d: DeclView,
    a: nat,
    b: nat,
)
    requires
        a <= b,
        decl_safe_within(decls, db, d, a),
    ensures
        decl_safe_within(decls, db, d, b),
    decreases a, 0nat,
{
    match d.shape {
        ShapeView::Record(r) => {
            assert forall|m: int| 0 <= m < r.members.len() implies safe_within(
                decls,
                db,
                (#[trigger] r.members[m]).ty.name,
                (b - 1) as nat,
            ) by {
                lemma_safe_monotone(decls, db, r.members[m].ty.name, (a - 1) as nat, (b - 1) as nat);
            }
        },
        ShapeView::Typedef(t) => {
            lemma_safe_monotone(decls, db, t.target.name, (a - 1) as nat, (b - 1) as nat);
        },
        _ => {},
    }
}

/// Safety monotonicity: a record that may be passed by value has only members
/// whose types may be, declares no special member, and was not declared unsafe
/// by the user. With one member that needs indirection, so does the record.
pub proof fn lemma_safe_record_has_safe_members(
    decls: Seq<DeclView>,
    db: DatabaseView,
    d: DeclView,
    m: int,
)
    requires
        d.shape is Record,
        decl_safe(decls, db, d),
        0 <= m < d.shape->Record_0.members.len(),
    ensures
        by_value_safe(decls, db, d.shape->Record_0.members[m].ty.name),
        !d.shape->Record_0.special.any(),
        !db.asserts(d.name, false),
{
    let depth = choose|depth: nat| decl_safe_within(decls, db, d, depth);
    let r = d.shape->Record_0;
    assert(safe_within(decls, db, r.members[m].ty.name, (depth - 1) as nat));
}

/// A type's safety is that of the declaration that introduces it.
pub proof fn lemma_by_value_safe_unfold(decls: Seq<DeclView>, db: DatabaseView, name: Seq<char>)
    ensures
        by_value_safe(decls, db, name) == match first_decl(decls, name) {
            Some(d) => decl_safe(decls, db, d),
            None => is_primitive_name(name),
        },
{
    if by_value_safe(decls, db, name) {
        let depth = choose|depth: nat| safe_within(decls, db, name, depth);
        if first_decl(decls, name) is Some {
            assert(decl_safe_within(decls, db, first_decl(decls, name).unwrap(), depth));
        }
    }
    match first_decl(decls, name) {
        Some(d) => {
            if decl_safe(decls, db, d) {
                let depth = choose|depth: nat| decl_safe_within(decls, db, d, depth);
                assert(safe_within(decls, db, name, depth));
            }
        },
        None => {
            if is_primitive_name(name) {
                assert(safe_within(decls, db, name, 0));
            }
        },
    }
}

/// Whether `name` counts as safe by what `status` has so far.
pub open spec fn known_safe(decls: Seq<DeclView>, status: Seq<bool>, name: Seq<char>) -> bool {
    match first_index(decl_names(decls), name) {
        Some(f) => status[f],
        None => is_primitive_name(name),
    }
}

/// Whether declaration `i` is safe given what `status` has so far.
pub open spec fn markable(
    decls: Seq<DeclView>,
    db: DatabaseView,
    status: Seq<bool>,
    i: int,
) -> bool {
    match decls[i].shape {
        ShapeView::Record(r) => {
            &&& !db.asserts(decls[i].name, false)
            &&& !r.special.any()
            &&& forall|m: int|
                0 <= m < r.members.len() ==> known_safe(
                    decls,
                    status,
                    (#[trigger] r.members[m]).ty.name,
                )
        },
        ShapeView::Enum(_) => true,
        ShapeView::Typedef(t) => known_safe(decls, status, t.target.name),
        _ => false,
    }
}

/// Every declaration that `status` has as safe can be shown safe in `rounds` steps.
pub open spec fn sound(
    decls: Seq<DeclView>,
    db: DatabaseView,
    status: Seq<bool>,
    rounds: nat,
) -> bool {
    &&& status.len() == decls.len()
    &&& forall|k: int|
        0 <= k < decls.len() && #[trigger] status[k] ==> decl_safe_within(
            decls,
            db,
            decls[k],
            rounds,
        )
}

/// Nothing more can be marked.
pub open spec fn stable(decls: Seq<DeclView>, db: DatabaseView, status: Seq<bool>) -> bool {
    &&& status.len() == decls.len()
    &&& forall|k: int| 0 <= k < decls.len() && markable(decls, db, status, k) ==> #[trigger] status[k]
}

proof fn lemma_known_safe_sound(
    decls: Seq<DeclView>,
    db: DatabaseView,
    status: Seq<bool>,
    rounds: nat,
    name: Seq<char>,
)
    requires
        sound(decls, db, status, rounds),
        known_safe(decls, status, name),
    ensures
        safe_within(decls, db, name, rounds),
{
    lemma_first_index(decl_names(decls), name);
}

proof fn lemma_mark_sound(
    decls: Seq<DeclView>,
    db: DatabaseView,
    status: Seq<bool>,
    rounds: nat,
    i: int,
)
    requires
        sound(decls, db, status, rounds),
        0 <= i < decls.len(),
        markable(decls, db, status, i),
    ensures
        sound(decls, db, status.update(i, true), rounds + 1),
{
    match decls[i].shape {
        ShapeView::Record(r) => {
            assert forall|m: int| 0 <= m < r.members.len() implies safe_within(
                decls,
                db,
                (#[trigger] r.members[m]).ty.name,
                rounds,
            ) by {
                lemma_known_safe_sound(decls, db, status, rounds, r.members[m].ty.name);
            }
        },
        ShapeView::Typedef(t) => {
            lemma_known_safe_sound(decls, db, status, rounds, t.target.name);
        },
        _ => {},
    }
    assert(decl_safe_within(decls, db, decls[i], rounds + 1));
    let after = status.update(i, true);
    assert forall|k: int| 0 <= k < decls.len() && #[trigger] after[k] implies decl_safe_within(
        decls,
        db,
        decls[k],
        rounds + 1,
    ) by {
        if k != i {
            assert(status[k]);
            lemma_decl_safe_monotone(decls, db, decls[k], rounds, rounds + 1);
        }
    }
}

proof fn lemma_stable_complete(
    decls: Seq<DeclView>,
    db: DatabaseView,
    status: Seq<bool>,
    depth: nat,
)
    requires
        stable(decls, db, status),
    ensures
        forall|k: int|
            0 <= k < decls.len() && decl_safe_within(decls, db, #[trigger] decls[k], depth)
                ==> status[k],
    decreases depth,
{
    if depth > 0 {
        lemma_stable_complete(decls, db, status, (depth - 1) as nat);
        assert forall|k: int|
            0 <= k < decls.len() && decl_safe_within(
                decls,
                db,
                #[trigger] decls[k],
                depth,
            ) implies status[k] by {
            match decls[k].shape {
                ShapeView::Record(r) => {
                    assert forall|m: int| 0 <= m < r.members.len() implies known_safe(
                        decls,
                        status,
                        (#[trigger] r.members[m]).ty.name,
                    ) by {
                        let name = r.members[m].ty.name;
                        assert(safe_within(decls, db, name, (depth - 1) as nat));
                        lemma_first_index(decl_names(decls), name);
                    }
                },
                ShapeView::Typedef(t) => {
                    lemma_first_index(decl_names(decls), t.target.name);
                },
                _ => {},
            }
            assert(markable(decls, db, status, k));
        }
    }
}

fn is_known_safe(decls: &Vec<Declaration>, status: &Vec<bool>, name: &String) -> (r: bool)
    requires
        status@.len() == decls@.len(),
    ensures
        r == known_safe(decls_view(decls@), status@, name@),
{
    match find_declaration(decls, name) {
        Some(f) => status[f],
        None => is_primitive(name),
    }
}

fn can_mark(decls: &Vec<Declaration>, db: &TypeDatabase, status: &Vec<bool>, i: usize) -> (r: bool)
    requires
        status@.len() == decls@.len(),
        i < decls@.len(),
    ensures
        r == markable(decls_view(decls@), db@, status@, i as int),
{
    let ghost dv = decls_view(decls@);
    let decl = &decls[i];
    assert(dv[i as int] == decl@);
    match &decl.shape {
        Shape::Record(rec) => {
            if db.asserts(&decl.name, false) || rec.special.has_any() {
                return false;
            }
            let ghost r = rec@;
            let mut m: usize = 0;
            while m < rec.members.len()
                invariant
                    m <= rec.members.len(),
                    status@.len() == decls@.len(),
                    dv == decls_view(decls@),
                    r == rec@,
                    i < dv.len(),
                    dv[i as int].shape == ShapeView::Record(r),
                    forall|x: int|
                        0 <= x < m ==> known_safe(dv, status@, (#[trigger] r.members[x]).ty.name),
                decreases rec.members.len() - m,
            {
                if !is_known_safe(decls, status, &rec.members[m].ty.name) {
                    assert(r.members[m as int].ty.name == rec.members@[m as int].ty.name@);
                    return false;
                }
                assert(r.members[m as int].ty.name == rec.members@[m as int].ty.name@);
                m += 1;
            }
            true
        },
        Shape::Enum(_) => true,
        Shape::Typedef(t) => is_known_safe(decls, status, &t.target.name),
        _ => false,
    }
}

/// Decides for every declaration whether the type it declares may be passed
/// by value: the answer for declaration `k` is at position `k`.
pub fn classify_declarations(decls: &Vec<Declaration>, db: &TypeDatabase) -> (status: Vec<bool>)
    ensures
        status@.len() == decls@.len(),
        forall|k: int|
            0 <= k < decls@.len() ==> #[trigger] status@[k] == decl_safe(
                decls_view(decls@),
                db@,
                decls_view(decls@)[k],
            ),
{
    let ghost dv = decls_view(decls@);
    let n = decls.len();
    let mut status = unset_flags(n);
    let ghost mut rounds: nat = 0;
    let mut changed = true;
    while changed
        invariant
            n == decls@.len(),
            dv == decls_view(decls@),
            sound(dv, db@, status@, rounds),
            !changed ==> stable(dv, db@, status@),
        decreases
                count_unset(status@) + if changed {
                    1nat
                } else {
                    0nat
                },
    {
        changed = false;
        let ghost start = status@;
        let mut i: usize = 0;
        while i < n
            invariant
                i <= n,
                n == decls@.len(),
                dv == decls_view(decls@),
                sound(dv, db@, status@, rounds),
                start.len() == n,
                !changed ==> status@ == start && forall|k: int|
                    0 <= k < i && markable(dv, db@, status@, k) ==> #[trigger] status@[k],
                changed ==> count_unset(status@) < count_unset(start),
            decreases n - i,
        {
            if !status[i] && can_mark(decls, db, &status, i) {
                proof {
                    lemma_mark_sound(dv, db@, status@, rounds, i as int);
                    lemma_count_unset_update(status@, i as int);
                    rounds = rounds + 1;
                }
                status.set(i, true);
                changed = true;
            }
            i += 1;
        }
    }
    proof {
        assert forall|k: int| 0 <= k < decls@.len() implies #[trigger] status@[k] == decl_safe(
            dv,
            db@,
            dv[k],
        ) by {
            if decl_safe(dv, db@, dv[k]) {
                let depth = choose|depth: nat| decl_safe_within(dv, db@, dv[k], depth);
                lemma_stable_complete(dv, db@, status@, depth);
            }
        }
    }
    status
}

/// What was decided about the type that one declaration introduces.
#[derive(Debug, PartialEq, Eq)]
pub struct Verdict {
    pub name: String,
    pub safe: bool,
}

/// What a [`Verdict`] stands for in contracts.
pub struct VerdictView {
    pub name: Seq<char>,
    pub safe: bool,
}

impl View for Verdict {
    type V = VerdictView;

    open spec fn view(&self) -> VerdictView {
        VerdictView { name: self.name@, safe: self.safe }
    }
}

/// The outcome of the value-safety analysis: one verdict for each
/// declaration, in the order of the declarations.
#[derive(Debug, PartialEq, Eq)]
pub struct ByValueChecker {
    pub verdicts: Vec<Verdict>,
}

/// What a [`ByValueChecker`] stands for in contracts.
pub struct CheckerView {
    pub verdicts: Seq<VerdictView>,
}

impl View for ByValueChecker {
    type V = CheckerView;

    open spec fn view(&self) -> CheckerView {
        CheckerView { verdicts: self.verdicts@.map_values(|v: Verdict| v@) }
    }
}

/// The names that the verdicts of a list are about, in order.
pub open spec fn verdict_names(verdicts: Seq<VerdictView>) -> Seq<Seq<char>> {
    verdicts.map_values(|v: VerdictView| v.name)
}

impl CheckerView {
    /// Whether the type called `name` may be passed by value: a declared
    /// one goes by the first verdict under its name, and one that is not
    /// declared may if it is primitive.
    pub open spec fn safe(self, name: Seq<char>) -> bool {
        match first_index(verdict_names(self.verdicts), name) {
            Some(i) => self.verdicts[i].safe,
            None => is_primitive_name(name),
        }
    }

    /// The final classification of the type called `name`.
    pub open spec fn verdict(self, name: Seq<char>) -> Safety {
        if self.safe(name) {
            Safety::ByValueSafe
        } else {
            Safety::RequiresIndirection
        }
    }
}

impl ByValueChecker {
    /// Whether the type called `name` may be passed by value.
    pub fn is_safe(&self, name: &String) -> (r: bool)
        ensures
            r == self@.safe(name@),
    {
        let ghost names = verdict_names(self@.verdicts);
        let mut i: usize = 0;
        while i < self.verdicts.len()
            invariant
                i <= self.verdicts.len(),
                names == verdict_names(self@.verdicts),
                forall|j: int| 0 <= j < i ==> names[j] != name@,
            decreases self.verdicts.len() - i,
        {
            if same_name(&self.verdicts[i].name, name) {
                proof {
                    lemma_first_index_unique(names, name@, i as int);
                    assert(self@.verdicts[i as int] == self.verdicts@[i as int]@);
                }
                return self.verdicts[i].safe;
            }
            i += 1;
        }
        proof {
            lemma_first_index(names, name@);
        }
        is_primitive(name)
    }

    /// The final classification of the type called `name`.
    pub fn verdict(&self, name: &String) -> (r: Safety)
        ensures
            r == self@.verdict(name@),
    {
        if self.is_safe(name) {
            Safety::ByValueSafe
        } else {
            Safety::RequiresIndirection
        }
    }
}

/// The verdicts that a list of declarations calls for.
pub open spec fn verdicts_of(decls: Seq<DeclView>, db: DatabaseView) -> Seq<VerdictView> {
    Seq::new(
        decls.len(),
        |i: int| VerdictView { name: decls[i].name, safe: decl_safe(decls, db, decls[i]) },
    )
}

/// Declaration `i` introduces a type that the user declared safe and that
/// cannot be passed by value.
pub open spec fn contradicted(decls: Seq<DeclView>, db: DatabaseView, i: int) -> bool {
    &&& decls[i].shape.is_type()
    &&& db.asserts(decls[i].name, true)
    &&& !decl_safe(decls, db, decls[i])
}

/// The test for a declaration whose type the user wrongly declared safe.
pub open spec fn contradiction_test(decls: Seq<DeclView>, db: DatabaseView) -> spec_fn(int) -> bool {
    |i: int| contradicted(decls, db, i)
}

/// What the analysis of `decls` under `db` yields: the verdicts, or the first
/// declaration whose type the user wrongly declared safe.
pub open spec fn identified(decls: Seq<DeclView>, db: DatabaseView) -> Result<CheckerView, ErrorView> {
    match first_such(decls.len() as int, contradiction_test(decls, db)) {
        Some(i) => Err(ErrorView::SafetyAssertionConflict { name: decls[i].name }),
        None => Ok(CheckerView { verdicts: verdicts_of(decls, db) }),
    }
}

/// The outcome of the analysis, as contracts see it.
pub open spec fn checker_result_view(r: Result<ByValueChecker, ConvertError>) -> Result<
    CheckerView,
    ErrorView,
> {
    match r {
        Ok(c) => Ok(c@),
        Err(e) => Err(e@),
    }
}

/// The verdicts of an analysis answer for every name as the rule does.
pub proof fn lemma_checker_agrees(decls: Seq<DeclView>, db: DatabaseView, name: Seq<char>)
    ensures
        (CheckerView { verdicts: verdicts_of(decls, db) }).safe(name) == by_value_safe(
            decls,
            db,
            name,
        ),
{
    lemma_by_value_safe_unfold(decls, db, name);
    assert(verdict_names(verdicts_of(decls, db)) =~= decl_names(decls));
    lemma_first_index(decl_names(decls), name);
}

/// Holds the user's claims against the outcome of the analysis.
fn check_assertions(decls: &Vec<Declaration>, db: &TypeDatabase, status: &Vec<bool>) -> (r: Result<
    ByValueChecker,
    ConvertError,
>)
    requires
        status@.len() == decls@.len(),
        forall|k: int|
            0 <= k < decls@.len() ==> #[trigger] status@[k] == decl_safe(
                decls_view(decls@),
                db@,
                decls_view(decls@)[k],
            ),
    ensures
        checker_result_view(r) == identified(decls_view(decls@), db@),
{
    let ghost dv = decls_view(decls@);
    let ghost test = contradiction_test(dv, db@);
    let mut verdicts: Vec<Verdict> = Vec::new();
    let mut i: usize = 0;
    while i < decls.len()
        invariant
            i <= decls.len(),
            dv == decls_view(decls@),
            test == contradiction_test(dv, db@),
            status@.len() == decls@.len(),
            forall|k: int|
                0 <= k < decls@.len() ==> #[trigger] status@[k] == decl_safe(dv, db@, dv[k]),
            forall|k: int| 0 <= k < i ==> !(#[trigger] test(k)),
            verdicts@.len() == i,
            forall|k: int|
                0 <= k < i ==> (#[trigger] verdicts@[k])@ == (VerdictView {
                    name: dv[k].name,
                    safe: decl_safe(dv, db@, dv[k]),
                }),
        decreases decls.len() - i,
    {
        let decl = &decls[i];
        assert(dv[i as int] == decl@);
        let safe = status[i];
        if !safe && decl.shape.is_type() && db.asserts(&decl.name, true) {
            proof {
                assert(test(i as int));
                lemma_first_such_is(dv.len() as int, test, i as int);
            }
            return Err(ConvertError::SafetyAssertionConflict { name: decl.name.clone() });
        }
        assert(!test(i as int));
        verdicts.push(Verdict { name: decl.name.clone(), safe });
        i += 1;
    }
    proof {
        lemma_first_such_none(dv.len() as int, test);
    }
    let checker = ByValueChecker { verdicts };
    assert(checker@.verdicts =~= verdicts_of(dv, db@));
    Ok(checker)
}

/// Decides which declared types may be passed by value, and holds the user's
/// claims against the outcome: a type that the user declared safe and that
/// cannot be passed by value ends the conversion.
pub fn identify_byvalue_safe_types(
    items: &Vec<RawItem>,
    type_database: &TypeDatabase,
    exclude_utilities: bool,
) -> (r: Result<ByValueChecker, ConvertError>)
    ensures
        checker_result_view(r) == identified(
            flat_decls(items_view(items@), Seq::empty(), exclude_utilities),
            type_database@,
        ),
{
    let mut decls: Vec<Declaration> = Vec::new();
    let mut uses: Vec<UseAlias> = Vec::new();
    let root = String::new();
    flatten(items, &root, exclude_utilities, &mut decls, &mut uses);
    assert(decls_view(decls@) =~= flat_decls(
        items_view(items@),
        Seq::empty(),
        exclude_utilities,
    ));
    let status = classify_declarations(&decls, type_database);
    check_assertions(&decls, type_database, &status)
}

/// An API after the analysis: a type that was undecided carries its verdict.
pub open spec fn analysed_api(a: ApiView, c: CheckerView) -> ApiView {
    if a.shape.is_type() && a.safety == Safety::PendingAnalysis {
        ApiView { safety: c.verdict(a.name), ..a }
    } else {
        a
    }
}

/// The model after the analysis.
pub open spec fn pod_analysed(model: Seq<ApiView>, c: CheckerView) -> Seq<ApiView> {
    model.map_values(|a: ApiView| analysed_api(a, c))
}

/// A registry entry after the analysis: an undecided entry that names a
/// primitive or a declared type carries its verdict. An entry that names
/// nothing known stays undecided.
pub open spec fn tagged_entry(t: TypeRefView, model: Seq<ApiView>, c: CheckerView) -> TypeRefView {
    if t.safety == Safety::PendingAnalysis && (is_primitive_name(t.name) || is_type_api(
        model,
        t.name,
    )) {
        TypeRefView { safety: c.verdict(t.name), ..t }
    } else {
        t
    }
}

/// The registry after the analysis.
pub open spec fn registry_after_pod(
    reg: RegistryView,
    model: Seq<ApiView>,
    c: CheckerView,
) -> RegistryView {
    RegistryView { types: reg.types.map_values(|t: TypeRefView| tagged_entry(t, model, c)), ..reg }
}

/// Verdicts stay: an API that has a verdict keeps it through any later
/// analysis, and so does a registry entry, so that a model that was
/// analysed is left as it is by analysing it again.
pub proof fn lemma_verdicts_stay(
    model: Seq<ApiView>,
    reg: RegistryView,
    c: CheckerView,
    later: CheckerView,
)
    ensures
        forall|i: int|
            0 <= i < model.len() && (#[trigger] model[i]).safety != Safety::PendingAnalysis
                ==> pod_analysed(model, later)[i] == model[i],
        forall|i: int|
            0 <= i < reg.types.len() && (#[trigger] reg.types[i]).safety
                != Safety::PendingAnalysis ==> registry_after_pod(reg, model, later).types[i]
                == reg.types[i],
        pod_analysed(pod_analysed(model, c), later) == pod_analysed(model, c),
{
    assert(pod_analysed(pod_analysed(model, c), later) =~= pod_analysed(model, c));
}

fn names_type(apis: &Vec<Api>, name: &String) -> (r: bool)
    ensures
        r == is_type_api(apis_view(apis@), name@),
{
    match find_api(apis, name) {
        Some(k) => {
            assert(apis_view(apis@)[k as int] == apis@[k as int]@);
            apis[k].shape.is_type()
        },
        None => false,
    }
}

fn tag_registry(apis: &Vec<Api>, checker: &ByValueChecker, type_converter: &mut TypeConverter)
    ensures
        final(type_converter)@ == registry_after_pod(
            old(type_converter)@,
            apis_view(apis@),
            checker@,
        ),
{
    let ghost model = apis_view(apis@);
    let ghost before = old(type_converter)@;
    let n = type_converter.len();
    let mut id: usize = 0;
    while id < n
        invariant
            id <= n,
            n == before.types.len(),
            model == apis_view(apis@),
            type_converter@.uses == before.uses,
            type_converter@.types.len() == n,
            forall|k: int|
                0 <= k < id ==> #[trigger] type_converter@.types[k] == tagged_entry(
                    before.types[k],
                    model,
                    checker@,
                ),
            forall|k: int| id <= k < n ==> #[trigger] type_converter@.types[k] == before.types[k],
        decreases n - id,
    {
        match type_converter.name_of(id) {
            Some(name) => {
                if is_primitive(&name) || names_type(apis, &name) {
                    let verdict = checker.verdict(&name);
                    type_converter.classify(id, verdict);
                }
            },
            None => {},
        }
        id += 1;
    }
    assert(type_converter@.types =~= registry_after_pod(before, model, checker@).types);
}

/// The test for a name that the registry has no verdict on.
pub open spec fn unresolved_name_test(reg: RegistryView, names: Seq<Seq<char>>) -> spec_fn(
    int,
) -> bool {
    |m: int| reg.tag(names[m]) == Safety::PendingAnalysis
}

/// An API held against the registry: a record, enum, typedef or constant
/// that mentions a type without a verdict fails, naming the first such
/// type. Functions are looked at when they are planned.
pub open spec fn checked_api(a: ApiView, reg: RegistryView) -> Result<ApiView, ErrorView> {
    if a.shape is Function {
        Ok(a)
    } else {
        let names = a.shape.mentions();
        match first_such(names.len() as int, unresolved_name_test(reg, names)) {
            Some(m) => Err(ErrorView::UnknownType { declaration: a.name, ty_name: names[m] }),
            None => Ok(a),
        }
    }
}

/// The test for an API of `model` that mentions a type without a verdict.
pub open spec fn unknown_test(model: Seq<ApiView>, reg: RegistryView) -> spec_fn(int) -> bool {
    |i: int| checked_api(model[i], reg) is Err
}

/// The model held against the registry: the model itself, or the failure of
/// the first API that mentions a type without a verdict.
pub open spec fn pod_checked(model: Seq<ApiView>, reg: RegistryView) -> Result<
    Seq<ApiView>,
    ErrorView,
> {
    match first_such(model.len() as int, unknown_test(model, reg)) {
        Some(i) => Err(checked_api(model[i], reg)->Err_0),
        None => Ok(model),
    }
}

/// What is recorded about a name after the analysis: the verdict, where the
/// name was registered without one and is that of a primitive or of a
/// declared type; else what was recorded before.
pub proof fn lemma_tag_after_pod(
    reg: RegistryView,
    model: Seq<ApiView>,
    c: CheckerView,
    n: Seq<char>,
)
    ensures
        registry_after_pod(reg, model, c).tag(n) == if reg.knows(n) && reg.tag(n)
            == Safety::PendingAnalysis && (is_primitive_name(n) || is_type_api(model, n)) {
            c.verdict(n)
        } else {
            reg.tag(n)
        },
        registry_after_pod(reg, model, c).knows(n) == reg.knows(n),
{
    let after = registry_after_pod(reg, model, c);
    assert(type_names(after.types) =~= type_names(reg.types));
    lemma_first_index(type_names(reg.types), n);
}

/// The first name of `names` that the registry has no verdict on.
fn first_unresolved_name(tc: &TypeConverter, names: &Vec<String>) -> (r: Option<usize>)
    ensures
        match r {
            Some(m) => first_such(
                names@.len() as int,
                unresolved_name_test(tc@, names_view(names@)),
            ) == Some(m as int) && m < names@.len(),
            None => first_such(names@.len() as int, unresolved_name_test(tc@, names_view(names@)))
                == None::<int>,
        },
{
    let ghost all = names_view(names@);
    let ghost test = unresolved_name_test(tc@, all);
    let mut m: usize = 0;
    while m < names.len()
        invariant
            m <= names.len(),
            all == names_view(names@),
            test == unresolved_name_test(tc@, all),
            forall|k: int| 0 <= k < m ==> !(#[trigger] test(k)),
        decreases names.len() - m,
    {
        assert(all[m as int] == names@[m as int]@);
        if tc.safety_of(&names[m]) == Safety::PendingAnalysis {
            proof {
                assert(test(m as int));
                lemma_first_such_is(all.len() as int, test, m as int);
            }
            return Some(m);
        }
        assert(!test(m as int));
        m += 1;
    }
    proof {
        lemma_first_such_none(all.len() as int, test);
    }
    None
}

/// Holds every API but the functions against the registry.
fn check_mentions(apis: &Vec<Api>, tc: &TypeConverter) -> (r: Option<ConvertError>)
    ensures
        match r {
            Some(e) => pod_checked(apis_view(apis@), tc@) == Err::<Seq<ApiView>, ErrorView>(e@),
            None => pod_checked(apis_view(apis@), tc@) == Ok::<Seq<ApiView>, ErrorView>(
                apis_view(apis@),
            ),
        },
{
    let ghost model = apis_view(apis@);
    let ghost test = unknown_test(model, tc@);
    let mut i: usize = 0;
    while i < apis.len()
        invariant
            i <= apis.len(),
            model == apis_view(apis@),
            test == unknown_test(model, tc@),
            forall|k: int| 0 <= k < i ==> !(#[trigger] test(k)),
        decreases apis.len() - i,
    {
        let api = &apis[i];
        assert(model[i as int] == api@);
        let is_function = match &api.shape {
            Shape::Function(_) => true,
            _ => false,
        };
        if !is_function {
            let names = api.shape.mentions();
            match first_unresolved_name(tc, &names) {
                Some(m) => {
                    proof {
                        assert(test(i as int));
                        lemma_first_such_is(model.len() as int, test, i as int);
                        assert(names_view(names@)[m as int] == names@[m as int]@);
                    }
                    return Some(
                        ConvertError::UnknownType {
                            declaration: api.name.clone(),
                            ty_name: names[m].clone(),
                        },
                    );
                },
                None => {},
            }
        }
        assert(!test(i as int));
        i += 1;
    }
    proof {
        lemma_first_such_none(model.len() as int, test);
    }
    None
}

/// Writes the verdicts of the analysis into the model and the registry. Every
/// declared type that was undecided becomes safe or in need of indirection,
/// and so does every registry entry that names a primitive or a declared
/// type. What was decided before stays as it is. A record, enum, typedef or
/// constant that mentions a type which is then still without a verdict, a
/// type that is neither primitive nor declared, ends the conversion; the
/// verdicts stay in the registry.
pub fn analyze_pod_apis(
    apis: Vec<Api>,
    checker: &ByValueChecker,
    type_converter: &mut TypeConverter,
) -> (r: Result<Vec<Api>, ConvertError>)
    ensures
        apis_result_view(r) == pod_checked(
            pod_analysed(apis_view(apis@), checker@),
            registry_after_pod(old(type_converter)@, apis_view(apis@), checker@),
        ),
        final(type_converter)@ == registry_after_pod(
            old(type_converter)@,
            apis_view(apis@),
            checker@,
        ),
{
    tag_registry(&apis, checker, type_converter);
    let ghost model = apis_view(apis@);
    let mut work = apis;
    let n = work.len();
    let mut i: usize = 0;
    while i < n
        invariant
            i <= n,
            n == work@.len(),
            model.len() == n,
            forall|k: int|
                0 <= k < i ==> (#[trigger] work@[k])@ == analysed_api(model[k], checker@),
            forall|k: int| i <= k < n ==> (#[trigger] work@[k])@ == model[k],
        decreases n - i,
    {
        if work[i].shape.is_type() && work[i].safety == Safety::PendingAnalysis {
            let verdict = checker.verdict(&work[i].name);
            work[i].safety = verdict;
        }
        i += 1;
    }
    assert(apis_view(work@) =~= pod_analysed(model, checker@));
    match check_mentions(&work, type_converter) {
        Some(e) => Err(e),
        None => Ok(work),
    }
}

} // verus!
