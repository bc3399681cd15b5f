//! What holds of every conversion: statements about the pipeline as a whole,
//! each proved from the contracts of its stages.

use vstd::prelude::*;
use crate::UnsafePolicy;
use crate::bindings::FunctionRole;
use crate::bindings::FunctionView;
use crate::bindings::Passing;
use crate::bindings::TypeView;
use crate::conversion::analysis::fun::crossing_of;
use crate::conversion::analysis::fun::lemma_plan_needs_verdicts;
use crate::conversion::analysis::fun::needs_wrapper;
use crate::conversion::analysis::fun::planned;
use crate::conversion::analysis::fun::signature_types;
use crate::conversion::analysis::gc::depends_on;
use crate::conversion::analysis::gc::lemma_pruned_keeps;
use crate::conversion::analysis::gc::lemma_unsatisfiable_root_fails;
use crate::conversion::analysis::gc::lemma_reaches_last_step;
use crate::conversion::analysis::gc::broken;
use crate::conversion::analysis::gc::unsatisfiable_test;
use crate::conversion::analysis::fun::has_pointer;
use crate::conversion::analysis::fun::unresolved_test;
use crate::conversion::analysis::pod::contradicted;
use crate::conversion::analysis::pod::contradiction_test;
use crate::conversion::parse::conflicts_at;
use crate::conversion::parse::conflict_test;
use crate::search::lemma_first_such_none;
use crate::search::lemma_first_such_is;
use crate::conversion::analysis::gc::lemma_pruned_roots_satisfiable;
use crate::conversion::analysis::gc::lemma_reaches_self;
use crate::conversion::analysis::gc::lemma_reaches_step;
use crate::conversion::analysis::gc::reaches;
use crate::conversion::analysis::gc::unsatisfiable;
use crate::conversion::analysis::gc::usable;
use crate::conversion::analysis::pod::checked_api;
use crate::conversion::analysis::pod::lemma_tag_after_pod;
use crate::conversion::analysis::pod::safe_within;
use crate::conversion::analysis::pod::unknown_test;
use crate::conversion::analysis::pod::unresolved_name_test;
use crate::conversion::api::Crossing;
use crate::conversion::api::Materialization;
use crate::conversion::api::ShapeView;
use crate::conversion::api::SlotView;
use crate::conversion::api::is_type_api;
use crate::conversion::api::param_slots;
use crate::conversion::api::ret_slot;
use crate::conversion::api::wrapper_name;
use crate::conversion::codegen_cpp::CppItemView;
use crate::conversion::codegen_cpp::lemma_cpp_items_contains;
use crate::conversion::codegen_rs::RsItemView;
use crate::conversion::parse::all_registrations;
use crate::conversion::parse::api_registrations;
use crate::conversion::parse::type_converter::RegistryView;
use crate::conversion::parse::type_converter::lemma_resolved_all;
use crate::bindings::GroupingView;
use crate::bindings::RawGrouping;
use crate::type_database::TypeDatabase;
use crate::bindings::ItemView;
use crate::conversion::CodegenResults;
use crate::conversion::analysed;
use crate::conversion::codegen_result_view;
use crate::conversion::converted;
use crate::conversion::final_model;
use crate::conversion::items_in_root;
use crate::conversion::analysis::ctypes::all_deps;
use crate::conversion::analysis::ctypes::ctype_api;
use crate::conversion::analysis::ctypes::ctypes_appended;
use crate::conversion::analysis::ctypes::lemma_with_ctypes_names;
use crate::conversion::analysis::ctypes::lemma_with_ctypes_shape;
use crate::conversion::analysis::fun::analysed_function;
use crate::conversion::analysis::fun::failure_test;
use crate::conversion::analysis::fun::functions_analysed;
use crate::conversion::analysis::gc::lemma_pruned_closed;
use crate::conversion::analysis::gc::lemma_pruned_distinct;
use crate::conversion::analysis::ctypes::lemma_with_ctypes_distinct;
use crate::conversion::analysis::gc::lemma_pruned_reachable;
use crate::conversion::analysis::gc::lemma_roots_present;
use crate::conversion::analysis::gc::pruned;
use crate::conversion::analysis::gc::retained;
use crate::conversion::analysis::pod::analysed_api;
use crate::conversion::analysis::pod::by_value_safe;
use crate::conversion::analysis::pod::decl_safe_within;
use crate::conversion::analysis::pod::decl_safe;
use crate::conversion::analysis::pod::identified;
use crate::conversion::analysis::pod::lemma_by_value_safe_unfold;
use crate::conversion::analysis::pod::lemma_checker_agrees;
use crate::conversion::analysis::pod::lemma_safe_record_has_safe_members;
use crate::conversion::analysis::pod::pod_analysed;
use crate::conversion::analysis::pod::pod_checked;
use crate::conversion::analysis::pod::registry_after_pod;
use crate::conversion::analysis::pod::verdicts_of;
use crate::conversion::analysis::pod::CheckerView;
use crate::conversion::api::ApiView;
use crate::conversion::api::ConvertError;
use crate::conversion::api::DeclView;
use crate::conversion::api::ErrorView;
use crate::conversion::api::Safety;
use crate::conversion::api::api_names;
use crate::conversion::api::decl_names;
use crate::conversion::api::distinct_names;
use crate::conversion::api::first_decl;
use crate::conversion::api::fresh_api;
use crate::conversion::api::lemma_lookup_distinct;
use crate::conversion::api::lookup;
use crate::conversion::codegen_cpp::cpp_item;
use crate::conversion::codegen_cpp::cpp_items;
use crate::conversion::codegen_cpp::lemma_cpp_items_origin;
use crate::conversion::codegen_rs::lemma_rs_item_refs;
use crate::conversion::codegen_rs::rs_item;
use crate::conversion::codegen_rs::rs_code;
use crate::conversion::codegen_cpp::cpp_code;
use crate::conversion::parse::flat_uses;
use crate::conversion::parse::type_converter::UseView;
use crate::conversion::parse::firsts;
use crate::conversion::parse::flat_decls;
use crate::conversion::parse::lemma_firsts;
use crate::conversion::parse::merged;
use crate::conversion::parse::model_of;
use crate::conversion::parse::parsed;
use crate::conversion::parse::registry_after_parse;
use crate::conversion::parse::type_converter::empty_registry;
use crate::names::is_primitive_name;
use crate::names::first_index;
use crate::names::lemma_first_index;
use crate::search::lemma_first_from;
use crate::type_database::DatabaseView;

verus! {

/// Of the declarations that share an identifier only the first is kept, so
/// no identifier is kept twice.
pub proof fn lemma_firsts_distinct(decls: Seq<DeclView>)
    ensures
        forall|i: int, j: int|
            0 <= i < j < firsts(decls).len() ==> (#[trigger] firsts(decls)[i]).name
                != (#[trigger] firsts(decls)[j]).name,
    decreases decls.len(),
{
    if decls.len() > 0 {
        let front = decls.drop_last();
        let last = decls.last();
        lemma_firsts_distinct(front);
        lemma_firsts(front, last.name);
        if !decl_names(front).contains(last.name) {
            let kept = firsts(decls);
            assert forall|i: int, j: int| 0 <= i < j < kept.len() implies (#[trigger] kept[i]).name
                != (#[trigger] kept[j]).name by {
                if j == kept.len() - 1 {
                    assert(decl_names(firsts(front))[i] == kept[i].name);
                    assert(decl_names(firsts(front)).contains(kept[i].name));
                } else {
                    assert(kept[i] == firsts(front)[i]);
                    assert(kept[j] == firsts(front)[j]);
                }
            }
        }
    }
}

/// The model follows the declarations: it has one API for each identifier,
/// with the shape of the first declaration under that identifier, and each
/// declared type carries the verdict that the safety rule gives its name.
pub open spec fn tracks(model: Seq<ApiView>, decls: Seq<DeclView>, db: DatabaseView) -> bool {
    &&& model.len() == firsts(decls).len()
    &&& forall|i: int|
        0 <= i < model.len() ==> {
            let a = #[trigger] model[i];
            &&& a.name == firsts(decls)[i].name
            &&& a.shape == firsts(decls)[i].shape
            &&& !a.synthetic
            &&& a.safety == if !a.shape.is_type() {
                Safety::PendingAnalysis
            } else if by_value_safe(decls, db, a.name) {
                Safety::ByValueSafe
            } else {
                Safety::RequiresIndirection
            }
        }
}

/// Where both analyses succeed, the model they leave follows the
/// declarations, and no two of its APIs share an identifier.
pub proof fn lemma_analysed_tracks(
    items: Seq<ItemView>,
    db: DatabaseView,
    exclude_utilities: bool,
    policy: UnsafePolicy,
)
    requires
        analysed(items, db, exclude_utilities, policy) is Ok,
    ensures
        tracks(
            analysed(items, db, exclude_utilities, policy)->Ok_0,
            flat_decls(items, Seq::empty(), exclude_utilities),
            db,
        ),
        distinct_names(analysed(items, db, exclude_utilities, policy)->Ok_0),
{
    let decls = flat_decls(items, Seq::empty(), exclude_utilities);
    let checker = identified(decls, db)->Ok_0;
    assert(checker == CheckerView { verdicts: verdicts_of(decls, db) });
    let p = parsed(items, exclude_utilities)->Ok_0;
    assert(merged(decls) is Ok);
    assert(p.apis == model_of(decls));
    let m1 = pod_analysed(p.apis, checker);
    let reg = registry_after_pod(
        registry_after_parse(empty_registry(), items, exclude_utilities),
        p.apis,
        checker,
    );
    assert(pod_checked(m1, reg) == Ok::<Seq<ApiView>, ErrorView>(m1));
    let model = analysed(items, db, exclude_utilities, policy)->Ok_0;
    let test = failure_test(m1, reg, policy);
    lemma_first_from(0, m1.len() as int, test);
    assert(functions_analysed(m1, reg, policy) == Ok::<Seq<ApiView>, ErrorView>(model));
    lemma_firsts_distinct(decls);
    assert forall|i: int| 0 <= i < model.len() implies {
        let a = #[trigger] model[i];
        &&& a.name == firsts(decls)[i].name
        &&& a.shape == firsts(decls)[i].shape
        &&& !a.synthetic
        &&& a.safety == if !a.shape.is_type() {
            Safety::PendingAnalysis
        } else if by_value_safe(decls, db, a.name) {
            Safety::ByValueSafe
        } else {
            Safety::RequiresIndirection
        }
    } by {
        assert(!test(i));
        assert(p.apis[i] == fresh_api(firsts(decls)[i]));
        assert(m1[i] == analysed_api(p.apis[i], checker));
        assert(model[i] == analysed_function(m1[i], reg, policy)->Ok_0);
        lemma_checker_agrees(decls, db, model[i].name);
    }
    assert forall|i: int, j: int| 0 <= i < j < model.len() implies (#[trigger] model[i]).name != (
    #[trigger] model[j]).name by {
        assert(firsts(decls)[i].name != firsts(decls)[j].name);
    }
}

/// In a model that follows the declarations, the type called `name` is
/// safe by the rule exactly if the API of that name says so, or, where there
/// is no such API, if the name is that of a primitive type.
pub proof fn lemma_tracked_type(
    model: Seq<ApiView>,
    decls: Seq<DeclView>,
    db: DatabaseView,
    name: Seq<char>,
)
    requires
        tracks(model, decls, db),
    ensures
        match lookup(model, name) {
            Some(b) => first_decl(decls, name) == Some(DeclView { name: b.name, shape: b.shape })
                && b.name == name && (b.shape.is_type() ==> (b.safety == Safety::ByValueSafe)
                == by_value_safe(decls, db, name)),
            None => first_decl(decls, name) is None,
        },
{
    lemma_firsts(decls, name);
    assert(api_names(model) =~= decl_names(firsts(decls)));
    lemma_first_index(api_names(model), name);
    lemma_first_index(decl_names(decls), name);
}

/// Safety monotonicity in the analysed model: every member of a record that
/// is classified safe has a type that is classified safe, or a primitive
/// type that nothing declares.
pub proof fn lemma_safe_record_in_model(
    items: Seq<ItemView>,
    db: DatabaseView,
    exclude_utilities: bool,
    policy: UnsafePolicy,
    i: int,
    m: int,
)
    requires
        analysed(items, db, exclude_utilities, policy) is Ok,
        0 <= i < analysed(items, db, exclude_utilities, policy)->Ok_0.len(),
        analysed(items, db, exclude_utilities, policy)->Ok_0[i].shape is Record,
        analysed(items, db, exclude_utilities, policy)->Ok_0[i].safety == Safety::ByValueSafe,
        0 <= m < analysed(items, db, exclude_utilities, policy)->Ok_0[i].shape->Record_0.members.len(),
    ensures
        ({
            let model = analysed(items, db, exclude_utilities, policy)->Ok_0;
            let member = model[i].shape->Record_0.members[m];
            match lookup(model, member.ty.name) {
                Some(b) => b.shape.is_type() && b.safety == Safety::ByValueSafe,
                None => is_primitive_name(member.ty.name),
            }
        }),
        !analysed(items, db, exclude_utilities, policy)->Ok_0[i].shape->Record_0.special.any(),
        !db.asserts(analysed(items, db, exclude_utilities, policy)->Ok_0[i].name, false),
{
    let decls = flat_decls(items, Seq::empty(), exclude_utilities);
    let model = analysed(items, db, exclude_utilities, policy)->Ok_0;
    let a = model[i];
    let member = a.shape->Record_0.members[m];
    lemma_analysed_tracks(items, db, exclude_utilities, policy);
    lemma_lookup_distinct(model, i);
    lemma_tracked_type(model, decls, db, a.name);
    lemma_by_value_safe_unfold(decls, db, a.name);
    let d = first_decl(decls, a.name).unwrap();
    lemma_safe_record_has_safe_members(decls, db, d, m);
    lemma_tracked_type(model, decls, db, member.ty.name);
    lemma_by_value_safe_unfold(decls, db, member.ty.name);
    match first_decl(decls, member.ty.name) {
        Some(dm) => {
            let depth = choose|depth: nat| decl_safe_within(decls, db, dm, depth);
            assert(dm.shape.is_type());
        },
        None => {},
    }
}

/// An identifier is among the dependencies of a model exactly if one of the
/// model's APIs depends on it.
pub proof fn lemma_all_deps(model: Seq<ApiView>, d: Seq<char>)
    ensures
        all_deps(model).contains(d) == exists|i: int|
            0 <= i < model.len() && (#[trigger] model[i]).deps().contains(d),
    decreases model.len(),
{
    if model.len() > 0 {
        let front = model.drop_last();
        lemma_all_deps(front, d);
        let here = model.last().deps();
        let before = all_deps(front);
        if all_deps(model).contains(d) {
            let k = choose|k: int| 0 <= k < all_deps(model).len() && all_deps(model)[k] == d;
            if k < before.len() {
                assert(before[k] == d);
                let i = choose|i: int| 0 <= i < front.len() && (#[trigger] front[i]).deps().contains(d);
                assert(model[i] == front[i]);
            } else {
                assert(here[k - before.len()] == d);
                assert(model[model.len() - 1].deps().contains(d));
            }
        }
        if exists|i: int| 0 <= i < model.len() && (#[trigger] model[i]).deps().contains(d) {
            let i = choose|i: int| 0 <= i < model.len() && (#[trigger] model[i]).deps().contains(d);
            if i < front.len() {
                assert(front[i] == model[i]);
                let k = choose|k: int| 0 <= k < before.len() && before[k] == d;
                assert(all_deps(model)[k] == d);
            } else {
                let k = choose|k: int| 0 <= k < here.len() && here[k] == d;
                assert(all_deps(model)[before.len() + k] == d);
            }
        }
    }
}

/// The model that the generators work from is what pruning kept, followed
/// by one declaration for each primitive type that the kept APIs depend on
/// and that nothing declares.
pub proof fn lemma_final_model_parts(
    items: Seq<ItemView>,
    db: DatabaseView,
    exclude_utilities: bool,
    policy: UnsafePolicy,
    i: int,
)
    requires
        final_model(items, db, exclude_utilities, policy) is Ok,
        0 <= i < final_model(items, db, exclude_utilities, policy)->Ok_0.len(),
    ensures
        ({
            let model = analysed(items, db, exclude_utilities, policy)->Ok_0;
            let kept = pruned(model, db)->Ok_0;
            let last = final_model(items, db, exclude_utilities, policy)->Ok_0;
            &&& analysed(items, db, exclude_utilities, policy) is Ok
            &&& pruned(model, db) is Ok
            &&& last == ctypes_appended(kept)
            &&& kept.len() <= last.len()
            &&& if i < kept.len() {
                last[i] == kept[i] && !last[i].synthetic
            } else {
                &&& last[i] == ctype_api(last[i].name)
                &&& is_primitive_name(last[i].name)
                &&& all_deps(kept).contains(last[i].name)
            }
        }),
{
    let model = analysed(items, db, exclude_utilities, policy)->Ok_0;
    let kept = pruned(model, db)->Ok_0;
    let last = ctypes_appended(kept);
    lemma_with_ctypes_shape(kept, all_deps(kept));
    if i < kept.len() {
        assert(last.take(kept.len() as int)[i] == last[i]);
        lemma_pruned_reachable(model, db, i);
        lemma_analysed_tracks(items, db, exclude_utilities, policy);
    }
}

/// Reachability: some symbol of the allow-list reaches every API that the
/// generators work from.
pub proof fn lemma_final_reachable(
    items: Seq<ItemView>,
    db: DatabaseView,
    exclude_utilities: bool,
    policy: UnsafePolicy,
    i: int,
)
    requires
        final_model(items, db, exclude_utilities, policy) is Ok,
        0 <= i < final_model(items, db, exclude_utilities, policy)->Ok_0.len(),
    ensures
        retained(
            analysed(items, db, exclude_utilities, policy)->Ok_0,
            db,
            final_model(items, db, exclude_utilities, policy)->Ok_0[i].name,
        ),
{
    let model = analysed(items, db, exclude_utilities, policy)->Ok_0;
    let kept = pruned(model, db)->Ok_0;
    let last = final_model(items, db, exclude_utilities, policy)->Ok_0;
    lemma_final_model_parts(items, db, exclude_utilities, policy, i);
    lemma_analysed_tracks(items, db, exclude_utilities, policy);
    if i < kept.len() {
        lemma_pruned_reachable(model, db, i);
    } else {
        let d = last[i].name;
        lemma_all_deps(kept, d);
        let x = choose|x: int| 0 <= x < kept.len() && (#[trigger] kept[x]).deps().contains(d);
        let y = choose|y: int| 0 <= y < kept[x].deps().len() && kept[x].deps()[y] == d;
        lemma_pruned_closed(model, db, x, y);
    }
}

/// Every symbol of the allow-list is among the APIs that the generators
/// work from, where the conversion gets that far.
pub proof fn lemma_final_roots_present(
    items: Seq<ItemView>,
    db: DatabaseView,
    exclude_utilities: bool,
    policy: UnsafePolicy,
    r: int,
)
    requires
        final_model(items, db, exclude_utilities, policy) is Ok,
        0 <= r < db.allowlist.len(),
    ensures
        api_names(final_model(items, db, exclude_utilities, policy)->Ok_0).contains(
            db.allowlist[r],
        ),
{
    let model = analysed(items, db, exclude_utilities, policy)->Ok_0;
    let kept = pruned(model, db)->Ok_0;
    lemma_roots_present(model, db, r);
    lemma_with_ctypes_names(kept, all_deps(kept), db.allowlist[r]);
}

/// Closure: every identifier that an API of the final model depends on is
/// that of an API of the final model.
pub proof fn lemma_final_closed(
    items: Seq<ItemView>,
    db: DatabaseView,
    exclude_utilities: bool,
    policy: UnsafePolicy,
    i: int,
    m: int,
)
    requires
        final_model(items, db, exclude_utilities, policy) is Ok,
        0 <= i < final_model(items, db, exclude_utilities, policy)->Ok_0.len(),
        0 <= m < final_model(items, db, exclude_utilities, policy)->Ok_0[i].deps().len(),
    ensures
        api_names(final_model(items, db, exclude_utilities, policy)->Ok_0).contains(
            final_model(items, db, exclude_utilities, policy)->Ok_0[i].deps()[m],
        ),
{
    let model = analysed(items, db, exclude_utilities, policy)->Ok_0;
    let kept = pruned(model, db)->Ok_0;
    let last = final_model(items, db, exclude_utilities, policy)->Ok_0;
    let d = last[i].deps()[m];
    lemma_final_model_parts(items, db, exclude_utilities, policy, i);
    lemma_analysed_tracks(items, db, exclude_utilities, policy);
    lemma_with_ctypes_names(kept, all_deps(kept), d);
    if i < kept.len() {
        lemma_pruned_closed(model, db, i, m);
        assert(kept[i].deps().contains(d));
        lemma_all_deps(kept, d);
    } else {
        assert(last[i].deps() =~= seq![last[i].name]);
        assert(d == last[i].name);
    }
}

/// Safety monotonicity in the final model: the type of every member of a
/// record that is classified safe is declared in the final model, and
/// whatever declares it there is classified safe.
pub proof fn lemma_safe_record_members(
    items: Seq<ItemView>,
    db: DatabaseView,
    exclude_utilities: bool,
    policy: UnsafePolicy,
    i: int,
    m: int,
    j: int,
)
    requires
        final_model(items, db, exclude_utilities, policy) is Ok,
        0 <= i < final_model(items, db, exclude_utilities, policy)->Ok_0.len(),
        final_model(items, db, exclude_utilities, policy)->Ok_0[i].shape is Record,
        final_model(items, db, exclude_utilities, policy)->Ok_0[i].safety == Safety::ByValueSafe,
        0 <= m < final_model(
            items,
            db,
            exclude_utilities,
            policy,
        )->Ok_0[i].shape->Record_0.members.len(),
        0 <= j < final_model(items, db, exclude_utilities, policy)->Ok_0.len(),
        final_model(items, db, exclude_utilities, policy)->Ok_0[j].name == final_model(
            items,
            db,
            exclude_utilities,
            policy,
        )->Ok_0[i].shape->Record_0.members[m].ty.name,
    ensures
        final_model(items, db, exclude_utilities, policy)->Ok_0[j].safety == Safety::ByValueSafe,
        api_names(final_model(items, db, exclude_utilities, policy)->Ok_0).contains(
            final_model(items, db, exclude_utilities, policy)->Ok_0[i].shape->Record_0.members[m].ty.name,
        ),
{
    let model = analysed(items, db, exclude_utilities, policy)->Ok_0;
    let kept = pruned(model, db)->Ok_0;
    let last = final_model(items, db, exclude_utilities, policy)->Ok_0;
    let member = last[i].shape->Record_0.members[m];
    lemma_final_model_parts(items, db, exclude_utilities, policy, i);
    lemma_final_model_parts(items, db, exclude_utilities, policy, j);
    lemma_analysed_tracks(items, db, exclude_utilities, policy);
    assert(i < kept.len());
    lemma_pruned_reachable(model, db, i);
    let k = choose|k: int| 0 <= k < model.len() && #[trigger] model[k] == kept[i];
    lemma_safe_record_in_model(items, db, exclude_utilities, policy, k, m);
    assert(last[i].deps()[m] == member.ty.name);
    lemma_final_closed(items, db, exclude_utilities, policy, i, m);
    if j < kept.len() {
        lemma_pruned_reachable(model, db, j);
        let k2 = choose|k2: int| 0 <= k2 < model.len() && #[trigger] model[k2] == kept[j];
        lemma_lookup_distinct(model, k2);
    }
}

/// No dangling reference on the bridge side: every type that an item of a
/// successful conversion mentions is declared by an item of the same
/// conversion.
pub proof fn lemma_no_dangling_reference(
    bindgen_mod: GroupingView,
    includes: Seq<Seq<char>>,
    db: DatabaseView,
    exclude_utilities: bool,
    policy: UnsafePolicy,
    inclusions: Seq<char>,
    j: int,
    m: int,
)
    requires
        converted(bindgen_mod, includes, db, exclude_utilities, policy, inclusions) is Ok,
        0 <= j < converted(
            bindgen_mod,
            includes,
            db,
            exclude_utilities,
            policy,
            inclusions,
        )->Ok_0.rs.len(),
        0 <= m < converted(
            bindgen_mod,
            includes,
            db,
            exclude_utilities,
            policy,
            inclusions,
        )->Ok_0.rs[j].refs().len(),
    ensures
        ({
            let out = converted(
                bindgen_mod,
                includes,
                db,
                exclude_utilities,
                policy,
                inclusions,
            )->Ok_0;
            exists|k: int|
                0 <= k < out.rs.len() && (#[trigger] out.rs[k]).declares() == Some(
                    out.rs[j].refs()[m],
                )
        }),
{
    let out = converted(bindgen_mod, includes, db, exclude_utilities, policy, inclusions)->Ok_0;
    let items = items_in_root(bindgen_mod.content->Some_0)->Ok_0;
    let model = final_model(items, db, exclude_utilities, policy)->Ok_0;
    let uses = flat_uses(items, Seq::empty());
    let offset = 1 + includes.len() + uses.len();
    assert(out.rs == rs_code(model, includes, uses, bindgen_mod.name));
    assert(out.rs.len() == offset + model.len());
    if j < offset {
        assert(out.rs[j].refs().len() == 0);
    } else {
        let x = j - offset;
        assert(out.rs[j] == rs_item(model[x]));
        lemma_rs_item_refs(model[x], m);
        let d = out.rs[j].refs()[m];
        let y = choose|y: int| 0 <= y < model[x].deps().len() && model[x].deps()[y] == d;
        lemma_final_closed(items, db, exclude_utilities, policy, x, y);
        lemma_declared_on_bridge(model, includes, uses, bindgen_mod.name, d);
    }
}

/// The bridge side declares the identifier of every API of the model.
pub proof fn lemma_declared_on_bridge(
    model: Seq<ApiView>,
    includes: Seq<Seq<char>>,
    uses: Seq<UseView>,
    shell: Seq<char>,
    name: Seq<char>,
)
    requires
        api_names(model).contains(name),
    ensures
        exists|k: int|
            0 <= k < rs_code(model, includes, uses, shell).len() && (#[trigger] rs_code(
                model,
                includes,
                uses,
                shell,
            )[k]).declares() == Some(name),
{
    let z = choose|z: int| 0 <= z < model.len() && api_names(model)[z] == name;
    let offset = 1 + includes.len() + uses.len();
    let code = rs_code(model, includes, uses, shell);
    assert(code[offset + z] == rs_item(model[z]));
    assert(rs_item(model[z]).declares() == Some(model[z].name));
}

/// No dangling reference on the native side: every type that a native
/// declaration of a successful conversion mentions is declared by an item
/// of the bridge side of the same conversion.
pub proof fn lemma_no_dangling_native_reference(
    bindgen_mod: GroupingView,
    includes: Seq<Seq<char>>,
    db: DatabaseView,
    exclude_utilities: bool,
    policy: UnsafePolicy,
    inclusions: Seq<char>,
    j: int,
    m: int,
)
    requires
        converted(bindgen_mod, includes, db, exclude_utilities, policy, inclusions) is Ok,
        converted(bindgen_mod, includes, db, exclude_utilities, policy, inclusions)->Ok_0.cpp is Some,
        0 <= j < converted(
            bindgen_mod,
            includes,
            db,
            exclude_utilities,
            policy,
            inclusions,
        )->Ok_0.cpp->Some_0.declarations.len(),
        0 <= m < converted(
            bindgen_mod,
            includes,
            db,
            exclude_utilities,
            policy,
            inclusions,
        )->Ok_0.cpp->Some_0.declarations[j].refs().len(),
    ensures
        ({
            let out = converted(
                bindgen_mod,
                includes,
                db,
                exclude_utilities,
                policy,
                inclusions,
            )->Ok_0;
            exists|k: int|
                0 <= k < out.rs.len() && (#[trigger] out.rs[k]).declares() == Some(
                    out.cpp->Some_0.declarations[j].refs()[m],
                )
        }),
{
    let out = converted(bindgen_mod, includes, db, exclude_utilities, policy, inclusions)->Ok_0;
    let items = items_in_root(bindgen_mod.content->Some_0)->Ok_0;
    let model = final_model(items, db, exclude_utilities, policy)->Ok_0;
    let uses = flat_uses(items, Seq::empty());
    assert(out.cpp == cpp_code(inclusions, includes, model));
    assert(out.rs == rs_code(model, includes, uses, bindgen_mod.name));
    let decl = out.cpp->Some_0.declarations[j];
    assert(decl == cpp_items(model)[j]);
    lemma_cpp_items_origin(model, j);
    let x = choose|x: int| 0 <= x < model.len() && cpp_item(#[trigger] model[x]) == Some(decl);
    let d = decl.refs()[m];
    assert(decl.refs() =~= model[x].deps());
    assert(model[x].deps()[m] == d);
    lemma_final_closed(items, db, exclude_utilities, policy, x, m);
    lemma_declared_on_bridge(model, includes, uses, bindgen_mod.name, d);
}

/// Determinism: two conversions of modules that say the same, under
/// configurations that say the same, yield the same artefacts or fail alike.
pub proof fn lemma_convert_deterministic(
    first: Result<CodegenResults, ConvertError>,
    second: Result<CodegenResults, ConvertError>,
    first_mod: RawGrouping,
    second_mod: RawGrouping,
    first_db: TypeDatabase,
    second_db: TypeDatabase,
    includes: Seq<Seq<char>>,
    exclude_utilities: bool,
    policy: UnsafePolicy,
    inclusions: Seq<char>,
)
    requires
        first_mod@ == second_mod@,
        first_db@ == second_db@,
        codegen_result_view(first) == converted(
            first_mod@,
            includes,
            first_db@,
            exclude_utilities,
            policy,
            inclusions,
        ),
        codegen_result_view(second) == converted(
            second_mod@,
            includes,
            second_db@,
            exclude_utilities,
            policy,
            inclusions,
        ),
    ensures
        codegen_result_view(first) == codegen_result_view(second),
{
}

/// Reachability on the bridge side: whatever an item of a successful
/// conversion declares, some symbol of the allow-list reaches it in the
/// analysed model.
pub proof fn lemma_output_reachable(
    bindgen_mod: GroupingView,
    includes: Seq<Seq<char>>,
    db: DatabaseView,
    exclude_utilities: bool,
    policy: UnsafePolicy,
    inclusions: Seq<char>,
    k: int,
)
    requires
        converted(bindgen_mod, includes, db, exclude_utilities, policy, inclusions) is Ok,
        0 <= k < converted(
            bindgen_mod,
            includes,
            db,
            exclude_utilities,
            policy,
            inclusions,
        )->Ok_0.rs.len(),
        converted(
            bindgen_mod,
            includes,
            db,
            exclude_utilities,
            policy,
            inclusions,
        )->Ok_0.rs[k].declares() is Some,
    ensures
        ({
            let out = converted(
                bindgen_mod,
                includes,
                db,
                exclude_utilities,
                policy,
                inclusions,
            )->Ok_0;
            let items = items_in_root(bindgen_mod.content->Some_0)->Ok_0;
            retained(
                analysed(items, db, exclude_utilities, policy)->Ok_0,
                db,
                out.rs[k].declares()->Some_0,
            )
        }),
{
    let out = converted(bindgen_mod, includes, db, exclude_utilities, policy, inclusions)->Ok_0;
    let items = items_in_root(bindgen_mod.content->Some_0)->Ok_0;
    let model = final_model(items, db, exclude_utilities, policy)->Ok_0;
    let uses = flat_uses(items, Seq::empty());
    let offset = 1 + includes.len() + uses.len();
    assert(out.rs == rs_code(model, includes, uses, bindgen_mod.name));
    if k >= offset {
        let x = k - offset;
        assert(out.rs[k] == rs_item(model[x]));
        assert(rs_item(model[x]).declares() == Some(model[x].name));
        lemma_final_reachable(items, db, exclude_utilities, policy, x);
    }
}

/// Every symbol of the allow-list is declared on the bridge side of a
/// successful conversion.
pub proof fn lemma_roots_declared(
    bindgen_mod: GroupingView,
    includes: Seq<Seq<char>>,
    db: DatabaseView,
    exclude_utilities: bool,
    policy: UnsafePolicy,
    inclusions: Seq<char>,
    r: int,
)
    requires
        converted(bindgen_mod, includes, db, exclude_utilities, policy, inclusions) is Ok,
        0 <= r < db.allowlist.len(),
    ensures
        ({
            let out = converted(
                bindgen_mod,
                includes,
                db,
                exclude_utilities,
                policy,
                inclusions,
            )->Ok_0;
            exists|k: int|
                0 <= k < out.rs.len() && (#[trigger] out.rs[k]).declares() == Some(
                    db.allowlist[r],
                )
        }),
{
    let out = converted(bindgen_mod, includes, db, exclude_utilities, policy, inclusions)->Ok_0;
    let items = items_in_root(bindgen_mod.content->Some_0)->Ok_0;
    let model = final_model(items, db, exclude_utilities, policy)->Ok_0;
    let uses = flat_uses(items, Seq::empty());
    assert(out.rs == rs_code(model, includes, uses, bindgen_mod.name));
    lemma_final_roots_present(items, db, exclude_utilities, policy, r);
    lemma_declared_on_bridge(model, includes, uses, bindgen_mod.name, db.allowlist[r]);
}

/// The structural boundary: an empty outer list is an empty interface and no
/// failure, an outer list of more than one item is refused as an unexpected
/// outer item, and unwrapping fails in no way but the two structural ones.
pub proof fn lemma_structural_boundary(items: Seq<ItemView>)
    ensures
        items.len() == 0 ==> items_in_root(items) == Ok::<Seq<ItemView>, ErrorView>(Seq::empty()),
        items.len() > 1 ==> items_in_root(items) == Err::<Seq<ItemView>, ErrorView>(
            ErrorView::UnexpectedOuterItem,
        ),
        items_in_root(items) is Err ==> items_in_root(items)->Err_0 == ErrorView::UnexpectedOuterItem
            || items_in_root(items)->Err_0 == ErrorView::NoContent,
{
}

/// Uniqueness: no two APIs of the final model share an identifier.
pub proof fn lemma_final_distinct(
    items: Seq<ItemView>,
    db: DatabaseView,
    exclude_utilities: bool,
    policy: UnsafePolicy,
)
    requires
        final_model(items, db, exclude_utilities, policy) is Ok,
    ensures
        distinct_names(final_model(items, db, exclude_utilities, policy)->Ok_0),
{
    let model = analysed(items, db, exclude_utilities, policy)->Ok_0;
    let kept = pruned(model, db)->Ok_0;
    lemma_analysed_tracks(items, db, exclude_utilities, policy);
    lemma_pruned_distinct(model, db);
    lemma_with_ctypes_distinct(kept, all_deps(kept));
}

/// Uniqueness on the bridge side: no two items of a successful conversion
/// declare the same identifier.
pub proof fn lemma_declared_once(
    bindgen_mod: GroupingView,
    includes: Seq<Seq<char>>,
    db: DatabaseView,
    exclude_utilities: bool,
    policy: UnsafePolicy,
    inclusions: Seq<char>,
    j: int,
    k: int,
)
    requires
        converted(bindgen_mod, includes, db, exclude_utilities, policy, inclusions) is Ok,
        0 <= j < k < converted(
            bindgen_mod,
            includes,
            db,
            exclude_utilities,
            policy,
            inclusions,
        )->Ok_0.rs.len(),
        converted(
            bindgen_mod,
            includes,
            db,
            exclude_utilities,
            policy,
            inclusions,
        )->Ok_0.rs[j].declares() is Some,
    ensures
        ({
            let out = converted(
                bindgen_mod,
                includes,
                db,
                exclude_utilities,
                policy,
                inclusions,
            )->Ok_0;
            out.rs[j].declares() != out.rs[k].declares()
        }),
{
    let out = converted(bindgen_mod, includes, db, exclude_utilities, policy, inclusions)->Ok_0;
    let items = items_in_root(bindgen_mod.content->Some_0)->Ok_0;
    let model = final_model(items, db, exclude_utilities, policy)->Ok_0;
    let uses = flat_uses(items, Seq::empty());
    let offset = 1 + includes.len() + uses.len();
    assert(out.rs == rs_code(model, includes, uses, bindgen_mod.name));
    lemma_final_distinct(items, db, exclude_utilities, policy);
    if j >= offset {
        assert(out.rs[j] == rs_item(model[j - offset]));
        assert(out.rs[k] == rs_item(model[k - offset]));
        assert(rs_item(model[j - offset]).declares() == Some(model[j - offset].name));
        assert(rs_item(model[k - offset]).declares() == Some(model[k - offset].name));
    }
}

/// The registry as the function analysis finds it: every name that the
/// model declares as a type or mentions is registered, and carries its
/// verdict where it is that of a primitive or of a declared type.
pub open spec fn registry_of(
    items: Seq<ItemView>,
    db: DatabaseView,
    exclude_utilities: bool,
) -> RegistryView {
    registry_after_pod(
        registry_after_parse(empty_registry(), items, exclude_utilities),
        parsed(items, exclude_utilities)->Ok_0.apis,
        identified(flat_decls(items, Seq::empty(), exclude_utilities), db)->Ok_0,
    )
}

/// Parsing has the registry resolve the name of every declared type and
/// every type that a declaration mentions.
pub proof fn lemma_all_registrations(model: Seq<ApiView>, i: int)
    requires
        0 <= i < model.len(),
    ensures
        forall|m: int|
            0 <= m < model[i].shape.mentions().len() ==> all_registrations(model).contains(
                #[trigger] model[i].shape.mentions()[m],
            ),
        model[i].shape.is_type() ==> all_registrations(model).contains(model[i].name),
    decreases model.len(),
{
    let front = model.drop_last();
    let before = all_registrations(front);
    let here = api_registrations(model.last());
    let all = all_registrations(model);
    if i < model.len() - 1 {
        lemma_all_registrations(front, i);
        assert(front[i] == model[i]);
        assert forall|m: int| 0 <= m < model[i].shape.mentions().len() implies all.contains(
            #[trigger] model[i].shape.mentions()[m],
        ) by {
            let d = model[i].shape.mentions()[m];
            let k = choose|k: int| 0 <= k < before.len() && before[k] == d;
            assert(all[k] == d);
        }
        if model[i].shape.is_type() {
            let k = choose|k: int| 0 <= k < before.len() && before[k] == model[i].name;
            assert(all[k] == model[i].name);
        }
    } else {
        let own: int = if model[i].shape.is_type() {
            1
        } else {
            0
        };
        assert forall|m: int| 0 <= m < model[i].shape.mentions().len() implies all.contains(
            #[trigger] model[i].shape.mentions()[m],
        ) by {
            assert(here[own + m] == model[i].shape.mentions()[m]);
            assert(all[before.len() + own + m] == model[i].shape.mentions()[m]);
        }
        if model[i].shape.is_type() {
            assert(here[0] == model[i].name);
            assert(all[before.len() as int] == model[i].name);
        }
    }
}

/// What the registry holds about a name when the functions are planned:
/// the verdict of the safety rule, where the model declares the name as a
/// type or mentions it, and the name is that of a primitive or of a declared
/// type; nothing, else.
pub proof fn lemma_pipeline_tag(
    items: Seq<ItemView>,
    db: DatabaseView,
    exclude_utilities: bool,
    n: Seq<char>,
)
    requires
        parsed(items, exclude_utilities) is Ok,
        identified(flat_decls(items, Seq::empty(), exclude_utilities), db) is Ok,
    ensures
        ({
            let decls = flat_decls(items, Seq::empty(), exclude_utilities);
            let model = model_of(decls);
            registry_of(items, db, exclude_utilities).tag(n) == if all_registrations(
                model,
            ).contains(n) && (is_primitive_name(n) || is_type_api(model, n)) {
                if by_value_safe(decls, db, n) {
                    Safety::ByValueSafe
                } else {
                    Safety::RequiresIndirection
                }
            } else {
                Safety::PendingAnalysis
            }
        }),
{
    let decls = flat_decls(items, Seq::empty(), exclude_utilities);
    let model = model_of(decls);
    let checker = identified(decls, db)->Ok_0;
    assert(checker == CheckerView { verdicts: verdicts_of(decls, db) });
    assert(merged(decls) is Ok);
    assert(parsed(items, exclude_utilities)->Ok_0.apis == model);
    let names = all_registrations(model);
    let reg = registry_after_parse(empty_registry(), items, exclude_utilities);
    lemma_resolved_all(empty_registry(), names, n);
    assert(reg.types == empty_registry().resolved_all(names).types);
    assert(reg.tag(n) == empty_registry().resolved_all(names).tag(n));
    assert(reg.knows(n) == empty_registry().resolved_all(names).knows(n));
    assert(!empty_registry().knows(n));
    lemma_tag_after_pod(reg, model, checker, n);
    lemma_checker_agrees(decls, db, n);
}

/// Where both analyses succeed, every function of the model has the plan
/// that its signature and the registry call for, and nothing else has one.
pub proof fn lemma_analysed_plan(
    items: Seq<ItemView>,
    db: DatabaseView,
    exclude_utilities: bool,
    policy: UnsafePolicy,
    i: int,
)
    requires
        analysed(items, db, exclude_utilities, policy) is Ok,
        0 <= i < analysed(items, db, exclude_utilities, policy)->Ok_0.len(),
    ensures
        ({
            let a = analysed(items, db, exclude_utilities, policy)->Ok_0[i];
            let reg = registry_of(items, db, exclude_utilities);
            match a.shape {
                ShapeView::Function(f) => planned(a.name, f, reg, policy) is Ok && a.plan == Some(
                    planned(a.name, f, reg, policy)->Ok_0,
                ),
                _ => a.plan is None && checked_api(
                    ApiView { plan: None, ..a },
                    reg,
                ) is Ok,
            }
        }),
{
    let decls = flat_decls(items, Seq::empty(), exclude_utilities);
    let checker = identified(decls, db)->Ok_0;
    let p = parsed(items, exclude_utilities)->Ok_0;
    assert(merged(decls) is Ok);
    assert(p.apis == model_of(decls));
    let m1 = pod_analysed(p.apis, checker);
    let reg = registry_of(items, db, exclude_utilities);
    let model = analysed(items, db, exclude_utilities, policy)->Ok_0;
    assert(pod_checked(m1, reg) == Ok::<Seq<ApiView>, ErrorView>(m1));
    lemma_first_from(0, m1.len() as int, failure_test(m1, reg, policy));
    lemma_first_from(0, m1.len() as int, unknown_test(m1, reg));
    assert(functions_analysed(m1, reg, policy) == Ok::<Seq<ApiView>, ErrorView>(model));
    assert(!failure_test(m1, reg, policy)(i));
    assert(!unknown_test(m1, reg)(i));
    assert(p.apis[i] == fresh_api(firsts(decls)[i]));
    assert(m1[i] == analysed_api(p.apis[i], checker));
    assert(model[i] == analysed_function(m1[i], reg, policy)->Ok_0);
}

/// Where both analyses succeed, every type that a declaration of the model
/// mentions is a primitive or a declared type, and the registry holds for it
/// the verdict of the safety rule.
pub proof fn lemma_analysed_mentions_known(
    items: Seq<ItemView>,
    db: DatabaseView,
    exclude_utilities: bool,
    policy: UnsafePolicy,
    i: int,
    m: int,
)
    requires
        analysed(items, db, exclude_utilities, policy) is Ok,
        0 <= i < analysed(items, db, exclude_utilities, policy)->Ok_0.len(),
        0 <= m < analysed(items, db, exclude_utilities, policy)->Ok_0[i].shape.mentions().len(),
    ensures
        ({
            let decls = flat_decls(items, Seq::empty(), exclude_utilities);
            let model = analysed(items, db, exclude_utilities, policy)->Ok_0;
            let d = model[i].shape.mentions()[m];
            &&& is_primitive_name(d) || is_type_api(model, d)
            &&& registry_of(items, db, exclude_utilities).tag(d) == if by_value_safe(
                decls,
                db,
                d,
            ) {
                Safety::ByValueSafe
            } else {
                Safety::RequiresIndirection
            }
        }),
{
    let decls = flat_decls(items, Seq::empty(), exclude_utilities);
    let model = analysed(items, db, exclude_utilities, policy)->Ok_0;
    let reg = registry_of(items, db, exclude_utilities);
    let a = model[i];
    let d = a.shape.mentions()[m];
    lemma_analysed_plan(items, db, exclude_utilities, policy, i);
    lemma_analysed_tracks(items, db, exclude_utilities, policy);
    lemma_pipeline_tag(items, db, exclude_utilities, d);
    match a.shape {
        ShapeView::Function(f) => {
            assert(signature_types(f).map_values(|t: TypeView| t.name) =~= a.shape.mentions());
            assert(signature_types(f)[m].name == d);
            lemma_plan_needs_verdicts(a.name, f, reg, policy, m);
        },
        _ => {
            let names = a.shape.mentions();
            lemma_first_from(0, names.len() as int, unresolved_name_test(reg, names));
            assert(!unresolved_name_test(reg, names)(m));
        },
    }
    assert(reg.tag(d) != Safety::PendingAnalysis);
    let start = model_of(decls);
    assert(api_names(start) =~= api_names(model));
    lemma_first_index(api_names(model), d);
    if is_type_api(start, d) {
        let k = first_index(api_names(start), d).unwrap();
        assert(start[k] == fresh_api(firsts(decls)[k]));
        assert(model[k].shape == start[k].shape);
    }
}

/// How a value of type `t` crosses the bridge, by the safety rule: behind an
/// owning pointer where it is passed by value and may not be, as declared
/// otherwise.
pub open spec fn crossing_by_rule(decls: Seq<DeclView>, db: DatabaseView, t: TypeView) -> Crossing {
    if t.passing == Passing::ByValue && !by_value_safe(decls, db, t.name) {
        Crossing::Indirect
    } else {
        Crossing::AsDeclared
    }
}

/// Whether a function is wrapped, by the safety rule: it constructs or
/// destroys, or passes or returns by value what may not be.
pub open spec fn wrapped_by_rule(decls: Seq<DeclView>, db: DatabaseView, f: FunctionView) -> bool {
    ||| f.role != FunctionRole::Plain
    ||| exists|k: int|
        0 <= k < signature_types(f).len() && crossing_by_rule(
            decls,
            db,
            #[trigger] signature_types(f)[k],
        ) == Crossing::Indirect
}

/// The parameters of `f` on the bridge, by the safety rule.
pub open spec fn params_by_rule(decls: Seq<DeclView>, db: DatabaseView, f: FunctionView) -> Seq<
    SlotView,
> {
    Seq::new(
        f.params.len(),
        |i: int|
            SlotView {
                name: f.params[i].name,
                ty: f.params[i].ty,
                crossing: crossing_by_rule(decls, db, f.params[i].ty),
            },
    )
}

/// The result of `f` on the bridge, by the safety rule.
pub open spec fn ret_by_rule(decls: Seq<DeclView>, db: DatabaseView, f: FunctionView) -> Option<
    SlotView,
> {
    match f.ret {
        Some(t) => Some(
            SlotView { name: Seq::empty(), ty: t, crossing: crossing_by_rule(decls, db, t) },
        ),
        None => None,
    }
}

/// The item that the bridge side holds for the function `f` called `name`,
/// by the safety rule: a function that is not wrapped is bound to itself and
/// safe to call; one that is wrapped is bound to its wrapper, and unsafe to
/// call under the policy that marks wrappers.
pub open spec fn function_item_by_rule(
    decls: Seq<DeclView>,
    db: DatabaseView,
    policy: UnsafePolicy,
    name: Seq<char>,
    f: FunctionView,
) -> RsItemView {
    RsItemView::Function {
        name,
        link_name: if wrapped_by_rule(decls, db, f) {
            wrapper_name(name)
        } else {
            name
        },
        params: params_by_rule(decls, db, f),
        ret: ret_by_rule(decls, db, f),
        marked_unsafe: wrapped_by_rule(decls, db, f) && policy == UnsafePolicy::MarkedUnsafe,
    }
}

/// The wrapper that the native side holds for the function `f` called
/// `name`: it takes behind a pointer what may not be passed by value, and
/// calls `name`.
pub open spec fn wrapper_by_rule(
    decls: Seq<DeclView>,
    db: DatabaseView,
    name: Seq<char>,
    f: FunctionView,
) -> CppItemView {
    CppItemView::Wrapper {
        name: wrapper_name(name),
        callee: name,
        params: params_by_rule(decls, db, f),
        ret: ret_by_rule(decls, db, f),
    }
}

/// In a successful conversion each API of the analysed model that the
/// allow-list reaches has its item on the bridge side, and its native
/// declaration on the native side where it calls for one.
pub proof fn lemma_reached_api_generated(
    bindgen_mod: GroupingView,
    includes: Seq<Seq<char>>,
    db: DatabaseView,
    exclude_utilities: bool,
    policy: UnsafePolicy,
    inclusions: Seq<char>,
    i: int,
)
    requires
        converted(bindgen_mod, includes, db, exclude_utilities, policy, inclusions) is Ok,
        ({
            let items = items_in_root(bindgen_mod.content->Some_0)->Ok_0;
            let model = analysed(items, db, exclude_utilities, policy)->Ok_0;
            0 <= i < model.len() && retained(model, db, model[i].name)
        }),
    ensures
        ({
            let out = converted(
                bindgen_mod,
                includes,
                db,
                exclude_utilities,
                policy,
                inclusions,
            )->Ok_0;
            let items = items_in_root(bindgen_mod.content->Some_0)->Ok_0;
            let model = analysed(items, db, exclude_utilities, policy)->Ok_0;
            &&& out.rs.contains(rs_item(model[i]))
            &&& match cpp_item(model[i]) {
                Some(native) => out.cpp is Some && out.cpp->Some_0.declarations.contains(native),
                None => out.cpp is Some ==> forall|j: int|
                    0 <= j < out.cpp->Some_0.declarations.len() ==> (
                    #[trigger] out.cpp->Some_0.declarations[j] matches CppItemView::Wrapper {
                        callee,
                        ..
                    } ==> callee != model[i].name),
            }
        }),
{
    let out = converted(bindgen_mod, includes, db, exclude_utilities, policy, inclusions)->Ok_0;
    let items = items_in_root(bindgen_mod.content->Some_0)->Ok_0;
    let model = analysed(items, db, exclude_utilities, policy)->Ok_0;
    let kept = pruned(model, db)->Ok_0;
    let last = final_model(items, db, exclude_utilities, policy)->Ok_0;
    let uses = flat_uses(items, Seq::empty());
    let offset = 1 + includes.len() + uses.len();
    assert(out.rs == rs_code(last, includes, uses, bindgen_mod.name));
    assert(out.cpp == cpp_code(inclusions, includes, last));
    lemma_pruned_keeps(model, db, i);
    let x = choose|x: int| 0 <= x < kept.len() && #[trigger] kept[x] == model[i];
    lemma_with_ctypes_shape(kept, all_deps(kept));
    lemma_final_model_parts(items, db, exclude_utilities, policy, x);
    assert(last[x] == model[i]);
    assert(out.rs[offset + x] == rs_item(last[x]));
    lemma_final_distinct(items, db, exclude_utilities, policy);
    match cpp_item(model[i]) {
        Some(native) => {
            lemma_cpp_items_contains(last, x);
        },
        None => {
            if out.cpp is Some {
                let declarations = out.cpp->Some_0.declarations;
                assert forall|j: int| 0 <= j < declarations.len() implies (
                #[trigger] declarations[j] matches CppItemView::Wrapper { callee, .. } ==> callee
                    != model[i].name) by {
                    lemma_cpp_items_origin(last, j);
                    let y = choose|y: int|
                        0 <= y < last.len() && cpp_item(#[trigger] last[y]) == Some(
                            declarations[j],
                        );
                    if declarations[j] matches CppItemView::Wrapper { callee, .. } && callee
                        == model[i].name {
                        assert(last[y].name == last[x].name);
                        if y < x {
                            assert(last[y].name != last[x].name);
                        }
                        if x < y {
                            assert(last[x].name != last[y].name);
                        }
                    }
                }
            }
        },
    }
}

/// The API that the analysed model holds for the function declared as `f`
/// under `name` has the item and the wrapper that the safety rule calls for.
pub proof fn lemma_function_by_rule(
    items: Seq<ItemView>,
    db: DatabaseView,
    exclude_utilities: bool,
    policy: UnsafePolicy,
    i: int,
)
    requires
        analysed(items, db, exclude_utilities, policy) is Ok,
        0 <= i < analysed(items, db, exclude_utilities, policy)->Ok_0.len(),
        analysed(items, db, exclude_utilities, policy)->Ok_0[i].shape is Function,
    ensures
        ({
            let decls = flat_decls(items, Seq::empty(), exclude_utilities);
            let a = analysed(items, db, exclude_utilities, policy)->Ok_0[i];
            let f = a.shape->Function_0;
            &&& rs_item(a) == function_item_by_rule(decls, db, policy, a.name, f)
            &&& cpp_item(a) == if wrapped_by_rule(decls, db, f) {
                Some(wrapper_by_rule(decls, db, a.name, f))
            } else {
                None::<CppItemView>
            }
            &&& !f.variadic
            &&& a.plan->Some_0.kind == if wrapped_by_rule(decls, db, f) {
                Materialization::SynthesizedWrapper
            } else {
                Materialization::DirectPassthrough
            }
        }),
{
    let decls = flat_decls(items, Seq::empty(), exclude_utilities);
    let a = analysed(items, db, exclude_utilities, policy)->Ok_0[i];
    let f = a.shape->Function_0;
    let reg = registry_of(items, db, exclude_utilities);
    let types = signature_types(f);
    lemma_analysed_plan(items, db, exclude_utilities, policy, i);
    let plan = planned(a.name, f, reg, policy)->Ok_0;
    lemma_first_from(
        0,
        types.len() as int,
        crate::conversion::analysis::fun::unresolved_test(reg, types),
    );
    assert(a.shape.mentions() =~= types.map_values(|t: TypeView| t.name));
    assert forall|k: int| 0 <= k < types.len() implies crossing_of(reg, #[trigger] types[k])
        == crossing_by_rule(decls, db, types[k]) by {
        assert(a.shape.mentions()[k] == types[k].name);
        lemma_analysed_mentions_known(items, db, exclude_utilities, policy, i, k);
    }
    assert(needs_wrapper(f, reg) == wrapped_by_rule(decls, db, f)) by {
        if needs_wrapper(f, reg) && f.role == FunctionRole::Plain {
            let k = choose|k: int|
                0 <= k < types.len() && crossing_of(reg, #[trigger] types[k])
                    == Crossing::Indirect;
            assert(crossing_by_rule(decls, db, types[k]) == Crossing::Indirect);
        }
        if wrapped_by_rule(decls, db, f) && f.role == FunctionRole::Plain {
            let k = choose|k: int|
                0 <= k < types.len() && crossing_by_rule(decls, db, #[trigger] types[k])
                    == Crossing::Indirect;
            assert(crossing_of(reg, types[k]) == Crossing::Indirect);
        }
    }
    assert(param_slots(f, Some(plan)) =~= params_by_rule(decls, db, f)) by {
        assert forall|k: int| 0 <= k < f.params.len() implies param_slots(f, Some(plan))[k]
            == params_by_rule(decls, db, f)[k] by {
            assert(types[k] == f.params[k].ty);
        }
    }
    match f.ret {
        Some(t) => {
            assert(types[f.params.len() as int] == t);
        },
        None => {},
    }
    assert(ret_slot(f, Some(plan)) == ret_by_rule(decls, db, f));
}

/// A function on the allow-list, in a successful conversion: the bridge
/// side binds it as the safety rule says. One that only passes by value what
/// may be passed by value, and neither constructs nor destroys, is bound to
/// itself, is safe to call, and has no wrapper on the native side. One that
/// passes or returns by value what needs indirection is bound to a wrapper
/// that the native side holds, which takes that value behind a pointer, and
/// is unsafe to call under the policy that marks wrappers.
pub proof fn lemma_root_function_generated(
    bindgen_mod: GroupingView,
    includes: Seq<Seq<char>>,
    db: DatabaseView,
    exclude_utilities: bool,
    policy: UnsafePolicy,
    inclusions: Seq<char>,
    name: Seq<char>,
)
    requires
        converted(bindgen_mod, includes, db, exclude_utilities, policy, inclusions) is Ok,
        db.is_root(name),
        first_decl(
            flat_decls(
                items_in_root(bindgen_mod.content->Some_0)->Ok_0,
                Seq::empty(),
                exclude_utilities,
            ),
            name,
        ) is Some,
        first_decl(
            flat_decls(
                items_in_root(bindgen_mod.content->Some_0)->Ok_0,
                Seq::empty(),
                exclude_utilities,
            ),
            name,
        )->Some_0.shape is Function,
    ensures
        ({
            let out = converted(
                bindgen_mod,
                includes,
                db,
                exclude_utilities,
                policy,
                inclusions,
            )->Ok_0;
            let decls = flat_decls(
                items_in_root(bindgen_mod.content->Some_0)->Ok_0,
                Seq::empty(),
                exclude_utilities,
            );
            let f = first_decl(decls, name)->Some_0.shape->Function_0;
            &&& out.rs.contains(function_item_by_rule(decls, db, policy, name, f))
            &&& if wrapped_by_rule(decls, db, f) {
                out.cpp is Some && out.cpp->Some_0.declarations.contains(
                    wrapper_by_rule(decls, db, name, f),
                )
            } else {
                out.cpp is Some ==> forall|j: int|
                    0 <= j < out.cpp->Some_0.declarations.len() ==> (
                    #[trigger] out.cpp->Some_0.declarations[j] matches CppItemView::Wrapper {
                        callee,
                        ..
                    } ==> callee != name)
            }
        }),
{
    let items = items_in_root(bindgen_mod.content->Some_0)->Ok_0;
    let decls = flat_decls(items, Seq::empty(), exclude_utilities);
    let model = analysed(items, db, exclude_utilities, policy)->Ok_0;
    lemma_analysed_tracks(items, db, exclude_utilities, policy);
    lemma_tracked_type(model, decls, db, name);
    lemma_first_index(api_names(model), name);
    let i = first_index(api_names(model), name).unwrap();
    assert(api_names(model)[i] == model[i].name);
    let r = choose|r: int| 0 <= r < db.allowlist.len() && db.allowlist[r] == name;
    lemma_reaches_self(model, db, name);
    assert(retained(model, db, model[i].name));
    lemma_function_by_rule(items, db, exclude_utilities, policy, i);
    lemma_reached_api_generated(
        bindgen_mod,
        includes,
        db,
        exclude_utilities,
        policy,
        inclusions,
        i,
    );
}

/// A record that a declaration on the allow-list mentions, in a successful
/// conversion: the bridge side holds it with its members where it may be
/// passed by value, and as an opaque type where it may not.
pub proof fn lemma_mentioned_record_generated(
    bindgen_mod: GroupingView,
    includes: Seq<Seq<char>>,
    db: DatabaseView,
    exclude_utilities: bool,
    policy: UnsafePolicy,
    inclusions: Seq<char>,
    root: Seq<char>,
    name: Seq<char>,
)
    requires
        converted(bindgen_mod, includes, db, exclude_utilities, policy, inclusions) is Ok,
        db.is_root(root),
        ({
            let decls = flat_decls(
                items_in_root(bindgen_mod.content->Some_0)->Ok_0,
                Seq::empty(),
                exclude_utilities,
            );
            &&& first_decl(decls, root) is Some
            &&& first_decl(decls, root)->Some_0.shape.mentions().contains(name)
            &&& first_decl(decls, name) is Some
            &&& first_decl(decls, name)->Some_0.shape is Record
        }),
    ensures
        ({
            let out = converted(
                bindgen_mod,
                includes,
                db,
                exclude_utilities,
                policy,
                inclusions,
            )->Ok_0;
            let decls = flat_decls(
                items_in_root(bindgen_mod.content->Some_0)->Ok_0,
                Seq::empty(),
                exclude_utilities,
            );
            let record = first_decl(decls, name)->Some_0.shape->Record_0;
            out.rs.contains(
                if by_value_safe(decls, db, name) {
                    RsItemView::Struct { name, fields: record.members }
                } else {
                    RsItemView::OpaqueType { name }
                },
            )
        }),
{
    let items = items_in_root(bindgen_mod.content->Some_0)->Ok_0;
    let decls = flat_decls(items, Seq::empty(), exclude_utilities);
    let model = analysed(items, db, exclude_utilities, policy)->Ok_0;
    lemma_analysed_tracks(items, db, exclude_utilities, policy);
    lemma_tracked_type(model, decls, db, root);
    lemma_tracked_type(model, decls, db, name);
    lemma_first_index(api_names(model), root);
    lemma_first_index(api_names(model), name);
    let i = first_index(api_names(model), name).unwrap();
    assert(api_names(model)[i] == model[i].name);
    let r = choose|r: int| 0 <= r < db.allowlist.len() && db.allowlist[r] == root;
    lemma_pruned_roots_satisfiable(model, db, r);
    lemma_reaches_self(model, db, root);
    assert(depends_on(model, root, name));
    lemma_reaches_step(model, db, root, root, name);
    assert(retained(model, db, model[i].name));
    lemma_reached_api_generated(
        bindgen_mod,
        includes,
        db,
        exclude_utilities,
        policy,
        inclusions,
        i,
    );
}

/// A record whose members all have primitive types that nothing declares
/// may be passed by value, unless the user said otherwise or the record
/// declares a special member of its own.
pub proof fn lemma_plain_record_safe(decls: Seq<DeclView>, db: DatabaseView, name: Seq<char>)
    requires
        first_decl(decls, name) is Some,
        first_decl(decls, name)->Some_0.shape is Record,
        !db.asserts(first_decl(decls, name)->Some_0.name, false),
        !first_decl(decls, name)->Some_0.shape->Record_0.special.any(),
        forall|m: int|
            0 <= m < first_decl(decls, name)->Some_0.shape->Record_0.members.len() ==> {
                let t = (#[trigger] first_decl(decls, name)->Some_0.shape->Record_0.members[m]).ty;
                is_primitive_name(t.name) && first_decl(decls, t.name) is None
            },
    ensures
        by_value_safe(decls, db, name),
{
    let d = first_decl(decls, name)->Some_0;
    let r = d.shape->Record_0;
    assert forall|m: int| 0 <= m < r.members.len() implies safe_within(
        decls,
        db,
        (#[trigger] r.members[m]).ty.name,
        0,
    ) by {}
    assert(decl_safe_within(decls, db, d, 1));
    assert(safe_within(decls, db, name, 1));
}

/// A record that declares a special member of its own, that the user
/// declared unsafe, or that has a member whose type needs indirection,
/// needs indirection.
pub proof fn lemma_guarded_record_unsafe(
    decls: Seq<DeclView>,
    db: DatabaseView,
    name: Seq<char>,
    m: int,
)
    requires
        first_decl(decls, name) is Some,
        first_decl(decls, name)->Some_0.shape is Record,
        ({
            let d = first_decl(decls, name)->Some_0;
            let r = d.shape->Record_0;
            ||| r.special.any()
            ||| db.asserts(d.name, false)
            ||| 0 <= m < r.members.len() && !by_value_safe(decls, db, r.members[m].ty.name)
        }),
    ensures
        !by_value_safe(decls, db, name),
{
    let d = first_decl(decls, name)->Some_0;
    let r = d.shape->Record_0;
    lemma_by_value_safe_unfold(decls, db, name);
    if decl_safe(decls, db, d) {
        if 0 <= m < r.members.len() {
            lemma_safe_record_has_safe_members(decls, db, d, m);
        } else {
            let depth = choose|depth: nat| decl_safe_within(decls, db, d, depth);
            assert(!r.special.any() && !db.asserts(d.name, false));
        }
    }
}

/// A symbol of the allow-list that is lost ends the conversion: where the
/// analyses succeed and the symbol cannot be generated, nothing is
/// generated, and the failure is that of a symbol that cannot be generated.
pub proof fn lemma_lost_root_fails(
    items: Seq<ItemView>,
    db: DatabaseView,
    exclude_utilities: bool,
    policy: UnsafePolicy,
    r: int,
)
    requires
        analysed(items, db, exclude_utilities, policy) is Ok,
        0 <= r < db.allowlist.len(),
        unsatisfiable(analysed(items, db, exclude_utilities, policy)->Ok_0, db, db.allowlist[r]),
    ensures
        final_model(items, db, exclude_utilities, policy) is Err,
        final_model(items, db, exclude_utilities, policy)->Err_0 is UnsatisfiableRoot,
{
    lemma_unsatisfiable_root_fails(analysed(items, db, exclude_utilities, policy)->Ok_0, db, r);
}

/// In the analysed model a symbol cannot be generated for one of three
/// reasons only: nothing declares it, it is excluded, or it reaches a
/// declaration that is excluded.
pub proof fn lemma_unsatisfiable_means(
    items: Seq<ItemView>,
    db: DatabaseView,
    exclude_utilities: bool,
    policy: UnsafePolicy,
    root: Seq<char>,
)
    requires
        analysed(items, db, exclude_utilities, policy) is Ok,
    ensures
        ({
            let model = analysed(items, db, exclude_utilities, policy)->Ok_0;
            unsatisfiable(model, db, root) == (!api_names(model).contains(root) || exists|
                n: Seq<char>,
            |
                #[trigger] reaches(model, db, root, n) && api_names(model).contains(n)
                    && db.is_excluded(n))
        }),
{
    let model = analysed(items, db, exclude_utilities, policy)->Ok_0;
    let names = api_names(model);
    lemma_first_index(names, root);
    lemma_reaches_self(model, db, root);
    if unsatisfiable(model, db, root) && names.contains(root) {
        if !usable(model, db, root) {
            assert(reaches(model, db, root, root) && db.is_excluded(root));
        } else {
            let n = choose|n: Seq<char>|
                #[trigger] reaches(model, db, root, n) && broken(model, db, n);
            lemma_first_index(names, n);
            lemma_reaches_last_step(model, db, root, n);
            if n != root {
                let a = choose|a: Seq<char>|
                    #[trigger] reaches(model, db, root, a) && usable(model, db, a) && depends_on(
                        model,
                        a,
                        n,
                    );
                lemma_first_index(names, a);
                let i = first_index(names, a).unwrap();
                let m = choose|m: int| 0 <= m < model[i].deps().len() && model[i].deps()[m] == n;
                lemma_analysed_mentions_known(items, db, exclude_utilities, policy, i, m);
            }
            assert(names.contains(n) && db.is_excluded(n));
        }
    }
    if exists|n: Seq<char>|
        #[trigger] reaches(model, db, root, n) && names.contains(n) && db.is_excluded(n) {
        let n = choose|n: Seq<char>|
            #[trigger] reaches(model, db, root, n) && names.contains(n) && db.is_excluded(n);
        lemma_first_index(names, n);
        assert(broken(model, db, n));
    }
}

/// Whether the analyses owe success: no claim of safety is wrong, no
/// declaration contradicts an earlier one, every mentioned type is primitive
/// or declared as a type, no function is variadic, and under the policy that
/// exposes wrappers as safe no wrapped function passes a raw pointer.
pub open spec fn analysis_owed(
    items: Seq<ItemView>,
    db: DatabaseView,
    exclude_utilities: bool,
    policy: UnsafePolicy,
) -> bool {
    let decls = flat_decls(items, Seq::empty(), exclude_utilities);
    &&& forall|i: int| 0 <= i < decls.len() ==> !contradicted(decls, db, i)
    &&& forall|j: int| 0 <= j < decls.len() ==> !conflicts_at(decls, j)
    &&& forall|i: int, m: int|
        0 <= i < firsts(decls).len() && 0 <= m < firsts(decls)[i].shape.mentions().len()
            ==> known_type(decls, #[trigger] firsts(decls)[i].shape.mentions()[m])
    &&& forall|i: int|
        0 <= i < firsts(decls).len() ==> supported(decls, db, policy, #[trigger] firsts(decls)[i])
}

/// Whether `name` is that of a primitive or of a declared type.
pub open spec fn known_type(decls: Seq<DeclView>, name: Seq<char>) -> bool {
    is_primitive_name(name) || match first_decl(decls, name) {
        Some(d) => d.shape.is_type(),
        None => false,
    }
}

/// Whether a wrapper strategy covers the declaration: it is no function, or
/// a function that is not variadic and that, where wrappers are exposed as
/// safe and it is wrapped, passes no raw pointer.
pub open spec fn supported(
    decls: Seq<DeclView>,
    db: DatabaseView,
    policy: UnsafePolicy,
    d: DeclView,
) -> bool {
    match d.shape {
        ShapeView::Function(f) => !f.variadic && !(policy == UnsafePolicy::AllSafe
            && wrapped_by_rule(decls, db, f) && has_pointer(signature_types(f))),
        _ => true,
    }
}

/// Where the claims hold and nothing conflicts, the registry holds the
/// verdict of the safety rule for every mentioned type that is primitive or
/// declared as a type.
pub proof fn lemma_known_tag(
    items: Seq<ItemView>,
    db: DatabaseView,
    exclude_utilities: bool,
    i: int,
    m: int,
)
    requires
        parsed(items, exclude_utilities) is Ok,
        identified(flat_decls(items, Seq::empty(), exclude_utilities), db) is Ok,
        0 <= i < firsts(flat_decls(items, Seq::empty(), exclude_utilities)).len(),
        0 <= m < firsts(
            flat_decls(items, Seq::empty(), exclude_utilities),
        )[i].shape.mentions().len(),
        known_type(
            flat_decls(items, Seq::empty(), exclude_utilities),
            firsts(flat_decls(items, Seq::empty(), exclude_utilities))[i].shape.mentions()[m],
        ),
    ensures
        ({
            let decls = flat_decls(items, Seq::empty(), exclude_utilities);
            let d = firsts(decls)[i].shape.mentions()[m];
            registry_of(items, db, exclude_utilities).tag(d) == if by_value_safe(decls, db, d) {
                Safety::ByValueSafe
            } else {
                Safety::RequiresIndirection
            }
        }),
{
    let decls = flat_decls(items, Seq::empty(), exclude_utilities);
    let model = model_of(decls);
    let d = firsts(decls)[i].shape.mentions()[m];
    assert(model[i] == fresh_api(firsts(decls)[i]));
    lemma_all_registrations(model, i);
    assert(all_registrations(model).contains(model[i].shape.mentions()[m]));
    lemma_pipeline_tag(items, db, exclude_utilities, d);
    if !is_primitive_name(d) {
        lemma_firsts(decls, d);
        assert(api_names(model) =~= decl_names(firsts(decls)));
        lemma_first_index(decl_names(decls), d);
        let k = first_index(api_names(model), d).unwrap();
        assert(model[k] == fresh_api(firsts(decls)[k]));
        assert(is_type_api(model, d));
    }
}

/// Success is owed by the analyses wherever `analysis_owed` holds.
pub proof fn lemma_analysis_owed(
    items: Seq<ItemView>,
    db: DatabaseView,
    exclude_utilities: bool,
    policy: UnsafePolicy,
)
    requires
        analysis_owed(items, db, exclude_utilities, policy),
    ensures
        analysed(items, db, exclude_utilities, policy) is Ok,
{
    let decls = flat_decls(items, Seq::empty(), exclude_utilities);
    assert forall|k: int| 0 <= k < decls.len() implies !(#[trigger] contradiction_test(decls, db)(
        k,
    )) by {
        assert(!contradicted(decls, db, k));
    }
    lemma_first_such_none(decls.len() as int, contradiction_test(decls, db));
    assert forall|k: int| 0 <= k < decls.len() implies !(#[trigger] conflict_test(decls)(k)) by {
        assert(!conflicts_at(decls, k));
    }
    lemma_first_such_none(decls.len() as int, conflict_test(decls));
    assert(identified(decls, db) is Ok);
    assert(merged(decls) is Ok);
    assert(parsed(items, exclude_utilities) is Ok);
    let checker = identified(decls, db)->Ok_0;
    let start = parsed(items, exclude_utilities)->Ok_0.apis;
    assert(start == model_of(decls));
    let m1 = pod_analysed(start, checker);
    let reg = registry_of(items, db, exclude_utilities);
    assert forall|i: int| 0 <= i < m1.len() implies !(#[trigger] unknown_test(m1, reg)(i)) by {
        assert(start[i] == fresh_api(firsts(decls)[i]));
        assert(m1[i] == analysed_api(start[i], checker));
        let names = m1[i].shape.mentions();
        assert forall|m: int| 0 <= m < names.len() implies !(#[trigger] unresolved_name_test(
            reg,
            names,
        )(m)) by {
            assert(known_type(decls, firsts(decls)[i].shape.mentions()[m]));
            lemma_known_tag(items, db, exclude_utilities, i, m);
        }
        lemma_first_such_none(names.len() as int, unresolved_name_test(reg, names));
    }
    lemma_first_such_none(m1.len() as int, unknown_test(m1, reg));
    assert(pod_checked(m1, reg) == Ok::<Seq<ApiView>, ErrorView>(m1));
    assert forall|i: int| 0 <= i < m1.len() implies !(#[trigger] failure_test(m1, reg, policy)(
        i,
    )) by {
        assert(start[i] == fresh_api(firsts(decls)[i]));
        assert(m1[i] == analysed_api(start[i], checker));
        assert(supported(decls, db, policy, firsts(decls)[i]));
        match m1[i].shape {
            ShapeView::Function(f) => {
                let types = signature_types(f);
                assert(m1[i].shape.mentions() =~= types.map_values(|t: TypeView| t.name));
                assert forall|k: int| 0 <= k < types.len() implies reg.tag(
                    (#[trigger] types[k]).name,
                ) != Safety::PendingAnalysis && crossing_of(reg, types[k]) == crossing_by_rule(
                    decls,
                    db,
                    types[k],
                ) by {
                    assert(m1[i].shape.mentions()[k] == types[k].name);
                    assert(known_type(decls, firsts(decls)[i].shape.mentions()[k]));
                    lemma_known_tag(items, db, exclude_utilities, i, k);
                }
                assert forall|k: int| 0 <= k < types.len() implies !(#[trigger] unresolved_test(
                    reg,
                    types,
                )(k)) by {
                    assert(reg.tag(types[k].name) != Safety::PendingAnalysis);
                }
                lemma_first_such_none(types.len() as int, unresolved_test(reg, types));
                if needs_wrapper(f, reg) && f.role == FunctionRole::Plain {
                    let k = choose|k: int|
                        0 <= k < types.len() && crossing_of(reg, #[trigger] types[k])
                            == Crossing::Indirect;
                    assert(crossing_by_rule(decls, db, types[k]) == Crossing::Indirect);
                }
                assert(needs_wrapper(f, reg) ==> wrapped_by_rule(decls, db, f));
                assert(planned(m1[i].name, f, reg, policy) is Ok);
            },
            _ => {},
        }
    }
    lemma_first_such_none(m1.len() as int, failure_test(m1, reg, policy));
}

/// Success is owed by the conversion wherever the module has a body that
/// unwraps, the analyses owe success, and every symbol of the allow-list
/// can be generated.
pub proof fn lemma_conversion_owed(
    bindgen_mod: GroupingView,
    includes: Seq<Seq<char>>,
    db: DatabaseView,
    exclude_utilities: bool,
    policy: UnsafePolicy,
    inclusions: Seq<char>,
)
    requires
        bindgen_mod.content is Some,
        items_in_root(bindgen_mod.content->Some_0) is Ok,
        analysis_owed(
            items_in_root(bindgen_mod.content->Some_0)->Ok_0,
            db,
            exclude_utilities,
            policy,
        ),
        forall|r: int|
            0 <= r < db.allowlist.len() ==> !unsatisfiable(
                analysed(
                    items_in_root(bindgen_mod.content->Some_0)->Ok_0,
                    db,
                    exclude_utilities,
                    policy,
                )->Ok_0,
                db,
                #[trigger] db.allowlist[r],
            ),
    ensures
        converted(bindgen_mod, includes, db, exclude_utilities, policy, inclusions) is Ok,
{
    let items = items_in_root(bindgen_mod.content->Some_0)->Ok_0;
    lemma_analysis_owed(items, db, exclude_utilities, policy);
    let model = analysed(items, db, exclude_utilities, policy)->Ok_0;
    let test = unsatisfiable_test(model, db);
    assert forall|r: int| 0 <= r < db.allowlist.len() implies !(#[trigger] test(r)) by {
        assert(!unsatisfiable(model, db, db.allowlist[r]));
    }
    lemma_first_such_none(db.allowlist.len() as int, test);
}

/// The first symbol of the allow-list that cannot be generated is the one
/// the failure names, where the analyses succeed.
pub proof fn lemma_first_lost_root_named(
    items: Seq<ItemView>,
    db: DatabaseView,
    exclude_utilities: bool,
    policy: UnsafePolicy,
    r: int,
)
    requires
        analysed(items, db, exclude_utilities, policy) is Ok,
        0 <= r < db.allowlist.len(),
        unsatisfiable(analysed(items, db, exclude_utilities, policy)->Ok_0, db, db.allowlist[r]),
        forall|x: int|
            0 <= x < r ==> !unsatisfiable(
                analysed(items, db, exclude_utilities, policy)->Ok_0,
                db,
                #[trigger] db.allowlist[x],
            ),
    ensures
        final_model(items, db, exclude_utilities, policy) == Err::<Seq<ApiView>, ErrorView>(
            ErrorView::UnsatisfiableRoot { root: db.allowlist[r] },
        ),
{
    let model = analysed(items, db, exclude_utilities, policy)->Ok_0;
    let test = unsatisfiable_test(model, db);
    assert(test(r));
    assert forall|x: int| 0 <= x < r implies !(#[trigger] test(x)) by {
        assert(!unsatisfiable(model, db, db.allowlist[x]));
    }
    lemma_first_such_is(db.allowlist.len() as int, test, r);
}

/// Declarations that contradict each other end the conversion: nothing is
/// generated, and where no claim of safety is wrong the failure is the
/// conflict.
pub proof fn lemma_conflict_fails(
    items: Seq<ItemView>,
    db: DatabaseView,
    exclude_utilities: bool,
    policy: UnsafePolicy,
    j: int,
)
    requires
        0 <= j < flat_decls(items, Seq::empty(), exclude_utilities).len(),
        conflicts_at(flat_decls(items, Seq::empty(), exclude_utilities), j),
    ensures
        analysed(items, db, exclude_utilities, policy) is Err,
        final_model(items, db, exclude_utilities, policy) is Err,
        identified(flat_decls(items, Seq::empty(), exclude_utilities), db) is Ok ==> analysed(
            items,
            db,
            exclude_utilities,
            policy,
        )->Err_0 is DuplicateDeclarationConflict,
{
    let decls = flat_decls(items, Seq::empty(), exclude_utilities);
    assert(conflict_test(decls)(j));
    lemma_first_from(0, decls.len() as int, conflict_test(decls));
    assert(merged(decls) is Err);
}

/// A symbol of the allow-list that cannot be kept never goes missing in
/// silence: a conversion whose analysed model cannot generate the symbol
/// fails, and it fails as a symbol that cannot be generated wherever the
/// module unwraps and the analyses succeed.
pub proof fn lemma_lost_root_never_converts(
    bindgen_mod: GroupingView,
    includes: Seq<Seq<char>>,
    db: DatabaseView,
    exclude_utilities: bool,
    policy: UnsafePolicy,
    inclusions: Seq<char>,
    r: int,
)
    requires
        0 <= r < db.allowlist.len(),
        bindgen_mod.content is Some && items_in_root(bindgen_mod.content->Some_0) is Ok
            && analysed(
            items_in_root(bindgen_mod.content->Some_0)->Ok_0,
            db,
            exclude_utilities,
            policy,
        ) is Ok ==> unsatisfiable(
            analysed(
                items_in_root(bindgen_mod.content->Some_0)->Ok_0,
                db,
                exclude_utilities,
                policy,
            )->Ok_0,
            db,
            db.allowlist[r],
        ),
    ensures
        converted(bindgen_mod, includes, db, exclude_utilities, policy, inclusions) is Err,
        bindgen_mod.content is Some && items_in_root(bindgen_mod.content->Some_0) is Ok
            && analysed(
            items_in_root(bindgen_mod.content->Some_0)->Ok_0,
            db,
            exclude_utilities,
            policy,
        ) is Ok ==> converted(
            bindgen_mod,
            includes,
            db,
            exclude_utilities,
            policy,
            inclusions,
        )->Err_0 is UnsatisfiableRoot,
{
    if bindgen_mod.content is Some && items_in_root(bindgen_mod.content->Some_0) is Ok {
        let items = items_in_root(bindgen_mod.content->Some_0)->Ok_0;
        if analysed(items, db, exclude_utilities, policy) is Ok {
            lemma_lost_root_fails(items, db, exclude_utilities, policy, r);
        }
    }
}

} // verus!
