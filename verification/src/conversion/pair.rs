//! The smallest module that exercises every stage: a root that declares one
//! record and one function that takes it. What the conversion makes of it
//! is worked out here in full, for every such module.

use vstd::prelude::*;
use crate::UnsafePolicy;
use crate::bindings::FunctionRole;
use crate::bindings::FunctionView;
use crate::bindings::Passing;
use crate::bindings::RecordView;
use crate::bindings::TypeView;
use crate::conversion::analysis::fun::signature_types;
use crate::conversion::analysis::gc::depends_on;
use crate::conversion::analysis::gc::lemma_satisfiable_within;
use crate::conversion::parse::item_decls;
use crate::conversion::utilities::is_utility_name;
use crate::names::root_name;
use crate::names::lemma_first_index_unique;
use crate::names::qualify;
use crate::conversion::analysis::gc::broken;
use crate::conversion::analysis::fun::has_pointer;
use crate::conversion::analysis::pod::contradicted;
use crate::conversion::parse::conflicts_at;
use crate::conversion::analysis::gc::unsatisfiable;
use crate::conversion::analysis::gc::usable;
use crate::conversion::api::Crossing;
use crate::conversion::api::ShapeView;
use crate::conversion::api::SlotView;
use crate::conversion::api::wrapper_name;
use crate::conversion::codegen_cpp::CppItemView;
use crate::conversion::codegen_rs::RsItemView;
use crate::bindings::GroupingView;
use crate::bindings::ItemView;
use crate::conversion::analysed;
use crate::conversion::converted;
use crate::conversion::items_in_root;
use crate::conversion::analysis::pod::by_value_safe;
use crate::conversion::analysis::pod::decl_safe;
use crate::conversion::analysis::pod::lemma_by_value_safe_unfold;
use crate::conversion::api::DeclView;
use crate::conversion::api::ErrorView;
use crate::conversion::api::api_names;
use crate::conversion::api::decl_names;
use crate::conversion::api::first_decl;
use crate::conversion::parse::firsts;
use crate::conversion::parse::flat_decls;
use crate::names::is_primitive_name;
use crate::names::first_index;
use crate::names::lemma_first_index;
use crate::type_database::DatabaseView;
use crate::conversion::guarantees::analysis_owed;
use crate::conversion::guarantees::known_type;
use crate::conversion::guarantees::supported;
use crate::conversion::guarantees::wrapped_by_rule;
use crate::conversion::guarantees::crossing_by_rule;
use crate::conversion::guarantees::params_by_rule;
use crate::conversion::guarantees::ret_by_rule;
use crate::conversion::guarantees::lemma_analysis_owed;
use crate::conversion::guarantees::lemma_conversion_owed;
use crate::conversion::guarantees::lemma_root_function_generated;
use crate::conversion::guarantees::lemma_mentioned_record_generated;
use crate::conversion::guarantees::lemma_plain_record_safe;
use crate::conversion::guarantees::lemma_guarded_record_unsafe;
use crate::conversion::guarantees::lemma_analysed_tracks;

verus! {

/// Whether `t` is a primitive type passed by value, under a name that
/// neither `a` nor `b` is.
pub open spec fn plain_value(t: TypeView, a: Seq<char>, b: Seq<char>) -> bool {
    t.passing == Passing::ByValue && is_primitive_name(t.name) && t.name != a && t.name != b
}

/// A record whose members have primitive types, and a plain function that
/// takes the record by value and returns nothing or a primitive. The
/// function is the one symbol on the allow-list; neither declaration is
/// excluded or a helper that is left out, and the user does not claim the
/// record safe where it is not.
pub open spec fn record_and_function(
    db: DatabaseView,
    exclude_utilities: bool,
    record: RecordView,
    function: FunctionView,
) -> bool {
    &&& record.name != function.name
    &&& exclude_utilities ==> !is_utility_name(record.name) && !is_utility_name(function.name)
    &&& forall|m: int|
        0 <= m < record.members.len() ==> is_primitive_name(
            (#[trigger] record.members[m]).ty.name,
        ) && record.members[m].ty.name != record.name && record.members[m].ty.name
            != function.name
    &&& (record.special.any() || db.asserts(record.name, false)) ==> !db.asserts(
        record.name,
        true,
    )
    &&& function.params.len() == 1
    &&& function.params[0].ty == (TypeView { name: record.name, passing: Passing::ByValue })
    &&& match function.ret {
        Some(t) => plain_value(t, record.name, function.name),
        None => true,
    }
    &&& function.role == FunctionRole::Plain
    &&& !function.variadic
    &&& db.allowlist == seq![function.name]
    &&& !db.is_excluded(function.name)
    &&& !db.is_excluded(record.name)
}

/// The items of a root that declares a record and then a function.
pub open spec fn pair_items(record: RecordView, function: FunctionView) -> Seq<ItemView> {
    seq![ItemView::Record(record), ItemView::Function(function)]
}

/// The declarations of such a root.
pub open spec fn pair_decls(record: RecordView, function: FunctionView) -> Seq<DeclView> {
    seq![
        DeclView { name: record.name, shape: ShapeView::Record(record) },
        DeclView { name: function.name, shape: ShapeView::Function(function) },
    ]
}

/// Whether the record of such a pair may be passed by value.
pub open spec fn pair_safe(db: DatabaseView, record: RecordView) -> bool {
    !record.special.any() && !db.asserts(record.name, false)
}

/// A root that declares a record and then a function has these two
/// declarations and no other.
pub proof fn lemma_pair_declarations(
    exclude_utilities: bool,
    record: RecordView,
    function: FunctionView,
)
    requires
        exclude_utilities ==> !is_utility_name(record.name) && !is_utility_name(function.name),
    ensures
        flat_decls(pair_items(record, function), Seq::empty(), exclude_utilities) == pair_decls(
            record,
            function,
        ),
{
    let items = pair_items(record, function);
    let da = DeclView { name: record.name, shape: ShapeView::Record(record) };
    let df = DeclView { name: function.name, shape: ShapeView::Function(function) };
    let one = seq![ItemView::Record(record)];
    assert(items.drop_last() =~= one);
    assert(one.drop_last() =~= Seq::<ItemView>::empty());
    assert(qualify(Seq::empty(), record.name) == record.name);
    assert(qualify(Seq::empty(), function.name) == function.name);
    assert(item_decls(items.last(), Seq::empty(), exclude_utilities) =~= seq![df]);
    assert(item_decls(one.last(), Seq::empty(), exclude_utilities) =~= seq![da]);
    assert(flat_decls(Seq::<ItemView>::empty(), Seq::empty(), exclude_utilities)
        =~= Seq::<DeclView>::empty());
    assert(flat_decls(one, Seq::empty(), exclude_utilities) =~= seq![da]);
    assert(flat_decls(items, Seq::empty(), exclude_utilities) =~= seq![da, df]);
}

/// Among the declarations of a record and a function of different names,
/// each is the first of its name, and nothing else is declared.
pub proof fn lemma_pair_lookup(record: RecordView, function: FunctionView, n: Seq<char>)
    requires
        record.name != function.name,
    ensures
        firsts(pair_decls(record, function)) == pair_decls(record, function),
        first_decl(pair_decls(record, function), n) == if n == record.name {
            Some(pair_decls(record, function)[0])
        } else if n == function.name {
            Some(pair_decls(record, function)[1])
        } else {
            None::<DeclView>
        },
{
    let decls = pair_decls(record, function);
    let names = decl_names(decls);
    assert(names =~= seq![record.name, function.name]);
    lemma_first_index(names, n);
    if n == record.name {
        lemma_first_index_unique(names, n, 0);
    } else if n == function.name {
        lemma_first_index_unique(names, n, 1);
    }
    let one = seq![decls[0]];
    assert(decls.drop_last() =~= one);
    assert(one.drop_last() =~= Seq::<DeclView>::empty());
    assert(decl_names(Seq::<DeclView>::empty()) =~= Seq::<Seq<char>>::empty());
    assert(firsts(Seq::<DeclView>::empty()) =~= Seq::<DeclView>::empty());
    assert(firsts(one) =~= one);
    assert(decl_names(one) =~= seq![record.name]);
    assert(!decl_names(one).contains(function.name));
    assert(firsts(decls) =~= decls);
}

/// What the safety rule says of such a pair: the record may be passed by
/// value exactly if it declares no special member and the user did not
/// declare it unsafe, and the function is wrapped exactly if it may not.
pub proof fn lemma_pair_by_rule(
    db: DatabaseView,
    exclude_utilities: bool,
    record: RecordView,
    function: FunctionView,
)
    requires
        record_and_function(db, exclude_utilities, record, function),
    ensures
        by_value_safe(pair_decls(record, function), db, record.name) == pair_safe(db, record),
        decl_safe(pair_decls(record, function), db, pair_decls(record, function)[0]) == pair_safe(
            db,
            record,
        ),
        wrapped_by_rule(pair_decls(record, function), db, function) == !pair_safe(db, record),
        !has_pointer(signature_types(function)),
        params_by_rule(pair_decls(record, function), db, function) == seq![
            SlotView {
                name: function.params[0].name,
                ty: function.params[0].ty,
                crossing: if pair_safe(db, record) {
                    Crossing::AsDeclared
                } else {
                    Crossing::Indirect
                },
            },
        ],
        ret_by_rule(pair_decls(record, function), db, function) == match function.ret {
            Some(t) => Some(SlotView { name: Seq::empty(), ty: t, crossing: Crossing::AsDeclared }),
            None => None::<SlotView>,
        },
        forall|k: int|
            0 <= k < signature_types(function).len() ==> known_type(
                pair_decls(record, function),
                (#[trigger] signature_types(function)[k]).name,
            ),
{
    let decls = pair_decls(record, function);
    let a = record.name;
    lemma_pair_lookup(record, function, a);
    assert forall|m: int| 0 <= m < record.members.len() implies first_decl(
        decls,
        (#[trigger] record.members[m]).ty.name,
    ) is None by {
        lemma_pair_lookup(record, function, record.members[m].ty.name);
    }
    let safe = pair_safe(db, record);
    if safe {
        lemma_plain_record_safe(decls, db, a);
    } else {
        lemma_guarded_record_unsafe(decls, db, a, -1);
    }
    lemma_by_value_safe_unfold(decls, db, a);
    let types = signature_types(function);
    assert(types[0] == function.params[0].ty);
    match function.ret {
        Some(t) => {
            assert(types =~= seq![function.params[0].ty, t]);
            lemma_pair_lookup(record, function, t.name);
            lemma_by_value_safe_unfold(decls, db, t.name);
        },
        None => {
            assert(types =~= seq![function.params[0].ty]);
        },
    }
    assert(forall|k: int|
        0 <= k < types.len() ==> (#[trigger] types[k]).passing == Passing::ByValue);
    if !safe {
        assert(crossing_by_rule(decls, db, types[0]) == Crossing::Indirect);
    }
    if wrapped_by_rule(decls, db, function) {
        let k = choose|k: int|
            0 <= k < types.len() && crossing_by_rule(decls, db, #[trigger] types[k])
                == Crossing::Indirect;
        assert(k == 0);
    }
    assert(params_by_rule(decls, db, function) =~= seq![
        SlotView {
            name: function.params[0].name,
            ty: function.params[0].ty,
            crossing: if safe {
                Crossing::AsDeclared
            } else {
                Crossing::Indirect
            },
        },
    ]);
}

/// The analyses owe success on such a pair.
pub proof fn lemma_pair_analysis_owed(
    db: DatabaseView,
    exclude_utilities: bool,
    policy: UnsafePolicy,
    record: RecordView,
    function: FunctionView,
)
    requires
        record_and_function(db, exclude_utilities, record, function),
    ensures
        analysis_owed(pair_items(record, function), db, exclude_utilities, policy),
{
    let items = pair_items(record, function);
    let decls = pair_decls(record, function);
    lemma_pair_declarations(exclude_utilities, record, function);
    lemma_pair_lookup(record, function, record.name);
    lemma_pair_by_rule(db, exclude_utilities, record, function);
    let types = signature_types(function);
    assert forall|i: int| 0 <= i < decls.len() implies !contradicted(decls, db, i) by {}
    assert forall|j: int| 0 <= j < decls.len() implies !conflicts_at(decls, j) by {}
    assert forall|i: int, m: int|
        0 <= i < firsts(decls).len() && 0 <= m < firsts(decls)[i].shape.mentions().len()
            implies known_type(decls, #[trigger] firsts(decls)[i].shape.mentions()[m]) by {
        if i == 0 {
            assert(decls[0].shape.mentions()[m] == record.members[m].ty.name);
        } else {
            assert(decls[1].shape.mentions() =~= types.map_values(|t: TypeView| t.name));
            assert(decls[1].shape.mentions()[m] == types[m].name);
        }
    }
    assert forall|i: int| 0 <= i < firsts(decls).len() implies supported(
        decls,
        db,
        policy,
        #[trigger] firsts(decls)[i],
    ) by {}
}

/// The function of such a pair can be generated.
pub proof fn lemma_pair_root_satisfiable(
    db: DatabaseView,
    exclude_utilities: bool,
    policy: UnsafePolicy,
    record: RecordView,
    function: FunctionView,
)
    requires
        record_and_function(db, exclude_utilities, record, function),
        analysed(pair_items(record, function), db, exclude_utilities, policy) is Ok,
    ensures
        !unsatisfiable(
            analysed(pair_items(record, function), db, exclude_utilities, policy)->Ok_0,
            db,
            function.name,
        ),
{
    let a = record.name;
    let f = function.name;
    let items = pair_items(record, function);
    let decls = pair_decls(record, function);
    let model = analysed(items, db, exclude_utilities, policy)->Ok_0;
    let types = signature_types(function);
    lemma_pair_declarations(exclude_utilities, record, function);
    lemma_pair_lookup(record, function, a);
    lemma_analysed_tracks(items, db, exclude_utilities, policy);
    assert(model.len() == 2);
    assert(model[0].name == a && model[1].name == f);
    assert(model[0].shape == ShapeView::Record(record));
    assert(model[1].shape == ShapeView::Function(function));
    assert(api_names(model) =~= seq![a, f]);
    lemma_first_index_unique(api_names(model), a, 0);
    lemma_first_index_unique(api_names(model), f, 1);
    let within = Set::new(|n: Seq<char>| n == a || n == f || is_primitive_name(n));
    assert forall|x: Seq<char>, y: Seq<char>|
        within.contains(x) && usable(model, db, x) && #[trigger] depends_on(
            model,
            x,
            y,
        ) implies within.contains(y) by {
        lemma_first_index(api_names(model), x);
        let k = first_index(api_names(model), x).unwrap();
        let m = choose|m: int| 0 <= m < model[k].deps().len() && model[k].deps()[m] == y;
        if k == 0 {
            assert(model[0].deps()[m] == record.members[m].ty.name);
        } else {
            assert(model[1].deps() =~= types.map_values(|t: TypeView| t.name));
            assert(y == types[m].name);
            assert(types[0] == function.params[0].ty);
            if m > 0 {
                assert(types[m] == function.ret->Some_0);
            }
        }
    }
    assert forall|n: Seq<char>| within.contains(n) implies !broken(model, db, n) by {
        lemma_first_index(api_names(model), n);
    }
    lemma_satisfiable_within(model, db, f, within);
}

/// A module that declares one record and one function that takes it.
///
/// The root holds a record whose members have primitive types, and a plain
/// function that takes the record by value and returns nothing or a
/// primitive. The function is the one symbol on the allow-list; neither
/// declaration is excluded or a helper that is left out, and the user does
/// not claim the record safe where it is not. The conversion then succeeds,
/// under either policy.
///
/// Where the record declares no special member and the user did not declare
/// it unsafe, the bridge side holds the record with its members and binds
/// the function to itself, safe to call, with the record passed as
/// declared, and the native side holds no wrapper for the function.
///
/// Where the record declares a special member, a destructor say, or the
/// user declared it unsafe, the bridge side holds the record as an opaque
/// type and binds the function to its wrapper, with the record behind an
/// owning pointer, unsafe to call under the policy that marks wrappers; and
/// the native side holds that wrapper, which calls the function.
pub proof fn lemma_record_and_function_convert(
    bindgen_mod: GroupingView,
    includes: Seq<Seq<char>>,
    db: DatabaseView,
    exclude_utilities: bool,
    policy: UnsafePolicy,
    inclusions: Seq<char>,
    record: RecordView,
    function: FunctionView,
)
    requires
        bindgen_mod.content == Some(
            seq![
                ItemView::Grouping(
                    GroupingView {
                        name: root_name(),
                        content: Some(pair_items(record, function)),
                    },
                ),
            ],
        ),
        record_and_function(db, exclude_utilities, record, function),
    ensures
        converted(bindgen_mod, includes, db, exclude_utilities, policy, inclusions) is Ok,
        ({
            let out = converted(
                bindgen_mod,
                includes,
                db,
                exclude_utilities,
                policy,
                inclusions,
            )->Ok_0;
            let safe = pair_safe(db, record);
            let params = seq![
                SlotView {
                    name: function.params[0].name,
                    ty: function.params[0].ty,
                    crossing: if safe {
                        Crossing::AsDeclared
                    } else {
                        Crossing::Indirect
                    },
                },
            ];
            let ret = match function.ret {
                Some(t) => Some(
                    SlotView { name: Seq::empty(), ty: t, crossing: Crossing::AsDeclared },
                ),
                None => None::<SlotView>,
            };
            &&& out.rs.contains(
                RsItemView::Function {
                    name: function.name,
                    link_name: if safe {
                        function.name
                    } else {
                        wrapper_name(function.name)
                    },
                    params,
                    ret,
                    marked_unsafe: !safe && policy == UnsafePolicy::MarkedUnsafe,
                },
            )
            &&& out.rs.contains(
                if safe {
                    RsItemView::Struct { name: record.name, fields: record.members }
                } else {
                    RsItemView::OpaqueType { name: record.name }
                },
            )
            &&& if safe {
                out.cpp is Some ==> forall|j: int|
                    0 <= j < out.cpp->Some_0.declarations.len() ==> (
                    #[trigger] out.cpp->Some_0.declarations[j] matches CppItemView::Wrapper {
                        callee,
                        ..
                    } ==> callee != function.name)
            } else {
                out.cpp is Some && out.cpp->Some_0.declarations.contains(
                    CppItemView::Wrapper {
                        name: wrapper_name(function.name),
                        callee: function.name,
                        params,
                        ret,
                    },
                )
            }
        }),
{
    let a = record.name;
    let f = function.name;
    let items = pair_items(record, function);
    let decls = pair_decls(record, function);
    let outer = bindgen_mod.content->Some_0;
    assert(outer.len() == 1);
    assert(items_in_root(outer) == Ok::<Seq<ItemView>, ErrorView>(items));
    lemma_pair_declarations(exclude_utilities, record, function);
    lemma_pair_lookup(record, function, a);
    lemma_pair_lookup(record, function, f);
    lemma_pair_by_rule(db, exclude_utilities, record, function);
    lemma_pair_analysis_owed(db, exclude_utilities, policy, record, function);
    lemma_analysis_owed(items, db, exclude_utilities, policy);
    lemma_pair_root_satisfiable(db, exclude_utilities, policy, record, function);
    assert(db.allowlist[0] == f);
    lemma_conversion_owed(bindgen_mod, includes, db, exclude_utilities, policy, inclusions);
    assert(db.is_root(f));
    lemma_root_function_generated(
        bindgen_mod,
        includes,
        db,
        exclude_utilities,
        policy,
        inclusions,
        f,
    );
    assert(decls[1].shape.mentions()[0] == a);
    lemma_mentioned_record_generated(
        bindgen_mod,
        includes,
        db,
        exclude_utilities,
        policy,
        inclusions,
        f,
        a,
    );
}

} // verus!
