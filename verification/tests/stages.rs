use autocxx_engine::bindings::{
    FunctionRole, Passing, RawField, RawFunction, RawGrouping, RawItem, RawRecord, RawType,
    RawTypedef, SpecialMembers,
};
use autocxx_engine::conversion::analysis::ctypes::append_ctype_information;
use autocxx_engine::conversion::analysis::fun::{plan_function, FnAnalyzer};
use autocxx_engine::conversion::analysis::gc::filter_apis_by_following_edges_from_allowlist;
use autocxx_engine::conversion::analysis::pod::{
    analyze_pod_apis, classify_declarations, identify_byvalue_safe_types, ByValueChecker, Verdict,
};
use autocxx_engine::conversion::api::{
    find_api, find_declaration, make_wrapper_name, Api, CallPlan, ConvertError, Crossing,
    Declaration, Materialization, Safety, Shape,
};
use autocxx_engine::conversion::codegen_cpp::{clone_name_slice, CppCodeGenerator, CppItem};
use autocxx_engine::conversion::codegen_rs::{RsCodeGenerator, RsItem};
use autocxx_engine::conversion::parse::type_converter::{clone_uses, TypeConverter, UseAlias};
use autocxx_engine::conversion::parse::{flatten, merge, ParseBindgen};
use autocxx_engine::conversion::utilities::is_utility;
use autocxx_engine::flags::unset_flags;
use autocxx_engine::names::{
    clone_names, contains_name, is_primitive, position_of_name, qualified, same_name,
    type_name_from_path,
};
use autocxx_engine::type_database::{SafetyAssertion, TypeDatabase};
use autocxx_engine::UnsafePolicy;

fn s(text: &str) -> String {
    text.to_string()
}

fn ty(name: &str) -> RawType {
    RawType { name: s(name), passing: Passing::ByValue }
}

fn by_ref(name: &str) -> RawType {
    RawType { name: s(name), passing: Passing::ByReference }
}

fn by_ptr(name: &str) -> RawType {
    RawType { name: s(name), passing: Passing::ByPointer }
}

fn field(name: &str, t: RawType) -> RawField {
    RawField { name: s(name), ty: t }
}

fn trivial() -> SpecialMembers {
    SpecialMembers { destructor: false, copy_constructor: false, move_constructor: false }
}

fn raw_record(name: &str, members: Vec<RawField>) -> RawRecord {
    RawRecord { name: s(name), members, special: trivial() }
}

fn record(name: &str, members: Vec<RawField>) -> RawItem {
    RawItem::Record(raw_record(name, members))
}

fn raw_function(name: &str, params: Vec<RawField>, ret: Option<RawType>) -> RawFunction {
    RawFunction { name: s(name), params, ret, role: FunctionRole::Plain, variadic: false }
}

fn function(name: &str, params: Vec<RawField>, ret: Option<RawType>) -> RawItem {
    RawItem::Function(raw_function(name, params, ret))
}

fn typedef(name: &str, target: &str) -> RawItem {
    RawItem::Typedef(RawTypedef { name: s(name), target: ty(target) })
}

fn namespace(name: &str, items: Vec<RawItem>) -> RawItem {
    RawItem::Grouping(RawGrouping { name: s(name), content: Some(items) })
}

fn allow(names: &[&str]) -> TypeDatabase {
    let mut db = TypeDatabase::new();
    for n in names {
        db.add_to_allowlist(s(n));
    }
    db
}

fn decls_of(items: &Vec<RawItem>) -> Vec<Declaration> {
    let mut decls = Vec::new();
    let mut uses = Vec::new();
    flatten(items, &s(""), false, &mut decls, &mut uses);
    decls
}

fn api(name: &str, shape: Shape, safety: Safety) -> Api {
    Api { name: s(name), shape, safety, plan: None, synthetic: false }
}

fn record_api(name: &str, members: Vec<RawField>, safety: Safety) -> Api {
    api(name, Shape::Record(raw_record(name, members)), safety)
}

fn function_api(name: &str, params: Vec<RawField>, ret: Option<RawType>) -> Api {
    api(name, Shape::Function(raw_function(name, params, ret)), Safety::PendingAnalysis)
}

fn names_of(apis: &Vec<Api>) -> Vec<String> {
    apis.iter().map(|a| a.name.clone()).collect()
}

fn registry_with(entries: &[(&str, Safety)]) -> TypeConverter {
    let mut tc = TypeConverter::new();
    for (name, safety) in entries {
        let id = tc.resolve(&s(name));
        tc.classify(id, *safety);
    }
    tc
}

#[test]
fn items_are_copied_with_what_is_nested_in_them() {
    let item = namespace(
        "outer",
        vec![
            record("A", vec![field("x", by_ref("B"))]),
            namespace("inner", vec![function("f", vec![], Some(ty("int"))), RawItem::Other]),
            RawItem::Grouping(RawGrouping { name: s("hollow"), content: None }),
            RawItem::Use(s("std::string")),
            typedef("T", "A"),
            RawItem::ForeignBlock(vec![raw_function("g", vec![field("a", ty("A"))], None)]),
        ],
    );
    assert_eq!(item.clone(), item);
    let group = RawGrouping { name: s("g"), content: Some(vec![item.clone(), item.clone()]) };
    assert_eq!(group.clone(), group);
}

#[test]
fn names_are_qualified_by_their_namespace() {
    assert_eq!(qualified(&s(""), &s("A")), s("A"));
    assert_eq!(qualified(&s("ns"), &s("A")), s("ns::A"));
    assert_eq!(qualified(&s("a::b"), &s("C")), s("a::b::C"));
}

#[test]
fn name_searches_find_the_first_occurrence() {
    let v = vec![s("a"), s("b"), s("a")];
    assert_eq!(position_of_name(&v, &s("a")), Some(0));
    assert_eq!(position_of_name(&v, &s("b")), Some(1));
    assert_eq!(position_of_name(&v, &s("c")), None);
    assert!(contains_name(&v, &s("b")));
    assert!(!contains_name(&v, &s("c")));
    assert!(same_name(&s("x"), &s("x")));
    assert!(!same_name(&s("x"), &s("y")));
    assert_eq!(clone_names(&v), v);
    assert_eq!(clone_name_slice(&v), v);
}

#[test]
fn primitive_names_are_a_fixed_set() {
    for n in [
        "bool", "char", "short", "int", "long", "float", "double", "i8", "i16", "i32", "i64",
        "u8", "u16", "u32", "u64", "usize",
    ] {
        assert!(is_primitive(&s(n)), "{}", n);
    }
    assert!(!is_primitive(&s("A")));
    assert!(!is_primitive(&s("")));
    assert!(!is_primitive(&s("Int")));
}

#[test]
fn utilities_are_a_fixed_set() {
    assert!(is_utility(&s("make_string")));
    assert!(!is_utility(&s("release_string")));
    assert!(!is_utility(&s("make_strings")));
    assert!(!is_utility(&s("ns::make_string")));
}

#[test]
fn flags_start_unset() {
    assert_eq!(unset_flags(3), vec![false, false, false]);
    assert_eq!(unset_flags(0), Vec::<bool>::new());
}

#[test]
fn database_answers_by_list() {
    let mut db = TypeDatabase::new();
    db.add_to_allowlist(s("foo"));
    db.assert_safety(s("A"), true);
    db.assert_safety(s("B"), false);
    db.exclude(s("C"));
    assert!(db.is_on_allowlist(&s("foo")));
    assert!(!db.is_on_allowlist(&s("A")));
    assert!(db.is_excluded(&s("C")));
    assert!(!db.is_excluded(&s("foo")));
    assert!(db.asserts(&s("A"), true));
    assert!(!db.asserts(&s("A"), false));
    assert!(db.asserts(&s("B"), false));
    assert!(!db.asserts(&s("C"), true));
    assert_eq!(db.assertions[1], SafetyAssertion { ty_name: s("B"), safe: false });
}

#[test]
fn resolving_twice_gives_one_identity() {
    let mut tc = TypeConverter::new();
    let a = tc.resolve(&s("A"));
    let b = tc.resolve(&s("ns::B"));
    let again = tc.resolve(&s("A"));
    assert_eq!((a, b, again), (0, 1, 0));
    assert_eq!(tc.len(), 2);
    assert_eq!(tc.lookup(&s("ns::B")), Some(1));
    assert_eq!(tc.lookup(&s("B")), None);
    assert_eq!(tc.name_of(1), Some(s("ns::B")));
    assert_eq!(tc.name_of(2), None);
}

#[test]
fn a_verdict_is_recorded_once() {
    let mut tc = TypeConverter::new();
    let a = tc.resolve(&s("A"));
    assert_eq!(tc.safety_of(&s("A")), Safety::PendingAnalysis);
    assert!(!tc.classify(a, Safety::PendingAnalysis));
    assert!(tc.classify(a, Safety::RequiresIndirection));
    assert!(!tc.classify(a, Safety::ByValueSafe));
    assert_eq!(tc.safety_of(&s("A")), Safety::RequiresIndirection);
    assert!(!tc.classify(7, Safety::ByValueSafe));
    assert_eq!(tc.safety_of(&s("unknown")), Safety::PendingAnalysis);
    tc.resolve(&s("A"));
    assert_eq!(tc.safety_of(&s("A")), Safety::RequiresIndirection);
}

#[test]
fn aliases_are_kept_by_scope() {
    let mut tc = TypeConverter::new();
    tc.note_use(&s(""), &s("std::string"));
    tc.note_use(&s("ns"), &s("other::T"));
    tc.note_use(&s(""), &s("std::vector"));
    assert_eq!(tc.uses_in(&s("")), vec![s("std::string"), s("std::vector")]);
    assert_eq!(tc.uses_in(&s("ns")), vec![s("other::T")]);
    assert_eq!(tc.uses_in(&s("nowhere")), Vec::<String>::new());
    let all = tc.uses();
    assert_eq!(all.len(), 3);
    assert_eq!(all[1], UseAlias { scope: s("ns"), name: s("other::T") });
    assert_eq!(clone_uses(&all), all);
    tc.resolve_all(&vec![s("x"), s("y"), s("x")]);
    assert_eq!(tc.len(), 2);
}

#[test]
fn nested_namespaces_are_walked_in_order() {
    let items = vec![
        record("A", vec![]),
        namespace(
            "outer",
            vec![
                RawItem::Use(s("std::string")),
                record("B", vec![]),
                namespace("inner", vec![record("C", vec![]), RawItem::Other]),
                RawItem::Grouping(RawGrouping { name: s("hollow"), content: None }),
                RawItem::ForeignBlock(vec![
                    raw_function("f", vec![], None),
                    raw_function("g", vec![], None),
                ]),
                RawItem::ForeignBlock(vec![]),
            ],
        ),
        function("make_string", vec![], None),
        RawItem::Use(s("top")),
    ];
    let mut decls = Vec::new();
    let mut uses = Vec::new();
    flatten(&items, &s(""), true, &mut decls, &mut uses);
    let names: Vec<String> = decls.iter().map(|d| d.name.clone()).collect();
    assert_eq!(
        names,
        vec![s("A"), s("outer::B"), s("outer::inner::C"), s("outer::f"), s("outer::g")]
    );
    assert_eq!(
        uses,
        vec![
            UseAlias { scope: s("outer"), name: s("std::string") },
            UseAlias { scope: s(""), name: s("top") },
        ]
    );
    let kept = decls_of(&items);
    assert_eq!(kept.len(), 6);
    assert_eq!(kept[5].name, s("make_string"));
    assert_eq!(find_declaration(&kept, &s("outer::B")), Some(1));
    assert_eq!(find_declaration(&kept, &s("B")), None);
}

#[test]
fn agreeing_duplicates_are_merged() {
    let items = vec![
        record("D", vec![field("x", ty("int"))]),
        function("f", vec![], None),
        record("D", vec![field("x", ty("int"))]),
    ];
    let apis = merge(&decls_of(&items)).unwrap();
    assert_eq!(names_of(&apis), vec![s("D"), s("f")]);
    assert_eq!(apis[0], record_api("D", vec![field("x", ty("int"))], Safety::PendingAnalysis));
    assert_eq!(find_api(&apis, &s("f")), Some(1));
    assert_eq!(find_api(&apis, &s("g")), None);
}

#[test]
fn the_first_disagreeing_duplicate_is_reported() {
    let items = vec![
        function("f", vec![], None),
        record("D", vec![]),
        record("D", vec![]),
        record("D", vec![field("x", ty("int"))]),
        function("f", vec![], Some(ty("int"))),
    ];
    assert_eq!(
        merge(&decls_of(&items)),
        Err(ConvertError::DuplicateDeclarationConflict { name: s("D"), first: 1, second: 3 })
    );
    let kinds = vec![record("X", vec![]), function("X", vec![], None)];
    assert_eq!(
        merge(&decls_of(&kinds)),
        Err(ConvertError::DuplicateDeclarationConflict { name: s("X"), first: 0, second: 1 })
    );
}

#[test]
fn parsing_registers_every_mentioned_type() {
    let items = vec![
        record("A", vec![field("x", ty("int")), field("b", by_ptr("ns::B"))]),
        function("f", vec![field("a", ty("A"))], Some(ty("missing"))),
        namespace("ns", vec![RawItem::Use(s("std::string"))]),
    ];
    let mut tc = TypeConverter::new();
    let results = ParseBindgen::convert_items(items, false, &mut tc).unwrap();
    assert_eq!(names_of(&results.apis), vec![s("A"), s("f")]);
    assert_eq!(results.use_stmts_by_mod, vec![UseAlias { scope: s("ns"), name: s("std::string") }]);
    assert_eq!(tc.len(), 4);
    assert_eq!(tc.lookup(&s("A")), Some(0));
    assert_eq!(tc.lookup(&s("int")), Some(1));
    assert_eq!(tc.lookup(&s("ns::B")), Some(2));
    assert_eq!(tc.lookup(&s("missing")), Some(3));
    assert_eq!(tc.lookup(&s("f")), None);
    assert_eq!(tc.uses_in(&s("ns")), vec![s("std::string")]);
}

#[test]
fn a_failed_parse_leaves_the_registry_alone() {
    let items = vec![record("D", vec![]), record("D", vec![field("x", ty("int"))])];
    let mut tc = TypeConverter::new();
    tc.resolve(&s("before"));
    let r = ParseBindgen::convert_items(items, false, &mut tc);
    assert_eq!(
        r.err(),
        Some(ConvertError::DuplicateDeclarationConflict { name: s("D"), first: 0, second: 1 })
    );
    assert_eq!(tc.len(), 1);
}

#[test]
fn safety_follows_the_members() {
    let items = vec![
        record("Plain", vec![field("x", ty("int"))]),
        record("Holder", vec![field("p", ty("Plain")), field("q", ty("Alias"))]),
        typedef("Alias", "Plain"),
        RawItem::Record(RawRecord {
            name: s("Guard"),
            members: vec![],
            special: SpecialMembers {
                destructor: false,
                copy_constructor: true,
                move_constructor: false,
            },
        }),
        record("Tainted", vec![field("x", ty("int")), field("g", ty("Guard"))]),
        record("Unknown", vec![field("s", ty("std::string"))]),
        function("f", vec![], None),
    ];
    let db = TypeDatabase::new();
    let status = classify_declarations(&decls_of(&items), &db);
    assert_eq!(status, vec![true, true, true, false, false, false, false]);
}

#[test]
fn a_record_that_contains_itself_needs_indirection() {
    let items = vec![
        record("Node", vec![field("next", by_ptr("Node"))]),
        record("Left", vec![field("r", ty("Right"))]),
        record("Right", vec![field("l", ty("Left"))]),
        typedef("Loop", "Loop"),
    ];
    let status = classify_declarations(&decls_of(&items), &TypeDatabase::new());
    assert_eq!(status, vec![false, false, false, false]);
}

#[test]
fn a_long_chain_is_classified_whatever_its_order() {
    let items = vec![
        record("A3", vec![field("x", ty("A2"))]),
        record("A2", vec![field("x", ty("A1"))]),
        record("A1", vec![field("x", ty("A0"))]),
        record("A0", vec![field("x", ty("u8"))]),
    ];
    let status = classify_declarations(&decls_of(&items), &TypeDatabase::new());
    assert_eq!(status, vec![true, true, true, true]);
}

#[test]
fn a_record_declared_unsafe_needs_indirection() {
    let items = vec![
        record("A", vec![field("x", ty("int"))]),
        record("B", vec![field("a", ty("A"))]),
    ];
    let mut db = TypeDatabase::new();
    db.assert_safety(s("A"), false);
    let checker = identify_byvalue_safe_types(&items, &db, false).unwrap();
    assert_eq!(
        checker,
        ByValueChecker {
            verdicts: vec![
                Verdict { name: s("A"), safe: false },
                Verdict { name: s("B"), safe: false },
            ]
        }
    );
    assert!(!checker.is_safe(&s("A")));
    assert!(checker.is_safe(&s("int")));
    assert!(!checker.is_safe(&s("nothing")));
    assert_eq!(checker.verdict(&s("B")), Safety::RequiresIndirection);
    assert_eq!(checker.verdict(&s("u8")), Safety::ByValueSafe);
}

#[test]
fn a_wrong_claim_of_safety_is_a_conflict() {
    let items = vec![
        record("Fine", vec![]),
        RawItem::Record(RawRecord {
            name: s("B"),
            members: vec![],
            special: SpecialMembers {
                destructor: true,
                copy_constructor: false,
                move_constructor: false,
            },
        }),
        record("C", vec![field("b", ty("B"))]),
    ];
    let mut db = TypeDatabase::new();
    db.assert_safety(s("Fine"), true);
    db.assert_safety(s("C"), true);
    db.assert_safety(s("B"), true);
    assert_eq!(
        identify_byvalue_safe_types(&items, &db, false),
        Err(ConvertError::SafetyAssertionConflict { name: s("B") })
    );
    let mut both = TypeDatabase::new();
    both.assert_safety(s("Fine"), true);
    both.assert_safety(s("Fine"), false);
    assert_eq!(
        identify_byvalue_safe_types(&items, &both, false),
        Err(ConvertError::SafetyAssertionConflict { name: s("Fine") })
    );
    let mut right = TypeDatabase::new();
    right.assert_safety(s("Fine"), true);
    assert!(identify_byvalue_safe_types(&items, &right, false).is_ok());
}

#[test]
fn a_declared_name_shadows_a_primitive() {
    let items = vec![
        RawItem::Record(RawRecord {
            name: s("int"),
            members: vec![],
            special: SpecialMembers {
                destructor: true,
                copy_constructor: false,
                move_constructor: false,
            },
        }),
        record("A", vec![field("x", ty("int"))]),
    ];
    let checker = identify_byvalue_safe_types(&items, &TypeDatabase::new(), false).unwrap();
    assert!(!checker.is_safe(&s("int")));
    assert!(!checker.is_safe(&s("A")));
}

#[test]
fn verdicts_are_written_once() {
    let checker = ByValueChecker {
        verdicts: vec![Verdict { name: s("A"), safe: true }, Verdict { name: s("B"), safe: false }],
    };
    let apis = vec![
        record_api("A", vec![], Safety::PendingAnalysis),
        record_api("B", vec![], Safety::PendingAnalysis),
        record_api("C", vec![], Safety::ByValueSafe),
        function_api("f", vec![], None),
    ];
    let mut tc = TypeConverter::new();
    for n in ["A", "B", "int", "missing", "f"] {
        tc.resolve(&s(n));
    }
    let out = analyze_pod_apis(apis, &checker, &mut tc).unwrap();
    let safeties: Vec<Safety> = out.iter().map(|a| a.safety).collect();
    assert_eq!(
        safeties,
        vec![
            Safety::ByValueSafe,
            Safety::RequiresIndirection,
            Safety::ByValueSafe,
            Safety::PendingAnalysis,
        ]
    );
    assert_eq!(tc.safety_of(&s("A")), Safety::ByValueSafe);
    assert_eq!(tc.safety_of(&s("B")), Safety::RequiresIndirection);
    assert_eq!(tc.safety_of(&s("int")), Safety::ByValueSafe);
    assert_eq!(tc.safety_of(&s("missing")), Safety::PendingAnalysis);
    assert_eq!(tc.safety_of(&s("f")), Safety::PendingAnalysis);
}

#[test]
fn a_plain_function_over_safe_types_passes_through() {
    let tc = registry_with(&[("A", Safety::ByValueSafe), ("int", Safety::ByValueSafe)]);
    let f = raw_function("foo", vec![field("a", ty("A"))], Some(ty("int")));
    assert_eq!(
        plan_function(&s("foo"), &f, UnsafePolicy::AllSafe, &tc),
        Ok(CallPlan {
            kind: Materialization::DirectPassthrough,
            marked_unsafe: false,
            params: vec![Crossing::AsDeclared],
            ret: Crossing::AsDeclared,
        })
    );
    assert_eq!(
        plan_function(&s("foo"), &f, UnsafePolicy::MarkedUnsafe, &tc).unwrap().marked_unsafe,
        false
    );
}

#[test]
fn a_value_that_needs_indirection_calls_for_a_wrapper() {
    let tc = registry_with(&[("B", Safety::RequiresIndirection), ("int", Safety::ByValueSafe)]);
    let f = raw_function(
        "bar",
        vec![field("n", ty("int")), field("b", ty("B")), field("r", by_ref("B"))],
        Some(ty("B")),
    );
    let expected = CallPlan {
        kind: Materialization::SynthesizedWrapper,
        marked_unsafe: true,
        params: vec![Crossing::AsDeclared, Crossing::Indirect, Crossing::AsDeclared],
        ret: Crossing::Indirect,
    };
    assert_eq!(plan_function(&s("bar"), &f, UnsafePolicy::MarkedUnsafe, &tc), Ok(expected));
    let by_reference = raw_function("peek", vec![field("r", by_ref("B"))], None);
    assert_eq!(
        plan_function(&s("peek"), &by_reference, UnsafePolicy::MarkedUnsafe, &tc).unwrap().kind,
        Materialization::DirectPassthrough
    );
}

#[test]
fn construction_and_destruction_call_for_a_wrapper() {
    let tc = registry_with(&[("A", Safety::ByValueSafe)]);
    for role in [FunctionRole::Constructor, FunctionRole::Destructor] {
        let f = RawFunction {
            name: s("A"),
            params: vec![field("this", by_ref("A"))],
            ret: None,
            role,
            variadic: false,
        };
        let plan = plan_function(&s("A_new"), &f, UnsafePolicy::AllSafe, &tc).unwrap();
        assert_eq!(plan.kind, Materialization::SynthesizedWrapper);
        assert!(!plan.marked_unsafe);
    }
}

#[test]
fn an_unresolved_type_is_unknown() {
    let mut tc = registry_with(&[("int", Safety::ByValueSafe)]);
    tc.resolve(&s("Pending"));
    let f = raw_function(
        "f",
        vec![field("n", ty("int")), field("p", by_ref("Pending")), field("q", ty("Never"))],
        Some(ty("Other")),
    );
    assert_eq!(
        plan_function(&s("ns::f"), &f, UnsafePolicy::AllSafe, &tc),
        Err(ConvertError::UnknownType { declaration: s("ns::f"), ty_name: s("Pending") })
    );
    let g = raw_function("g", vec![field("n", ty("int"))], Some(ty("Other")));
    assert_eq!(
        plan_function(&s("g"), &g, UnsafePolicy::AllSafe, &tc),
        Err(ConvertError::UnknownType { declaration: s("g"), ty_name: s("Other") })
    );
}

#[test]
fn unsupported_signatures_are_refused() {
    let tc = registry_with(&[("B", Safety::RequiresIndirection), ("int", Safety::ByValueSafe)]);
    let variadic = RawFunction {
        name: s("printf"),
        params: vec![field("n", ty("int"))],
        ret: None,
        role: FunctionRole::Plain,
        variadic: true,
    };
    assert_eq!(
        plan_function(&s("printf"), &variadic, UnsafePolicy::MarkedUnsafe, &tc),
        Err(ConvertError::UnsupportedSignature { function: s("printf") })
    );
    let hazard = raw_function("h", vec![field("b", ty("B")), field("p", by_ptr("int"))], None);
    assert_eq!(
        plan_function(&s("h"), &hazard, UnsafePolicy::AllSafe, &tc),
        Err(ConvertError::UnsupportedSignature { function: s("h") })
    );
    let marked = plan_function(&s("h"), &hazard, UnsafePolicy::MarkedUnsafe, &tc).unwrap();
    assert_eq!(marked.kind, Materialization::SynthesizedWrapper);
    assert!(marked.marked_unsafe);
    let direct = raw_function("d", vec![field("p", by_ptr("int"))], None);
    assert_eq!(
        plan_function(&s("d"), &direct, UnsafePolicy::AllSafe, &tc).unwrap().kind,
        Materialization::DirectPassthrough
    );
}

#[test]
fn the_first_failing_function_ends_the_analysis() {
    let tc = registry_with(&[("int", Safety::ByValueSafe)]);
    let apis = vec![
        function_api("ok", vec![field("n", ty("int"))], None),
        record_api("R", vec![field("x", ty("Nowhere"))], Safety::RequiresIndirection),
        function_api("bad", vec![field("x", ty("X"))], None),
        function_api("worse", vec![field("y", ty("Y"))], None),
    ];
    assert_eq!(
        FnAnalyzer::analyze_functions(apis, UnsafePolicy::AllSafe, &tc),
        Err(ConvertError::UnknownType { declaration: s("bad"), ty_name: s("X") })
    );
    let planned = CallPlan {
        kind: Materialization::SynthesizedWrapper,
        marked_unsafe: true,
        params: vec![],
        ret: Crossing::AsDeclared,
    };
    let mut decided = function_api("decided", vec![field("x", ty("X"))], None);
    decided.plan = Some(planned.clone());
    let apis = vec![function_api("ok", vec![field("n", ty("int"))], None), decided];
    let out = FnAnalyzer::analyze_functions(apis, UnsafePolicy::AllSafe, &tc).unwrap();
    assert_eq!(out[0].plan.as_ref().unwrap().kind, Materialization::DirectPassthrough);
    assert_eq!(out[1].plan, Some(planned));
}

#[test]
fn pruning_keeps_what_the_allowlist_reaches() {
    let apis = vec![
        record_api("Unused", vec![], Safety::ByValueSafe),
        record_api("Leaf", vec![field("x", ty("int"))], Safety::ByValueSafe),
        record_api("Mid", vec![field("l", ty("Leaf"))], Safety::ByValueSafe),
        function_api("f", vec![field("m", ty("Mid"))], None),
        record_api("Opaque", vec![field("u", ty("Unused"))], Safety::RequiresIndirection),
        function_api("g", vec![field("o", by_ref("Opaque"))], None),
        function_api("h", vec![field("u", ty("Unused"))], None),
    ];
    let kept = filter_apis_by_following_edges_from_allowlist(apis, &allow(&["g", "f", "f"]));
    assert_eq!(
        names_of(&kept.unwrap()),
        vec![s("Unused"), s("Leaf"), s("Mid"), s("f"), s("Opaque"), s("g")]
    );
}

#[test]
fn pruning_with_an_empty_allowlist_keeps_nothing() {
    let apis = vec![record_api("A", vec![], Safety::ByValueSafe)];
    let kept = filter_apis_by_following_edges_from_allowlist(apis, &TypeDatabase::new());
    assert_eq!(kept, Ok(vec![]));
}

#[test]
fn pruning_follows_cycles_once() {
    let apis = vec![
        api(
            "A",
            Shape::Typedef(RawTypedef { name: s("A"), target: ty("B") }),
            Safety::RequiresIndirection,
        ),
        api(
            "B",
            Shape::Typedef(RawTypedef { name: s("B"), target: ty("A") }),
            Safety::RequiresIndirection,
        ),
        function_api("f", vec![field("a", by_ref("A")), field("b", by_ref("B"))], None),
    ];
    let kept = filter_apis_by_following_edges_from_allowlist(apis, &allow(&["f"])).unwrap();
    assert_eq!(names_of(&kept), vec![s("A"), s("B"), s("f")]);
}

#[test]
fn pruning_walks_a_deep_chain() {
    let mut apis = Vec::new();
    let depth = 2000;
    for i in 0..depth {
        let next = if i + 1 < depth { format!("T{}", i + 1) } else { s("int") };
        apis.push(record_api(&format!("T{}", i), vec![field("x", ty(&next))], Safety::ByValueSafe));
    }
    let kept = filter_apis_by_following_edges_from_allowlist(apis, &allow(&["T0"])).unwrap();
    assert_eq!(kept.len(), depth);
}

#[test]
fn a_root_that_cannot_be_had_is_unsatisfiable() {
    let make = || {
        vec![
            record_api("Gone", vec![], Safety::ByValueSafe),
            record_api("Mid", vec![field("g", ty("Gone"))], Safety::ByValueSafe),
            function_api("f", vec![field("m", ty("Mid"))], None),
            function_api("ok", vec![], None),
            api(
                "Dangling",
                Shape::Typedef(RawTypedef { name: s("Dangling"), target: ty("nowhere") }),
                Safety::RequiresIndirection,
            ),
        ]
    };
    let unsat = |root: &str| Err(ConvertError::UnsatisfiableRoot { root: s(root) });

    let mut excluded = allow(&["ok", "f", "missing"]);
    excluded.exclude(s("Gone"));
    assert_eq!(filter_apis_by_following_edges_from_allowlist(make(), &excluded), unsat("f"));

    let missing = allow(&["ok", "missing", "f"]);
    assert_eq!(filter_apis_by_following_edges_from_allowlist(make(), &missing), unsat("missing"));

    let dangling = allow(&["Dangling"]);
    assert_eq!(filter_apis_by_following_edges_from_allowlist(make(), &dangling), unsat("Dangling"));

    let primitive = allow(&["int"]);
    assert_eq!(filter_apis_by_following_edges_from_allowlist(make(), &primitive), unsat("int"));

    let mut unrelated = allow(&["ok"]);
    unrelated.exclude(s("Gone"));
    let kept = filter_apis_by_following_edges_from_allowlist(make(), &unrelated).unwrap();
    assert_eq!(names_of(&kept), vec![s("ok")]);
}

#[test]
fn primitive_types_are_declared_once() {
    let mut apis = vec![
        record_api("A", vec![field("x", ty("int")), field("y", ty("u8"))], Safety::ByValueSafe),
        record_api("Hidden", vec![field("z", ty("double"))], Safety::RequiresIndirection),
        function_api("f", vec![field("a", ty("A")), field("n", ty("int"))], Some(ty("bool"))),
        api(
            "u8",
            Shape::Typedef(RawTypedef { name: s("u8"), target: ty("char") }),
            Safety::ByValueSafe,
        ),
    ];
    append_ctype_information(&mut apis);
    assert_eq!(
        names_of(&apis),
        vec![s("A"), s("Hidden"), s("f"), s("u8"), s("int"), s("double"), s("bool"), s("char")]
    );
    let added = &apis[4];
    assert_eq!(
        *added,
        Api {
            name: s("int"),
            shape: Shape::Typedef(RawTypedef { name: s("int"), target: ty("int") }),
            safety: Safety::ByValueSafe,
            plan: None,
            synthetic: true,
        }
    );
    assert_eq!(added.deps(), vec![s("int")]);
    assert_eq!(apis[1].deps(), vec![s("double")]);
    assert_eq!(apis[2].deps(), vec![s("A"), s("int"), s("bool")]);
    assert_eq!(apis[2].shape.mentions(), vec![s("A"), s("int"), s("bool")]);
    assert_eq!(apis[1].shape.mentions(), vec![s("double")]);
    append_ctype_information(&mut apis);
    assert_eq!(apis.len(), 8);
}

#[test]
fn the_native_side_lists_wrappers_and_primitive_types() {
    let mut wrapped = function_api("bar", vec![field("b", ty("B"))], Some(ty("B")));
    wrapped.plan = Some(CallPlan {
        kind: Materialization::SynthesizedWrapper,
        marked_unsafe: true,
        params: vec![Crossing::Indirect],
        ret: Crossing::Indirect,
    });
    let mut direct = function_api("foo", vec![], None);
    direct.plan = Some(CallPlan {
        kind: Materialization::DirectPassthrough,
        marked_unsafe: false,
        params: vec![],
        ret: Crossing::AsDeclared,
    });
    let mut primitive =
        api("int", Shape::Typedef(RawTypedef { name: s("int"), target: ty("int") }), Safety::ByValueSafe);
    primitive.synthetic = true;
    let alias =
        api("Alias", Shape::Typedef(RawTypedef { name: s("Alias"), target: ty("int") }), Safety::ByValueSafe);
    let includes = vec![s("a.h"), s("b.h")];

    let nothing = vec![direct.clone(), alias.clone(), function_api("unplanned", vec![], None)];
    assert_eq!(CppCodeGenerator::generate_cpp_code(s("pre"), &includes, &nothing), None);

    let apis = vec![direct.clone(), wrapped.clone(), alias.clone(), primitive.clone()];
    let cpp = CppCodeGenerator::generate_cpp_code(s("pre"), &includes, &apis).unwrap();
    assert_eq!(cpp.preamble, s("pre"));
    assert_eq!(cpp.includes, includes);
    assert_eq!(cpp.declarations.len(), 2);
    match &cpp.declarations[0] {
        CppItem::Wrapper { name, callee, params, ret } => {
            assert_eq!(name, "bar_wrapper");
            assert_eq!(callee, "bar");
            assert_eq!(params.len(), 1);
            assert_eq!(params[0].name, "b");
            assert_eq!(params[0].crossing, Crossing::Indirect);
            assert_eq!(ret.as_ref().unwrap().crossing, Crossing::Indirect);
            assert_eq!(ret.as_ref().unwrap().name, "");
        }
        other => panic!("{:?}", other),
    }
    assert_eq!(cpp.declarations[1], CppItem::CTypeDeclaration { name: s("int") });
    assert_eq!(make_wrapper_name(&s("ns::f")), s("ns::f_wrapper"));
    assert!(wrapped.is_wrapped() && wrapped.is_marked_unsafe());
    assert!(!direct.is_wrapped() && !direct.is_marked_unsafe());
}

#[test]
fn the_bridge_side_lists_one_item_for_each_api() {
    let mut wrapped = function_api("bar", vec![field("b", ty("B")), field("n", ty("int"))], None);
    wrapped.plan = Some(CallPlan {
        kind: Materialization::SynthesizedWrapper,
        marked_unsafe: true,
        params: vec![Crossing::Indirect],
        ret: Crossing::AsDeclared,
    });
    let apis = vec![
        record_api("B", vec![field("x", ty("int"))], Safety::RequiresIndirection),
        wrapped,
        function_api("unplanned", vec![], Some(ty("int"))),
    ];
    let uses = vec![UseAlias { scope: s("ns"), name: s("std::string") }];
    let shell = RawGrouping { name: s("ffi"), content: Some(vec![]) };
    let items = RsCodeGenerator::generate_rs_code(apis, &[s("a.h")], uses, shell);
    assert_eq!(items.len(), 6);
    assert_eq!(items[0], RsItem::Shell { name: s("ffi") });
    assert_eq!(items[1], RsItem::Include { file: s("a.h") });
    assert_eq!(items[2], RsItem::Use { scope: s("ns"), name: s("std::string") });
    assert_eq!(items[3], RsItem::OpaqueType { name: s("B") });
    match &items[4] {
        RsItem::Function { name, link_name, params, ret, marked_unsafe } => {
            assert_eq!(name, "bar");
            assert_eq!(link_name, "bar_wrapper");
            assert_eq!(params[0].crossing, Crossing::Indirect);
            assert_eq!(params[1].crossing, Crossing::AsDeclared);
            assert_eq!(*ret, None);
            assert!(*marked_unsafe);
        }
        other => panic!("{:?}", other),
    }
    match &items[5] {
        RsItem::Function { link_name, ret, marked_unsafe, .. } => {
            assert_eq!(link_name, "unplanned");
            assert_eq!(ret.as_ref().unwrap().crossing, Crossing::AsDeclared);
            assert!(!*marked_unsafe);
        }
        other => panic!("{:?}", other),
    }
}

#[test]
fn paths_are_reduced_to_type_names() {
    let path = |segments: &[&str]| segments.iter().map(|x| s(x)).collect::<Vec<String>>();
    assert_eq!(type_name_from_path(&path(&["root", "ns", "A"])), s("ns::A"));
    assert_eq!(type_name_from_path(&path(&["ns", "root", "A"])), s("ns::root::A"));
    assert_eq!(type_name_from_path(&path(&["A"])), s("A"));
    assert_eq!(type_name_from_path(&path(&["root"])), s(""));
    assert_eq!(type_name_from_path(&path(&[])), s(""));
    assert_eq!(type_name_from_path(&path(&["root", "std", "os", "raw", "c_int"])), s("int"));
    assert_eq!(type_name_from_path(&path(&["c_double"])), s("double"));
    assert_eq!(type_name_from_path(&path(&["c_char"])), s("char"));
    assert_eq!(type_name_from_path(&path(&["c_short"])), s("short"));
    assert_eq!(type_name_from_path(&path(&["c_long"])), s("long"));
    assert_eq!(type_name_from_path(&path(&["c_float"])), s("float"));
    assert_eq!(type_name_from_path(&path(&["root", "c_uint"])), s("c_uint"));
    let mut tc = TypeConverter::new();
    let a = tc.resolve_path(&path(&["root", "ns", "A"]));
    let b = tc.resolve(&s("ns::A"));
    let c = tc.resolve_path(&path(&["c_int"]));
    assert_eq!((a, b, c), (0, 0, 1));
    assert_eq!(tc.name_of(1), Some(s("int")));
}

#[test]
fn a_mention_of_an_undeclared_type_ends_the_analysis() {
    let checker = ByValueChecker {
        verdicts: vec![Verdict { name: s("A"), safe: true }, Verdict { name: s("B"), safe: false }],
    };
    let make = || {
        vec![
            function_api("f", vec![field("x", ty("nowhere"))], None),
            record_api("A", vec![field("n", ty("int"))], Safety::PendingAnalysis),
            record_api(
                "B",
                vec![field("a", ty("A")), field("s", by_ref("std::string")), field("t", ty("T"))],
                Safety::PendingAnalysis,
            ),
            api(
                "Alias",
                Shape::Typedef(RawTypedef { name: s("Alias"), target: ty("elsewhere") }),
                Safety::PendingAnalysis,
            ),
        ]
    };
    let mut tc = TypeConverter::new();
    for n in ["A", "B", "int", "std::string", "T", "Alias", "elsewhere", "nowhere"] {
        tc.resolve(&s(n));
    }
    assert_eq!(
        analyze_pod_apis(make(), &checker, &mut tc),
        Err(ConvertError::UnknownType { declaration: s("B"), ty_name: s("std::string") })
    );
    assert_eq!(tc.safety_of(&s("A")), Safety::ByValueSafe);
    assert_eq!(tc.safety_of(&s("B")), Safety::RequiresIndirection);
    assert_eq!(tc.safety_of(&s("std::string")), Safety::PendingAnalysis);

    let mut unregistered = TypeConverter::new();
    assert_eq!(
        analyze_pod_apis(make(), &checker, &mut unregistered),
        Err(ConvertError::UnknownType { declaration: s("A"), ty_name: s("int") })
    );
}
