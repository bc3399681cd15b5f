use autocxx_engine::bindings::{
    FunctionRole, Passing, RawConstant, RawEnum, RawField, RawFunction, RawGrouping, RawItem,
    RawRecord, RawType, RawTypedef, SpecialMembers,
};
use autocxx_engine::conversion::api::{BridgeSlot, ConvertError, Crossing, ErrorKind};
use autocxx_engine::conversion::codegen_cpp::{CppCodegenResults, CppItem};
use autocxx_engine::conversion::codegen_rs::RsItem;
use autocxx_engine::conversion::{find_items_in_root, BridgeConverter, CodegenResults};
use autocxx_engine::type_database::TypeDatabase;
use autocxx_engine::UnsafePolicy;

fn s(text: &str) -> String {
    text.to_string()
}

fn ty(name: &str) -> RawType {
    RawType { name: s(name), passing: Passing::ByValue }
}

fn by_ref(name: &str) -> RawType {
    RawType { name: s(name), passing: Passing::ByReference }
}

fn by_ptr(name: &str) -> RawType {
    RawType { name: s(name), passing: Passing::ByPointer }
}

fn field(name: &str, t: RawType) -> RawField {
    RawField { name: s(name), ty: t }
}

fn trivial() -> SpecialMembers {
    SpecialMembers { destructor: false, copy_constructor: false, move_constructor: false }
}

fn record(name: &str, members: Vec<RawField>) -> RawItem {
    RawItem::Record(RawRecord { name: s(name), members, special: trivial() })
}

fn record_with_destructor(name: &str, members: Vec<RawField>) -> RawItem {
    RawItem::Record(RawRecord {
        name: s(name),
        members,
        special: SpecialMembers {
            destructor: true,
            copy_constructor: false,
            move_constructor: false,
        },
    })
}

fn function(name: &str, params: Vec<RawField>, ret: Option<RawType>) -> RawItem {
    RawItem::Function(RawFunction {
        name: s(name),
        params,
        ret,
        role: FunctionRole::Plain,
        variadic: false,
    })
}

fn root(items: Vec<RawItem>) -> RawItem {
    RawItem::Grouping(RawGrouping { name: s("root"), content: Some(items) })
}

fn module(items: Vec<RawItem>) -> RawGrouping {
    RawGrouping { name: s("bindgen"), content: Some(vec![root(items)]) }
}

fn allow(names: &[&str]) -> TypeDatabase {
    let mut db = TypeDatabase::new();
    for n in names {
        db.add_to_allowlist(s(n));
    }
    db
}

fn run(
    items: Vec<RawItem>,
    db: &TypeDatabase,
    policy: UnsafePolicy,
) -> Result<CodegenResults, ConvertError> {
    let includes: Vec<String> = vec![s("input.h")];
    let converter = BridgeConverter::new(&includes, db);
    converter.convert(module(items), false, policy, s("#define X 1"))
}

fn slot(name: &str, t: RawType, crossing: Crossing) -> BridgeSlot {
    BridgeSlot { name: s(name), ty: t, crossing }
}

fn shell() -> RsItem {
    RsItem::Shell { name: s("bindgen") }
}

fn header() -> RsItem {
    RsItem::Include { file: s("input.h") }
}

fn ctype(name: &str) -> RsItem {
    RsItem::CType { name: s(name) }
}

fn ctype_decl(name: &str) -> CppItem {
    CppItem::CTypeDeclaration { name: s(name) }
}

fn native(declarations: Vec<CppItem>) -> Option<CppCodegenResults> {
    Some(CppCodegenResults {
        preamble: s("#define X 1"),
        includes: vec![s("input.h")],
        declarations,
    })
}

#[test]
fn empty_outer_list_is_an_empty_interface() {
    assert_eq!(find_items_in_root(vec![]), Ok(vec![]));
}

#[test]
fn two_top_level_groupings_are_refused() {
    let items = vec![root(vec![]), root(vec![])];
    assert_eq!(find_items_in_root(items), Err(ConvertError::UnexpectedOuterItem));
}

#[test]
fn top_level_item_that_is_no_grouping_is_refused() {
    let items = vec![record("A", vec![])];
    assert_eq!(find_items_in_root(items), Err(ConvertError::UnexpectedOuterItem));
}

#[test]
fn grouping_with_another_name_is_refused() {
    let items = vec![RawItem::Grouping(RawGrouping { name: s("other"), content: Some(vec![]) })];
    assert_eq!(find_items_in_root(items), Err(ConvertError::UnexpectedOuterItem));
}

#[test]
fn root_without_body_has_no_content() {
    let items = vec![RawItem::Grouping(RawGrouping { name: s("root"), content: None })];
    assert_eq!(find_items_in_root(items), Err(ConvertError::NoContent));
}

#[test]
fn root_hands_out_its_items() {
    let items = vec![root(vec![record("A", vec![]), RawItem::Other])];
    assert_eq!(find_items_in_root(items), Ok(vec![record("A", vec![]), RawItem::Other]));
}

#[test]
fn module_without_body_has_no_content() {
    let db = allow(&[]);
    let includes: Vec<String> = vec![];
    let converter = BridgeConverter::new(&includes, &db);
    let module = RawGrouping { name: s("bindgen"), content: None };
    let r = converter.convert(module, false, UnsafePolicy::AllSafe, s(""));
    assert_eq!(r, Err(ConvertError::NoContent));
}

#[test]
fn module_with_empty_body_generates_the_shell_only() {
    let db = allow(&[]);
    let includes: Vec<String> = vec![];
    let converter = BridgeConverter::new(&includes, &db);
    let module = RawGrouping { name: s("bindgen"), content: Some(vec![]) };
    let r = converter.convert(module, false, UnsafePolicy::AllSafe, s(""));
    assert_eq!(r, Ok(CodegenResults { rs: vec![shell()], cpp: None }));
}

#[test]
fn safe_record_passes_directly() {
    let items = vec![
        record("A", vec![field("x", ty("int")), field("ok", ty("bool"))]),
        function("foo", vec![field("a", ty("A"))], Some(ty("int"))),
    ];
    let r = run(items, &allow(&["foo"]), UnsafePolicy::AllSafe);
    let expected = CodegenResults {
        rs: vec![
            shell(),
            header(),
            RsItem::Struct {
                name: s("A"),
                fields: vec![field("x", ty("int")), field("ok", ty("bool"))],
            },
            RsItem::Function {
                name: s("foo"),
                link_name: s("foo"),
                params: vec![slot("a", ty("A"), Crossing::AsDeclared)],
                ret: Some(slot("", ty("int"), Crossing::AsDeclared)),
                marked_unsafe: false,
            },
            ctype("int"),
            ctype("bool"),
        ],
        cpp: native(vec![ctype_decl("int"), ctype_decl("bool")]),
    };
    assert_eq!(r, Ok(expected));
}

#[test]
fn record_with_destructor_gets_a_wrapper() {
    let items = vec![
        record_with_destructor("B", vec![field("x", ty("int"))]),
        function("bar", vec![field("b", ty("B"))], None),
    ];
    let r = run(items, &allow(&["bar"]), UnsafePolicy::AllSafe);
    let expected = CodegenResults {
        rs: vec![
            shell(),
            header(),
            RsItem::OpaqueType { name: s("B") },
            RsItem::Function {
                name: s("bar"),
                link_name: s("bar_wrapper"),
                params: vec![slot("b", ty("B"), Crossing::Indirect)],
                ret: None,
                marked_unsafe: false,
            },
            ctype("int"),
        ],
        cpp: native(vec![
            CppItem::Wrapper {
                name: s("bar_wrapper"),
                callee: s("bar"),
                params: vec![slot("b", ty("B"), Crossing::Indirect)],
                ret: None,
            },
            ctype_decl("int"),
        ]),
    };
    assert_eq!(r, Ok(expected));
}

#[test]
fn unrelated_record_is_pruned() {
    let items = vec![
        record("C", vec![]),
        record("A", vec![]),
        function("foo", vec![field("a", by_ref("A"))], None),
    ];
    let r = run(items, &allow(&["foo"]), UnsafePolicy::AllSafe).unwrap();
    assert_eq!(
        r.rs,
        vec![
            shell(),
            header(),
            RsItem::Struct { name: s("A"), fields: vec![] },
            RsItem::Function {
                name: s("foo"),
                link_name: s("foo"),
                params: vec![slot("a", by_ref("A"), Crossing::AsDeclared)],
                ret: None,
                marked_unsafe: false,
            },
        ]
    );
    assert_eq!(r.cpp, None);
}

#[test]
fn excluded_root_is_unsatisfiable() {
    let items = vec![function("foo", vec![], None)];
    let mut db = allow(&["foo"]);
    db.exclude(s("foo"));
    let r = run(items, &db, UnsafePolicy::AllSafe);
    assert_eq!(r, Err(ConvertError::UnsatisfiableRoot { root: s("foo") }));
}

#[test]
fn conflicting_duplicates_are_refused() {
    let items = vec![
        record("D", vec![field("x", ty("int"))]),
        record("E", vec![]),
        record("D", vec![field("x", ty("long"))]),
    ];
    let r = run(items, &allow(&["D"]), UnsafePolicy::AllSafe);
    assert_eq!(
        r,
        Err(ConvertError::DuplicateDeclarationConflict { name: s("D"), first: 0, second: 2 })
    );
}

#[test]
fn error_kinds_follow_the_taxonomy() {
    assert_eq!(ConvertError::NoContent.kind(), ErrorKind::StructuralViolation);
    assert_eq!(ConvertError::UnexpectedOuterItem.kind(), ErrorKind::StructuralViolation);
    assert_eq!(
        ConvertError::UnknownType { declaration: s("f"), ty_name: s("T") }.kind(),
        ErrorKind::UnknownType
    );
    assert_eq!(
        ConvertError::SafetyAssertionConflict { name: s("T") }.kind(),
        ErrorKind::SafetyAssertionConflict
    );
    assert_eq!(
        ConvertError::UnsupportedSignature { function: s("f") }.kind(),
        ErrorKind::UnsupportedSignature
    );
    assert_eq!(
        ConvertError::UnsatisfiableRoot { root: s("r") }.kind(),
        ErrorKind::UnsatisfiableRoot
    );
    assert_eq!(
        ConvertError::DuplicateDeclarationConflict { name: s("D"), first: 0, second: 1 }.kind(),
        ErrorKind::DuplicateDeclarationConflict
    );
}

#[test]
fn typedef_enum_and_constant_are_generated() {
    let items = vec![
        RawItem::Enum(RawEnum {
            name: s("Colour"),
            underlying: s("u8"),
            variants: vec![s("Red"), s("Green")],
        }),
        RawItem::Typedef(RawTypedef { name: s("Shade"), target: ty("Colour") }),
        RawItem::Constant(RawConstant { name: s("LIMIT"), ty: s("i32"), value: 7 }),
        function("paint", vec![field("shade", ty("Shade"))], Some(by_ptr("Colour"))),
    ];
    let r = run(items, &allow(&["paint", "LIMIT"]), UnsafePolicy::MarkedUnsafe).unwrap();
    assert_eq!(
        r.rs,
        vec![
            shell(),
            header(),
            RsItem::Enum {
                name: s("Colour"),
                underlying: s("u8"),
                variants: vec![s("Red"), s("Green")],
            },
            RsItem::TypeAlias { name: s("Shade"), target: ty("Colour") },
            RsItem::Constant { name: s("LIMIT"), ty: s("i32"), value: 7 },
            RsItem::Function {
                name: s("paint"),
                link_name: s("paint"),
                params: vec![slot("shade", ty("Shade"), Crossing::AsDeclared)],
                ret: Some(slot("", by_ptr("Colour"), Crossing::AsDeclared)),
                marked_unsafe: false,
            },
            ctype("u8"),
            ctype("i32"),
        ]
    );
    assert_eq!(r.cpp, native(vec![ctype_decl("u8"), ctype_decl("i32")]));
}

fn namespace(name: &str, items: Vec<RawItem>) -> RawItem {
    RawItem::Grouping(RawGrouping { name: s(name), content: Some(items) })
}

fn typedef(name: &str, target: RawType) -> RawItem {
    RawItem::Typedef(RawTypedef { name: s(name), target })
}

fn library() -> Vec<RawItem> {
    vec![
        RawItem::Use(s("std::string")),
        record("Point", vec![field("x", ty("int")), field("y", ty("int"))]),
        record("Line", vec![field("from", ty("Point")), field("to", ty("Point"))]),
        record_with_destructor("Canvas", vec![field("lines", by_ptr("Line"))]),
        record("Frame", vec![field("canvas", ty("Canvas")), field("border", ty("Line"))]),
        typedef("Handle", by_ptr("Canvas")),
        namespace(
            "draw",
            vec![
                RawItem::Use(s("std::vector")),
                function("line", vec![field("c", by_ref("Canvas")), field("l", ty("Line"))], None),
                function("frame", vec![field("f", ty("Frame"))], Some(ty("Canvas"))),
                function("length", vec![field("l", by_ref("Line"))], Some(ty("double"))),
                RawItem::Enum(RawEnum {
                    name: s("Style"),
                    underlying: s("u8"),
                    variants: vec![s("Solid"), s("Dashed")],
                }),
            ],
        ),
        record("Unused", vec![field("h", ty("Handle"))]),
        function("make_string", vec![field("p", by_ptr("char"))], Some(ty("long"))),
    ]
}

fn declared(items: &[RsItem]) -> Vec<String> {
    items
        .iter()
        .filter_map(|i| match i {
            RsItem::Function { name, .. }
            | RsItem::Struct { name, .. }
            | RsItem::OpaqueType { name }
            | RsItem::Enum { name, .. }
            | RsItem::TypeAlias { name, .. }
            | RsItem::Constant { name, .. }
            | RsItem::CType { name } => Some(name.clone()),
            _ => None,
        })
        .collect()
}

fn mentioned(item: &RsItem) -> Vec<String> {
    match item {
        RsItem::Function { params, ret, .. } => {
            params.iter().chain(ret.iter()).map(|slot| slot.ty.name.clone()).collect()
        }
        RsItem::Struct { fields, .. } => fields.iter().map(|f| f.ty.name.clone()).collect(),
        RsItem::Enum { underlying, .. } => vec![underlying.clone()],
        RsItem::TypeAlias { target, .. } => vec![target.name.clone()],
        RsItem::Constant { ty, .. } => vec![ty.clone()],
        _ => vec![],
    }
}

#[test]
fn a_library_is_converted_namespace_by_namespace() {
    let db = allow(&["draw::line", "draw::frame"]);
    let r = run(library(), &db, UnsafePolicy::MarkedUnsafe).unwrap();
    assert_eq!(
        r.rs,
        vec![
            shell(),
            header(),
            RsItem::Use { scope: s(""), name: s("std::string") },
            RsItem::Use { scope: s("draw"), name: s("std::vector") },
            RsItem::Struct {
                name: s("Point"),
                fields: vec![field("x", ty("int")), field("y", ty("int"))],
            },
            RsItem::Struct {
                name: s("Line"),
                fields: vec![field("from", ty("Point")), field("to", ty("Point"))],
            },
            RsItem::OpaqueType { name: s("Canvas") },
            RsItem::OpaqueType { name: s("Frame") },
            RsItem::Function {
                name: s("draw::line"),
                link_name: s("draw::line"),
                params: vec![
                    slot("c", by_ref("Canvas"), Crossing::AsDeclared),
                    slot("l", ty("Line"), Crossing::AsDeclared),
                ],
                ret: None,
                marked_unsafe: false,
            },
            RsItem::Function {
                name: s("draw::frame"),
                link_name: s("draw::frame_wrapper"),
                params: vec![slot("f", ty("Frame"), Crossing::Indirect)],
                ret: Some(slot("", ty("Canvas"), Crossing::Indirect)),
                marked_unsafe: true,
            },
            ctype("int"),
        ]
    );
    assert_eq!(
        r.cpp,
        native(vec![
            CppItem::Wrapper {
                name: s("draw::frame_wrapper"),
                callee: s("draw::frame"),
                params: vec![slot("f", ty("Frame"), Crossing::Indirect)],
                ret: Some(slot("", ty("Canvas"), Crossing::Indirect)),
            },
            ctype_decl("int"),
        ])
    );
}

#[test]
fn converting_twice_gives_the_same_artefacts() {
    let db = allow(&["draw::line", "draw::length", "Handle"]);
    let first = run(library(), &db, UnsafePolicy::MarkedUnsafe);
    let second = run(library(), &db, UnsafePolicy::MarkedUnsafe);
    assert!(first.is_ok());
    assert_eq!(first, second);
    let failing = allow(&["draw::line", "nothing"]);
    let first = run(library(), &failing, UnsafePolicy::MarkedUnsafe);
    let second = run(library(), &failing, UnsafePolicy::MarkedUnsafe);
    assert_eq!(first, Err(ConvertError::UnsatisfiableRoot { root: s("nothing") }));
    assert_eq!(first, second);
}

#[test]
fn every_mentioned_type_is_declared_in_the_same_output() {
    let db = allow(&["draw::line", "draw::frame", "draw::length", "Handle", "draw::Style"]);
    let r = run(library(), &db, UnsafePolicy::MarkedUnsafe).unwrap();
    let names = declared(&r.rs);
    for item in &r.rs {
        for name in mentioned(item) {
            assert!(names.contains(&name), "{} in {:?}", name, item);
        }
    }
    for declaration in &r.cpp.as_ref().unwrap().declarations {
        if let CppItem::Wrapper { params, ret, .. } = declaration {
            for slot in params.iter().chain(ret.iter()) {
                assert!(names.contains(&slot.ty.name));
            }
        }
    }
    assert_eq!(
        names,
        vec![
            s("Point"),
            s("Line"),
            s("Canvas"),
            s("Frame"),
            s("Handle"),
            s("draw::line"),
            s("draw::frame"),
            s("draw::length"),
            s("draw::Style"),
            s("int"),
            s("double"),
            s("u8"),
        ]
    );
}

#[test]
fn every_root_is_generated_and_nothing_unreached() {
    let db = allow(&["draw::length"]);
    let r = run(library(), &db, UnsafePolicy::AllSafe).unwrap();
    assert_eq!(
        declared(&r.rs),
        vec![s("Point"), s("Line"), s("draw::length"), s("int"), s("double")]
    );
    let mut excluded = allow(&["draw::length"]);
    excluded.exclude(s("Point"));
    assert_eq!(
        run(library(), &excluded, UnsafePolicy::AllSafe),
        Err(ConvertError::UnsatisfiableRoot { root: s("draw::length") })
    );
    let mut elsewhere = allow(&["draw::length"]);
    elsewhere.exclude(s("Canvas"));
    assert!(run(library(), &elsewhere, UnsafePolicy::AllSafe).is_ok());
}

#[test]
fn a_safe_record_has_only_safe_members() {
    let db = allow(&["draw::line", "draw::frame", "Handle"]);
    let r = run(library(), &db, UnsafePolicy::MarkedUnsafe).unwrap();
    let opaque: Vec<String> = r
        .rs
        .iter()
        .filter_map(|i| match i {
            RsItem::OpaqueType { name } => Some(name.clone()),
            _ => None,
        })
        .collect();
    assert_eq!(opaque, vec![s("Canvas"), s("Frame")]);
    for item in &r.rs {
        if let RsItem::Struct { fields, .. } = item {
            for f in fields {
                assert!(!opaque.contains(&f.ty.name));
            }
        }
    }
}

#[test]
fn helpers_stay_out_on_request() {
    let db = allow(&["make_string"]);
    let includes: Vec<String> = vec![];
    let converter = BridgeConverter::new(&includes, &db);
    let kept = converter.convert(module(library()), false, UnsafePolicy::MarkedUnsafe, s(""));
    assert_eq!(
        declared(&kept.unwrap().rs),
        vec![s("make_string"), s("char"), s("long")]
    );
    let dropped = converter.convert(module(library()), true, UnsafePolicy::MarkedUnsafe, s(""));
    assert_eq!(dropped, Err(ConvertError::UnsatisfiableRoot { root: s("make_string") }));
}

#[test]
fn an_unknown_type_ends_the_conversion_wherever_it_is() {
    let items = vec![
        function("wanted", vec![], None),
        function("other", vec![field("s", by_ref("std::string"))], None),
    ];
    assert_eq!(
        run(items, &allow(&["wanted"]), UnsafePolicy::AllSafe),
        Err(ConvertError::UnknownType { declaration: s("other"), ty_name: s("std::string") })
    );
}

#[test]
fn a_wrapper_with_a_raw_pointer_is_refused_as_safe() {
    let make = || {
        vec![
            record_with_destructor("B", vec![]),
            function("risky", vec![field("b", ty("B")), field("p", by_ptr("B"))], None),
        ]
    };
    assert_eq!(
        run(make(), &allow(&["risky"]), UnsafePolicy::AllSafe),
        Err(ConvertError::UnsupportedSignature { function: s("risky") })
    );
    let marked = run(make(), &allow(&["risky"]), UnsafePolicy::MarkedUnsafe).unwrap();
    assert_eq!(
        marked.rs[3],
        RsItem::Function {
            name: s("risky"),
            link_name: s("risky_wrapper"),
            params: vec![
                slot("b", ty("B"), Crossing::Indirect),
                slot("p", by_ptr("B"), Crossing::AsDeclared),
            ],
            ret: None,
            marked_unsafe: true,
        }
    );
}

#[test]
fn a_wrong_claim_is_found_before_anything_is_parsed() {
    let items = vec![
        record_with_destructor("B", vec![]),
        record("D", vec![]),
        record("D", vec![field("x", ty("int"))]),
    ];
    let mut db = allow(&["B"]);
    db.assert_safety(s("B"), true);
    assert_eq!(
        run(items, &db, UnsafePolicy::AllSafe),
        Err(ConvertError::SafetyAssertionConflict { name: s("B") })
    );
}

#[test]
fn a_record_the_user_distrusts_stays_behind_a_pointer() {
    let items = vec![
        record("A", vec![field("x", ty("int"))]),
        function("foo", vec![field("a", ty("A"))], Some(ty("int"))),
    ];
    let mut db = allow(&["foo"]);
    db.assert_safety(s("A"), false);
    let r = run(items, &db, UnsafePolicy::AllSafe).unwrap();
    assert_eq!(
        r.rs,
        vec![
            shell(),
            header(),
            RsItem::OpaqueType { name: s("A") },
            RsItem::Function {
                name: s("foo"),
                link_name: s("foo_wrapper"),
                params: vec![slot("a", ty("A"), Crossing::Indirect)],
                ret: Some(slot("", ty("int"), Crossing::AsDeclared)),
                marked_unsafe: false,
            },
            ctype("int"),
        ]
    );
}

#[test]
fn nothing_native_is_written_without_need() {
    let items = vec![function("ping", vec![], None)];
    let r = run(items, &allow(&["ping"]), UnsafePolicy::MarkedUnsafe).unwrap();
    assert_eq!(r.cpp, None);
    assert_eq!(r.rs.len(), 3);
}

#[test]
fn a_record_behind_a_pointer_still_depends_on_its_members() {
    let make = || {
        vec![
            record("T", vec![]),
            record_with_destructor("B", vec![field("t", ty("T")), field("n", ty("long"))]),
            function("f", vec![field("b", ty("B"))], None),
        ]
    };
    let kept = run(make(), &allow(&["f"]), UnsafePolicy::MarkedUnsafe).unwrap();
    assert_eq!(
        kept.rs,
        vec![
            shell(),
            header(),
            RsItem::Struct { name: s("T"), fields: vec![] },
            RsItem::OpaqueType { name: s("B") },
            RsItem::Function {
                name: s("f"),
                link_name: s("f_wrapper"),
                params: vec![slot("b", ty("B"), Crossing::Indirect)],
                ret: None,
                marked_unsafe: true,
            },
            ctype("long"),
        ]
    );
    let mut db = allow(&["f"]);
    db.exclude(s("T"));
    assert_eq!(
        run(make(), &db, UnsafePolicy::MarkedUnsafe),
        Err(ConvertError::UnsatisfiableRoot { root: s("f") })
    );
}

#[test]
fn an_undeclared_member_type_is_unknown() {
    let items = vec![
        function("wanted", vec![], None),
        record_with_destructor("Holder", vec![field("s", ty("std::string"))]),
    ];
    assert_eq!(
        run(items, &allow(&["wanted"]), UnsafePolicy::AllSafe),
        Err(ConvertError::UnknownType { declaration: s("Holder"), ty_name: s("std::string") })
    );
    let items = vec![
        function("first", vec![field("x", ty("missing"))], None),
        typedef("Alias", ty("elsewhere")),
    ];
    assert_eq!(
        run(items, &allow(&[]), UnsafePolicy::AllSafe),
        Err(ConvertError::UnknownType { declaration: s("Alias"), ty_name: s("elsewhere") })
    );
    let items = vec![
        RawItem::Constant(RawConstant { name: s("LIMIT"), ty: s("size_t"), value: 1 }),
        RawItem::Enum(RawEnum { name: s("E"), underlying: s("wide"), variants: vec![] }),
    ];
    assert_eq!(
        run(items, &allow(&[]), UnsafePolicy::AllSafe),
        Err(ConvertError::UnknownType { declaration: s("LIMIT"), ty_name: s("size_t") })
    );
    let items = vec![record("R", vec![field("f", ty("helper"))]), function("helper", vec![], None)];
    assert_eq!(
        run(items, &allow(&[]), UnsafePolicy::AllSafe),
        Err(ConvertError::UnknownType { declaration: s("R"), ty_name: s("helper") })
    );
}

#[test]
fn a_block_of_functions_is_one_item() {
    let block = || {
        RawItem::ForeignBlock(vec![
            RawFunction {
                name: s("one"),
                params: vec![],
                ret: None,
                role: FunctionRole::Plain,
                variadic: false,
            },
            RawFunction {
                name: s("two"),
                params: vec![],
                ret: None,
                role: FunctionRole::Plain,
                variadic: false,
            },
        ])
    };
    assert_eq!(find_items_in_root(vec![block()]), Err(ConvertError::UnexpectedOuterItem));
    assert_eq!(
        find_items_in_root(vec![RawItem::ForeignBlock(vec![])]),
        Err(ConvertError::UnexpectedOuterItem)
    );
    let r = run(vec![block()], &allow(&["two"]), UnsafePolicy::AllSafe).unwrap();
    assert_eq!(
        r.rs[2],
        RsItem::Function {
            name: s("two"),
            link_name: s("two"),
            params: vec![],
            ret: None,
            marked_unsafe: false,
        }
    );
    assert_eq!(r.rs.len(), 3);
}

#[test]
fn a_record_and_its_function_convert_under_either_policy() {
    for policy in [UnsafePolicy::AllSafe, UnsafePolicy::MarkedUnsafe] {
        let plain = vec![
            record("A", vec![field("x", ty("int"))]),
            function("foo", vec![field("a", ty("A"))], Some(ty("int"))),
        ];
        let r = run(plain, &allow(&["foo"]), policy).unwrap();
        assert!(r.rs.contains(&RsItem::Function {
            name: s("foo"),
            link_name: s("foo"),
            params: vec![slot("a", ty("A"), Crossing::AsDeclared)],
            ret: Some(slot("", ty("int"), Crossing::AsDeclared)),
            marked_unsafe: false,
        }));
        assert!(r.rs.contains(&RsItem::Struct {
            name: s("A"),
            fields: vec![field("x", ty("int"))]
        }));
        let wrappers = r
            .cpp
            .iter()
            .flat_map(|c| c.declarations.iter())
            .filter(|d| matches!(d, CppItem::Wrapper { .. }))
            .count();
        assert_eq!(wrappers, 0);

        let guarded = vec![
            record_with_destructor("B", vec![field("x", ty("int"))]),
            function("bar", vec![field("b", ty("B"))], None),
        ];
        let r = run(guarded, &allow(&["bar"]), policy).unwrap();
        assert!(r.rs.contains(&RsItem::OpaqueType { name: s("B") }));
        assert!(r.rs.contains(&RsItem::Function {
            name: s("bar"),
            link_name: s("bar_wrapper"),
            params: vec![slot("b", ty("B"), Crossing::Indirect)],
            ret: None,
            marked_unsafe: policy == UnsafePolicy::MarkedUnsafe,
        }));
        assert!(r.cpp.unwrap().declarations.contains(&CppItem::Wrapper {
            name: s("bar_wrapper"),
            callee: s("bar"),
            params: vec![slot("b", ty("B"), Crossing::Indirect)],
            ret: None,
        }));
    }
}
