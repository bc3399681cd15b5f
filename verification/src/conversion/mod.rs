//! The conversion pipeline and the stages it is made of.

pub mod analysis;
pub mod api;
pub mod codegen_cpp;
pub mod codegen_rs;
pub mod guarantees;
pub mod pair;
pub mod parse;
pub mod utilities;

use vstd::prelude::*;
use crate::UnsafePolicy;
use crate::bindings::GroupingView;
use crate::bindings::ItemView;
use crate::bindings::RawGrouping;
use crate::bindings::RawItem;
use crate::bindings::items_view;
use crate::bindings::lemma_items_view;
use crate::names::root_name;
use crate::conversion::analysis::ctypes::append_ctype_information;
use crate::conversion::analysis::ctypes::ctypes_appended;
use crate::conversion::analysis::fun::FnAnalyzer;
use crate::conversion::analysis::fun::functions_analysed;
use crate::conversion::analysis::gc::filter_apis_by_following_edges_from_allowlist;
use crate::conversion::analysis::gc::pruned;
use crate::conversion::analysis::pod::analyze_pod_apis;
use crate::conversion::analysis::pod::identified;
use crate::conversion::analysis::pod::identify_byvalue_safe_types;
use crate::conversion::analysis::pod::pod_analysed;
use crate::conversion::analysis::pod::pod_checked;
use crate::conversion::analysis::pod::registry_after_pod;
use crate::conversion::api::ApiView;
use crate::conversion::api::ConvertError;
use crate::conversion::api::ErrorView;
use crate::conversion::codegen_cpp::CppCodeGenerator;
use crate::conversion::codegen_cpp::CppCodegenResults;
use crate::conversion::codegen_cpp::CppView;
use crate::conversion::codegen_cpp::cpp_code;
use crate::conversion::codegen_cpp::opt_cpp_view;
use crate::conversion::codegen_rs::RsCodeGenerator;
use crate::conversion::codegen_rs::RsItem;
use crate::conversion::codegen_rs::RsItemView;
use crate::conversion::codegen_rs::rs_code;
use crate::conversion::codegen_rs::rs_items_view;
use crate::conversion::parse::ParseBindgen;
use crate::conversion::parse::flat_decls;
use crate::conversion::parse::flat_uses;
use crate::conversion::parse::parsed;
use crate::conversion::parse::registry_after_parse;
use crate::conversion::parse::type_converter::TypeConverter;
use crate::conversion::parse::type_converter::empty_registry;
use crate::names::names_view;
use crate::names::same_name;
use crate::type_database::DatabaseView;
use crate::type_database::TypeDatabase;

verus! {

/// What unwrapping the outer list of declarations yields.
pub open spec fn items_in_root(items: Seq<ItemView>) -> Result<Seq<ItemView>, ErrorView> {
    if items.len() == 0 {
        Ok(Seq::empty())
    } else if items.len() > 1 {
        Err(ErrorView::UnexpectedOuterItem)
    } else {
        match items[0] {
            ItemView::Grouping(g) => if g.name != root_name() {
                Err(ErrorView::UnexpectedOuterItem)
            } else {
                match g.content {
                    Some(inner) => Ok(inner),
                    None => Err(ErrorView::NoContent),
                }
            },
            _ => Err(ErrorView::UnexpectedOuterItem),
        }
    }
}

/// The outcome of unwrapping, as contracts see it.
pub open spec fn items_result_view(r: Result<Vec<RawItem>, ConvertError>) -> Result<
    Seq<ItemView>,
    ErrorView,
> {
    match r {
        Ok(v) => Ok(items_view(v@)),
        Err(e) => Err(e@),
    }
}

/// Checks that the generator's output has the one shape it is known to have,
/// a single grouping called `root`, and hands out what is inside it.
pub fn find_items_in_root(items: Vec<RawItem>) -> (r: Result<Vec<RawItem>, ConvertError>)
    ensures
        items_result_view(r) == items_in_root(items_view(items@)),
{
    proof {
        lemma_items_view(items@);
    }
    let mut items = items;
    if items.len() == 0 {
        return Ok(items);
    }
    if items.len() > 1 {
        return Err(ConvertError::UnexpectedOuterItem);
    }
    let only = items.pop();
    match only {
        Some(RawItem::Grouping(g)) => {
            let expected = String::from_str("root");
            if !same_name(&g.name, &expected) {
                Err(ConvertError::UnexpectedOuterItem)
            } else {
                match g.content {
                    Some(inner) => Ok(inner),
                    None => Err(ConvertError::NoContent),
                }
            }
        },
        _ => Err(ConvertError::UnexpectedOuterItem),
    }
}

/// The model after parsing and both analyses, before anything is pruned.
pub open spec fn analysed(
    items: Seq<ItemView>,
    db: DatabaseView,
    exclude_utilities: bool,
    policy: UnsafePolicy,
) -> Result<Seq<ApiView>, ErrorView> {
    match identified(flat_decls(items, Seq::empty(), exclude_utilities), db) {
        Err(e) => Err(e),
        Ok(checker) => match parsed(items, exclude_utilities) {
            Err(e) => Err(e),
            Ok(p) => {
                let reg = registry_after_pod(
                    registry_after_parse(empty_registry(), items, exclude_utilities),
                    p.apis,
                    checker,
                );
                match pod_checked(pod_analysed(p.apis, checker), reg) {
                    Err(e) => Err(e),
                    Ok(model) => functions_analysed(model, reg, policy),
                }
            },
        },
    }
}

/// The model that the generators work from: analysed, pruned, and with the
/// primitive types it uses declared.
pub open spec fn final_model(
    items: Seq<ItemView>,
    db: DatabaseView,
    exclude_utilities: bool,
    policy: UnsafePolicy,
) -> Result<Seq<ApiView>, ErrorView> {
    match analysed(items, db, exclude_utilities, policy) {
        Err(e) => Err(e),
        Ok(model) => match pruned(model, db) {
            Err(e) => Err(e),
            Ok(kept) => Ok(ctypes_appended(kept)),
        },
    }
}

/// Both artefacts of a conversion.
#[derive(Debug, PartialEq, Eq)]
pub struct CodegenResults {
    /// The bridge side. Always there.
    pub rs: Vec<RsItem>,
    /// The native side. Absent where nothing native has to be written.
    pub cpp: Option<CppCodegenResults>,
}

/// What a [`CodegenResults`] stands for in contracts.
pub struct CodegenView {
    pub rs: Seq<RsItemView>,
    pub cpp: Option<CppView>,
}

impl View for CodegenResults {
    type V = CodegenView;

    open spec fn view(&self) -> CodegenView {
        CodegenView { rs: rs_items_view(self.rs@), cpp: opt_cpp_view(self.cpp) }
    }
}

/// The outcome of a conversion, as contracts see it.
pub open spec fn codegen_result_view(r: Result<CodegenResults, ConvertError>) -> Result<
    CodegenView,
    ErrorView,
> {
    match r {
        Ok(c) => Ok(c@),
        Err(e) => Err(e@),
    }
}

/// What converting `bindgen_mod` yields. Every stage either hands its result
/// to the next or ends the conversion with its failure; nothing is generated
/// from a model that a stage refused.
pub open spec fn converted(
    bindgen_mod: GroupingView,
    includes: Seq<Seq<char>>,
    db: DatabaseView,
    exclude_utilities: bool,
    policy: UnsafePolicy,
    inclusions: Seq<char>,
) -> Result<CodegenView, ErrorView> {
    match bindgen_mod.content {
        None => Err(ErrorView::NoContent),
        Some(outer) => match items_in_root(outer) {
            Err(e) => Err(e),
            Ok(items) => match final_model(items, db, exclude_utilities, policy) {
                Err(e) => Err(e),
                Ok(model) => Ok(
                    CodegenView {
                        rs: rs_code(
                            model,
                            includes,
                            flat_uses(items, Seq::empty()),
                            bindgen_mod.name,
                        ),
                        cpp: cpp_code(inclusions, includes, model),
                    },
                ),
            },
        },
    }
}

/// Converts what the binding generator produced into what the bridge
/// compiler consumes.
pub struct BridgeConverter<'a> {
    include_list: &'a [String],
    type_database: &'a TypeDatabase,
}

impl<'a> BridgeConverter<'a> {
    /// The files the generated code is to include.
    pub closed spec fn includes(&self) -> Seq<Seq<char>> {
        names_view(self.include_list@)
    }

    /// The user's configuration.
    pub closed spec fn database(&self) -> DatabaseView {
        self.type_database@
    }

    /// A converter that embeds `include_list` in what it generates and goes
    /// by `type_database`.
    pub fn new(include_list: &'a [String], type_database: &'a TypeDatabase) -> (r: Self)
        ensures
            r.includes() == names_view(include_list@),
            r.database() == type_database@,
    {
        Self { include_list, type_database }
    }

    /// Converts one module of generated bindings. The stages run in a fixed
    /// order: unwrap the root, decide value safety, parse, record the
    /// verdicts and look for types that nothing declares, plan the
    /// functions, prune, declare the primitive types, generate. The first
    /// failure is the result.
    pub fn convert(
        &self,
        bindgen_mod: RawGrouping,
        exclude_utilities: bool,
        unsafe_policy: UnsafePolicy,
        inclusions: String,
    ) -> (r: Result<CodegenResults, ConvertError>)
        ensures
            codegen_result_view(r) == converted(
                bindgen_mod@,
                self.includes(),
                self.database(),
                exclude_utilities,
                unsafe_policy,
                inclusions@,
            ),
    {
        let RawGrouping { name, content } = bindgen_mod;
        match content {
            None => Err(ConvertError::NoContent),
            Some(items) => {
                let items_in_root = match find_items_in_root(items) {
                    Ok(found) => found,
                    Err(e) => {
                        return Err(e);
                    },
                };
                let byvalue_checker = match identify_byvalue_safe_types(
                    &items_in_root,
                    self.type_database,
                    exclude_utilities,
                ) {
                    Ok(checker) => checker,
                    Err(e) => {
                        return Err(e);
                    },
                };
                let mut type_converter = TypeConverter::new();
                let parse_results = match ParseBindgen::convert_items(
                    items_in_root,
                    exclude_utilities,
                    &mut type_converter,
                ) {
                    Ok(results) => results,
                    Err(e) => {
                        return Err(e);
                    },
                };
                let analyzed_apis = match analyze_pod_apis(
                    parse_results.apis,
                    &byvalue_checker,
                    &mut type_converter,
                ) {
                    Ok(apis) => apis,
                    Err(e) => {
                        return Err(e);
                    },
                };
                let analyzed_apis = match FnAnalyzer::analyze_functions(
                    analyzed_apis,
                    unsafe_policy,
                    &type_converter,
                ) {
                    Ok(apis) => apis,
                    Err(e) => {
                        return Err(e);
                    },
                };
                let mut analyzed_apis = match filter_apis_by_following_edges_from_allowlist(
                    analyzed_apis,
                    self.type_database,
                ) {
                    Ok(apis) => apis,
                    Err(e) => {
                        return Err(e);
                    },
                };
                append_ctype_information(&mut analyzed_apis);
                let cpp = CppCodeGenerator::generate_cpp_code(
                    inclusions,
                    self.include_list,
                    &analyzed_apis,
                );
                let shell = RawGrouping { name, content: Some(Vec::new()) };
                let rs = RsCodeGenerator::generate_rs_code(
                    analyzed_apis,
                    self.include_list,
                    parse_results.use_stmts_by_mod,
                    shell,
                );
                Ok(CodegenResults { rs, cpp })
            },
        }
    }
}

} // verus!
