//! The native side: the wrappers to be written and the primitive types to
//! be declared.

use vstd::prelude::*;
use crate::conversion::api::Api;
use crate::conversion::api::ApiView;
use crate::conversion::api::BridgeSlot;
use crate::conversion::api::Shape;
use crate::conversion::api::ShapeView;
use crate::conversion::api::SlotView;
use crate::conversion::api::apis_view;
use crate::conversion::api::is_wrapped;
use crate::conversion::api::make_wrapper_name;
use crate::conversion::api::opt_slot_view;
use crate::conversion::api::param_slots;
use crate::conversion::api::ret_slot;
use crate::conversion::api::slot_types;
use crate::conversion::api::slots_view;
use crate::conversion::api::wrapper_name;
use crate::names::names_view;

verus! {

/// One native declaration.
#[derive(Debug, PartialEq, Eq)]
pub enum CppItem {
    /// A function called `name` that takes and returns what the slots say
    /// and calls `callee`.
    Wrapper { name: String, callee: String, params: Vec<BridgeSlot>, ret: Option<BridgeSlot> },
    /// The declaration of a primitive type.
    CTypeDeclaration { name: String },
}

/// What a [`CppItem`] stands for in contracts.
pub enum CppItemView {
    Wrapper { name: Seq<char>, callee: Seq<char>, params: Seq<SlotView>, ret: Option<SlotView> },
    CTypeDeclaration { name: Seq<char> },
}

impl CppItemView {
    /// The types the declaration mentions.
    pub open spec fn refs(self) -> Seq<Seq<char>> {
        match self {
            CppItemView::Wrapper { params, ret, .. } => slot_types(params, ret),
            CppItemView::CTypeDeclaration { .. } => Seq::empty(),
        }
    }
}

impl View for CppItem {
    type V = CppItemView;

    open spec fn view(&self) -> CppItemView {
        match self {
            CppItem::Wrapper { name, callee, params, ret } => CppItemView::Wrapper {
                name: name@,
                callee: callee@,
                params: slots_view(params@),
                ret: opt_slot_view(*ret),
            },
            CppItem::CTypeDeclaration { name } => CppItemView::CTypeDeclaration { name: name@ },
        }
    }
}

/// The native artefact.
#[derive(Debug, PartialEq, Eq)]
pub struct CppCodegenResults {
    /// Text to put in front, as the caller gave it.
    pub preamble: String,
    /// The files to include, as the caller gave them.
    pub includes: Vec<String>,
    pub declarations: Vec<CppItem>,
}

/// What a [`CppCodegenResults`] stands for in contracts.
pub struct CppView {
    pub preamble: Seq<char>,
    pub includes: Seq<Seq<char>>,
    pub declarations: Seq<CppItemView>,
}

impl View for CppCodegenResults {
    type V = CppView;

    open spec fn view(&self) -> CppView {
        CppView {
            preamble: self.preamble@,
            includes: names_view(self.includes@),
            declarations: self.declarations@.map_values(|d: CppItem| d@),
        }
    }
}

/// An optional native artefact, as contracts see it.
pub open spec fn opt_cpp_view(r: Option<CppCodegenResults>) -> Option<CppView> {
    match r {
        Some(c) => Some(c@),
        None => None,
    }
}

/// The native declaration that an API calls for, if it calls for one: a
/// wrapper for a function that is to be wrapped, a declaration for a
/// primitive type that the pipeline added.
pub open spec fn cpp_item(a: ApiView) -> Option<CppItemView> {
    match a.shape {
        ShapeView::Function(f) => if is_wrapped(a.plan) {
            Some(
                CppItemView::Wrapper {
                    name: wrapper_name(a.name),
                    callee: a.name,
                    params: param_slots(f, a.plan),
                    ret: ret_slot(f, a.plan),
                },
            )
        } else {
            None
        },
        ShapeView::Typedef(_) => if a.synthetic {
            Some(CppItemView::CTypeDeclaration { name: a.name })
        } else {
            None
        },
        _ => None,
    }
}

/// The native declarations that a model calls for, in the order of its APIs.
pub open spec fn cpp_items(model: Seq<ApiView>) -> Seq<CppItemView>
    decreases model.len(),
{
    if model.len() == 0 {
        Seq::empty()
    } else {
        cpp_items(model.drop_last()) + match cpp_item(model.last()) {
            Some(item) => seq![item],
            None => Seq::empty(),
        }
    }
}

/// The native artefact for a model: nothing where the model calls for no
/// native declaration.
pub open spec fn cpp_code(
    inclusions: Seq<char>,
    includes: Seq<Seq<char>>,
    model: Seq<ApiView>,
) -> Option<CppView> {
    if cpp_items(model).len() == 0 {
        None
    } else {
        Some(CppView { preamble: inclusions, includes, declarations: cpp_items(model) })
    }
}

/// Every native declaration comes from an API that calls for it.
pub proof fn lemma_cpp_items_origin(model: Seq<ApiView>, i: int)
    requires
        0 <= i < cpp_items(model).len(),
    ensures
        exists|k: int| 0 <= k < model.len() && cpp_item(#[trigger] model[k]) == Some(cpp_items(model)[i]),
    decreases model.len(),
{
    if model.len() > 0 {
        let front = model.drop_last();
        if i < cpp_items(front).len() {
            lemma_cpp_items_origin(front, i);
            let k = choose|k: int|
                0 <= k < front.len() && cpp_item(#[trigger] front[k]) == Some(cpp_items(front)[i]);
            assert(model[k] == front[k]);
        } else {
            assert(cpp_item(model[model.len() - 1]) == Some(cpp_items(model)[i]));
        }
    }
}

/// The native declaration that an API calls for is among those of its model.
pub proof fn lemma_cpp_items_contains(model: Seq<ApiView>, k: int)
    requires
        0 <= k < model.len(),
        cpp_item(model[k]) is Some,
    ensures
        cpp_items(model).contains(cpp_item(model[k])->Some_0),
    decreases model.len(),
{
    let front = model.drop_last();
    let all = cpp_items(model);
    if k < model.len() - 1 {
        lemma_cpp_items_contains(front, k);
        assert(front[k] == model[k]);
        let j = choose|j: int|
            0 <= j < cpp_items(front).len() && cpp_items(front)[j] == cpp_item(model[k])->Some_0;
        assert(all[j] == cpp_items(front)[j]);
    } else {
        assert(all[cpp_items(front).len() as int] == cpp_item(model[k])->Some_0);
    }
}

fn native_item(api: &Api) -> (r: Option<CppItem>)
    ensures
        match r {
            Some(item) => cpp_item(api@) == Some(item@),
            None => cpp_item(api@) is None,
        },
{
    match &api.shape {
        Shape::Function(f) => {
            if api.is_wrapped() {
                Some(
                    CppItem::Wrapper {
                        name: make_wrapper_name(&api.name),
                        callee: api.name.clone(),
                        params: api.param_slots(f),
                        ret: api.ret_slot(f),
                    },
                )
            } else {
                None
            }
        },
        Shape::Typedef(_) => {
            if api.synthetic {
                Some(CppItem::CTypeDeclaration { name: api.name.clone() })
            } else {
                None
            }
        },
        _ => None,
    }
}

/// A copy of the names in a slice.
pub fn clone_name_slice(v: &[String]) -> (r: Vec<String>)
    ensures
        names_view(r@) == names_view(v@),
{
    let mut r: Vec<String> = Vec::new();
    let mut i: usize = 0;
    while i < v.len()
        invariant
            i <= v.len(),
            r@.len() == i,
            forall|j: int| 0 <= j < i ==> r@[j]@ == v@[j]@,
        decreases v.len() - i,
    {
        r.push(v[i].clone());
        i += 1;
    }
    assert(names_view(r@) =~= names_view(v@));
    r
}

/// The generator of the native side.
pub struct CppCodeGenerator {}

impl CppCodeGenerator {
    /// Lists the native declarations that `apis` call for, under the preamble
    /// and the includes the caller supplied. Returns nothing where there is
    /// nothing to declare.
    pub fn generate_cpp_code(inclusions: String, include_list: &[String], apis: &Vec<Api>) -> (r:
        Option<CppCodegenResults>)
        ensures
            opt_cpp_view(r) == cpp_code(inclusions@, names_view(include_list@), apis_view(apis@)),
    {
        let ghost model = apis_view(apis@);
        let mut declarations: Vec<CppItem> = Vec::new();
        let mut i: usize = 0;
        assert(model.take(0) =~= Seq::<ApiView>::empty());
        while i < apis.len()
            invariant
                i <= apis.len(),
                model == apis_view(apis@),
                declarations@.map_values(|d: CppItem| d@) == cpp_items(model.take(i as int)),
            decreases apis.len() - i,
        {
            proof {
                assert(model.take(i + 1).drop_last() =~= model.take(i as int));
                assert(model.take(i + 1).last() == apis@[i as int]@);
            }
            let ghost before = declarations@.map_values(|d: CppItem| d@);
            match native_item(&apis[i]) {
                Some(item) => {
                    declarations.push(item);
                    assert(declarations@.map_values(|d: CppItem| d@) =~= before + seq![item@]);
                },
                None => {
                    assert(before =~= before + Seq::<CppItemView>::empty());
                },
            }
            i += 1;
        }
        assert(model.take(apis.len() as int) =~= model);
        if declarations.len() == 0 {
            None
        } else {
            Some(
                CppCodegenResults {
                    preamble: inclusions,
                    includes: clone_name_slice(include_list),
                    declarations,
                },
            )
        }
    }
}

} // verus!
