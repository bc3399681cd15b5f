//! How each function is made available: called directly, or through a native
//! wrapper that is written for it.

use vstd::prelude::*;
use crate::UnsafePolicy;
use crate::bindings::FieldView;
use crate::bindings::FunctionRole;
use crate::bindings::FunctionView;
use crate::bindings::Passing;
use crate::bindings::RawFunction;
use crate::bindings::RawType;
use crate::bindings::TypeView;
use crate::conversion::api::Api;
use crate::conversion::api::ApiView;
use crate::conversion::api::CallPlan;
use crate::conversion::api::ConvertError;
use crate::conversion::api::Crossing;
use crate::conversion::api::ErrorView;
use crate::conversion::api::Materialization;
use crate::conversion::api::PlanView;
use crate::conversion::api::Safety;
use crate::conversion::api::Shape;
use crate::conversion::api::ShapeView;
use crate::conversion::api::apis_view;
use crate::conversion::parse::apis_result_view;
use crate::conversion::parse::type_converter::RegistryView;
use crate::conversion::parse::type_converter::TypeConverter;
use crate::search::first_such;
use crate::search::lemma_first_such_is;
use crate::search::lemma_first_such_none;

verus! {

/// The types of a signature: those of the parameters in order, then that of
/// the result where there is one.
pub open spec fn signature_types(f: FunctionView) -> Seq<TypeView> {
    f.params.map_values(|p: FieldView| p.ty) + match f.ret {
        Some(t) => seq![t],
        None => Seq::empty(),
    }
}

/// The types of a list, as contracts see them.
pub open spec fn types_view(types: Seq<RawType>) -> Seq<TypeView> {
    types.map_values(|t: RawType| t@)
}

/// The test for a type that the registry has no verdict on.
pub open spec fn unresolved_test(reg: RegistryView, types: Seq<TypeView>) -> spec_fn(int) -> bool {
    |i: int| reg.tag(types[i].name) == Safety::PendingAnalysis
}

/// How a value of type `t` crosses the bridge: behind an owning pointer
/// where the declaration passes by value what may not be copied, and as
/// declared otherwise.
pub open spec fn crossing_of(reg: RegistryView, t: TypeView) -> Crossing {
    if t.passing == Passing::ByValue && reg.tag(t.name) == Safety::RequiresIndirection {
        Crossing::Indirect
    } else {
        Crossing::AsDeclared
    }
}

/// Whether a raw pointer is passed in or out.
pub open spec fn has_pointer(types: Seq<TypeView>) -> bool {
    exists|i: int| 0 <= i < types.len() && (#[trigger] types[i]).passing == Passing::ByPointer
}

/// Whether the function needs a wrapper: it constructs or destroys, or a
/// value that may not be copied is passed or returned by value.
pub open spec fn needs_wrapper(f: FunctionView, reg: RegistryView) -> bool {
    ||| f.role != FunctionRole::Plain
    ||| exists|i: int|
        0 <= i < signature_types(f).len() && crossing_of(reg, #[trigger] signature_types(f)[i])
            == Crossing::Indirect
}

/// What is decided for the function `f` called `function`.
pub open spec fn planned(
    function: Seq<char>,
    f: FunctionView,
    reg: RegistryView,
    policy: UnsafePolicy,
) -> Result<PlanView, ErrorView> {
    let types = signature_types(f);
    match first_such(types.len() as int, unresolved_test(reg, types)) {
        Some(i) => Err(ErrorView::UnknownType { declaration: function, ty_name: types[i].name }),
        None => if f.variadic {
            Err(ErrorView::UnsupportedSignature { function })
        } else if needs_wrapper(f, reg) && policy == UnsafePolicy::AllSafe && has_pointer(types) {
            Err(ErrorView::UnsupportedSignature { function })
        } else {
            Ok(
                PlanView {
                    kind: if needs_wrapper(f, reg) {
                        Materialization::SynthesizedWrapper
                    } else {
                        Materialization::DirectPassthrough
                    },
                    marked_unsafe: needs_wrapper(f, reg) && policy == UnsafePolicy::MarkedUnsafe,
                    params: f.params.map_values(|p: FieldView| crossing_of(reg, p.ty)),
                    ret: match f.ret {
                        Some(t) => crossing_of(reg, t),
                        None => Crossing::AsDeclared,
                    },
                },
            )
        },
    }
}

/// The outcome of planning, as contracts see it.
pub open spec fn plan_result_view(r: Result<CallPlan, ConvertError>) -> Result<
    PlanView,
    ErrorView,
> {
    match r {
        Ok(p) => Ok(p@),
        Err(e) => Err(e@),
    }
}

/// An API after the function analysis: a function without a plan gets one,
/// or fails; every other API stays as it is.
pub open spec fn analysed_function(a: ApiView, reg: RegistryView, policy: UnsafePolicy) -> Result<
    ApiView,
    ErrorView,
> {
    match a.shape {
        ShapeView::Function(f) => if a.plan is None {
            match planned(a.name, f, reg, policy) {
                Ok(p) => Ok(ApiView { plan: Some(p), ..a }),
                Err(e) => Err(e),
            }
        } else {
            Ok(a)
        },
        _ => Ok(a),
    }
}

/// The test for an API of `model` whose analysis fails.
pub open spec fn failure_test(
    model: Seq<ApiView>,
    reg: RegistryView,
    policy: UnsafePolicy,
) -> spec_fn(int) -> bool {
    |i: int| analysed_function(model[i], reg, policy) is Err
}

/// The model after the function analysis, or the failure of the first
/// function that has one.
pub open spec fn functions_analysed(
    model: Seq<ApiView>,
    reg: RegistryView,
    policy: UnsafePolicy,
) -> Result<Seq<ApiView>, ErrorView> {
    match first_such(model.len() as int, failure_test(model, reg, policy)) {
        Some(i) => Err(analysed_function(model[i], reg, policy)->Err_0),
        None => Ok(model.map_values(|a: ApiView| analysed_function(a, reg, policy)->Ok_0)),
    }
}

/// Ordering: a function gets a plan only where the registry holds a verdict
/// for every type of its signature.
pub proof fn lemma_plan_needs_verdicts(
    function: Seq<char>,
    f: FunctionView,
    reg: RegistryView,
    policy: UnsafePolicy,
    i: int,
)
    requires
        planned(function, f, reg, policy) is Ok,
        0 <= i < signature_types(f).len(),
    ensures
        reg.tag(signature_types(f)[i].name) != Safety::PendingAnalysis,
{
    let types = signature_types(f);
    crate::search::lemma_first_from(0, types.len() as int, unresolved_test(reg, types));
    assert(!unresolved_test(reg, types)(i));
}

/// The types of a signature.
fn signature(f: &RawFunction) -> (r: Vec<RawType>)
    ensures
        types_view(r@) == signature_types(f@),
{
    let mut r: Vec<RawType> = Vec::new();
    let mut i: usize = 0;
    while i < f.params.len()
        invariant
            i <= f.params.len(),
            r@.len() == i,
            forall|j: int| 0 <= j < i ==> (#[trigger] r@[j])@ == f.params@[j].ty@,
        decreases f.params.len() - i,
    {
        r.push(f.params[i].ty.clone());
        i += 1;
    }
    match &f.ret {
        Some(t) => {
            r.push(t.clone());
        },
        None => {},
    }
    assert(types_view(r@) =~= signature_types(f@));
    r
}

fn crossing(tc: &TypeConverter, t: &RawType) -> (r: Crossing)
    ensures
        r == crossing_of(tc@, t@),
{
    if t.passing == Passing::ByValue && tc.safety_of(&t.name) == Safety::RequiresIndirection {
        Crossing::Indirect
    } else {
        Crossing::AsDeclared
    }
}

/// The first type of `types` that the registry has no verdict on.
fn first_unresolved(tc: &TypeConverter, types: &Vec<RawType>) -> (r: Option<usize>)
    ensures
        match r {
            Some(i) => first_such(
                types@.len() as int,
                unresolved_test(tc@, types_view(types@)),
            ) == Some(i as int) && i < types@.len(),
            None => first_such(types@.len() as int, unresolved_test(tc@, types_view(types@)))
                == None::<int>,
        },
{
    let ghost tv = types_view(types@);
    let ghost test = unresolved_test(tc@, tv);
    let mut i: usize = 0;
    while i < types.len()
        invariant
            i <= types.len(),
            tv == types_view(types@),
            test == unresolved_test(tc@, tv),
            forall|k: int| 0 <= k < i ==> !(#[trigger] test(k)),
        decreases types.len() - i,
    {
        assert(tv[i as int] == types@[i as int]@);
        if tc.safety_of(&types[i].name) == Safety::PendingAnalysis {
            proof {
                assert(test(i as int));
                lemma_first_such_is(tv.len() as int, test, i as int);
            }
            return Some(i);
        }
        assert(!test(i as int));
        i += 1;
    }
    proof {
        lemma_first_such_none(tv.len() as int, test);
    }
    None
}

fn any_pointer(types: &Vec<RawType>) -> (r: bool)
    ensures
        r == has_pointer(types_view(types@)),
{
    let ghost tv = types_view(types@);
    let mut i: usize = 0;
    while i < types.len()
        invariant
            i <= types.len(),
            tv == types_view(types@),
            forall|k: int| 0 <= k < i ==> (#[trigger] tv[k]).passing != Passing::ByPointer,
        decreases types.len() - i,
    {
        assert(tv[i as int] == types@[i as int]@);
        if types[i].passing == Passing::ByPointer {
            return true;
        }
        i += 1;
    }
    false
}

fn any_indirect(tc: &TypeConverter, types: &Vec<RawType>) -> (r: bool)
    ensures
        r == exists|i: int|
            0 <= i < types@.len() && crossing_of(tc@, #[trigger] types_view(types@)[i])
                == Crossing::Indirect,
{
    let ghost tv = types_view(types@);
    let mut i: usize = 0;
    while i < types.len()
        invariant
            i <= types.len(),
            tv == types_view(types@),
            forall|k: int| 0 <= k < i ==> crossing_of(tc@, #[trigger] tv[k]) != Crossing::Indirect,
        decreases types.len() - i,
    {
        assert(tv[i as int] == types@[i as int]@);
        if crossing(tc, &types[i]) == Crossing::Indirect {
            return true;
        }
        i += 1;
    }
    false
}

/// Decides how the function `f` called `name` is made available.
pub fn plan_function(
    name: &String,
    f: &RawFunction,
    policy: UnsafePolicy,
    tc: &TypeConverter,
) -> (r: Result<CallPlan, ConvertError>)
    ensures
        plan_result_view(r) == planned(name@, f@, tc@, policy),
{
    let types = signature(f);
    let ghost tv = types_view(types@);
    match first_unresolved(tc, &types) {
        Some(i) => {
            assert(tv[i as int] == types@[i as int]@);
            return Err(
                ConvertError::UnknownType {
                    declaration: name.clone(),
                    ty_name: types[i].name.clone(),
                },
            );
        },
        None => {},
    }
    if f.variadic {
        return Err(ConvertError::UnsupportedSignature { function: name.clone() });
    }
    let wrapper = f.role != FunctionRole::Plain || any_indirect(tc, &types);
    assert(wrapper == needs_wrapper(f@, tc@));
    if wrapper && policy == UnsafePolicy::AllSafe && any_pointer(&types) {
        return Err(ConvertError::UnsupportedSignature { function: name.clone() });
    }
    let mut params: Vec<Crossing> = Vec::new();
    let mut i: usize = 0;
    while i < f.params.len()
        invariant
            i <= f.params.len(),
            params@.len() == i,
            forall|j: int|
                0 <= j < i ==> #[trigger] params@[j] == crossing_of(tc@, f.params@[j].ty@),
        decreases f.params.len() - i,
    {
        params.push(crossing(tc, &f.params[i].ty));
        i += 1;
    }
    let ret = match &f.ret {
        Some(t) => crossing(tc, t),
        None => Crossing::AsDeclared,
    };
    let plan = CallPlan {
        kind: if wrapper {
            Materialization::SynthesizedWrapper
        } else {
            Materialization::DirectPassthrough
        },
        marked_unsafe: wrapper && policy == UnsafePolicy::MarkedUnsafe,
        params,
        ret,
    };
    assert(plan@.params =~= f@.params.map_values(|p: FieldView| crossing_of(tc@, p.ty)));
    Ok(plan)
}

/// The function analysis.
pub struct FnAnalyzer {}

impl FnAnalyzer {
    /// Decides for every function of the model that has no plan yet how it is
    /// made available, from the verdicts that the registry holds for the
    /// types of its signature. The first function that mentions a type
    /// without a verdict, or that no wrapper can expose under `unsafe_policy`,
    /// ends the conversion.
    pub fn analyze_functions(
        apis: Vec<Api>,
        unsafe_policy: UnsafePolicy,
        type_converter: &TypeConverter,
    ) -> (r: Result<Vec<Api>, ConvertError>)
        ensures
            apis_result_view(r) == functions_analysed(
                apis_view(apis@),
                type_converter@,
                unsafe_policy,
            ),
    {
        let ghost model = apis_view(apis@);
        let ghost reg = type_converter@;
        let ghost test = failure_test(model, reg, unsafe_policy);
        let mut work = apis;
        let n = work.len();
        let mut i: usize = 0;
        while i < n
            invariant
                i <= n,
                n == work@.len(),
                model == apis_view(apis@),
                model.len() == n,
                reg == type_converter@,
                test == failure_test(model, reg, unsafe_policy),
                forall|k: int| 0 <= k < i ==> !(#[trigger] test(k)),
                forall|k: int|
                    0 <= k < i ==> (#[trigger] work@[k])@ == analysed_function(
                        model[k],
                        reg,
                        unsafe_policy,
                    )->Ok_0,
                forall|k: int| i <= k < n ==> (#[trigger] work@[k])@ == model[k],
            decreases n - i,
        {
            assert(work@[i as int]@ == model[i as int]);
            let planned = match &work[i].shape {
                Shape::Function(f) => {
                    if work[i].plan.is_none() {
                        Some(plan_function(&work[i].name, f, unsafe_policy, type_converter))
                    } else {
                        None
                    }
                },
                _ => None,
            };
            match planned {
                Some(Ok(plan)) => {
                    work[i].plan = Some(plan);
                },
                Some(Err(e)) => {
                    proof {
                        assert(test(i as int));
                        lemma_first_such_is(n as int, test, i as int);
                    }
                    return Err(e);
                },
                None => {},
            }
            assert(!test(i as int));
            i += 1;
        }
        proof {
            lemma_first_such_none(n as int, test);
            assert(apis_view(work@) =~= model.map_values(
                |a: ApiView| analysed_function(a, reg, unsafe_policy)->Ok_0,
            ));
        }
        Ok(work)
    }
}

} // verus!
