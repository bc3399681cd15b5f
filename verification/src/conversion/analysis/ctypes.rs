//! Declarations for the primitive types that the model mentions.
//!
//! A primitive type needs no declaration in the source, but the generated
//! code wants one for each that it uses. This stage adds them.

use vstd::prelude::*;
use crate::bindings::Passing;
use crate::bindings::RawType;
use crate::bindings::RawTypedef;
use crate::bindings::TypeView;
use crate::bindings::TypedefView;
use crate::conversion::api::Api;
use crate::conversion::api::ApiView;
use crate::conversion::api::Safety;
use crate::conversion::api::Shape;
use crate::conversion::api::ShapeView;
use crate::conversion::api::apis_view;
use crate::conversion::api::api_names;
use crate::conversion::api::distinct_names;
use crate::conversion::api::find_api;
use crate::names::is_primitive;
use crate::names::is_primitive_name;
use crate::names::names_view;

verus! {

/// The declaration that stands for the primitive type `name`.
pub open spec fn ctype_api(name: Seq<char>) -> ApiView {
    ApiView {
        name,
        shape: ShapeView::Typedef(
            TypedefView { name, target: TypeView { name, passing: Passing::ByValue } },
        ),
        safety: Safety::ByValueSafe,
        plan: None,
        synthetic: true,
    }
}

/// Every identifier that the APIs of `model` depend on, API by API.
pub open spec fn all_deps(model: Seq<ApiView>) -> Seq<Seq<char>>
    decreases model.len(),
{
    if model.len() == 0 {
        Seq::empty()
    } else {
        all_deps(model.drop_last()) + model.last().deps()
    }
}

/// `model` with a declaration added for each primitive type among `names`
/// that has none yet, in the order of `names`.
pub open spec fn with_ctypes(model: Seq<ApiView>, names: Seq<Seq<char>>) -> Seq<ApiView>
    decreases names.len(),
{
    if names.len() == 0 {
        model
    } else {
        let before = with_ctypes(model, names.drop_last());
        if is_primitive_name(names.last()) && !api_names(before).contains(names.last()) {
            before.push(ctype_api(names.last()))
        } else {
            before
        }
    }
}

/// `model` with a declaration added for each primitive type it depends on.
pub open spec fn ctypes_appended(model: Seq<ApiView>) -> Seq<ApiView> {
    with_ctypes(model, all_deps(model))
}

/// What was there stays in front, and what is added is a declaration of a
/// primitive type among `names` that `model` does not declare.
pub proof fn lemma_with_ctypes_shape(model: Seq<ApiView>, names: Seq<Seq<char>>)
    ensures
        with_ctypes(model, names).len() >= model.len(),
        with_ctypes(model, names).take(model.len() as int) == model,
        forall|i: int|
            model.len() <= i < with_ctypes(model, names).len() ==> {
                let added = #[trigger] with_ctypes(model, names)[i];
                &&& added == ctype_api(added.name)
                &&& is_primitive_name(added.name)
                &&& names.contains(added.name)
                &&& !api_names(model).contains(added.name)
            },
    decreases names.len(),
{
    if names.len() == 0 {
        assert(model.take(model.len() as int) =~= model);
    } else {
        let front = names.drop_last();
        let before = with_ctypes(model, front);
        let after = with_ctypes(model, names);
        lemma_with_ctypes_shape(model, front);
        assert(after.take(model.len() as int) =~= before.take(model.len() as int));
        assert forall|i: int| model.len() <= i < after.len() implies {
            let added = #[trigger] after[i];
            &&& added == ctype_api(added.name)
            &&& is_primitive_name(added.name)
            &&& names.contains(added.name)
            &&& !api_names(model).contains(added.name)
        } by {
            if i < before.len() {
                let added = before[i];
                let k = choose|k: int| 0 <= k < front.len() && front[k] == added.name;
                assert(names[k] == added.name);
            } else {
                assert(names[names.len() - 1] == names.last());
                if api_names(model).contains(names.last()) {
                    let k = choose|k: int|
                        0 <= k < model.len() && api_names(model)[k] == names.last();
                    assert(before.take(model.len() as int)[k] == before[k]);
                    assert(api_names(before)[k] == names.last());
                }
            }
        }
    }
}

/// Every primitive type among `names` is declared afterwards, and nothing is
/// declared afterwards that was not declared before or is such a type.
pub proof fn lemma_with_ctypes_names(model: Seq<ApiView>, names: Seq<Seq<char>>, n: Seq<char>)
    ensures
        api_names(with_ctypes(model, names)).contains(n) == (api_names(model).contains(n) || (
        is_primitive_name(n) && names.contains(n))),
    decreases names.len(),
{
    if names.len() > 0 {
        let front = names.drop_last();
        let before = with_ctypes(model, front);
        let after = with_ctypes(model, names);
        lemma_with_ctypes_names(model, front, n);
        assert(names.contains(n) == (front.contains(n) || names.last() == n)) by {
            if front.contains(n) {
                let k = choose|k: int| 0 <= k < front.len() && front[k] == n;
                assert(names[k] == n);
            }
            if names.last() == n {
                assert(names[names.len() - 1] == n);
            }
            if names.contains(n) {
                let k = choose|k: int| 0 <= k < names.len() && names[k] == n;
                if k < names.len() - 1 {
                    assert(front[k] == n);
                }
            }
        }
        if is_primitive_name(names.last()) && !api_names(before).contains(names.last()) {
            assert(api_names(after) =~= api_names(before).push(names.last()));
            if api_names(before).contains(n) {
                let k = choose|k: int| 0 <= k < before.len() && api_names(before)[k] == n;
                assert(api_names(after)[k] == n);
            }
            if names.last() == n {
                assert(api_names(after)[before.len() as int] == n);
            }
            if api_names(after).contains(n) {
                let k = choose|k: int| 0 <= k < after.len() && api_names(after)[k] == n;
                if k < before.len() {
                    assert(api_names(before)[k] == n);
                }
            }
        }
    }
}

/// Adding declarations to a model without repeated identifiers leaves one
/// without.
pub proof fn lemma_with_ctypes_distinct(model: Seq<ApiView>, names: Seq<Seq<char>>)
    requires
        distinct_names(model),
    ensures
        distinct_names(with_ctypes(model, names)),
    decreases names.len(),
{
    if names.len() > 0 {
        let before = with_ctypes(model, names.drop_last());
        let after = with_ctypes(model, names);
        lemma_with_ctypes_distinct(model, names.drop_last());
        if is_primitive_name(names.last()) && !api_names(before).contains(names.last()) {
            assert forall|i: int, j: int| 0 <= i < j < after.len() implies (#[trigger] after[i]).name
                != (#[trigger] after[j]).name by {
                if j == before.len() {
                    assert(api_names(before)[i] == before[i].name);
                    assert(api_names(before).contains(before[i].name));
                } else {
                    assert(after[i] == before[i] && after[j] == before[j]);
                }
            }
        }
    }
}

fn ctype(name: &String) -> (r: Api)
    ensures
        r@ == ctype_api(name@),
{
    Api {
        name: name.clone(),
        shape: Shape::Typedef(
            RawTypedef {
                name: name.clone(),
                target: RawType { name: name.clone(), passing: Passing::ByValue },
            },
        ),
        safety: Safety::ByValueSafe,
        plan: None,
        synthetic: true,
    }
}

fn append_for(apis: &mut Vec<Api>, names: &Vec<String>)
    ensures
        apis_view(final(apis)@) == with_ctypes(apis_view(old(apis)@), names_view(names@)),
{
    let ghost model = apis_view(old(apis)@);
    let ghost all = names_view(names@);
    let mut m: usize = 0;
    assert(all.take(0) =~= Seq::<Seq<char>>::empty());
    while m < names.len()
        invariant
            m <= names.len(),
            all == names_view(names@),
            apis_view(apis@) == with_ctypes(model, all.take(m as int)),
        decreases names.len() - m,
    {
        let name = &names[m];
        proof {
            assert(all.take(m + 1).drop_last() =~= all.take(m as int));
            assert(all.take(m + 1).last() == name@);
        }
        if is_primitive(name) && find_api(apis, name).is_none() {
            let ghost before = apis_view(apis@);
            apis.push(ctype(name));
            assert(apis_view(apis@) =~= before.push(ctype_api(name@)));
        }
        m += 1;
    }
    assert(all.take(names.len() as int) =~= all);
}

/// Adding declarations for one list of names and then for another is adding
/// them for the two in a row.
pub proof fn lemma_with_ctypes_concat(model: Seq<ApiView>, a: Seq<Seq<char>>, b: Seq<Seq<char>>)
    ensures
        with_ctypes(model, a + b) == with_ctypes(with_ctypes(model, a), b),
    decreases b.len(),
{
    if b.len() == 0 {
        assert(a + b =~= a);
    } else {
        lemma_with_ctypes_concat(model, a, b.drop_last());
        assert((a + b).drop_last() =~= a + b.drop_last());
        assert((a + b).last() == b.last());
    }
}

/// Adds to `apis` a declaration for each primitive type that its APIs depend
/// on and that has none, in the order in which the APIs mention them.
pub fn append_ctype_information(apis: &mut Vec<Api>)
    ensures
        apis_view(final(apis)@) == ctypes_appended(apis_view(old(apis)@)),
{
    let ghost model = apis_view(old(apis)@);
    let n = apis.len();
    let mut i: usize = 0;
    assert(model.take(0) =~= Seq::<ApiView>::empty());
    while i < n
        invariant
            i <= n,
            n == model.len(),
            model == apis_view(old(apis)@),
            apis_view(apis@) == with_ctypes(model, all_deps(model.take(i as int))),
        decreases n - i,
    {
        proof {
            lemma_with_ctypes_shape(model, all_deps(model.take(i as int)));
            assert(apis_view(apis@).take(n as int)[i as int] == apis@[i as int]@);
            assert(model.take(i + 1).drop_last() =~= model.take(i as int));
            assert(model.take(i + 1).last() == model[i as int]);
            lemma_with_ctypes_concat(
                model,
                all_deps(model.take(i as int)),
                model[i as int].deps(),
            );
        }
        let deps = apis[i].deps();
        append_for(apis, &deps);
        i += 1;
    }
    assert(model.take(n as int) =~= model);
}

} // verus!
