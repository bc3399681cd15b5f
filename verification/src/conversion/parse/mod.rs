//! From the generator's declarations to the model.

pub mod type_converter;

use vstd::prelude::*;
use crate::bindings::FunctionView;
use crate::bindings::ItemView;
use crate::bindings::RawFunction;
use crate::bindings::functions_view;
use crate::bindings::RawItem;
use crate::bindings::items_view;
use crate::bindings::item_view;
use crate::conversion::api::Api;
use crate::conversion::api::ApiView;
use crate::conversion::api::ConvertError;
use crate::conversion::api::ErrorView;
use crate::conversion::api::Declaration;
use crate::conversion::api::DeclView;
use crate::conversion::api::Shape;
use crate::conversion::api::ShapeView;
use crate::conversion::api::decls_view;
use crate::conversion::api::decl_names;
use crate::conversion::api::fresh_api;
use crate::conversion::api::apis_view;
use crate::conversion::api::api_names;
use crate::conversion::api::find_api;
use crate::conversion::parse::type_converter::TypeConverter;
use crate::conversion::parse::type_converter::RegistryView;
use crate::conversion::parse::type_converter::UseAlias;
use crate::conversion::parse::type_converter::UseView;
use crate::conversion::parse::type_converter::uses_view;
use crate::conversion::utilities::is_utility_name;
use crate::conversion::utilities::is_utility;
use crate::names::qualify;
use crate::names::qualified;
use crate::names::names_view;
use crate::names::first_index;
use crate::names::lemma_first_index;
use crate::names::lemma_first_index_unique;
use crate::names::same_name;
use crate::search::first_such;
use crate::search::lemma_first_such_is;
use crate::search::lemma_first_such_none;
use crate::conversion::parse::type_converter::lemma_resolved_all_concat;
use crate::conversion::parse::type_converter::lemma_resolved_all_uses;

verus! {

/// The declaration `shape` called `name` inside the namespace `prefix`, or
/// nothing where helpers are skipped and this is one.
pub open spec fn leaf_decl(
    prefix: Seq<char>,
    name: Seq<char>,
    shape: ShapeView,
    skip_utilities: bool,
) -> Seq<DeclView> {
    if skip_utilities && is_utility_name(qualify(prefix, name)) {
        Seq::empty()
    } else {
        seq![DeclView { name: qualify(prefix, name), shape }]
    }
}

/// The declarations found in `items` and in the namespaces nested in them, in
/// the order a reader meets them, each under its fully qualified identifier.
pub open spec fn flat_decls(items: Seq<ItemView>, prefix: Seq<char>, skip_utilities: bool) -> Seq<
    DeclView,
>
    decreases items,
{
    if items.len() == 0 {
        Seq::empty()
    } else {
        flat_decls(items.drop_last(), prefix, skip_utilities) + item_decls(
            items.last(),
            prefix,
            skip_utilities,
        )
    }
}

/// The declarations that a block of functions contributes.
pub open spec fn block_decls(
    functions: Seq<FunctionView>,
    prefix: Seq<char>,
    skip_utilities: bool,
) -> Seq<DeclView>
    decreases functions.len(),
{
    if functions.len() == 0 {
        Seq::empty()
    } else {
        block_decls(functions.drop_last(), prefix, skip_utilities) + leaf_decl(
            prefix,
            functions.last().name,
            ShapeView::Function(functions.last()),
            skip_utilities,
        )
    }
}

/// The declarations that one item contributes.
pub open spec fn item_decls(item: ItemView, prefix: Seq<char>, skip_utilities: bool) -> Seq<
    DeclView,
>
    decreases item,
{
    match item {
        ItemView::Grouping(g) => match g.content {
            Some(inner) => flat_decls(inner, qualify(prefix, g.name), skip_utilities),
            None => Seq::empty(),
        },
        ItemView::Function(f) => leaf_decl(prefix, f.name, ShapeView::Function(f), skip_utilities),
        ItemView::ForeignBlock(fs) => block_decls(fs, prefix, skip_utilities),
        ItemView::Record(r) => leaf_decl(prefix, r.name, ShapeView::Record(r), skip_utilities),
        ItemView::Enum(e) => leaf_decl(prefix, e.name, ShapeView::Enum(e), skip_utilities),
        ItemView::Typedef(t) => leaf_decl(prefix, t.name, ShapeView::Typedef(t), skip_utilities),
        ItemView::Constant(c) => leaf_decl(prefix, c.name, ShapeView::Constant(c), skip_utilities),
        ItemView::Use(_) => Seq::empty(),
        ItemView::Other => Seq::empty(),
    }
}

/// The names that the namespaces in `items` bring into scope, each with the
/// namespace that does so.
pub open spec fn flat_uses(items: Seq<ItemView>, prefix: Seq<char>) -> Seq<UseView>
    decreases items,
{
    if items.len() == 0 {
        Seq::empty()
    } else {
        flat_uses(items.drop_last(), prefix) + item_uses(items.last(), prefix)
    }
}

/// The aliases that one item contributes.
pub open spec fn item_uses(item: ItemView, prefix: Seq<char>) -> Seq<UseView>
    decreases item,
{
    match item {
        ItemView::Grouping(g) => match g.content {
            Some(inner) => flat_uses(inner, qualify(prefix, g.name)),
            None => Seq::empty(),
        },
        ItemView::Use(name) => seq![UseView { scope: prefix, name }],
        _ => Seq::empty(),
    }
}

fn push_leaf(
    prefix: &String,
    name: &String,
    shape: Shape,
    skip_utilities: bool,
    decls: &mut Vec<Declaration>,
)
    ensures
        decls_view(final(decls)@) == decls_view(old(decls)@) + leaf_decl(
            prefix@,
            name@,
            shape@,
            skip_utilities,
        ),
{
    let q = qualified(prefix, name);
    if skip_utilities && is_utility(&q) {
        assert(decls_view(decls@) =~= decls_view(old(decls)@) + Seq::<DeclView>::empty());
    } else {
        decls.push(Declaration { name: q, shape });
        assert(decls_view(decls@) =~= decls_view(old(decls)@) + seq![
            DeclView { name: qualify(prefix@, name@), shape: shape@ },
        ]);
    }
}

fn push_block(
    prefix: &String,
    functions: &Vec<RawFunction>,
    skip_utilities: bool,
    decls: &mut Vec<Declaration>,
)
    ensures
        decls_view(final(decls)@) == decls_view(old(decls)@) + block_decls(
            functions_view(functions@),
            prefix@,
            skip_utilities,
        ),
{
    let ghost all = functions_view(functions@);
    let mut i: usize = 0;
    assert(all.take(0) =~= Seq::<FunctionView>::empty());
    assert(decls_view(decls@) =~= decls_view(old(decls)@) + Seq::<DeclView>::empty());
    while i < functions.len()
        invariant
            i <= functions.len(),
            all == functions_view(functions@),
            decls_view(decls@) == decls_view(old(decls)@) + block_decls(
                all.take(i as int),
                prefix@,
                skip_utilities,
            ),
        decreases functions.len() - i,
    {
        let ghost before = decls_view(decls@);
        let ghost done = block_decls(all.take(i as int), prefix@, skip_utilities);
        let f = &functions[i];
        proof {
            assert(all.take(i + 1).drop_last() =~= all.take(i as int));
            assert(all.take(i + 1).last() == f@);
        }
        push_leaf(prefix, &f.name, Shape::Function(f.clone()), skip_utilities, decls);
        proof {
            let step = leaf_decl(prefix@, f@.name, ShapeView::Function(f@), skip_utilities);
            assert(decls_view(decls@) =~= decls_view(old(decls)@) + (done + step));
        }
        i += 1;
    }
    assert(all.take(functions.len() as int) =~= all);
}

/// Walks `items` and the namespaces nested in them, and appends what it finds
/// to `decls` and `uses`.
pub fn flatten(
    items: &Vec<RawItem>,
    prefix: &String,
    skip_utilities: bool,
    decls: &mut Vec<Declaration>,
    uses: &mut Vec<UseAlias>,
)
    ensures
        decls_view(final(decls)@) == decls_view(old(decls)@) + flat_decls(
            items_view(items@),
            prefix@,
            skip_utilities,
        ),
        uses_view(final(uses)@) == uses_view(old(uses)@) + flat_uses(items_view(items@), prefix@),
    decreases items,
{
    let mut i: usize = 0;
    assert(items@.take(0) =~= Seq::<RawItem>::empty());
    assert(decls_view(decls@) =~= decls_view(old(decls)@) + Seq::<DeclView>::empty());
    assert(uses_view(uses@) =~= uses_view(old(uses)@) + Seq::<UseView>::empty());
    while i < items.len()
        invariant
            i <= items.len(),
            decls_view(decls@) == decls_view(old(decls)@) + flat_decls(
                items_view(items@.take(i as int)),
                prefix@,
                skip_utilities,
            ),
            uses_view(uses@) == uses_view(old(uses)@) + flat_uses(
                items_view(items@.take(i as int)),
                prefix@,
            ),
        decreases items.len() - i,
    {
        let ghost before_d = decls_view(decls@);
        let ghost before_u = uses_view(uses@);
        let ghost seen = items_view(items@.take(i as int));
        let ghost done_d = flat_decls(seen, prefix@, skip_utilities);
        let ghost done_u = flat_uses(seen, prefix@);
        let ghost here = item_view(items@[i as int]);
        proof {
            assert(items@.take(i + 1).drop_last() =~= items@.take(i as int));
            assert(items@.take(i + 1).last() == items@[i as int]);
            assert(items_view(items@.take(i + 1)) == seen.push(here));
            assert(seen.push(here).drop_last() =~= seen);
            assert(seen.push(here).last() == here);
        }
        match &items[i] {
            RawItem::Grouping(g) => {
                match &g.content {
                    Some(inner) => {
                        let p = qualified(prefix, &g.name);
                        flatten(inner, &p, skip_utilities, decls, uses);
                    },
                    None => {},
                }
            },
            RawItem::Function(f) => {
                push_leaf(prefix, &f.name, Shape::Function(f.clone()), skip_utilities, decls);
            },
            RawItem::ForeignBlock(fs) => {
                push_block(prefix, fs, skip_utilities, decls);
            },
            RawItem::Record(r) => {
                push_leaf(prefix, &r.name, Shape::Record(r.clone()), skip_utilities, decls);
            },
            RawItem::Enum(e) => {
                push_leaf(prefix, &e.name, Shape::Enum(e.clone()), skip_utilities, decls);
            },
            RawItem::Typedef(t) => {
                push_leaf(prefix, &t.name, Shape::Typedef(t.clone()), skip_utilities, decls);
            },
            RawItem::Constant(c) => {
                push_leaf(prefix, &c.name, Shape::Constant(c.clone()), skip_utilities, decls);
            },
            RawItem::Use(name) => {
                uses.push(UseAlias { scope: prefix.clone(), name: name.clone() });
                assert(uses_view(uses@) =~= before_u + seq![
                    UseView { scope: prefix@, name: name@ },
                ]);
            },
            RawItem::Other => {},
        }
        proof {
            let step_d = item_decls(here, prefix@, skip_utilities);
            let step_u = item_uses(here, prefix@);
            assert(decls_view(decls@) =~= before_d + step_d);
            assert(uses_view(uses@) =~= before_u + step_u);
            assert(decls_view(decls@) =~= decls_view(old(decls)@) + (done_d + step_d));
            assert(uses_view(uses@) =~= uses_view(old(uses)@) + (done_u + step_u));
        }
        i += 1;
    }
    proof {
        assert(items@.take(items.len() as int) =~= items@);
    }
}

/// The declarations with every repetition of an identifier dropped: of the
/// declarations that share an identifier, the first stays.
pub open spec fn firsts(decls: Seq<DeclView>) -> Seq<DeclView>
    decreases decls.len(),
{
    if decls.len() == 0 {
        Seq::empty()
    } else if decl_names(decls.drop_last()).contains(decls.last().name) {
        firsts(decls.drop_last())
    } else {
        firsts(decls.drop_last()).push(decls.last())
    }
}

/// Declaration `j` repeats the identifier of an earlier declaration and
/// differs from it in shape.
pub open spec fn conflicts_at(decls: Seq<DeclView>, j: int) -> bool {
    exists|i: int|
        0 <= i < j && (#[trigger] decls[i]).name == decls[j].name && decls[i].shape
            != decls[j].shape
}

/// The test for a conflict at a given position of `decls`.
pub open spec fn conflict_test(decls: Seq<DeclView>) -> spec_fn(int) -> bool {
    |j: int| conflicts_at(decls, j)
}

/// The model that a list of declarations without conflicts stands for.
pub open spec fn model_of(decls: Seq<DeclView>) -> Seq<ApiView> {
    firsts(decls).map_values(|d: DeclView| fresh_api(d))
}

/// The names an API has the registry resolve: its own, where it declares a
/// type, and every type it mentions.
pub open spec fn api_registrations(a: ApiView) -> Seq<Seq<char>> {
    (if a.shape.is_type() {
        seq![a.name]
    } else {
        Seq::empty()
    }) + a.shape.mentions()
}

/// The names that a model has the registry resolve, in order.
pub open spec fn all_registrations(model: Seq<ApiView>) -> Seq<Seq<char>>
    decreases model.len(),
{
    if model.len() == 0 {
        Seq::empty()
    } else {
        all_registrations(model.drop_last()) + api_registrations(model.last())
    }
}

/// What parsing hands on.
pub struct ParseResults {
    /// Every API, before anything is pruned.
    pub apis: Vec<Api>,
    /// The names each namespace brings into scope.
    pub use_stmts_by_mod: Vec<UseAlias>,
}

/// What a [`ParseResults`] stands for in contracts.
pub struct ParseView {
    pub apis: Seq<ApiView>,
    pub use_stmts_by_mod: Seq<UseView>,
}

impl View for ParseResults {
    type V = ParseView;

    open spec fn view(&self) -> ParseView {
        ParseView {
            apis: apis_view(self.apis@),
            use_stmts_by_mod: uses_view(self.use_stmts_by_mod@),
        }
    }
}

/// What parsing `items` yields: the model and the aliases, or the first
/// declaration that contradicts an earlier one of the same identifier.
pub open spec fn parsed(items: Seq<ItemView>, skip_utilities: bool) -> Result<ParseView, ErrorView> {
    match merged(flat_decls(items, Seq::empty(), skip_utilities)) {
        Ok(apis) => Ok(ParseView { apis, use_stmts_by_mod: flat_uses(items, Seq::empty()) }),
        Err(e) => Err(e),
    }
}

/// The registry after `items` were parsed with it: every name that the model
/// declares as a type or mentions is resolved, and the aliases are noted.
pub open spec fn registry_after_parse(
    reg: RegistryView,
    items: Seq<ItemView>,
    skip_utilities: bool,
) -> RegistryView {
    match parsed(items, skip_utilities) {
        Ok(p) => RegistryView {
            types: reg.resolved_all(all_registrations(p.apis)).types,
            uses: reg.uses + p.use_stmts_by_mod,
        },
        Err(_) => reg,
    }
}

/// The outcome of parsing, as contracts see it.
pub open spec fn parse_result_view(r: Result<ParseResults, ConvertError>) -> Result<
    ParseView,
    ErrorView,
> {
    match r {
        Ok(p) => Ok(p@),
        Err(e) => Err(e@),
    }
}

/// Dropping repetitions keeps every identifier, and keeps under each the
/// first declaration that carries it.
pub proof fn lemma_firsts(decls: Seq<DeclView>, n: Seq<char>)
    ensures
        decl_names(firsts(decls)).contains(n) == decl_names(decls).contains(n),
        match (first_index(decl_names(decls), n), first_index(decl_names(firsts(decls)), n)) {
            (Some(f), Some(k)) => 0 <= f < decls.len() && 0 <= k < firsts(decls).len() && firsts(
                decls,
            )[k] == decls[f],
            (None, None) => true,
            _ => false,
        },
    decreases decls.len(),
{
    let names = decl_names(decls);
    let kept = firsts(decls);
    let kept_names = decl_names(kept);
    lemma_first_index(names, n);
    lemma_first_index(kept_names, n);
    if decls.len() > 0 {
        let front = decls.drop_last();
        let last = decls.last();
        lemma_firsts(front, n);
        lemma_firsts(front, last.name);
        let front_names = decl_names(front);
        let front_kept = firsts(front);
        let front_kept_names = decl_names(front_kept);
        assert(names.drop_last() =~= front_names);
        lemma_first_index(front_names, n);
        lemma_first_index(front_kept_names, n);
        if front_names.contains(last.name) {
            assert(kept == front_kept);
            if last.name == n {
                assert(first_index(front_names, n) is Some);
            }
        } else {
            assert(kept == front_kept.push(last));
            assert(kept_names.drop_last() =~= front_kept_names);
            assert(kept_names.last() == last.name);
        }
    }
}

/// What taking declaration `j` into the model amounts to, where no earlier
/// declaration conflicts: an identifier that is new adds an API; one that is
/// known adds nothing, and conflicts exactly if its shape differs from that
/// of the API that carries the identifier.
pub proof fn lemma_merge_step(dv: Seq<DeclView>, j: int)
    requires
        0 <= j < dv.len(),
        forall|k: int| 0 <= k < j ==> !conflicts_at(dv, k),
    ensures
        match first_index(api_names(model_of(dv.take(j))), dv[j].name) {
            Some(k) => {
                &&& 0 <= k < model_of(dv.take(j)).len()
                &&& model_of(dv.take(j + 1)) == model_of(dv.take(j))
                &&& conflicts_at(dv, j) == (model_of(dv.take(j))[k].shape != dv[j].shape)
                &&& decl_names(dv).contains(dv[j].name)
            },
            None => {
                &&& model_of(dv.take(j + 1)) == model_of(dv.take(j)).push(fresh_api(dv[j]))
                &&& !conflicts_at(dv, j)
            },
        },
{
    let seen = dv.take(j);
    let seen_names = decl_names(seen);
    let names = decl_names(dv);
    let name = dv[j].name;
    assert(dv.take(j + 1).drop_last() =~= seen);
    assert(dv.take(j + 1).last() == dv[j]);
    lemma_firsts(seen, name);
    lemma_first_index(seen_names, name);
    assert(api_names(model_of(seen)) =~= decl_names(firsts(seen)));
    lemma_first_index(decl_names(firsts(seen)), name);
    match first_index(api_names(model_of(seen)), name) {
        Some(k) => {
            let f = first_index(seen_names, name).unwrap();
            assert(seen_names[f] == names[f]);
            assert(seen[f] == dv[f]);
            assert(names[j] == name);
            assert(model_of(seen)[k] == fresh_api(firsts(seen)[k]));
            assert(model_of(seen)[k].shape == dv[f].shape);
            if dv[f].shape != dv[j].shape {
                assert(dv[f].name == dv[j].name);
                assert(conflicts_at(dv, j));
            } else {
                assert forall|i: int| 0 <= i < j && (#[trigger] dv[i]).name
                    == dv[j].name implies dv[i].shape == dv[j].shape by {
                    if i != f {
                        assert(seen_names[i] == name);
                        assert(f < i);
                        assert(!conflicts_at(dv, i));
                        assert(dv[f].name == dv[i].name);
                    }
                }
            }
        },
        None => {
            assert(!seen_names.contains(name));
            assert forall|i: int| 0 <= i < j implies (#[trigger] dv[i]).name != dv[j].name by {
                assert(seen_names[i] == dv[i].name);
                assert(seen_names.contains(seen_names[i]));
            }
            assert(model_of(dv.take(j + 1)) =~= model_of(seen).push(fresh_api(dv[j])));
        },
    }
}

fn register_model(apis: &Vec<Api>, type_converter: &mut TypeConverter)
    ensures
        final(type_converter)@ == old(type_converter)@.resolved_all(
            all_registrations(apis_view(apis@)),
        ),
{
    let ghost model = apis_view(apis@);
    let mut a: usize = 0;
    assert(model.take(0) =~= Seq::<ApiView>::empty());
    while a < apis.len()
        invariant
            a <= apis.len(),
            model == apis_view(apis@),
            type_converter@ == old(type_converter)@.resolved_all(
                all_registrations(model.take(a as int)),
            ),
        decreases apis.len() - a,
    {
        let api = &apis[a];
        let mut names: Vec<String> = Vec::new();
        if api.shape.is_type() {
            names.push(api.name.clone());
        }
        let mut mentions = api.shape.mentions();
        let ghost own = names_view(names@);
        let ghost mentioned = names_view(mentions@);
        names.append(&mut mentions);
        proof {
            assert(names_view(names@) =~= own + mentioned);
            assert(own =~= if api@.shape.is_type() {
                seq![api@.name]
            } else {
                Seq::<Seq<char>>::empty()
            });
            assert(names_view(names@) == api_registrations(model[a as int]));
            assert(model.take(a + 1).drop_last() =~= model.take(a as int));
            assert(model.take(a + 1).last() == model[a as int]);
            lemma_resolved_all_concat(
                old(type_converter)@,
                all_registrations(model.take(a as int)),
                api_registrations(model[a as int]),
            );
        }
        type_converter.resolve_all(&names);
        a += 1;
    }
    assert(model.take(apis.len() as int) =~= model);
}

fn note_uses(uses: &Vec<UseAlias>, type_converter: &mut TypeConverter)
    ensures
        final(type_converter)@.types == old(type_converter)@.types,
        final(type_converter)@.uses == old(type_converter)@.uses + uses_view(uses@),
{
    let mut i: usize = 0;
    assert(type_converter@.uses =~= old(type_converter)@.uses + uses_view(uses@).take(0));
    while i < uses.len()
        invariant
            i <= uses.len(),
            type_converter@.types == old(type_converter)@.types,
            type_converter@.uses == old(type_converter)@.uses + uses_view(uses@).take(i as int),
        decreases uses.len() - i,
    {
        let ghost before = type_converter@.uses;
        type_converter.note_use(&uses[i].scope, &uses[i].name);
        proof {
            assert(uses_view(uses@).take(i + 1) =~= uses_view(uses@).take(i as int).push(
                uses@[i as int]@,
            ));
            assert(type_converter@.uses =~= old(type_converter)@.uses + uses_view(uses@).take(
                i + 1,
            ));
        }
        i += 1;
    }
    assert(uses_view(uses@).take(uses.len() as int) =~= uses_view(uses@));
}

/// What merging a list of declarations yields: the model, or the first
/// declaration that contradicts an earlier one of the same identifier.
pub open spec fn merged(decls: Seq<DeclView>) -> Result<Seq<ApiView>, ErrorView> {
    match first_such(decls.len() as int, conflict_test(decls)) {
        Some(j) => Err(
            ErrorView::DuplicateDeclarationConflict {
                name: decls[j].name,
                first: first_index(decl_names(decls), decls[j].name).unwrap(),
                second: j,
            },
        ),
        None => Ok(model_of(decls)),
    }
}

/// The outcome of a stage that hands on a model, as contracts see it.
pub open spec fn apis_result_view(r: Result<Vec<Api>, ConvertError>) -> Result<
    Seq<ApiView>,
    ErrorView,
> {
    match r {
        Ok(apis) => Ok(apis_view(apis@)),
        Err(e) => Err(e@),
    }
}

/// Builds the model from declarations in order. A declaration that repeats an
/// identifier is dropped where it agrees with the API of that identifier, and
/// ends the merge where it does not.
pub fn merge(decls: &Vec<Declaration>) -> (r: Result<Vec<Api>, ConvertError>)
    ensures
        apis_result_view(r) == merged(decls_view(decls@)),
{
    let ghost dv = decls_view(decls@);
    let mut apis: Vec<Api> = Vec::new();
    let mut j: usize = 0;
    assert(dv.take(0) =~= Seq::<DeclView>::empty());
    assert(apis_view(apis@) =~= model_of(dv.take(0)));
    while j < decls.len()
        invariant
            j <= decls.len(),
            dv == decls_view(decls@),
            apis_view(apis@) == model_of(dv.take(j as int)),
            forall|k: int| 0 <= k < j ==> !conflicts_at(dv, k),
        decreases decls.len() - j,
    {
        let decl = &decls[j];
        proof {
            assert(dv[j as int] == decl@);
            lemma_merge_step(dv, j as int);
        }
        match find_api(&apis, &decl.name) {
            Some(k) => {
                if !apis[k].shape.same(&decl.shape) {
                    let first = position_of_name_in(decls, &decl.name);
                    proof {
                        assert(conflict_test(dv)(j as int));
                        assert forall|k: int| 0 <= k < j implies !(#[trigger] conflict_test(dv)(
                            k,
                        )) by {
                            assert(!conflicts_at(dv, k));
                        }
                        lemma_first_such_is(dv.len() as int, conflict_test(dv), j as int);
                    }
                    return Err(
                        ConvertError::DuplicateDeclarationConflict {
                            name: decl.name.clone(),
                            first,
                            second: j,
                        },
                    );
                }
            },
            None => {
                let fresh = Api::fresh(
                    Declaration { name: decl.name.clone(), shape: decl.shape.clone() },
                );
                apis.push(fresh);
                proof {
                    assert(apis_view(apis@) =~= model_of(dv.take(j as int)).push(
                        fresh_api(dv[j as int]),
                    ));
                }
            },
        }
        j += 1;
    }
    proof {
        assert(dv.take(decls.len() as int) =~= dv);
        assert forall|k: int| 0 <= k < dv.len() implies !(#[trigger] conflict_test(dv)(k)) by {
            assert(!conflicts_at(dv, k));
        }
        lemma_first_such_none(dv.len() as int, conflict_test(dv));
    }
    Ok(apis)
}

/// The parser. It reads declarations; it decides nothing about them.
pub struct ParseBindgen {}

impl ParseBindgen {
    /// Turns the declarations in `items` into the model: one API for each
    /// identifier, every type it mentions resolved in the registry. Where
    /// `exclude_utilities` is set the generator's own helpers stay out.
    /// Declarations that repeat an identifier are merged where they agree; the
    /// first one that disagrees with its predecessor ends the conversion, and
    /// the registry is then left as it was.
    pub fn convert_items(
        items: Vec<RawItem>,
        exclude_utilities: bool,
        type_converter: &mut TypeConverter,
    ) -> (r: Result<ParseResults, ConvertError>)
        ensures
            parse_result_view(r) == parsed(items_view(items@), exclude_utilities),
            final(type_converter)@ == registry_after_parse(
                old(type_converter)@,
                items_view(items@),
                exclude_utilities,
            ),
    {
        let mut decls: Vec<Declaration> = Vec::new();
        let mut uses: Vec<UseAlias> = Vec::new();
        let root = String::new();
        flatten(&items, &root, exclude_utilities, &mut decls, &mut uses);
        proof {
            assert(decls_view(decls@) =~= flat_decls(
                items_view(items@),
                Seq::empty(),
                exclude_utilities,
            ));
            assert(uses_view(uses@) =~= flat_uses(items_view(items@), Seq::empty()));
        }
        match merge(&decls) {
            Ok(apis) => {
                register_model(&apis, type_converter);
                note_uses(&uses, type_converter);
                proof {
                    lemma_resolved_all_uses(
                        old(type_converter)@,
                        all_registrations(apis_view(apis@)),
                    );
                }
                Ok(ParseResults { apis, use_stmts_by_mod: uses })
            },
            Err(e) => Err(e),
        }
    }
}

/// Position of the first declaration called `name`; its count where there is none.
fn position_of_name_in(decls: &Vec<Declaration>, name: &String) -> (r: usize)
    ensures
        decl_names(decls_view(decls@)).contains(name@) ==> first_index(
            decl_names(decls_view(decls@)),
            name@,
        ) == Some(r as int),
{
    let ghost names = decl_names(decls_view(decls@));
    let mut i: usize = 0;
    while i < decls.len()
        invariant
            i <= decls.len(),
            names == decl_names(decls_view(decls@)),
            forall|j: int| 0 <= j < i ==> names[j] != name@,
        decreases decls.len() - i,
    {
        if same_name(&decls[i].name, name) {
            proof {
                lemma_first_index_unique(names, name@, i as int);
            }
            return i;
        }
        i += 1;
    }
    i
}

} // verus!
