//! The bridge side: what the safe half of the bridge declares.

use vstd::prelude::*;
use crate::bindings::FieldView;
use crate::bindings::RawField;
use crate::bindings::RawGrouping;
use crate::bindings::RawType;
use crate::bindings::TypeView;
use crate::bindings::clone_fields;
use crate::bindings::field_type_names;
use crate::bindings::fields_view;
use crate::conversion::api::Api;
use crate::conversion::api::ApiView;
use crate::conversion::api::BridgeSlot;
use crate::conversion::api::Safety;
use crate::conversion::api::Shape;
use crate::conversion::api::ShapeView;
use crate::conversion::api::SlotView;
use crate::conversion::api::apis_view;
use crate::conversion::api::is_marked_unsafe;
use crate::conversion::api::is_wrapped;
use crate::conversion::api::make_wrapper_name;
use crate::conversion::api::opt_slot_view;
use crate::conversion::api::param_slots;
use crate::conversion::api::ret_slot;
use crate::conversion::api::slot_types;
use crate::conversion::api::slots_view;
use crate::conversion::api::wrapper_name;
use crate::conversion::parse::type_converter::UseAlias;
use crate::conversion::parse::type_converter::UseView;
use crate::conversion::parse::type_converter::uses_view;
use crate::names::clone_names;
use crate::names::names_view;

verus! {

/// One item of the bridge side.
#[derive(Debug, PartialEq, Eq)]
pub enum RsItem {
    /// The module that holds everything that follows, named as the module
    /// that was handed in.
    Shell { name: String },
    /// A file the bridge includes.
    Include { file: String },
    /// A name that the namespace `scope` brings into scope.
    Use { scope: String, name: String },
    /// A function of the bridge. It calls `link_name` on the native side:
    /// the function itself, or the wrapper written for it.
    Function {
        name: String,
        link_name: String,
        params: Vec<BridgeSlot>,
        ret: Option<BridgeSlot>,
        marked_unsafe: bool,
    },
    /// A record that crosses by value, with its members.
    Struct { name: String, fields: Vec<RawField> },
    /// A record that stays behind a pointer. Its members are not shown.
    OpaqueType { name: String },
    Enum { name: String, underlying: String, variants: Vec<String> },
    TypeAlias { name: String, target: RawType },
    Constant { name: String, ty: String, value: i64 },
    /// A primitive type.
    CType { name: String },
}

/// What a [`RsItem`] stands for in contracts.
pub enum RsItemView {
    Shell { name: Seq<char> },
    Include { file: Seq<char> },
    Use { scope: Seq<char>, name: Seq<char> },
    Function {
        name: Seq<char>,
        link_name: Seq<char>,
        params: Seq<SlotView>,
        ret: Option<SlotView>,
        marked_unsafe: bool,
    },
    Struct { name: Seq<char>, fields: Seq<FieldView> },
    OpaqueType { name: Seq<char> },
    Enum { name: Seq<char>, underlying: Seq<char>, variants: Seq<Seq<char>> },
    TypeAlias { name: Seq<char>, target: TypeView },
    Constant { name: Seq<char>, ty: Seq<char>, value: i64 },
    CType { name: Seq<char> },
}

impl RsItemView {
    /// The types the item mentions.
    pub open spec fn refs(self) -> Seq<Seq<char>> {
        match self {
            RsItemView::Function { params, ret, .. } => slot_types(params, ret),
            RsItemView::Struct { fields, .. } => field_type_names(fields),
            RsItemView::Enum { underlying, .. } => seq![underlying],
            RsItemView::TypeAlias { target, .. } => seq![target.name],
            RsItemView::Constant { ty, .. } => seq![ty],
            _ => Seq::empty(),
        }
    }

    /// The identifier the item declares, if it declares one.
    pub open spec fn declares(self) -> Option<Seq<char>> {
        match self {
            RsItemView::Function { name, .. } => Some(name),
            RsItemView::Struct { name, .. } => Some(name),
            RsItemView::OpaqueType { name } => Some(name),
            RsItemView::Enum { name, .. } => Some(name),
            RsItemView::TypeAlias { name, .. } => Some(name),
            RsItemView::Constant { name, .. } => Some(name),
            RsItemView::CType { name } => Some(name),
            _ => None,
        }
    }
}

impl View for RsItem {
    type V = RsItemView;

    open spec fn view(&self) -> RsItemView {
        match self {
            RsItem::Shell { name } => RsItemView::Shell { name: name@ },
            RsItem::Include { file } => RsItemView::Include { file: file@ },
            RsItem::Use { scope, name } => RsItemView::Use { scope: scope@, name: name@ },
            RsItem::Function { name, link_name, params, ret, marked_unsafe } =>
                RsItemView::Function {
                    name: name@,
                    link_name: link_name@,
                    params: slots_view(params@),
                    ret: opt_slot_view(*ret),
                    marked_unsafe: *marked_unsafe,
                },
            RsItem::Struct { name, fields } => RsItemView::Struct {
                name: name@,
                fields: fields_view(fields@),
            },
            RsItem::OpaqueType { name } => RsItemView::OpaqueType { name: name@ },
            RsItem::Enum { name, underlying, variants } => RsItemView::Enum {
                name: name@,
                underlying: underlying@,
                variants: names_view(variants@),
            },
            RsItem::TypeAlias { name, target } => RsItemView::TypeAlias {
                name: name@,
                target: target@,
            },
            RsItem::Constant { name, ty, value } => RsItemView::Constant {
                name: name@,
                ty: ty@,
                value: *value,
            },
            RsItem::CType { name } => RsItemView::CType { name: name@ },
        }
    }
}

/// The items of a list, as contracts see them.
pub open spec fn rs_items_view(items: Seq<RsItem>) -> Seq<RsItemView> {
    items.map_values(|i: RsItem| i@)
}

/// The item that the bridge declares for an API.
pub open spec fn rs_item(a: ApiView) -> RsItemView {
    match a.shape {
        ShapeView::Function(f) => RsItemView::Function {
            name: a.name,
            link_name: if is_wrapped(a.plan) {
                wrapper_name(a.name)
            } else {
                a.name
            },
            params: param_slots(f, a.plan),
            ret: ret_slot(f, a.plan),
            marked_unsafe: is_marked_unsafe(a.plan),
        },
        ShapeView::Record(r) => if a.safety == Safety::ByValueSafe {
            RsItemView::Struct { name: a.name, fields: r.members }
        } else {
            RsItemView::OpaqueType { name: a.name }
        },
        ShapeView::Enum(e) => RsItemView::Enum {
            name: a.name,
            underlying: e.underlying,
            variants: e.variants,
        },
        ShapeView::Typedef(t) => if a.synthetic {
            RsItemView::CType { name: a.name }
        } else {
            RsItemView::TypeAlias { name: a.name, target: t.target }
        },
        ShapeView::Constant(c) => RsItemView::Constant { name: a.name, ty: c.ty, value: c.value },
    }
}

/// The bridge side for a model: the shell, the includes, the aliases, and
/// one item for each API, in that order.
pub open spec fn rs_code(
    model: Seq<ApiView>,
    includes: Seq<Seq<char>>,
    uses: Seq<UseView>,
    shell: Seq<char>,
) -> Seq<RsItemView> {
    seq![RsItemView::Shell { name: shell }] + includes.map_values(
        |f: Seq<char>| RsItemView::Include { file: f },
    ) + uses.map_values(|u: UseView| RsItemView::Use { scope: u.scope, name: u.name })
        + model.map_values(|a: ApiView| rs_item(a))
}

/// The item for an API declares the API's identifier and mentions no type
/// that the API does not depend on. The item of a record that stays behind a
/// pointer mentions none at all.
pub proof fn lemma_rs_item_refs(a: ApiView, i: int)
    requires
        0 <= i < rs_item(a).refs().len(),
    ensures
        rs_item(a).declares() == Some(a.name),
        a.deps().contains(rs_item(a).refs()[i]),
{
    let refs = rs_item(a).refs();
    match a.shape {
        ShapeView::Function(f) => {
            assert(refs =~= a.deps());
        },
        ShapeView::Record(r) => {
            if a.safety == Safety::ByValueSafe {
                assert(refs =~= a.deps());
            }
        },
        _ => {
            assert(refs =~= a.deps());
        },
    }
    assert(a.deps()[i] == refs[i]);
}

fn bridge_item(api: &Api) -> (r: RsItem)
    ensures
        r@ == rs_item(api@),
{
    match &api.shape {
        Shape::Function(f) => RsItem::Function {
            name: api.name.clone(),
            link_name: if api.is_wrapped() {
                make_wrapper_name(&api.name)
            } else {
                api.name.clone()
            },
            params: api.param_slots(f),
            ret: api.ret_slot(f),
            marked_unsafe: api.is_marked_unsafe(),
        },
        Shape::Record(r) => {
            if api.safety == Safety::ByValueSafe {
                RsItem::Struct { name: api.name.clone(), fields: clone_fields(&r.members) }
            } else {
                RsItem::OpaqueType { name: api.name.clone() }
            }
        },
        Shape::Enum(e) => RsItem::Enum {
            name: api.name.clone(),
            underlying: e.underlying.clone(),
            variants: clone_names(&e.variants),
        },
        Shape::Typedef(t) => {
            if api.synthetic {
                RsItem::CType { name: api.name.clone() }
            } else {
                RsItem::TypeAlias { name: api.name.clone(), target: t.target.clone() }
            }
        },
        Shape::Constant(c) => RsItem::Constant {
            name: api.name.clone(),
            ty: c.ty.clone(),
            value: c.value,
        },
    }
}

/// The generator of the bridge side.
pub struct RsCodeGenerator {}

impl RsCodeGenerator {
    /// Lists what the bridge declares: the shell named after `bindgen_mod`,
    /// one include for each file of `include_list`, one alias for each of
    /// `use_stmts_by_mod`, and one item for each of `apis`.
    pub fn generate_rs_code(
        apis: Vec<Api>,
        include_list: &[String],
        use_stmts_by_mod: Vec<UseAlias>,
        bindgen_mod: RawGrouping,
    ) -> (r: Vec<RsItem>)
        ensures
            rs_items_view(r@) == rs_code(
                apis_view(apis@),
                names_view(include_list@),
                uses_view(use_stmts_by_mod@),
                bindgen_mod.name@,
            ),
    {
        let ghost model = apis_view(apis@);
        let ghost includes = names_view(include_list@);
        let ghost uses = uses_view(use_stmts_by_mod@);
        let ghost head = seq![RsItemView::Shell { name: bindgen_mod.name@ }];
        let ghost include_items = includes.map_values(
            |f: Seq<char>| RsItemView::Include { file: f },
        );
        let ghost use_items = uses.map_values(
            |u: UseView| RsItemView::Use { scope: u.scope, name: u.name },
        );
        let ghost api_items = model.map_values(|a: ApiView| rs_item(a));
        let mut items: Vec<RsItem> = Vec::new();
        items.push(RsItem::Shell { name: bindgen_mod.name });
        assert(rs_items_view(items@) =~= head + include_items.take(0));
        let mut i: usize = 0;
        while i < include_list.len()
            invariant
                i <= include_list.len(),
                includes == names_view(include_list@),
                include_items == includes.map_values(
                    |f: Seq<char>| RsItemView::Include { file: f },
                ),
                rs_items_view(items@) == head + include_items.take(i as int),
            decreases include_list.len() - i,
        {
            let ghost before = rs_items_view(items@);
            items.push(RsItem::Include { file: include_list[i].clone() });
            proof {
                let added = RsItemView::Include { file: include_list@[i as int]@ };
                assert(includes[i as int] == include_list@[i as int]@);
                assert(include_items[i as int] == added);
                assert(rs_items_view(items@) =~= before.push(added));
                assert(include_items.take(i + 1) =~= include_items.take(i as int).push(added));
                assert(rs_items_view(items@) =~= head + include_items.take(i + 1));
            }
            i += 1;
        }
        assert(include_items.take(include_list.len() as int) =~= include_items);
        assert(rs_items_view(items@) =~= head + include_items + use_items.take(0));
        let mut u: usize = 0;
        while u < use_stmts_by_mod.len()
            invariant
                u <= use_stmts_by_mod.len(),
                uses == uses_view(use_stmts_by_mod@),
                use_items == uses.map_values(
                    |u: UseView| RsItemView::Use { scope: u.scope, name: u.name },
                ),
                rs_items_view(items@) == head + include_items + use_items.take(u as int),
            decreases use_stmts_by_mod.len() - u,
        {
            let ghost before = rs_items_view(items@);
            items.push(
                RsItem::Use {
                    scope: use_stmts_by_mod[u].scope.clone(),
                    name: use_stmts_by_mod[u].name.clone(),
                },
            );
            proof {
                let alias = use_stmts_by_mod@[u as int]@;
                let added = RsItemView::Use { scope: alias.scope, name: alias.name };
                assert(uses[u as int] == alias);
                assert(use_items[u as int] == added);
                assert(rs_items_view(items@) =~= before.push(added));
                assert(use_items.take(u + 1) =~= use_items.take(u as int).push(added));
                assert(rs_items_view(items@) =~= head + include_items + use_items.take(u + 1));
            }
            u += 1;
        }
        assert(use_items.take(use_stmts_by_mod.len() as int) =~= use_items);
        assert(rs_items_view(items@) =~= head + include_items + use_items + api_items.take(0));
        let mut a: usize = 0;
        while a < apis.len()
            invariant
                a <= apis.len(),
                model == apis_view(apis@),
                api_items == model.map_values(|a: ApiView| rs_item(a)),
                rs_items_view(items@) == head + include_items + use_items + api_items.take(
                    a as int,
                ),
            decreases apis.len() - a,
        {
            let ghost before = rs_items_view(items@);
            items.push(bridge_item(&apis[a]));
            proof {
                let added = rs_item(apis@[a as int]@);
                assert(model[a as int] == apis@[a as int]@);
                assert(api_items[a as int] == added);
                assert(rs_items_view(items@) =~= before.push(added));
                assert(api_items.take(a + 1) =~= api_items.take(a as int).push(added));
                assert(rs_items_view(items@) =~= head + include_items + use_items
                    + api_items.take(a + 1));
            }
            a += 1;
        }
        assert(api_items.take(apis.len() as int) =~= api_items);
        items
    }
}

} // verus!
