//! The declarations as the binding generator hands them over: one grouping
//! that wraps a list of functions, records, enums, typedefs and constants,
//! possibly nested in further groupings that stand for namespaces.

use vstd::prelude::*;
use crate::names::names_view;
use crate::names::same_name;
use crate::names::clone_names;

verus! {

/// How a value of some type travels in a signature or sits in a record.
#[derive(Clone, Copy, Debug, PartialEq, Eq, Structural)]
pub enum Passing {
    ByValue,
    ByReference,
    ByPointer,
}

/// A mention of a type: its fully qualified name and how it is passed.
#[derive(Debug, PartialEq, Eq)]
pub struct RawType {
    pub name: String,
    pub passing: Passing,
}

/// What a [`RawType`] stands for in contracts.
pub struct TypeView {
    pub name: Seq<char>,
    pub passing: Passing,
}

impl View for RawType {
    type V = TypeView;

    open spec fn view(&self) -> TypeView {
        TypeView { name: self.name@, passing: self.passing }
    }
}

/// A named slot of some type: a record member or a function parameter.
#[derive(Debug, PartialEq, Eq)]
pub struct RawField {
    pub name: String,
    pub ty: RawType,
}

/// What a [`RawField`] stands for in contracts.
pub struct FieldView {
    pub name: Seq<char>,
    pub ty: TypeView,
}

impl View for RawField {
    type V = FieldView;

    open spec fn view(&self) -> FieldView {
        FieldView { name: self.name@, ty: self.ty@ }
    }
}

/// The fields of a list, as contracts see them.
pub open spec fn fields_view(fields: Seq<RawField>) -> Seq<FieldView> {
    fields.map_values(|f: RawField| f@)
}

/// The names of the types that a list of fields mentions, in order.
pub open spec fn field_type_names(fields: Seq<FieldView>) -> Seq<Seq<char>> {
    fields.map_values(|f: FieldView| f.ty.name)
}

/// Which special members a record declares with a body of its own. Any of
/// them means that copying the bytes of a value is not copying the value.
#[derive(Clone, Copy, Debug, PartialEq, Eq, Structural)]
pub struct SpecialMembers {
    pub destructor: bool,
    pub copy_constructor: bool,
    pub move_constructor: bool,
}

impl SpecialMembers {
    /// Whether any special member is non-trivial.
    pub open spec fn any(self) -> bool {
        self.destructor || self.copy_constructor || self.move_constructor
    }

    /// Whether any special member is non-trivial.
    pub fn has_any(&self) -> (r: bool)
        ensures
            r == self.any(),
    {
        self.destructor || self.copy_constructor || self.move_constructor
    }
}

/// A record: a struct or a class, with its data members in order.
#[derive(Debug, PartialEq, Eq)]
pub struct RawRecord {
    pub name: String,
    pub members: Vec<RawField>,
    pub special: SpecialMembers,
}

/// What a [`RawRecord`] stands for in contracts.
pub struct RecordView {
    pub name: Seq<char>,
    pub members: Seq<FieldView>,
    pub special: SpecialMembers,
}

impl View for RawRecord {
    type V = RecordView;

    open spec fn view(&self) -> RecordView {
        RecordView {
            name: self.name@,
            members: fields_view(self.members@),
            special: self.special,
        }
    }
}

/// What a function is to the type it belongs to, if any.
#[derive(Clone, Copy, Debug, PartialEq, Eq, Structural)]
pub enum FunctionRole {
    Plain,
    Constructor,
    Destructor,
}

/// A function.
#[derive(Debug, PartialEq, Eq)]
pub struct RawFunction {
    pub name: String,
    pub params: Vec<RawField>,
    /// `None` for a function that returns nothing.
    pub ret: Option<RawType>,
    pub role: FunctionRole,
    pub variadic: bool,
}

/// What a [`RawFunction`] stands for in contracts.
pub struct FunctionView {
    pub name: Seq<char>,
    pub params: Seq<FieldView>,
    pub ret: Option<TypeView>,
    pub role: FunctionRole,
    pub variadic: bool,
}

/// An optional type mention, as contracts see it.
pub open spec fn opt_type_view(t: Option<RawType>) -> Option<TypeView> {
    match t {
        Some(t) => Some(t@),
        None => None,
    }
}

impl View for RawFunction {
    type V = FunctionView;

    open spec fn view(&self) -> FunctionView {
        FunctionView {
            name: self.name@,
            params: fields_view(self.params@),
            ret: opt_type_view(self.ret),
            role: self.role,
            variadic: self.variadic,
        }
    }
}

/// An enum with its variants in order.
#[derive(Debug, PartialEq, Eq)]
pub struct RawEnum {
    pub name: String,
    pub underlying: String,
    pub variants: Vec<String>,
}

/// What a [`RawEnum`] stands for in contracts.
pub struct EnumView {
    pub name: Seq<char>,
    pub underlying: Seq<char>,
    pub variants: Seq<Seq<char>>,
}

impl View for RawEnum {
    type V = EnumView;

    open spec fn view(&self) -> EnumView {
        EnumView {
            name: self.name@,
            underlying: self.underlying@,
            variants: names_view(self.variants@),
        }
    }
}

/// A typedef: another name for the type `target`.
#[derive(Debug, PartialEq, Eq)]
pub struct RawTypedef {
    pub name: String,
    pub target: RawType,
}

/// What a [`RawTypedef`] stands for in contracts.
pub struct TypedefView {
    pub name: Seq<char>,
    pub target: TypeView,
}

impl View for RawTypedef {
    type V = TypedefView;

    open spec fn view(&self) -> TypedefView {
        TypedefView { name: self.name@, target: self.target@ }
    }
}

/// A constant of an integer type.
#[derive(Debug, PartialEq, Eq)]
pub struct RawConstant {
    pub name: String,
    pub ty: String,
    pub value: i64,
}

/// What a [`RawConstant`] stands for in contracts.
pub struct ConstantView {
    pub name: Seq<char>,
    pub ty: Seq<char>,
    pub value: i64,
}

impl View for RawConstant {
    type V = ConstantView;

    open spec fn view(&self) -> ConstantView {
        ConstantView { name: self.name@, ty: self.ty@, value: self.value }
    }
}

impl Clone for RawType {
    fn clone(&self) -> (r: Self)
        ensures
            r@ == self@,
    {
        RawType { name: self.name.clone(), passing: self.passing }
    }
}

impl RawType {
    /// Whether two mentions name the same type and pass it the same way.
    pub fn same(&self, other: &RawType) -> (r: bool)
        ensures
            r == (self@ == other@),
    {
        same_name(&self.name, &other.name) && self.passing == other.passing
    }
}

/// A copy of an optional type mention.
pub fn clone_opt_type(t: &Option<RawType>) -> (r: Option<RawType>)
    ensures
        opt_type_view(r) == opt_type_view(*t),
{
    match t {
        Some(t) => Some(t.clone()),
        None => None,
    }
}

/// Whether two optional type mentions agree.
pub fn same_opt_type(a: &Option<RawType>, b: &Option<RawType>) -> (r: bool)
    ensures
        r == (opt_type_view(*a) == opt_type_view(*b)),
{
    match (a, b) {
        (Some(x), Some(y)) => x.same(y),
        (None, None) => true,
        _ => false,
    }
}

impl Clone for RawField {
    fn clone(&self) -> (r: Self)
        ensures
            r@ == self@,
    {
        RawField { name: self.name.clone(), ty: self.ty.clone() }
    }
}

impl RawField {
    /// Whether the two agree in every detail.
    pub fn same(&self, other: &RawField) -> (r: bool)
        ensures
            r == (self@ == other@),
    {
        same_name(&self.name, &other.name) && self.ty.same(&other.ty)
    }
}

/// A copy of a list of fields.
pub fn clone_fields(v: &Vec<RawField>) -> (r: Vec<RawField>)
    ensures
        fields_view(r@) == fields_view(v@),
{
    let mut r: Vec<RawField> = Vec::new();
    let mut i: usize = 0;
    while i < v.len()
        invariant
            i <= v.len(),
            r@.len() == i,
            forall|j: int| 0 <= j < i ==> r@[j]@ == v@[j]@,
        decreases v.len() - i,
    {
        r.push(v[i].clone());
        i += 1;
    }
    assert(fields_view(r@) =~= fields_view(v@));
    r
}

/// Whether two lists hold the same fields in the same order.
pub fn same_fields(a: &Vec<RawField>, b: &Vec<RawField>) -> (r: bool)
    ensures
        r == (fields_view(a@) == fields_view(b@)),
{
    if a.len() != b.len() {
        assert(fields_view(a@).len() != fields_view(b@).len());
        return false;
    }
    let mut i: usize = 0;
    while i < a.len()
        invariant
            i <= a.len(),
            a.len() == b.len(),
            forall|j: int| 0 <= j < i ==> a@[j]@ == b@[j]@,
        decreases a.len() - i,
    {
        if !a[i].same(&b[i]) {
            assert(fields_view(a@)[i as int] != fields_view(b@)[i as int]);
            return false;
        }
        i += 1;
    }
    assert(fields_view(a@) =~= fields_view(b@));
    true
}

/// Whether two lists hold the same names in the same order.
pub fn same_names(a: &Vec<String>, b: &Vec<String>) -> (r: bool)
    ensures
        r == (names_view(a@) == names_view(b@)),
{
    if a.len() != b.len() {
        assert(names_view(a@).len() != names_view(b@).len());
        return false;
    }
    let mut i: usize = 0;
    while i < a.len()
        invariant
            i <= a.len(),
            a.len() == b.len(),
            forall|j: int| 0 <= j < i ==> a@[j]@ == b@[j]@,
        decreases a.len() - i,
    {
        if !same_name(&a[i], &b[i]) {
            assert(names_view(a@)[i as int] != names_view(b@)[i as int]);
            return false;
        }
        i += 1;
    }
    assert(names_view(a@) =~= names_view(b@));
    true
}

impl Clone for RawRecord {
    fn clone(&self) -> (r: Self)
        ensures
            r@ == self@,
    {
        RawRecord {
            name: self.name.clone(),
            members: clone_fields(&self.members),
            special: self.special,
        }
    }
}

impl RawRecord {
    /// Whether the two agree in every detail.
    pub fn same(&self, other: &RawRecord) -> (r: bool)
        ensures
            r == (self@ == other@),
    {
        same_name(&self.name, &other.name) && same_fields(&self.members, &other.members)
            && self.special == other.special
    }
}

impl Clone for RawFunction {
    fn clone(&self) -> (r: Self)
        ensures
            r@ == self@,
    {
        RawFunction {
            name: self.name.clone(),
            params: clone_fields(&self.params),
            ret: clone_opt_type(&self.ret),
            role: self.role,
            variadic: self.variadic,
        }
    }
}

impl RawFunction {
    /// Whether the two agree in every detail.
    pub fn same(&self, other: &RawFunction) -> (r: bool)
        ensures
            r == (self@ == other@),
    {
        same_name(&self.name, &other.name) && same_fields(&self.params, &other.params)
            && same_opt_type(&self.ret, &other.ret) && self.role == other.role && self.variadic
            == other.variadic
    }
}

impl Clone for RawEnum {
    fn clone(&self) -> (r: Self)
        ensures
            r@ == self@,
    {
        RawEnum {
            name: self.name.clone(),
            underlying: self.underlying.clone(),
            variants: clone_names(&self.variants),
        }
    }
}

impl RawEnum {
    /// Whether the two agree in every detail.
    pub fn same(&self, other: &RawEnum) -> (r: bool)
        ensures
            r == (self@ == other@),
    {
        same_name(&self.name, &other.name) && same_name(&self.underlying, &other.underlying)
            && same_names(&self.variants, &other.variants)
    }
}

impl Clone for RawTypedef {
    fn clone(&self) -> (r: Self)
        ensures
            r@ == self@,
    {
        RawTypedef { name: self.name.clone(), target: self.target.clone() }
    }
}

impl RawTypedef {
    /// Whether the two agree in every detail.
    pub fn same(&self, other: &RawTypedef) -> (r: bool)
        ensures
            r == (self@ == other@),
    {
        same_name(&self.name, &other.name) && self.target.same(&other.target)
    }
}

impl Clone for RawConstant {
    fn clone(&self) -> (r: Self)
        ensures
            r@ == self@,
    {
        RawConstant { name: self.name.clone(), ty: self.ty.clone(), value: self.value }
    }
}

impl RawConstant {
    /// Whether the two agree in every detail.
    pub fn same(&self, other: &RawConstant) -> (r: bool)
        ensures
            r == (self@ == other@),
    {
        same_name(&self.name, &other.name) && same_name(&self.ty, &other.ty) && self.value
            == other.value
    }
}

/// One item of the generator's output.
#[derive(Debug, PartialEq, Eq)]
pub enum RawItem {
    /// A namespace, or the container the generator wraps everything in.
    Grouping(RawGrouping),
    Function(RawFunction),
    /// A block of function declarations. It is one item, whatever the
    /// number of functions in it, and its functions belong to the grouping
    /// that holds the block.
    ForeignBlock(Vec<RawFunction>),
    Record(RawRecord),
    Enum(RawEnum),
    Typedef(RawTypedef),
    Constant(RawConstant),
    /// A name from elsewhere that the enclosing grouping brings into scope.
    Use(String),
    /// Anything the generator is not expected to emit.
    Other,
}

/// A named group of items.
#[derive(Debug, PartialEq, Eq)]
pub struct RawGrouping {
    pub name: String,
    /// `None` for a grouping that was declared without a body.
    pub content: Option<Vec<RawItem>>,
}

/// What a [`RawItem`] stands for in contracts.
pub enum ItemView {
    Grouping(GroupingView),
    Function(FunctionView),
    ForeignBlock(Seq<FunctionView>),
    Record(RecordView),
    Enum(EnumView),
    Typedef(TypedefView),
    Constant(ConstantView),
    Use(Seq<char>),
    Other,
}

/// What a [`RawGrouping`] stands for in contracts.
pub struct GroupingView {
    pub name: Seq<char>,
    pub content: Option<Seq<ItemView>>,
}

/// The functions of a list, as contracts see them.
pub open spec fn functions_view(functions: Seq<RawFunction>) -> Seq<FunctionView> {
    functions.map_values(|f: RawFunction| f@)
}

/// A copy of a list of functions.
pub fn clone_functions(v: &Vec<RawFunction>) -> (r: Vec<RawFunction>)
    ensures
        functions_view(r@) == functions_view(v@),
{
    let mut r: Vec<RawFunction> = Vec::new();
    let mut i: usize = 0;
    while i < v.len()
        invariant
            i <= v.len(),
            r@.len() == i,
            forall|j: int| 0 <= j < i ==> r@[j]@ == v@[j]@,
        decreases v.len() - i,
    {
        r.push(v[i].clone());
        i += 1;
    }
    assert(functions_view(r@) =~= functions_view(v@));
    r
}

/// What the item `item` stands for.
pub open spec fn item_view(item: RawItem) -> ItemView
    decreases item,
{
    match item {
        RawItem::Grouping(g) => ItemView::Grouping(
            GroupingView {
                name: g.name@,
                content: match g.content {
                    Some(inner) => Some(items_view(inner@)),
                    None => None,
                },
            },
        ),
        RawItem::Function(f) => ItemView::Function(f@),
        RawItem::ForeignBlock(fs) => ItemView::ForeignBlock(functions_view(fs@)),
        RawItem::Record(r) => ItemView::Record(r@),
        RawItem::Enum(e) => ItemView::Enum(e@),
        RawItem::Typedef(t) => ItemView::Typedef(t@),
        RawItem::Constant(c) => ItemView::Constant(c@),
        RawItem::Use(name) => ItemView::Use(name@),
        RawItem::Other => ItemView::Other,
    }
}

/// What the items of a list stand for, in order.
pub open spec fn items_view(items: Seq<RawItem>) -> Seq<ItemView>
    decreases items,
{
    if items.len() == 0 {
        Seq::empty()
    } else {
        items_view(items.drop_last()).push(item_view(items.last()))
    }
}

impl View for RawItem {
    type V = ItemView;

    open spec fn view(&self) -> ItemView {
        item_view(*self)
    }
}

impl View for RawGrouping {
    type V = GroupingView;

    open spec fn view(&self) -> GroupingView {
        GroupingView {
            name: self.name@,
            content: match self.content {
                Some(inner) => Some(items_view(inner@)),
                None => None,
            },
        }
    }
}

/// A copy of a list of items, nested groupings included.
pub fn clone_items(items: &Vec<RawItem>) -> (r: Vec<RawItem>)
    ensures
        items_view(r@) == items_view(items@),
    decreases items,
{
    let mut r: Vec<RawItem> = Vec::new();
    let mut i: usize = 0;
    assert(items@.take(0) =~= Seq::<RawItem>::empty());
    while i < items.len()
        invariant
            i <= items.len(),
            items_view(r@) == items_view(items@.take(i as int)),
        decreases items.len() - i,
    {
        let ghost before = r@;
        let copy = clone_item(&items[i]);
        r.push(copy);
        proof {
            assert(r@.drop_last() =~= before);
            assert(items@.take(i + 1).drop_last() =~= items@.take(i as int));
            assert(items@.take(i + 1).last() == items@[i as int]);
        }
        i += 1;
    }
    assert(items@.take(items.len() as int) =~= items@);
    r
}

/// A copy of an item, nested groupings included.
pub fn clone_item(item: &RawItem) -> (r: RawItem)
    ensures
        r@ == item@,
    decreases item,
{
    match item {
        RawItem::Grouping(g) => RawItem::Grouping(
            RawGrouping {
                name: g.name.clone(),
                content: match &g.content {
                    Some(inner) => Some(clone_items(inner)),
                    None => None,
                },
            },
        ),
        RawItem::Function(f) => RawItem::Function(f.clone()),
        RawItem::ForeignBlock(fs) => RawItem::ForeignBlock(clone_functions(fs)),
        RawItem::Record(r) => RawItem::Record(r.clone()),
        RawItem::Enum(e) => RawItem::Enum(e.clone()),
        RawItem::Typedef(t) => RawItem::Typedef(t.clone()),
        RawItem::Constant(c) => RawItem::Constant(c.clone()),
        RawItem::Use(name) => RawItem::Use(name.clone()),
        RawItem::Other => RawItem::Other,
    }
}

impl Clone for RawItem {
    fn clone(&self) -> (r: Self)
        ensures
            r@ == self@,
    {
        clone_item(self)
    }
}

impl Clone for RawGrouping {
    fn clone(&self) -> (r: Self)
        ensures
            r@ == self@,
    {
        RawGrouping {
            name: self.name.clone(),
            content: match &self.content {
                Some(inner) => Some(clone_items(inner)),
                None => None,
            },
        }
    }
}

/// The view of a list of items is the list of their views.
pub proof fn lemma_items_view(items: Seq<RawItem>)
    ensures
        items_view(items).len() == items.len(),
        forall|i: int| 0 <= i < items.len() ==> #[trigger] items_view(items)[i] == items[i]@,
    decreases items.len(),
{
    if items.len() > 0 {
        lemma_items_view(items.drop_last());
        assert forall|i: int| 0 <= i < items.len() implies #[trigger] items_view(items)[i]
            == items[i]@ by {
            if i < items.len() - 1 {
                assert(items.drop_last()[i] == items[i]);
            }
        }
    }
}

} // verus!
