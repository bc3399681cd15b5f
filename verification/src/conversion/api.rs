//! The model the stages work on, and the ways a conversion can fail.

use vstd::prelude::*;
use crate::bindings::RawFunction;
use crate::bindings::RawRecord;
use crate::bindings::RawEnum;
use crate::bindings::RawTypedef;
use crate::bindings::RawConstant;
use crate::bindings::FunctionView;
use crate::bindings::RecordView;
use crate::bindings::EnumView;
use crate::bindings::TypedefView;
use crate::bindings::ConstantView;
use crate::bindings::field_type_names;
use crate::bindings::RawType;
use crate::bindings::TypeView;
use crate::names::names_view;
use crate::names::same_name;
use crate::names::first_index;
use crate::names::is_first_index;
use crate::names::lemma_first_index_unique;

verus! {

/// Why a conversion stopped. Each failure names the declaration at fault.
#[derive(Clone, Debug, PartialEq, Eq)]
pub enum ConvertError {
    /// The module handed in has no body.
    NoContent,
    /// The outer list holds something besides the one `root` grouping.
    UnexpectedOuterItem,
    /// A declaration mentions a type that is neither primitive nor declared.
    UnknownType { declaration: String, ty_name: String },
    /// A type that the user vouched for cannot be passed by value.
    SafetyAssertionConflict { name: String },
    /// No kind of wrapper can expose the function under the chosen policy.
    UnsupportedSignature { function: String },
    /// A symbol on the allow-list cannot be generated.
    UnsatisfiableRoot { root: String },
    /// Two declarations share an identifier and differ in shape. The numbers
    /// count declarations in the order the generator listed them.
    DuplicateDeclarationConflict { name: String, first: usize, second: usize },
}

/// What a [`ConvertError`] stands for in contracts.
pub enum ErrorView {
    NoContent,
    UnexpectedOuterItem,
    UnknownType { declaration: Seq<char>, ty_name: Seq<char> },
    SafetyAssertionConflict { name: Seq<char> },
    UnsupportedSignature { function: Seq<char> },
    UnsatisfiableRoot { root: Seq<char> },
    DuplicateDeclarationConflict { name: Seq<char>, first: int, second: int },
}

impl View for ConvertError {
    type V = ErrorView;

    open spec fn view(&self) -> ErrorView {
        match self {
            ConvertError::NoContent => ErrorView::NoContent,
            ConvertError::UnexpectedOuterItem => ErrorView::UnexpectedOuterItem,
            ConvertError::UnknownType { declaration, ty_name } => ErrorView::UnknownType {
                declaration: declaration@,
                ty_name: ty_name@,
            },
            ConvertError::SafetyAssertionConflict { name } => ErrorView::SafetyAssertionConflict {
                name: name@,
            },
            ConvertError::UnsupportedSignature { function } => ErrorView::UnsupportedSignature {
                function: function@,
            },
            ConvertError::UnsatisfiableRoot { root } => ErrorView::UnsatisfiableRoot { root: root@ },
            ConvertError::DuplicateDeclarationConflict { name, first, second } =>
                ErrorView::DuplicateDeclarationConflict {
                    name: name@,
                    first: *first as int,
                    second: *second as int,
                },
        }
    }
}

/// The families that failures fall into.
#[derive(Clone, Copy, Debug, PartialEq, Eq, Structural)]
pub enum ErrorKind {
    StructuralViolation,
    UnknownType,
    SafetyAssertionConflict,
    UnsupportedSignature,
    UnsatisfiableRoot,
    DuplicateDeclarationConflict,
}

impl ErrorView {
    /// The family this failure belongs to.
    pub open spec fn kind(self) -> ErrorKind {
        match self {
            ErrorView::NoContent => ErrorKind::StructuralViolation,
            ErrorView::UnexpectedOuterItem => ErrorKind::StructuralViolation,
            ErrorView::UnknownType { .. } => ErrorKind::UnknownType,
            ErrorView::SafetyAssertionConflict { .. } => ErrorKind::SafetyAssertionConflict,
            ErrorView::UnsupportedSignature { .. } => ErrorKind::UnsupportedSignature,
            ErrorView::UnsatisfiableRoot { .. } => ErrorKind::UnsatisfiableRoot,
            ErrorView::DuplicateDeclarationConflict { .. } => ErrorKind::DuplicateDeclarationConflict,
        }
    }
}

impl ConvertError {
    /// The family this failure belongs to.
    pub fn kind(&self) -> (k: ErrorKind)
        ensures
            k == self@.kind(),
    {
        match self {
            ConvertError::NoContent => ErrorKind::StructuralViolation,
            ConvertError::UnexpectedOuterItem => ErrorKind::StructuralViolation,
            ConvertError::UnknownType { .. } => ErrorKind::UnknownType,
            ConvertError::SafetyAssertionConflict { .. } => ErrorKind::SafetyAssertionConflict,
            ConvertError::UnsupportedSignature { .. } => ErrorKind::UnsupportedSignature,
            ConvertError::UnsatisfiableRoot { .. } => ErrorKind::UnsatisfiableRoot,
            ConvertError::DuplicateDeclarationConflict { .. } =>
                ErrorKind::DuplicateDeclarationConflict,
        }
    }
}

/// Whether a type may be copied across the language boundary.
#[derive(Clone, Copy, Debug, PartialEq, Eq, Structural)]
pub enum Safety {
    /// Nothing has been decided yet.
    PendingAnalysis,
    /// A value may be copied across as it is.
    ByValueSafe,
    /// A value has to stay behind a pointer or a reference.
    RequiresIndirection,
}

/// How a function is made available on the other side.
#[derive(Clone, Copy, Debug, PartialEq, Eq, Structural)]
pub enum Materialization {
    /// The bridge calls the function itself.
    DirectPassthrough,
    /// The bridge calls a native function written for the purpose, which
    /// calls the function in turn.
    SynthesizedWrapper,
}

/// How one argument, or the result, crosses the bridge.
#[derive(Clone, Copy, Debug, PartialEq, Eq, Structural)]
pub enum Crossing {
    /// As the declaration has it.
    AsDeclared,
    /// Behind an owning pointer, in place of the value.
    Indirect,
}

/// What the function analysis decided for one function.
#[derive(Debug, PartialEq, Eq)]
pub struct CallPlan {
    pub kind: Materialization,
    /// Whether callers have to acknowledge the call as unsafe.
    pub marked_unsafe: bool,
    /// One entry per parameter, in order.
    pub params: Vec<Crossing>,
    pub ret: Crossing,
}

/// What a [`CallPlan`] stands for in contracts.
pub struct PlanView {
    pub kind: Materialization,
    pub marked_unsafe: bool,
    pub params: Seq<Crossing>,
    pub ret: Crossing,
}

impl View for CallPlan {
    type V = PlanView;

    open spec fn view(&self) -> PlanView {
        PlanView {
            kind: self.kind,
            marked_unsafe: self.marked_unsafe,
            params: self.params@,
            ret: self.ret,
        }
    }
}

impl Clone for CallPlan {
    fn clone(&self) -> (r: Self)
        ensures
            r@ == self@,
    {
        let mut params: Vec<Crossing> = Vec::new();
        let mut i: usize = 0;
        while i < self.params.len()
            invariant
                i <= self.params.len(),
                params@.len() == i,
                forall|j: int| 0 <= j < i ==> params@[j] == self.params@[j],
            decreases self.params.len() - i,
        {
            params.push(self.params[i]);
            i += 1;
        }
        assert(params@ =~= self.params@);
        CallPlan { kind: self.kind, marked_unsafe: self.marked_unsafe, params, ret: self.ret }
    }
}

/// An optional plan, as contracts see it.
pub open spec fn opt_plan_view(p: Option<CallPlan>) -> Option<PlanView> {
    match p {
        Some(p) => Some(p@),
        None => None,
    }
}

/// What a declaration declares, as the generator described it.
#[derive(Debug, PartialEq, Eq)]
pub enum Shape {
    Function(RawFunction),
    Record(RawRecord),
    Enum(RawEnum),
    Typedef(RawTypedef),
    Constant(RawConstant),
}

/// What a [`Shape`] stands for in contracts.
pub enum ShapeView {
    Function(FunctionView),
    Record(RecordView),
    Enum(EnumView),
    Typedef(TypedefView),
    Constant(ConstantView),
}

impl ShapeView {
    /// Whether the declaration introduces a type.
    pub open spec fn is_type(self) -> bool {
        self is Record || self is Enum || self is Typedef
    }

    /// Every type the declaration mentions, in the order it mentions them:
    /// parameters before the result, members in order.
    pub open spec fn mentions(self) -> Seq<Seq<char>> {
        match self {
            ShapeView::Function(f) => field_type_names(f.params) + match f.ret {
                Some(t) => seq![t.name],
                None => Seq::empty(),
            },
            ShapeView::Record(r) => field_type_names(r.members),
            ShapeView::Enum(e) => seq![e.underlying],
            ShapeView::Typedef(t) => seq![t.target.name],
            ShapeView::Constant(c) => seq![c.ty],
        }
    }
}

impl View for Shape {
    type V = ShapeView;

    open spec fn view(&self) -> ShapeView {
        match self {
            Shape::Function(f) => ShapeView::Function(f@),
            Shape::Record(r) => ShapeView::Record(r@),
            Shape::Enum(e) => ShapeView::Enum(e@),
            Shape::Typedef(t) => ShapeView::Typedef(t@),
            Shape::Constant(c) => ShapeView::Constant(c@),
        }
    }
}

impl Clone for Shape {
    fn clone(&self) -> (r: Self)
        ensures
            r@ == self@,
    {
        match self {
            Shape::Function(f) => Shape::Function(f.clone()),
            Shape::Record(r) => Shape::Record(r.clone()),
            Shape::Enum(e) => Shape::Enum(e.clone()),
            Shape::Typedef(t) => Shape::Typedef(t.clone()),
            Shape::Constant(c) => Shape::Constant(c.clone()),
        }
    }
}

impl Shape {
    /// Whether two shapes agree in every detail.
    pub fn same(&self, other: &Shape) -> (r: bool)
        ensures
            r == (self@ == other@),
    {
        match (self, other) {
            (Shape::Function(a), Shape::Function(b)) => a.same(b),
            (Shape::Record(a), Shape::Record(b)) => a.same(b),
            (Shape::Enum(a), Shape::Enum(b)) => a.same(b),
            (Shape::Typedef(a), Shape::Typedef(b)) => a.same(b),
            (Shape::Constant(a), Shape::Constant(b)) => a.same(b),
            _ => false,
        }
    }

    /// Whether the declaration introduces a type.
    pub fn is_type(&self) -> (r: bool)
        ensures
            r == self@.is_type(),
    {
        match self {
            Shape::Record(_) => true,
            Shape::Enum(_) => true,
            Shape::Typedef(_) => true,
            _ => false,
        }
    }
}

/// One declaration with the identifier that its place among the namespaces
/// gives it.
#[derive(Debug, PartialEq, Eq)]
pub struct Declaration {
    pub name: String,
    pub shape: Shape,
}

/// What a [`Declaration`] stands for in contracts.
pub struct DeclView {
    pub name: Seq<char>,
    pub shape: ShapeView,
}

impl View for Declaration {
    type V = DeclView;

    open spec fn view(&self) -> DeclView {
        DeclView { name: self.name@, shape: self.shape@ }
    }
}

/// The declarations of a list, as contracts see them.
pub open spec fn decls_view(decls: Seq<Declaration>) -> Seq<DeclView> {
    decls.map_values(|d: Declaration| d@)
}

/// The identifiers of the declarations of a list, in order.
pub open spec fn decl_names(decls: Seq<DeclView>) -> Seq<Seq<char>> {
    decls.map_values(|d: DeclView| d.name)
}

/// The first declaration called `name`, if there is one.
pub open spec fn first_decl(decls: Seq<DeclView>, name: Seq<char>) -> Option<DeclView> {
    match first_index(decl_names(decls), name) {
        Some(i) => Some(decls[i]),
        None => None,
    }
}

/// Position of the first declaration called `name`.
pub fn find_declaration(decls: &Vec<Declaration>, name: &String) -> (r: Option<usize>)
    ensures
        match r {
            Some(i) => first_index(decl_names(decls_view(decls@)), name@) == Some(i as int) && i
                < decls@.len(),
            None => first_index(decl_names(decls_view(decls@)), name@) == None::<int>,
        },
        r is Some == decl_names(decls_view(decls@)).contains(name@),
{
    let ghost names = decl_names(decls_view(decls@));
    let mut i: usize = 0;
    while i < decls.len()
        invariant
            i <= decls.len(),
            names == decl_names(decls_view(decls@)),
            forall|j: int| 0 <= j < i ==> names[j] != name@,
        decreases decls.len() - i,
    {
        if same_name(&decls[i].name, name) {
            proof {
                lemma_first_index_unique(names, name@, i as int);
                assert(names[i as int] == name@);
            }
            return Some(i);
        }
        i += 1;
    }
    proof {
        crate::names::lemma_first_index(names, name@);
    }
    None
}

/// The unit of the model: one declaration, what has been found out about it,
/// and, through its shape, the declarations it depends on.
#[derive(Debug, PartialEq, Eq)]
pub struct Api {
    /// The fully qualified identifier.
    pub name: String,
    pub shape: Shape,
    /// For a type, whether it may be passed by value.
    pub safety: Safety,
    /// For a function, how it is made available, once that is decided.
    pub plan: Option<CallPlan>,
    /// Whether the pipeline added this entry itself.
    pub synthetic: bool,
}

/// What a [`Api`] stands for in contracts.
pub struct ApiView {
    pub name: Seq<char>,
    pub shape: ShapeView,
    pub safety: Safety,
    pub plan: Option<PlanView>,
    pub synthetic: bool,
}

impl ApiView {
    /// The identifiers this API depends on: every type that its declaration
    /// mentions. A record depends on the types of its members whether or not
    /// it may be passed by value.
    pub open spec fn deps(self) -> Seq<Seq<char>> {
        self.shape.mentions()
    }
}

impl View for Api {
    type V = ApiView;

    open spec fn view(&self) -> ApiView {
        ApiView {
            name: self.name@,
            shape: self.shape@,
            safety: self.safety,
            plan: opt_plan_view(self.plan),
            synthetic: self.synthetic,
        }
    }
}

impl Clone for Api {
    fn clone(&self) -> (r: Self)
        ensures
            r@ == self@,
    {
        Api {
            name: self.name.clone(),
            shape: self.shape.clone(),
            safety: self.safety,
            plan: match &self.plan {
                Some(p) => Some(p.clone()),
                None => None,
            },
            synthetic: self.synthetic,
        }
    }
}

/// The APIs of a list, as contracts see them: the model.
pub open spec fn apis_view(apis: Seq<Api>) -> Seq<ApiView> {
    apis.map_values(|a: Api| a@)
}

/// The identifiers of the APIs of a model, in order.
pub open spec fn api_names(model: Seq<ApiView>) -> Seq<Seq<char>> {
    model.map_values(|a: ApiView| a.name)
}

/// No two APIs of `model` share an identifier.
pub open spec fn distinct_names(model: Seq<ApiView>) -> bool {
    forall|i: int, j: int|
        0 <= i < j < model.len() ==> (#[trigger] model[i]).name != (#[trigger] model[j]).name
}

/// In a model without repeated identifiers, an API is the one found under its name.
pub proof fn lemma_lookup_distinct(model: Seq<ApiView>, k: int)
    requires
        distinct_names(model),
        0 <= k < model.len(),
    ensures
        first_index(api_names(model), model[k].name) == Some(k),
        lookup(model, model[k].name) == Some(model[k]),
{
    let names = api_names(model);
    assert(names[k] == model[k].name);
    assert forall|j: int| 0 <= j < k implies names[j] != model[k].name by {
        assert(names[j] == model[j].name);
    }
    lemma_first_index_unique(names, model[k].name, k);
}

/// The first API called `name`, if there is one.
pub open spec fn lookup(model: Seq<ApiView>, name: Seq<char>) -> Option<ApiView> {
    match first_index(api_names(model), name) {
        Some(i) => Some(model[i]),
        None => None,
    }
}

/// Whether `name` is the identifier of a declared type.
pub open spec fn is_type_api(model: Seq<ApiView>, name: Seq<char>) -> bool {
    match lookup(model, name) {
        Some(a) => a.shape.is_type(),
        None => false,
    }
}

/// Position of the first API called `name`.
pub fn find_api(apis: &Vec<Api>, name: &String) -> (r: Option<usize>)
    ensures
        match r {
            Some(i) => is_first_index(api_names(apis_view(apis@)), name@, i as int),
            None => !api_names(apis_view(apis@)).contains(name@),
        },
        match r {
            Some(i) => first_index(api_names(apis_view(apis@)), name@) == Some(i as int),
            None => first_index(api_names(apis_view(apis@)), name@) == None::<int>,
        },
{
    let ghost names = api_names(apis_view(apis@));
    let mut i: usize = 0;
    while i < apis.len()
        invariant
            i <= apis.len(),
            names == api_names(apis_view(apis@)),
            forall|j: int| 0 <= j < i ==> names[j] != name@,
        decreases apis.len() - i,
    {
        if same_name(&apis[i].name, name) {
            proof {
                lemma_first_index_unique(names, name@, i as int);
            }
            return Some(i);
        }
        i += 1;
    }
    proof {
        crate::names::lemma_first_index(names, name@);
    }
    None
}

impl Shape {
    /// Every type the declaration mentions, in the order it mentions them.
    pub fn mentions(&self) -> (r: Vec<String>)
        ensures
            names_view(r@) == self@.mentions(),
    {
        let mut r: Vec<String> = Vec::new();
        match self {
            Shape::Function(f) => {
                let mut i: usize = 0;
                while i < f.params.len()
                    invariant
                        i <= f.params.len(),
                        r@.len() == i,
                        forall|j: int| 0 <= j < i ==> r@[j]@ == f.params@[j].ty.name@,
                    decreases f.params.len() - i,
                {
                    r.push(f.params[i].ty.name.clone());
                    i += 1;
                }
                match &f.ret {
                    Some(t) => {
                        r.push(t.name.clone());
                    },
                    None => {},
                }
                assert(names_view(r@) =~= self@.mentions());
            },
            Shape::Record(rec) => {
                let mut i: usize = 0;
                while i < rec.members.len()
                    invariant
                        i <= rec.members.len(),
                        r@.len() == i,
                        forall|j: int| 0 <= j < i ==> r@[j]@ == rec.members@[j].ty.name@,
                    decreases rec.members.len() - i,
                {
                    r.push(rec.members[i].ty.name.clone());
                    i += 1;
                }
                assert(names_view(r@) =~= self@.mentions());
            },
            Shape::Enum(e) => {
                r.push(e.underlying.clone());
                assert(names_view(r@) =~= self@.mentions());
            },
            Shape::Typedef(t) => {
                r.push(t.target.name.clone());
                assert(names_view(r@) =~= self@.mentions());
            },
            Shape::Constant(c) => {
                r.push(c.ty.clone());
                assert(names_view(r@) =~= self@.mentions());
            },
        }
        r
    }
}

impl Api {
    /// A declaration as it enters the model: nothing decided yet.
    pub fn fresh(decl: Declaration) -> (r: Api)
        ensures
            r@ == fresh_api(decl@),
    {
        Api {
            name: decl.name,
            shape: decl.shape,
            safety: Safety::PendingAnalysis,
            plan: None,
            synthetic: false,
        }
    }

    /// The identifiers this API depends on.
    pub fn deps(&self) -> (r: Vec<String>)
        ensures
            names_view(r@) == self@.deps(),
    {
        self.shape.mentions()
    }
}

/// The API that a declaration starts out as.
pub open spec fn fresh_api(d: DeclView) -> ApiView {
    ApiView {
        name: d.name,
        shape: d.shape,
        safety: Safety::PendingAnalysis,
        plan: None,
        synthetic: false,
    }
}

/// One slot of a bridge signature: a parameter or the result, with the way
/// its value crosses. The slot of a result has no name.
#[derive(Debug, PartialEq, Eq)]
pub struct BridgeSlot {
    pub name: String,
    pub ty: RawType,
    pub crossing: Crossing,
}

/// What a [`BridgeSlot`] stands for in contracts.
pub struct SlotView {
    pub name: Seq<char>,
    pub ty: TypeView,
    pub crossing: Crossing,
}

impl View for BridgeSlot {
    type V = SlotView;

    open spec fn view(&self) -> SlotView {
        SlotView { name: self.name@, ty: self.ty@, crossing: self.crossing }
    }
}

/// The slots of a list, as contracts see them.
pub open spec fn slots_view(slots: Seq<BridgeSlot>) -> Seq<SlotView> {
    slots.map_values(|s: BridgeSlot| s@)
}

/// An optional slot, as contracts see it.
pub open spec fn opt_slot_view(slot: Option<BridgeSlot>) -> Option<SlotView> {
    match slot {
        Some(s) => Some(s@),
        None => None,
    }
}

/// The types that the slots of a signature mention, in order.
pub open spec fn slot_types(slots: Seq<SlotView>, ret: Option<SlotView>) -> Seq<Seq<char>> {
    slots.map_values(|s: SlotView| s.ty.name) + match ret {
        Some(s) => seq![s.ty.name],
        None => Seq::empty(),
    }
}

/// How parameter `i` crosses under `plan`. Without a plan, and for a
/// parameter that the plan does not speak of, as declared.
pub open spec fn crossing_at(plan: Option<PlanView>, i: int) -> Crossing {
    match plan {
        Some(p) => if 0 <= i < p.params.len() {
            p.params[i]
        } else {
            Crossing::AsDeclared
        },
        None => Crossing::AsDeclared,
    }
}

/// How the result crosses under `plan`.
pub open spec fn ret_crossing(plan: Option<PlanView>) -> Crossing {
    match plan {
        Some(p) => p.ret,
        None => Crossing::AsDeclared,
    }
}

/// Whether `plan` calls for a wrapper.
pub open spec fn is_wrapped(plan: Option<PlanView>) -> bool {
    match plan {
        Some(p) => p.kind == Materialization::SynthesizedWrapper,
        None => false,
    }
}

/// Whether `plan` has callers acknowledge the call as unsafe.
pub open spec fn is_marked_unsafe(plan: Option<PlanView>) -> bool {
    match plan {
        Some(p) => p.marked_unsafe,
        None => false,
    }
}

/// The name of the wrapper written for the function called `name`.
pub open spec fn wrapper_name(name: Seq<char>) -> Seq<char> {
    name + "_wrapper"@
}

/// The parameters of `f` as they appear on the bridge under `plan`.
pub open spec fn param_slots(f: FunctionView, plan: Option<PlanView>) -> Seq<SlotView> {
    Seq::new(
        f.params.len(),
        |i: int|
            SlotView { name: f.params[i].name, ty: f.params[i].ty, crossing: crossing_at(plan, i) },
    )
}

/// The result of `f` as it appears on the bridge under `plan`.
pub open spec fn ret_slot(f: FunctionView, plan: Option<PlanView>) -> Option<SlotView> {
    match f.ret {
        Some(t) => Some(SlotView { name: Seq::empty(), ty: t, crossing: ret_crossing(plan) }),
        None => None,
    }
}

/// Builds the name of the wrapper written for the function called `name`.
pub fn make_wrapper_name(name: &String) -> (r: String)
    ensures
        r@ == wrapper_name(name@),
{
    let mut r = name.clone();
    r.append("_wrapper");
    r
}

impl Api {
    /// Whether the function analysis asked for a wrapper.
    pub fn is_wrapped(&self) -> (r: bool)
        ensures
            r == is_wrapped(self@.plan),
    {
        match &self.plan {
            Some(p) => p.kind == Materialization::SynthesizedWrapper,
            None => false,
        }
    }

    /// Whether callers have to acknowledge a call as unsafe.
    pub fn is_marked_unsafe(&self) -> (r: bool)
        ensures
            r == is_marked_unsafe(self@.plan),
    {
        match &self.plan {
            Some(p) => p.marked_unsafe,
            None => false,
        }
    }

    /// The parameters of the function `f` as they appear on the bridge
    /// under the plan of this API.
    pub fn param_slots(&self, f: &RawFunction) -> (r: Vec<BridgeSlot>)
        ensures
            slots_view(r@) == param_slots(f@, self@.plan),
    {
        let mut r: Vec<BridgeSlot> = Vec::new();
        let mut i: usize = 0;
        while i < f.params.len()
            invariant
                i <= f.params.len(),
                r@.len() == i,
                forall|j: int|
                    0 <= j < i ==> (#[trigger] r@[j])@ == (SlotView {
                        name: f.params@[j].name@,
                        ty: f.params@[j].ty@,
                        crossing: crossing_at(self@.plan, j),
                    }),
            decreases f.params.len() - i,
        {
            let crossing = match &self.plan {
                Some(p) => if i < p.params.len() {
                    p.params[i]
                } else {
                    Crossing::AsDeclared
                },
                None => Crossing::AsDeclared,
            };
            r.push(
                BridgeSlot {
                    name: f.params[i].name.clone(),
                    ty: f.params[i].ty.clone(),
                    crossing,
                },
            );
            i += 1;
        }
        assert(slots_view(r@) =~= param_slots(f@, self@.plan));
        r
    }

    /// The result of the function `f` as it appears on the bridge under the
    /// plan of this API.
    pub fn ret_slot(&self, f: &RawFunction) -> (r: Option<BridgeSlot>)
        ensures
            opt_slot_view(r) == ret_slot(f@, self@.plan),
    {
        match &f.ret {
            Some(t) => {
                let crossing = match &self.plan {
                    Some(p) => p.ret,
                    None => Crossing::AsDeclared,
                };
                Some(BridgeSlot { name: String::new(), ty: t.clone(), crossing })
            },
            None => None,
        }
    }
}

} // verus!
