//! The routing tree: declarations, nodes and the walk of a request through them.
pub mod auth;
pub mod ext;
pub mod laws;
pub mod walk;

pub use crate::router::walk::RouterHandler;

use crate::fields::Fields;
#[allow(unused_imports)]
use crate::fields::FieldView;
#[allow(unused_imports)]
use crate::buffers::held;
#[allow(unused_imports)]
use crate::handler::{BufferedBody, Json, ResponseBody};
use crate::handler::{
    Either, EitherBody, Empty404, FullBody, NoBody, Request, RequestView, Response, StringId,
};
use crate::http;
use crate::http::{Method, MethodView, StatusCode};
#[allow(unused_imports)]
use crate::json::{Document, object_of};
use crate::router::auth::AuthError;
use crate::router::ext::SerdeError;
#[allow(unused_imports)]
use vstd::utf8::encode_utf8;
use vstd::prelude::*;

verus! {

/// A set of methods: some given ones, or all but some given ones.
pub enum Methods {
    Only(Vec<Method>),
    Except(Vec<Method>),
}

/// What a [`Methods`] holds.
pub enum MethodsView {
    Only(Seq<MethodView>),
    Except(Seq<MethodView>),
}

/// The methods of a list, as what they are.
pub open spec fn methods_of(list: Seq<Method>) -> Seq<MethodView> {
    list.map_values(|method: Method| method@)
}

impl View for Methods {
    type V = MethodsView;

    open spec fn view(&self) -> MethodsView {
        match self {
            Methods::Only(list) => MethodsView::Only(methods_of(list@)),
            Methods::Except(list) => MethodsView::Except(methods_of(list@)),
        }
    }
}

impl MethodsView {
    /// Whether `method` is in the set.
    pub open spec fn admits(self, method: MethodView) -> bool {
        match self {
            MethodsView::Only(list) => list.contains(method),
            MethodsView::Except(list) => !list.contains(method),
        }
    }
}

/// A method whose name is longer than any of `list`.
spec fn unlisted(list: Seq<MethodView>) -> Seq<char>
    decreases list.len(),
{
    if list.len() == 0 {
        Seq::empty()
    } else {
        match list.last() {
            MethodView::Extension(name) => unlisted(list.drop_last()) + name.push('X'),
            _ => unlisted(list.drop_last()),
        }
    }
}

proof fn lemma_unlisted(list: Seq<MethodView>)
    ensures
        !list.contains(MethodView::Extension(unlisted(list).push('X'))),
        forall|name: Seq<char>|
            name.len() > unlisted(list).len() ==> !(#[trigger] list.contains(
                MethodView::Extension(name),
            )),
    decreases list.len(),
{
    if list.len() > 0 {
        lemma_unlisted(list.drop_last());
        assert forall|name: Seq<char>| name.len() > unlisted(list).len() implies !(
        #[trigger] list.contains(MethodView::Extension(name))) by {
            assert(!list.drop_last().contains(MethodView::Extension(name)));
            if list.contains(MethodView::Extension(name)) {
                let i = choose|i: int|
                    0 <= i < list.len() && list[i] == MethodView::Extension(name);
                if i < list.len() - 1 {
                    assert(list.drop_last()[i] == MethodView::Extension(name));
                }
            }
        }
    }
    assert(!list.contains(MethodView::Extension(unlisted(list).push('X'))));
}

impl Methods {
    /// Whether `method` is in the set.
    pub fn admits(&self, method: &Method) -> (r: bool)
        ensures
            r == self@.admits(method@),
    {
        match self {
            Methods::Only(list) => listed_method(list, method),
            Methods::Except(list) => !listed_method(list, method),
        }
    }

    /// Whether any method at all is in the set.
    pub fn admits_some(&self) -> (r: bool)
        ensures
            r == exists|method: MethodView| self@.admits(method),
    {
        match self {
            Methods::Only(list) => {
                proof {
                    let seen = methods_of(list@);
                    if seen.len() > 0 {
                        assert(seen.contains(seen[0]));
                        assert(self@.admits(seen[0]));
                    }
                }
                list.len() > 0
            },
            Methods::Except(list) => {
                proof {
                    let seen = methods_of(list@);
                    lemma_unlisted(seen);
                    assert(self@.admits(MethodView::Extension(unlisted(seen).push('X'))));
                }
                true
            },
        }
    }

    /// The set of one method.
    pub fn one(method: Method) -> (r: Self)
        ensures
            r@ == MethodsView::Only(seq![method@]),
    {
        let mut list: Vec<Method> = Vec::new();
        list.push(method);
        assert(methods_of(list@) =~= seq![method@]);
        Methods::Only(list)
    }

    /// The set of two methods.
    pub fn two(first: Method, second: Method) -> (r: Self)
        ensures
            r@ == MethodsView::Only(seq![first@, second@]),
    {
        let mut list: Vec<Method> = Vec::new();
        list.push(first);
        list.push(second);
        assert(methods_of(list@) =~= seq![first@, second@]);
        Methods::Only(list)
    }

    /// All methods.
    pub fn all() -> (r: Self)
        ensures
            r@ == MethodsView::Except(Seq::empty()),
    {
        let list: Vec<Method> = Vec::new();
        assert(methods_of(list@) =~= Seq::empty());
        Methods::Except(list)
    }
}

fn listed_method(list: &Vec<Method>, method: &Method) -> (r: bool)
    ensures
        r == methods_of(list@).contains(method@),
{
    let mut i: usize = 0;
    while i < list.len()
        invariant
            i <= list.len(),
            forall|j: int| 0 <= j < i ==> methods_of(list@)[j] != method@,
        decreases list.len() - i,
    {
        if list[i] == *method {
            assert(methods_of(list@)[i as int] == method@);
            return true;
        }
        i = i + 1;
    }
    false
}

fn listed_segment(list: &Vec<StringId>, segment: &StringId) -> (r: bool)
    ensures
        r == idents(list@).contains(segment.ident()),
{
    let mut i: usize = 0;
    while i < list.len()
        invariant
            i <= list.len(),
            forall|j: int| 0 <= j < i ==> idents(list@)[j] != segment.ident(),
        decreases list.len() - i,
    {
        if list[i] == *segment {
            assert(idents(list@)[i as int] == segment.ident());
            return true;
        }
        i = i + 1;
    }
    false
}

/// A set of path segments: all, or some given ones.
pub enum Segments {
    Any,
    OneOf(Vec<StringId>),
}

/// What a [`Segments`] holds: the ids of the segments.
pub enum SegmentsView {
    Any,
    OneOf(Seq<Seq<char>>),
}

/// The ids of some keys.
pub open spec fn idents(list: Seq<StringId>) -> Seq<Seq<char>> {
    list.map_values(|segment: StringId| segment.ident())
}

impl View for Segments {
    type V = SegmentsView;

    open spec fn view(&self) -> SegmentsView {
        match self {
            Segments::Any => SegmentsView::Any,
            Segments::OneOf(list) => SegmentsView::OneOf(idents(list@)),
        }
    }
}

impl SegmentsView {
    /// Whether `segment` is in the set.
    pub open spec fn admits(self, segment: StringId) -> bool {
        match self {
            SegmentsView::Any => true,
            SegmentsView::OneOf(list) => list.contains(segment.ident()),
        }
    }
}

impl Segments {
    /// Whether `segment` is in the set.
    pub fn admits(&self, segment: &StringId) -> (r: bool)
        ensures
            r == self@.admits(*segment),
    {
        match self {
            Segments::Any => true,
            Segments::OneOf(list) => listed_segment(list, segment),
        }
    }

    /// The set of one segment.
    pub fn one(segment: StringId) -> (r: Self)
        ensures
            r@ == SegmentsView::OneOf(seq![segment.ident()]),
    {
        let mut list: Vec<StringId> = Vec::new();
        list.push(segment);
        assert(idents(list@) =~= seq![segment.ident()]);
        Segments::OneOf(list)
    }
}

/// The outcome of a match test, carrying ownership of the node either way.
///
/// `Then(u)` means "matched, here is the transformed state `u`"; `Else(t)` means "did
/// not match, here is the original node `t`".
pub enum Then<U, T> {
    /// The test matched, yielding the transformed state.
    Then(U),
    /// The test did not match, returning the node unchanged.
    Else(T),
}

impl<U, T> Then<U, T> {
    /// Transforms the state of a match.
    pub fn map<U2, F>(self, f: F) -> (r: Then<U2, T>) where F: FnOnce(U) -> U2
        requires
            self matches Then::Then(then) ==> f.requires((then,)),
        ensures
            match self {
                Then::Then(then) => r matches Then::Then(mapped) && f.ensures((then,), mapped),
                Then::Else(else_) => r == Then::<U2, T>::Else(else_),
            },
    {
        match self {
            Then::Then(then) => Then::Then(f(then)),
            Then::Else(else_) => Then::Else(else_),
        }
    }

    /// Makes a second test of a match.
    pub fn and_then<U2, F>(self, f: F) -> (r: Then<U2, T>) where F: FnOnce(U) -> Then<U2, T>
        requires
            self matches Then::Then(then) ==> f.requires((then,)),
        ensures
            match self {
                Then::Then(then) => f.ensures((then,), r),
                Then::Else(else_) => r == Then::<U2, T>::Else(else_),
            },
    {
        match self {
            Then::Then(then) => f(then),
            Then::Else(else_) => Then::Else(else_),
        }
    }

    /// Transforms the node of a miss.
    pub fn map_else<T2, F>(self, f: F) -> (r: Then<U, T2>) where F: FnOnce(T) -> T2
        requires
            self matches Then::Else(else_) ==> f.requires((else_,)),
        ensures
            match self {
                Then::Then(then) => r == Then::<U, T2>::Then(then),
                Then::Else(else_) => r matches Then::Else(mapped) && f.ensures((else_,), mapped),
            },
    {
        match self {
            Then::Then(then) => Then::Then(then),
            Then::Else(else_) => Then::Else(f(else_)),
        }
    }
}

/// What a request has to be for a middleware or a route to claim it.
pub struct Guard<L> {
    /// What the node itself says.
    pub holds: bool,
    /// The methods that are admitted.
    pub methods: Methods,
    /// Whether no further segment may be left.
    pub exhausted: bool,
    /// A condition that the node tests on the request.
    pub condition: Option<L>,
}

/// What a [`Guard`] holds.
pub struct GuardView<L> {
    pub holds: bool,
    pub methods: MethodsView,
    pub exhausted: bool,
    pub condition: Option<L>,
}

impl<L> View for Guard<L> {
    type V = GuardView<L>;

    open spec fn view(&self) -> GuardView<L> {
        GuardView {
            holds: self.holds,
            methods: self.methods@,
            exhausted: self.exhausted,
            condition: self.condition,
        }
    }
}

impl<L> GuardView<L> {
    /// The guard that admits every request.
    pub open spec fn open() -> Self {
        GuardView {
            holds: true,
            methods: MethodsView::Except(Seq::empty()),
            exhausted: false,
            condition: None,
        }
    }

    /// The guard that admits a request for which `holds` is set.
    pub open spec fn when(holds: bool) -> Self {
        GuardView { holds, ..Self::open() }
    }

    /// The guard that admits a request on which the node finds `condition` true.
    pub open spec fn tested(condition: L) -> Self {
        GuardView { condition: Some(condition), ..Self::open() }
    }

    /// The guard that admits the request methods in `methods`.
    pub open spec fn for_methods(methods: MethodsView) -> Self {
        GuardView { methods, ..Self::open() }
    }

    /// The guard that admits a request with the given method and no segment left.
    pub open spec fn last_with(method: MethodView) -> Self {
        GuardView {
            methods: MethodsView::Only(seq![method]),
            exhausted: true,
            ..Self::open()
        }
    }
}

impl<L> Guard<L> {
    /// The guard that admits every request.
    pub fn open() -> (r: Self)
        ensures
            r@ == GuardView::<L>::open(),
    {
        Guard { holds: true, methods: Methods::all(), exhausted: false, condition: None }
    }

    /// The guard that admits a request for which `holds` is set.
    pub fn when(holds: bool) -> (r: Self)
        ensures
            r@ == GuardView::<L>::when(holds),
    {
        Guard { holds, methods: Methods::all(), exhausted: false, condition: None }
    }

    /// The guard that admits a request on which the node finds `condition` true.
    pub fn tested(condition: L) -> (r: Self)
        ensures
            r@ == GuardView::<L>::tested(condition),
    {
        Guard {
            holds: true,
            methods: Methods::all(),
            exhausted: false,
            condition: Some(condition),
        }
    }

    /// The guard that admits the request methods in `methods`.
    pub fn for_methods(methods: Methods) -> (r: Self)
        ensures
            r@ == GuardView::<L>::for_methods(methods@),
    {
        Guard { holds: true, methods, exhausted: false, condition: None }
    }

    /// The guard that admits a request with the given method and no segment left.
    pub fn last_with(method: Method) -> (r: Self)
        ensures
            r@ == GuardView::<L>::last_with(method@),
    {
        Guard { holds: true, methods: Methods::one(method), exhausted: true, condition: None }
    }
}

/// What a middleware does beside choosing the node to go on with.
#[derive(Clone, Copy, Debug, PartialEq, Eq, Structural)]
pub enum Stage {
    /// Nothing.
    Plain,
    /// It looks at the response on its way back out.
    Post,
    /// It claims only a request with an `Authorization` header, and takes the header
    /// out.
    Authorization,
}

/// One thing that a node offers. `label` names what is to be done when it claims a
/// request.
pub enum Declaration<L> {
    /// Code that runs before a path segment is consumed.
    Middleware { guard: Guard<L>, stage: Stage, label: L },
    /// A child, or a response if it is `terminal`, reached by consuming the next
    /// path segment.
    Route { guard: Guard<L>, segments: Segments, terminal: bool, label: L },
    /// A child of the node's own type, reached by consuming the next path segment.
    RouteRecursive { holds: bool, segments: Segments, condition: Option<L>, label: L },
    /// A response reached when the path is exhausted.
    Leaf { methods: Methods, condition: Option<L>, label: L },
}

/// What a [`Declaration`] holds.
pub enum DeclarationView<L> {
    Middleware { guard: GuardView<L>, stage: Stage, label: L },
    Route { guard: GuardView<L>, segments: SegmentsView, terminal: bool, label: L },
    RouteRecursive { holds: bool, segments: SegmentsView, condition: Option<L>, label: L },
    Leaf { methods: MethodsView, condition: Option<L>, label: L },
}

impl<L> View for Declaration<L> {
    type V = DeclarationView<L>;

    open spec fn view(&self) -> DeclarationView<L> {
        match self {
            Declaration::Middleware { guard, stage, label } => DeclarationView::Middleware {
                guard: guard@,
                stage: *stage,
                label: *label,
            },
            Declaration::Route { guard, segments, terminal, label } => DeclarationView::Route {
                guard: guard@,
                segments: segments@,
                terminal: *terminal,
                label: *label,
            },
            Declaration::RouteRecursive { holds, segments, condition, label } => {
                DeclarationView::RouteRecursive {
                    holds: *holds,
                    segments: segments@,
                    condition: *condition,
                    label: *label,
                }
            },
            Declaration::Leaf { methods, condition, label } => DeclarationView::Leaf {
                methods: methods@,
                condition: *condition,
                label: *label,
            },
        }
    }
}

/// What some declarations hold.
pub open spec fn views<L>(list: Seq<Declaration<L>>) -> Seq<DeclarationView<L>> {
    list.map_values(|declaration: Declaration<L>| declaration@)
}

/// The declaration surface handed to [`MakeRoute::register`].
///
/// This trait holds only the four **primitive** declarations. You normally do not
/// call these directly; reach for the higher-level helpers in [`RouterDerived`].
pub trait Router<L> {
    /// The declarations so far.
    spec fn listed(&self) -> Seq<DeclarationView<L>>;

    /// Declare middleware: code that runs at this node *before* a path segment is
    /// consumed (phase 1).
    fn middleware_mut_map(&mut self, guard: Guard<L>, stage: Stage, label: L)
        ensures
            final(self).listed() == old(self).listed().push(
                (DeclarationView::Middleware { guard: guard@, stage, label }),
            ),
    ;

    /// Declare a route: a child reached by consuming the next path segment
    /// (phase 2).
    fn route_map(&mut self, guard: Guard<L>, segments: Segments, terminal: bool, label: L)
        ensures
            final(self).listed() == old(self).listed().push(
                (DeclarationView::Route { guard: guard@, segments: segments@, terminal, label }),
            ),
    ;

    /// Like [`route_map`](Router::route_map), but for a node that routes into
    /// *its own type*. The match sees only the node and the segment, not the
    /// request.
    fn route_map_recursive(
        &mut self,
        holds: bool,
        segments: Segments,
        condition: Option<L>,
        label: L,
    )
        ensures
            final(self).listed() == old(self).listed().push(
                (DeclarationView::RouteRecursive { holds, segments: segments@, condition, label }),
            ),
    ;

    /// Declare a leaf: a terminal handler reached when the path is exhausted
    /// (phase 3).
    fn leaf_map(&mut self, methods: Methods, condition: Option<L>, label: L)
        ensures
            final(self).listed() == old(self).listed().push(
                (DeclarationView::Leaf { methods: methods@, condition, label }),
            ),
    ;
}

/// Ergonomic helpers built on the four [`Router`] primitives, available on every
/// [`Router`].
///
/// - **Middleware**: [`middleware`](Self::middleware),
///   [`middleware_if`](Self::middleware_if), [`middleware_map`](Self::middleware_map),
///   [`middleware_mut`](Self::middleware_mut),
///   [`middleware_mut_if`](Self::middleware_mut_if).
/// - **Routes** (consume a segment, descend into a child): [`path`](Self::path),
///   [`route`](Self::route), [`route_if`](Self::route_if), and their recursive
///   counterparts.
/// - **Leaves** (terminal, by method): [`get`](Self::get), [`put`](Self::put),
///   [`post`](Self::post), [`delete`](Self::delete), [`leaf`](Self::leaf),
///   [`any_leaf`](Self::any_leaf); the `*_path` and `*_route` families combine a
///   segment match with a terminal handler in one call.
pub trait RouterDerived<L>: Router<L> {
    /// Attach middleware that always runs at this node.
    fn middleware(&mut self, label: L)
        ensures
            final(self).listed() == old(self).listed().push(
                (DeclarationView::Middleware {
                    guard: GuardView::open(),
                    stage: Stage::Plain,
                    label,
                }),
            ),
    {
        self.middleware_mut_map(Guard::open(), Stage::Plain, label)
    }

    /// Attach middleware that runs only when the node finds `condition` true of the
    /// request.
    fn middleware_if(&mut self, condition: L, label: L)
        ensures
            final(self).listed() == old(self).listed().push(
                (DeclarationView::Middleware {
                    guard: GuardView::tested(condition),
                    stage: Stage::Plain,
                    label,
                }),
            ),
    {
        self.middleware_mut_map(Guard::tested(condition), Stage::Plain, label)
    }

    /// Attach middleware with the match test `guard`, without a post-processing step.
    fn middleware_map(&mut self, guard: Guard<L>, label: L)
        ensures
            final(self).listed() == old(self).listed().push(
                (DeclarationView::Middleware { guard: guard@, stage: Stage::Plain, label }),
            ),
    {
        self.middleware_mut_map(guard, Stage::Plain, label)
    }

    /// Attach always-running middleware that holds the node for the duration of the
    /// request and looks at the [`RouterResponse`] on the way back out.
    fn middleware_mut(&mut self, label: L)
        ensures
            final(self).listed() == old(self).listed().push(
                (DeclarationView::Middleware {
                    guard: GuardView::open(),
                    stage: Stage::Post,
                    label,
                }),
            ),
    {
        self.middleware_mut_map(Guard::open(), Stage::Post, label)
    }

    /// Like [`middleware_mut`](Self::middleware_mut), but runs only when the node finds
    /// `condition` true of the request.
    fn middleware_mut_if(&mut self, condition: L, label: L)
        ensures
            final(self).listed() == old(self).listed().push(
                (DeclarationView::Middleware {
                    guard: GuardView::tested(condition),
                    stage: Stage::Post,
                    label,
                }),
            ),
    {
        self.middleware_mut_map(Guard::tested(condition), Stage::Post, label)
    }

    /// Declare a route taken when the node finds `condition` true of the request and the
    /// next path segment.
    fn route_if(&mut self, condition: L, label: L)
        ensures
            final(self).listed() == old(self).listed().push(
                (DeclarationView::Route {
                    guard: GuardView::tested(condition),
                    segments: SegmentsView::Any,
                    terminal: false,
                    label,
                }),
            ),
    {
        self.route_map(Guard::tested(condition), Segments::Any, false, label)
    }

    /// [`route_if`](Self::route_if) for a node that routes into its own type. The
    /// condition sees only the node and the segment, not the request.
    fn route_if_recursive(&mut self, condition: L, label: L)
        ensures
            final(self).listed() == old(self).listed().push(
                (DeclarationView::RouteRecursive {
                    holds: true,
                    segments: SegmentsView::Any,
                    condition: Some(condition),
                    label,
                }),
            ),
    {
        self.route_map_recursive(true, Segments::Any, Some(condition), label)
    }

    /// Declare a leaf taken when the node finds `condition` true of the request method.
    /// Reached only when the path is exhausted.
    fn leaf_if(&mut self, condition: L, label: L)
        ensures
            final(self).listed() == old(self).listed().push(
                (DeclarationView::Leaf {
                    methods: MethodsView::Except(Seq::empty()),
                    condition: Some(condition),
                    label,
                }),
            ),
    {
        self.leaf_map(Methods::all(), Some(condition), label)
    }

    /// Route into a child when the next path segment equals `path`. The common way to
    /// mount a fixed sub-resource (e.g. `"users"`).
    fn path(&mut self, path: StringId, label: L)
        ensures
            final(self).listed() == old(self).listed().push(
                (DeclarationView::Route {
                    guard: GuardView::open(),
                    segments: SegmentsView::OneOf(seq![path.ident()]),
                    terminal: false,
                    label,
                }),
            ),
    {
        self.route_map(Guard::open(), Segments::one(path), false, label)
    }

    /// [`path`](Self::path) for a node that routes into its own type.
    fn path_recursive(&mut self, path: StringId, label: L)
        ensures
            final(self).listed() == old(self).listed().push(
                (DeclarationView::RouteRecursive {
                    holds: true,
                    segments: SegmentsView::OneOf(seq![path.ident()]),
                    condition: None,
                    label,
                }),
            ),
    {
        self.route_map_recursive(true, Segments::one(path), None, label)
    }

    /// Route into a child for *any* next path segment. Use this to capture a path
    /// parameter (e.g. an id).
    fn route(&mut self, label: L)
        ensures
            final(self).listed() == old(self).listed().push(
                (DeclarationView::Route {
                    guard: GuardView::open(),
                    segments: SegmentsView::Any,
                    terminal: false,
                    label,
                }),
            ),
    {
        self.route_map(Guard::open(), Segments::Any, false, label)
    }

    /// [`route`](Self::route) for a node that routes into its own type.
    fn route_recursive(&mut self, label: L)
        ensures
            final(self).listed() == old(self).listed().push(
                (DeclarationView::RouteRecursive {
                    holds: true,
                    segments: SegmentsView::Any,
                    condition: None,
                    label,
                }),
            ),
    {
        self.route_map_recursive(true, Segments::Any, None, label)
    }

    /// Declare a terminal leaf matched on `method`, reached when the path is exhausted.
    fn leaf(&mut self, method: Method, label: L)
        ensures
            final(self).listed() == old(self).listed().push(
                (DeclarationView::Leaf {
                    methods: MethodsView::Only(seq![method@]),
                    condition: None,
                    label,
                }),
            ),
    {
        self.leaf_map(Methods::one(method), None, label)
    }

    /// Declare a terminal leaf matched for any method.
    fn any_leaf(&mut self, label: L)
        ensures
            final(self).listed() == old(self).listed().push(
                (DeclarationView::Leaf {
                    methods: MethodsView::Except(Seq::empty()),
                    condition: None,
                    label,
                }),
            ),
    {
        self.leaf_map(Methods::all(), None, label)
    }

    /// [`leaf`](Self::leaf) fixed to `GET`.
    fn get(&mut self, label: L)
        ensures
            final(self).listed() == old(self).listed().push(
                (DeclarationView::Leaf {
                    methods: MethodsView::Only(seq![MethodView::Get]),
                    condition: None,
                    label,
                }),
            ),
    {
        self.leaf(Method::Get, label)
    }

    /// [`leaf`](Self::leaf) fixed to `PUT`.
    fn put(&mut self, label: L)
        ensures
            final(self).listed() == old(self).listed().push(
                (DeclarationView::Leaf {
                    methods: MethodsView::Only(seq![MethodView::Put]),
                    condition: None,
                    label,
                }),
            ),
    {
        self.leaf(Method::Put, label)
    }

    /// [`leaf`](Self::leaf) fixed to `POST`.
    fn post(&mut self, label: L)
        ensures
            final(self).listed() == old(self).listed().push(
                (DeclarationView::Leaf {
                    methods: MethodsView::Only(seq![MethodView::Post]),
                    condition: None,
                    label,
                }),
            ),
    {
        self.leaf(Method::Post, label)
    }

    /// [`leaf`](Self::leaf) fixed to `DELETE`.
    fn delete(&mut self, label: L)
        ensures
            final(self).listed() == old(self).listed().push(
                (DeclarationView::Leaf {
                    methods: MethodsView::Only(seq![MethodView::Delete]),
                    condition: None,
                    label,
                }),
            ),
    {
        self.leaf(Method::Delete, label)
    }

    /// Terminal handler for a request with *exactly one* segment remaining and the given
    /// `method`.
    ///
    /// Unlike [`leaf`](Self::leaf) (which fires only once the path is fully consumed), this
    /// matches a single trailing segment and hands it to the handler, treating the result as
    /// terminal. If further segments remain the route declines, so sibling declarations at
    /// this node still get a chance to match.
    fn leaf_route(&mut self, method: Method, label: L)
        ensures
            final(self).listed() == old(self).listed().push(
                (DeclarationView::Route {
                    guard: GuardView::last_with(method@),
                    segments: SegmentsView::Any,
                    terminal: true,
                    label,
                }),
            ),
    {
        self.route_map(Guard::last_with(method), Segments::Any, true, label)
    }

    /// [`leaf_route`](Self::leaf_route) fixed to `GET`.
    fn get_route(&mut self, label: L)
        ensures
            final(self).listed() == old(self).listed().push(
                (DeclarationView::Route {
                    guard: GuardView::last_with(MethodView::Get),
                    segments: SegmentsView::Any,
                    terminal: true,
                    label,
                }),
            ),
    {
        self.leaf_route(Method::Get, label)
    }

    /// [`leaf_route`](Self::leaf_route) fixed to `PUT`.
    fn put_route(&mut self, label: L)
        ensures
            final(self).listed() == old(self).listed().push(
                (DeclarationView::Route {
                    guard: GuardView::last_with(MethodView::Put),
                    segments: SegmentsView::Any,
                    terminal: true,
                    label,
                }),
            ),
    {
        self.leaf_route(Method::Put, label)
    }

    /// [`leaf_route`](Self::leaf_route) fixed to `POST`.
    fn post_route(&mut self, label: L)
        ensures
            final(self).listed() == old(self).listed().push(
                (DeclarationView::Route {
                    guard: GuardView::last_with(MethodView::Post),
                    segments: SegmentsView::Any,
                    terminal: true,
                    label,
                }),
            ),
    {
        self.leaf_route(Method::Post, label)
    }

    /// [`leaf_route`](Self::leaf_route) fixed to `DELETE`.
    fn delete_route(&mut self, label: L)
        ensures
            final(self).listed() == old(self).listed().push(
                (DeclarationView::Route {
                    guard: GuardView::last_with(MethodView::Delete),
                    segments: SegmentsView::Any,
                    terminal: true,
                    label,
                }),
            ),
    {
        self.leaf_route(Method::Delete, label)
    }

    /// Terminal handler for a request whose final segment equals `path` and whose method
    /// is `method`, e.g. `POST /users/login`.
    fn leaf_path(&mut self, path: StringId, method: Method, label: L)
        ensures
            final(self).listed() == old(self).listed().push(
                (DeclarationView::Route {
                    guard: GuardView::last_with(method@),
                    segments: SegmentsView::OneOf(seq![path.ident()]),
                    terminal: true,
                    label,
                }),
            ),
    {
        self.route_map(Guard::last_with(method), Segments::one(path), true, label)
    }

    /// [`leaf_path`](Self::leaf_path) fixed to `GET`.
    fn get_path(&mut self, path: StringId, label: L)
        ensures
            final(self).listed() == old(self).listed().push(
                (DeclarationView::Route {
                    guard: GuardView::last_with(MethodView::Get),
                    segments: SegmentsView::OneOf(seq![path.ident()]),
                    terminal: true,
                    label,
                }),
            ),
    {
        self.leaf_path(path, Method::Get, label)
    }

    /// [`leaf_path`](Self::leaf_path) fixed to `PUT`.
    fn put_path(&mut self, path: StringId, label: L)
        ensures
            final(self).listed() == old(self).listed().push(
                (DeclarationView::Route {
                    guard: GuardView::last_with(MethodView::Put),
                    segments: SegmentsView::OneOf(seq![path.ident()]),
                    terminal: true,
                    label,
                }),
            ),
    {
        self.leaf_path(path, Method::Put, label)
    }

    /// [`leaf_path`](Self::leaf_path) fixed to `POST`.
    fn post_path(&mut self, path: StringId, label: L)
        ensures
            final(self).listed() == old(self).listed().push(
                (DeclarationView::Route {
                    guard: GuardView::last_with(MethodView::Post),
                    segments: SegmentsView::OneOf(seq![path.ident()]),
                    terminal: true,
                    label,
                }),
            ),
    {
        self.leaf_path(path, Method::Post, label)
    }

    /// [`leaf_path`](Self::leaf_path) fixed to `DELETE`.
    fn delete_path(&mut self, path: StringId, label: L)
        ensures
            final(self).listed() == old(self).listed().push(
                (DeclarationView::Route {
                    guard: GuardView::last_with(MethodView::Delete),
                    segments: SegmentsView::OneOf(seq![path.ident()]),
                    terminal: true,
                    label,
                }),
            ),
    {
        self.leaf_path(path, Method::Delete, label)
    }
}

impl<L, R: Router<L>> RouterDerived<L> for R {

}

/// A [`Router`] that keeps the declarations in their order.
pub struct Declarations<L> {
    pub list: Vec<Declaration<L>>,
}

impl<L> Declarations<L> {
    /// No declarations.
    pub fn new() -> (r: Self)
        ensures
            r.listed() == Seq::<DeclarationView<L>>::empty(),
    {
        let r = Declarations { list: Vec::new() };
        assert(r.listed() =~= Seq::<DeclarationView<L>>::empty());
        r
    }

    fn push(&mut self, declaration: Declaration<L>)
        ensures
            final(self).listed() == old(self).listed().push(declaration@),
    {
        let ghost before = self.list@;
        self.list.push(declaration);
        assert(views(self.list@) =~= views(before).push(declaration@));
    }
}

impl<L> Router<L> for Declarations<L> {
    open spec fn listed(&self) -> Seq<DeclarationView<L>> {
        views(self.list@)
    }

    fn middleware_mut_map(&mut self, guard: Guard<L>, stage: Stage, label: L) {
        self.push(Declaration::Middleware { guard, stage, label })
    }

    fn route_map(&mut self, guard: Guard<L>, segments: Segments, terminal: bool, label: L) {
        self.push(Declaration::Route { guard, segments, terminal, label })
    }

    fn route_map_recursive(
        &mut self,
        holds: bool,
        segments: Segments,
        condition: Option<L>,
        label: L,
    ) {
        self.push(Declaration::RouteRecursive { holds, segments, condition, label })
    }

    fn leaf_map(&mut self, methods: Methods, condition: Option<L>, label: L) {
        self.push(Declaration::Leaf { methods, condition, label })
    }
}

/// A node in the routing tree.
///
/// This is the trait you implement to describe how a request is routed. At every
/// node the router calls [`register`](MakeRoute::register), giving you a
/// [`Router`] on which you declare what that node offers. Declarations are
/// evaluated in **three phases**, and within a phase **in declaration order,
/// first match wins**:
///
/// 1. **Middleware** runs before any segment is consumed.
/// 2. **Routes** are consulted only when the path still has at least one segment.
/// 3. **Leaves** are consulted only when the path is exhausted.
///
/// If no route matches a remaining segment the router replies `404`. If the path
/// is exhausted but no leaf matches the request method, the router replies `405`
/// when some *other* method would have matched, and `404` otherwise.
pub trait MakeRoute: Sized {
    /// The request body.
    type Body;

    /// What names a handler or a condition of the node.
    type Label: Copy;

    /// What the handlers respond with.
    type Response;

    /// The declarations of the node; each implementation says which.
    open spec fn declared(&self) -> Seq<DeclarationView<Self::Label>> {
        arbitrary()
    }

    /// Whether `condition` holds of a request that no segment was taken from.
    open spec fn on_request(
        &self,
        condition: Self::Label,
        request: RequestView<Self::Body>,
    ) -> bool {
        arbitrary()
    }

    /// Whether `condition` holds of a request that `segment` was taken from.
    open spec fn on_route(
        &self,
        condition: Self::Label,
        request: RequestView<Self::Body>,
        segment: StringId,
    ) -> bool {
        arbitrary()
    }

    /// Whether `condition` holds of `segment`.
    open spec fn on_segment(&self, condition: Self::Label, segment: StringId) -> bool {
        arbitrary()
    }

    /// Whether `condition` holds of the method `method`.
    open spec fn on_method(&self, condition: Self::Label, method: MethodView) -> bool {
        arbitrary()
    }

    /// Declare this node's middleware, routes, and leaves on `router`.
    fn register<R: Router<Self::Label>>(&self, router: &mut R)
        ensures
            final(router).listed() == old(router).listed() + self.declared(),
    ;

    /// Tests a condition of a middleware.
    fn test_request(&self, condition: Self::Label, request: &Request<Self::Body>) -> (r: bool)
        ensures
            r == self.on_request(condition, request@),
    ;

    /// Tests a condition of a route.
    fn test_route(
        &self,
        condition: Self::Label,
        request: &Request<Self::Body>,
        segment: &StringId,
    ) -> (r: bool)
        ensures
            r == self.on_route(condition, request@, *segment),
    ;

    /// Tests a condition of a recursive route.
    fn test_segment(&self, condition: Self::Label, segment: &StringId) -> (r: bool)
        ensures
            r == self.on_segment(condition, *segment),
    ;

    /// Tests a condition of a leaf.
    fn test_method(&self, condition: Self::Label, method: &Method) -> (r: bool)
        ensures
            r == self.on_method(condition, method@),
    ;

    /// Tells whether a condition of a leaf holds of any method among `methods`.
    fn test_any_method(&self, condition: Self::Label, methods: &Methods) -> (r: bool)
        ensures
            r == exists|method: MethodView|
                methods@.admits(method) && #[trigger] self.on_method(condition, method),
    ;
}

/// A node that replies with `T` for any remaining path and any method.
pub struct ShortCircuit<T>(pub T);

/// A node that replies with `T` for any method, once the path is exhausted.
pub struct LeafRoute<T>(pub T);

/// A place that a request can stand at: a node, or what a node's place can be taken
/// by.
pub enum Node<T: MakeRoute> {
    /// A node.
    Own(T),
    /// An empty node that matches nothing.
    Nothing,
    /// A response for any remaining path and method.
    Circuit(ShortCircuit<RouterResponse<T::Response>>),
    /// A response for any method, once the path is exhausted.
    Last(LeafRoute<RouterResponse<T::Response>>),
    /// `Some` routes into the node, `None` replies `404`.
    Optional(Option<Box<Node<T>>>),
    /// `Ok` routes into the node, `Err` replies with the response.
    Fallible(Result<Box<Node<T>>, RouterResponse<T::Response>>),
    /// Routes into the node that is there.
    OneOf(Either<Box<Node<T>>, Box<Node<T>>>),
}

/// A response without a body.
#[derive(Clone, Copy, Debug, PartialEq, Eq, Structural)]
pub struct EmptyResponse(pub StatusCode);

/// The response that a walk ends with: one that a handler gave, or one of the
/// router's own.
pub enum RouterResponse<R> {
    /// A handler's.
    Given(R),
    /// A status without a body.
    Empty(EmptyResponse),
    /// A node that was not there.
    Missing(Empty404),
    /// A rejected `Authorization` header.
    Unauthorized(AuthError),
    /// A request body that could not be read.
    BadBody(SerdeError),
}

impl Response for EmptyResponse {
    type Body = NoBody;

    open spec fn status(&self) -> StatusCode {
        self.0
    }

    open spec fn headers(&self) -> Map<Seq<char>, FieldView> {
        Map::empty()
    }

    open spec fn has_body(&self, body: NoBody) -> bool {
        true
    }

    fn status_code(&self) -> (r: StatusCode) {
        self.0
    }

    fn into_body(self) -> (r: NoBody) {
        NoBody
    }

    fn extra_headers(&self) -> (r: Fields) {
        Fields::new()
    }
}

impl<R> RouterResponse<R> {
    /// A handler's response.
    pub fn new(response: R) -> (r: Self)
        ensures
            r == RouterResponse::Given(response),
    {
        RouterResponse::Given(response)
    }

    /// `404 Not Found` without a body.
    pub fn e404() -> (r: Self)
        ensures
            r == RouterResponse::<R>::Empty(EmptyResponse(StatusCode(http::NOT_FOUND))),
    {
        RouterResponse::Empty(EmptyResponse(StatusCode(http::NOT_FOUND)))
    }

    /// `405 Method Not Allowed` without a body.
    pub fn e405() -> (r: Self)
        ensures
            r == RouterResponse::<R>::Empty(EmptyResponse(StatusCode(http::METHOD_NOT_ALLOWED))),
    {
        RouterResponse::Empty(EmptyResponse(StatusCode(http::METHOD_NOT_ALLOWED)))
    }

    /// The handler's response, where it is one.
    pub fn downcast(&self) -> (r: &R)
        requires
            self is Given,
        ensures
            *r == self->Given_0,
    {
        match self {
            RouterResponse::Given(response) => response,
            _ => vstd::pervasive::unreached(),
        }
    }
}

impl<R: Response> RouterResponse<R> {
    /// Whether the status is a success.
    pub fn is_success(&self) -> (r: bool)
        ensures
            r == self.status().success(),
    {
        self.status_code().is_success()
    }
}

/// The status, headers and body of the response that is there.
impl<R: Response> Response for RouterResponse<R> {
    type Body = EitherBody<R::Body, EitherBody<NoBody, FullBody>>;

    open spec fn status(&self) -> StatusCode {
        match self {
            RouterResponse::Given(response) => response.status(),
            RouterResponse::Empty(response) => response.status(),
            RouterResponse::Missing(response) => response.status(),
            RouterResponse::Unauthorized(response) => response.status(),
            RouterResponse::BadBody(response) => response.status(),
        }
    }

    open spec fn headers(&self) -> Map<Seq<char>, FieldView> {
        match self {
            RouterResponse::Given(response) => response.headers(),
            RouterResponse::Empty(response) => response.headers(),
            RouterResponse::Missing(response) => response.headers(),
            RouterResponse::Unauthorized(response) => response.headers(),
            RouterResponse::BadBody(response) => response.headers(),
        }
    }

    open spec fn has_body(&self, body: EitherBody<R::Body, EitherBody<NoBody, FullBody>>) -> bool {
        match (self, body.0) {
            (RouterResponse::Given(response), Either::Left(body)) => response.has_body(body),
            (_, Either::Right(body)) => match (self, body.0) {
                (RouterResponse::Empty(response), Either::Left(body)) => response.has_body(body),
                (RouterResponse::Missing(response), Either::Left(body)) => response.has_body(body),
                (RouterResponse::Unauthorized(response), Either::Right(body)) => {
                    response.has_body(body)
                },
                (RouterResponse::BadBody(response), Either::Right(body)) => {
                    response.has_body(body)
                },
                _ => false,
            },
            _ => false,
        }
    }

    fn status_code(&self) -> (r: StatusCode) {
        match self {
            RouterResponse::Given(response) => response.status_code(),
            RouterResponse::Empty(response) => response.status_code(),
            RouterResponse::Missing(response) => response.status_code(),
            RouterResponse::Unauthorized(response) => response.status_code(),
            RouterResponse::BadBody(response) => response.status_code(),
        }
    }

    fn into_body(self) -> (r: EitherBody<R::Body, EitherBody<NoBody, FullBody>>)
        ensures
            self matches RouterResponse::Given(response) ==> (r.0 matches Either::Left(body)
                && response.has_body(body)),
    {
        match self {
            RouterResponse::Given(response) => EitherBody(Either::Left(response.into_body())),
            RouterResponse::Empty(response) => EitherBody(
                Either::Right(EitherBody(Either::Left(response.into_body()))),
            ),
            RouterResponse::Missing(response) => EitherBody(
                Either::Right(EitherBody(Either::Left(response.into_body()))),
            ),
            RouterResponse::Unauthorized(response) => EitherBody(
                Either::Right(EitherBody(Either::Right(response.into_body()))),
            ),
            RouterResponse::BadBody(response) => EitherBody(
                Either::Right(EitherBody(Either::Right(response.into_body()))),
            ),
        }
    }

    fn extra_headers(&self) -> (r: Fields) {
        match self {
            RouterResponse::Given(response) => response.extra_headers(),
            RouterResponse::Empty(response) => response.extra_headers(),
            RouterResponse::Missing(response) => response.extra_headers(),
            RouterResponse::Unauthorized(response) => response.extra_headers(),
            RouterResponse::BadBody(response) => response.extra_headers(),
        }
    }
}

/// What a node offers to the phases of routing: its own declarations, or those of
/// what takes its place.
pub enum Entry<L> {
    Own(Declaration<L>),
    /// The middleware of an optional node; it claims every request if there is none.
    Refuse(bool),
    /// The middleware of a fallible node; it claims every request if it failed.
    Raise(bool),
    /// The recursive route by which a short circuit stays where it is.
    Keep,
    /// The leaf by which a response is given for any method.
    Give,
}

/// What an [`Entry`] holds.
pub enum EntryView<L> {
    Own(DeclarationView<L>),
    Refuse(bool),
    Raise(bool),
    Keep,
    Give,
}

impl<L> View for Entry<L> {
    type V = EntryView<L>;

    open spec fn view(&self) -> EntryView<L> {
        match self {
            Entry::Own(declaration) => EntryView::Own(declaration@),
            Entry::Refuse(claims) => EntryView::Refuse(*claims),
            Entry::Raise(claims) => EntryView::Raise(*claims),
            Entry::Keep => EntryView::Keep,
            Entry::Give => EntryView::Give,
        }
    }
}

/// What some entries hold.
pub open spec fn entry_views<L>(list: Seq<Entry<L>>) -> Seq<EntryView<L>> {
    list.map_values(|entry: Entry<L>| entry@)
}

impl<T: MakeRoute> Node<T> {
    /// The entries of the node, in the order of their declaration.
    pub open spec fn entries(self) -> Seq<EntryView<T::Label>>
        decreases self,
    {
        match self {
            Node::Own(node) => node.declared().map_values(
                |declaration: DeclarationView<T::Label>| EntryView::Own(declaration),
            ),
            Node::Nothing => Seq::empty(),
            Node::Circuit(_) => seq![EntryView::Keep, EntryView::Give],
            Node::Last(_) => seq![EntryView::Give],
            Node::Optional(optional) => match optional {
                Some(node) => seq![EntryView::Refuse(false)] + (*node).entries(),
                None => seq![EntryView::Refuse(true)],
            },
            Node::Fallible(fallible) => match fallible {
                Ok(node) => seq![EntryView::Raise(false)] + (*node).entries(),
                Err(_) => seq![EntryView::Raise(true)],
            },
            Node::OneOf(either) => match either {
                Either::Left(node) => (*node).entries(),
                Either::Right(node) => (*node).entries(),
            },
        }
    }

    /// The node without what stands round it.
    pub open spec fn inner(self) -> Node<T>
        decreases self,
    {
        match self {
            Node::Optional(Some(node)) => (*node).inner(),
            Node::Fallible(Ok(node)) => (*node).inner(),
            Node::OneOf(Either::Left(node)) => (*node).inner(),
            Node::OneOf(Either::Right(node)) => (*node).inner(),
            _ => self,
        }
    }
}

/// The response that a handler gave is the response: with its status, its headers and its
/// body, which is a body of the handler's response and of no other kind.
pub proof fn law_given_response_is_passed_on<R: Response>(
    response: R,
    body: EitherBody<R::Body, EitherBody<NoBody, FullBody>>,
)
    ensures
        RouterResponse::Given(response).status() == response.status(),
        RouterResponse::Given(response).headers() == response.headers(),
        RouterResponse::Given(response).has_body(body) <==> (body.0 matches Either::Left(inner)
            && response.has_body(inner)),
{
}

/// A JSON value that a handler gave is sent as the document of the value, in UTF-8 and
/// with the content type of JSON.
pub proof fn law_given_json_is_the_document<T: Document>(
    value: T,
    status: StatusCode,
    body: EitherBody<FullBody, EitherBody<NoBody, FullBody>>,
)
    requires
        RouterResponse::Given(Json(value, status)).has_body(body),
    ensures
        body.rest() == encode_utf8(value.document()),
        body.mime() == "application/json"@,
        RouterResponse::Given(Json(value, status)).status() == status,
{
}

/// The router's own responses have the status that they say. A status without a body and
/// a node that was not there have an empty body; an error of the caller has its message,
/// as the entry `error` of a JSON object. None has headers.
pub proof fn law_own_responses_say_what_happened<R: Response>(
    status: StatusCode,
    refused: AuthError,
    bad: SerdeError,
    body: EitherBody<R::Body, EitherBody<NoBody, FullBody>>,
)
    ensures
        RouterResponse::<R>::Empty(EmptyResponse(status)).status() == status,
        RouterResponse::<R>::Missing(Empty404).status() == StatusCode(404),
        RouterResponse::<R>::Unauthorized(refused).status() == if refused is Error {
            StatusCode(500)
        } else {
            StatusCode(401)
        },
        RouterResponse::<R>::BadBody(bad).status() == StatusCode(400),
        RouterResponse::<R>::Empty(EmptyResponse(status)).headers() == Map::<
            Seq<char>,
            FieldView,
        >::empty(),
        RouterResponse::<R>::Missing(Empty404).headers() == Map::<Seq<char>, FieldView>::empty(),
        RouterResponse::<R>::Unauthorized(refused).headers() == Map::<
            Seq<char>,
            FieldView,
        >::empty(),
        RouterResponse::<R>::BadBody(bad).headers() == Map::<Seq<char>, FieldView>::empty(),
        RouterResponse::<R>::Empty(EmptyResponse(status)).has_body(body) <==> (
        body.0 matches Either::Right(inner) && inner.0 is Left),
        RouterResponse::<R>::Missing(Empty404).has_body(body) <==> (body.0 matches Either::Right(
            inner,
        ) && inner.0 is Left),
        RouterResponse::<R>::Unauthorized(refused).has_body(body) <==> (
        body.0 matches Either::Right(inner) && inner.0 matches Either::Right(full) && held(full.0)
            == encode_utf8(object_of("error"@, refused.message())) && full.1@
            == "application/json"@),
        RouterResponse::<R>::BadBody(bad).has_body(body) <==> (body.0 matches Either::Right(inner)
            && inner.0 matches Either::Right(full) && held(full.0) == encode_utf8(
            object_of("error"@, bad.error@),
        ) && full.1@ == "application/json"@),
{
}

/// A method is in a set of given ones if it is one of them, and in a set of all but given
/// ones if it is none of them.
pub proof fn law_methods_are_in_their_set(list: Seq<MethodView>, method: MethodView)
    ensures
        MethodsView::Only(list).admits(method) <==> exists|i: int|
            0 <= i < list.len() && #[trigger] list[i] == method,
        MethodsView::Except(list).admits(method) <==> forall|i: int|
            0 <= i < list.len() ==> #[trigger] list[i] != method,
{
    if list.contains(method) {
        let i = choose|i: int| 0 <= i < list.len() && list[i] == method;
        assert(list[i] == method);
    }
}

/// Every segment is in the set of all; in a set of given ones are those whose id is one of
/// the given ids.
pub proof fn law_segments_are_in_their_set(list: Seq<Seq<char>>, segment: StringId)
    ensures
        SegmentsView::Any.admits(segment),
        SegmentsView::OneOf(list).admits(segment) <==> exists|i: int|
            0 <= i < list.len() && #[trigger] list[i] == segment.ident(),
{
    if list.contains(segment.ident()) {
        let i = choose|i: int| 0 <= i < list.len() && list[i] == segment.ident();
        assert(list[i] == segment.ident());
    }
}

/// What each guard asks of a request.
pub proof fn law_guards_ask_what_they_say<L>(
    holds: bool,
    condition: L,
    methods: MethodsView,
    method: MethodView,
    asked: MethodView,
)
    ensures
        GuardView::<L>::open().holds && !GuardView::<L>::open().exhausted
            && GuardView::<L>::open().condition is None,
        GuardView::<L>::open().methods.admits(asked),
        GuardView::<L>::when(holds) == (GuardView { holds, ..GuardView::<L>::open() }),
        GuardView::<L>::tested(condition) == (GuardView {
            condition: Some(condition),
            ..GuardView::<L>::open()
        }),
        GuardView::<L>::for_methods(methods) == (GuardView { methods, ..GuardView::<L>::open() }),
        GuardView::<L>::last_with(method).holds && GuardView::<L>::last_with(method).exhausted
            && GuardView::<L>::last_with(method).condition is None,
        GuardView::<L>::last_with(method).methods.admits(asked) <==> asked == method,
{
    assert(seq![method][0] == method);
}

/// What sets, guards and declarations show is what they hold.
pub proof fn law_declarations_show_what_they_hold<L>(
    methods: Seq<Method>,
    segments: Seq<StringId>,
    guard: Guard<L>,
    declaration: Declaration<L>,
    list: Seq<Declaration<L>>,
)
    ensures
        methods_of(methods).len() == methods.len(),
        forall|i: int|
            0 <= i < methods.len() ==> #[trigger] methods_of(methods)[i] == methods[i]@,
        idents(segments).len() == segments.len(),
        forall|i: int|
            0 <= i < segments.len() ==> #[trigger] idents(segments)[i] == segments[i].ident(),
        views(list).len() == list.len(),
        forall|i: int| 0 <= i < list.len() ==> #[trigger] views(list)[i] == list[i]@,
        guard@.holds == guard.holds,
        guard@.methods == guard.methods@,
        guard@.exhausted == guard.exhausted,
        guard@.condition == guard.condition,
        match declaration {
            Declaration::Middleware { guard, stage, label } => declaration@
                == (DeclarationView::Middleware { guard: guard@, stage, label }),
            Declaration::Route { guard, segments, terminal, label } => declaration@
                == (DeclarationView::Route { guard: guard@, segments: segments@, terminal, label }),
            Declaration::RouteRecursive { holds, segments, condition, label } => declaration@
                == (DeclarationView::RouteRecursive {
                holds,
                segments: segments@,
                condition,
                label,
            }),
            Declaration::Leaf { methods, condition, label } => declaration@
                == (DeclarationView::Leaf { methods: methods@, condition, label }),
        },
{
}

/// What a set of methods and a set of segments show is their list, and of which kind they
/// are.
pub proof fn law_sets_show_what_they_hold(methods: Vec<Method>, segments: Vec<StringId>)
    ensures
        Methods::Only(methods)@ == MethodsView::Only(methods_of(methods@)),
        Methods::Except(methods)@ == MethodsView::Except(methods_of(methods@)),
        Segments::Any@ == SegmentsView::Any,
        Segments::OneOf(segments)@ == SegmentsView::OneOf(idents(segments@)),
{
}

} // verus!
