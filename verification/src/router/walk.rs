//! The walk of a request through the routing tree.
use crate::handler::{Either, Empty404, Request, RequestView, StringId};
use crate::http;
use crate::http::{MethodView, StatusCode};
use crate::router::auth::AuthError;
use crate::router::{
    Declaration, DeclarationView, Declarations, EmptyResponse, Entry, EntryView, Guard, GuardView,
    LeafRoute, MakeRoute, Node, Router, RouterResponse, ShortCircuit, Stage, entry_views, views,
};
use crate::text;
use vstd::prelude::*;

verus! {

/// The index of the first item that `claims` holds of.
pub open spec fn first<A>(list: Seq<A>, claims: spec_fn(A) -> bool) -> Option<int>
    decreases list.len(),
{
    if list.len() == 0 {
        None
    } else if claims(list[0]) {
        Some(0)
    } else {
        match first(list.drop_first(), claims) {
            Some(i) => Some(i + 1),
            None => None,
        }
    }
}

/// The first match wins: the item found is claimed and none before it is; nothing is
/// found only where nothing is claimed.
pub proof fn law_first_match_wins<A>(list: Seq<A>, claims: spec_fn(A) -> bool)
    ensures
        match first(list, claims) {
            Some(i) => {
                &&& 0 <= i < list.len()
                &&& claims(list[i])
                &&& forall|j: int| 0 <= j < i ==> !claims(#[trigger] list[j])
            },
            None => forall|j: int| 0 <= j < list.len() ==> !claims(#[trigger] list[j]),
        },
    decreases list.len(),
{
    if list.len() > 0 && !claims(list[0]) {
        let rest = list.drop_first();
        law_first_match_wins(rest, claims);
        assert forall|j: int| 0 < j < list.len() implies list[j] == rest[j - 1] by {}
        match first(rest, claims) {
            Some(i) => {
                assert forall|j: int| 0 <= j < i + 1 implies !claims(#[trigger] list[j]) by {
                    if j > 0 {
                        assert(!claims(rest[j - 1]));
                    }
                }
            },
            None => {
                assert forall|j: int| 0 <= j < list.len() implies !claims(#[trigger] list[j]) by {
                    if j > 0 {
                        assert(!claims(rest[j - 1]));
                    }
                }
            },
        }
    }
}

/// What `first` is, from what it finds.
pub proof fn lemma_first_is<A>(list: Seq<A>, claims: spec_fn(A) -> bool, n: int)
    requires
        0 <= n <= list.len(),
        forall|j: int| 0 <= j < n ==> !claims(#[trigger] list[j]),
        n < list.len() ==> claims(list[n]),
    ensures
        first(list, claims) == if n < list.len() {
            Some(n)
        } else {
            None
        },
{
    law_first_match_wins(list, claims);
}

/// Whether the guard admits the request, apart from the condition.
pub open spec fn guard_admits<L, B>(guard: GuardView<L>, request: RequestView<B>) -> bool {
    &&& guard.holds
    &&& guard.methods.admits(request.method)
    &&& guard.exhausted ==> request.path.len() == 0
}

/// Whether a middleware entry of `node` claims the request.
pub open spec fn claims_request<T: MakeRoute>(
    node: Node<T>,
    entry: EntryView<T::Label>,
    request: RequestView<T::Body>,
) -> bool {
    match entry {
        EntryView::Own(DeclarationView::Middleware { guard, stage, label }) => {
            &&& guard_admits(guard, request)
            &&& match (guard.condition, node.inner()) {
                (None, _) => true,
                (Some(condition), Node::Own(own)) => own.on_request(condition, request),
                _ => false,
            }
            &&& stage == Stage::Authorization ==> request.headers.contains_key("authorization"@)
        },
        EntryView::Refuse(claims) => claims,
        EntryView::Raise(claims) => claims,
        _ => false,
    }
}

/// Whether a route entry of `node` claims the request, from which `segment` was
/// taken.
pub open spec fn claims_segment<T: MakeRoute>(
    node: Node<T>,
    entry: EntryView<T::Label>,
    request: RequestView<T::Body>,
    segment: StringId,
) -> bool {
    match entry {
        EntryView::Own(DeclarationView::Route { guard, segments, terminal, label }) => {
            &&& guard_admits(guard, request)
            &&& segments.admits(segment)
            &&& match (guard.condition, node.inner()) {
                (None, _) => true,
                (Some(condition), Node::Own(own)) => own.on_route(condition, request, segment),
                _ => false,
            }
        },
        EntryView::Own(
            DeclarationView::RouteRecursive { holds, segments, condition, label },
        ) => {
            &&& holds
            &&& segments.admits(segment)
            &&& match (condition, node.inner()) {
                (None, _) => true,
                (Some(condition), Node::Own(own)) => own.on_segment(condition, segment),
                _ => false,
            }
        },
        EntryView::Keep => true,
        _ => false,
    }
}

/// Whether a leaf entry of `node` claims a request with the method `method`.
pub open spec fn claims_method<T: MakeRoute>(
    node: Node<T>,
    entry: EntryView<T::Label>,
    method: MethodView,
) -> bool {
    match entry {
        EntryView::Own(DeclarationView::Leaf { methods, condition, label }) => {
            &&& methods.admits(method)
            &&& match (condition, node.inner()) {
                (None, _) => true,
                (Some(condition), Node::Own(own)) => own.on_method(condition, method),
                _ => false,
            }
        },
        EntryView::Give => true,
        _ => false,
    }
}

/// The first middleware of `node` that claims the request.
pub open spec fn found_middleware<T: MakeRoute>(
    node: Node<T>,
    request: RequestView<T::Body>,
) -> Option<int> {
    first(node.entries(), |entry: EntryView<T::Label>| claims_request(node, entry, request))
}

/// The first route of `node` that claims the request, from which `segment` was
/// taken.
pub open spec fn found_route<T: MakeRoute>(
    node: Node<T>,
    request: RequestView<T::Body>,
    segment: StringId,
) -> Option<int> {
    first(
        node.entries(),
        |entry: EntryView<T::Label>| claims_segment(node, entry, request, segment),
    )
}

/// The first leaf of `node` that claims a request with the method `method`.
pub open spec fn found_leaf<T: MakeRoute>(node: Node<T>, method: MethodView) -> Option<int> {
    first(node.entries(), |entry: EntryView<T::Label>| claims_method(node, entry, method))
}

/// What is to be done next for a request.
pub enum Action<T: MakeRoute> {
    /// Run the middleware `label` on `node` and the request, and enter the node that
    /// it gives.
    Middleware { label: T::Label, post: bool, node: T, request: Request<T::Body> },
    /// Authenticate the caller by the middleware `label`, and enter the node that it
    /// gives.
    Authorize {
        label: T::Label,
        node: T,
        scheme: StringId,
        credentials: String,
        request: Request<T::Body>,
    },
    /// Take the route `label` with the consumed segment, and enter the node that it
    /// gives; if it is terminal it gives a response (see [`Walk::enter_last`]).
    Route {
        label: T::Label,
        terminal: bool,
        node: T,
        segment: StringId,
        request: Request<T::Body>,
    },
    /// Answer with the response of the leaf `label`.
    Leaf { label: T::Label, node: T, request: Request<T::Body> },
    /// Let the middleware `label` look at the response.
    Post { label: T::Label, held: T, response: RouterResponse<T::Response> },
    /// Reply.
    Reply(RouterResponse<T::Response>),
}

/// What an [`Action`] holds.
pub enum ActionView<T: MakeRoute> {
    Middleware { label: T::Label, post: bool, node: T, request: RequestView<T::Body> },
    Authorize {
        label: T::Label,
        node: T,
        scheme: Seq<char>,
        credentials: Seq<char>,
        request: RequestView<T::Body>,
    },
    Route {
        label: T::Label,
        terminal: bool,
        node: T,
        segment: StringId,
        request: RequestView<T::Body>,
    },
    Leaf { label: T::Label, node: T, request: RequestView<T::Body> },
    Post { label: T::Label, held: T, response: RouterResponse<T::Response> },
    Reply(RouterResponse<T::Response>),
}

impl<T: MakeRoute> View for Action<T> {
    type V = ActionView<T>;

    open spec fn view(&self) -> ActionView<T> {
        match self {
            Action::Middleware { label, post, node, request } => ActionView::Middleware {
                label: *label,
                post: *post,
                node: *node,
                request: request@,
            },
            Action::Authorize { label, node, scheme, credentials, request } => {
                ActionView::Authorize {
                    label: *label,
                    node: *node,
                    scheme: scheme.text(),
                    credentials: credentials@,
                    request: request@,
                }
            },
            Action::Route { label, terminal, node, segment, request } => ActionView::Route {
                label: *label,
                terminal: *terminal,
                node: *node,
                segment: *segment,
                request: request@,
            },
            Action::Leaf { label, node, request } => ActionView::Leaf {
                label: *label,
                node: *node,
                request: request@,
            },
            Action::Post { label, held, response } => ActionView::Post {
                label: *label,
                held: *held,
                response: *response,
            },
            Action::Reply(response) => ActionView::Reply(*response),
        }
    }
}

/// `404 Not Found`.
pub open spec fn not_found<R>() -> RouterResponse<R> {
    RouterResponse::Empty(EmptyResponse(StatusCode(http::NOT_FOUND)))
}

/// `405 Method Not Allowed`.
pub open spec fn not_allowed<R>() -> RouterResponse<R> {
    RouterResponse::Empty(EmptyResponse(StatusCode(http::METHOD_NOT_ALLOWED)))
}

/// A short circuit to a response.
pub open spec fn circuit<T: MakeRoute>(response: RouterResponse<T::Response>) -> Node<T> {
    Node::Circuit(ShortCircuit(response))
}

/// The node's own value, where it has one.
pub open spec fn own<T: MakeRoute>(node: Node<T>) -> T {
    node.inner()->Own_0
}

/// The response of a short circuit or a leaf route.
pub open spec fn given<T: MakeRoute>(node: Node<T>) -> RouterResponse<T::Response> {
    match node.inner() {
        Node::Circuit(circuit) => circuit.0,
        _ => node.inner()->Last_0.0,
    }
}

/// Whether a node is a short circuit.
pub open spec fn rank<T: MakeRoute>(node: Node<T>) -> nat {
    if node is Circuit {
        0
    } else {
        1
    }
}

/// A short circuit has no middleware.
pub proof fn lemma_circuit_has_no_middleware<T: MakeRoute>(
    node: Node<T>,
    request: RequestView<T::Body>,
)
    ensures
        node is Circuit ==> found_middleware(node, request) is None,
{
    let claims = |entry: EntryView<T::Label>| claims_request(node, entry, request);
    law_first_match_wins(node.entries(), claims);
}

/// What is to be done for a request that stands at `node`.
pub open spec fn decided<T: MakeRoute>(
    node: Node<T>,
    request: RequestView<T::Body>,
) -> ActionView<T>
    decreases rank(node), request.path.len(),
{
    proof {
        lemma_circuit_has_no_middleware(node, request);
    }
    match found_middleware(node, request) {
        Some(i) => match node.entries()[i] {
            EntryView::Own(
                DeclarationView::Middleware { guard, stage: Stage::Authorization, label },
            ) => {
                let passed = RequestView {
                    headers: request.headers.remove("authorization"@),
                    ..request
                };
                match text::cut(request.headers["authorization"@].value, ' ') {
                    Some((scheme, credentials)) => ActionView::Authorize {
                        label,
                        node: own(node),
                        scheme,
                        credentials,
                        request: passed,
                    },
                    None => decided(
                        circuit(
                            RouterResponse::Unauthorized(AuthError::MalformedAuthorizationHeader),
                        ),
                        passed,
                    ),
                }
            },
            EntryView::Own(
                DeclarationView::Middleware { guard, stage, label },
            ) => ActionView::Middleware {
                label,
                post: stage == Stage::Post,
                node: own(node),
                request,
            },
            EntryView::Refuse(_) => decided(circuit(RouterResponse::Missing(Empty404)), request),
            _ => decided(circuit(node.inner()->Fallible_0->Err_0), request),
        },
        None => if request.path.len() > 0 {
            let segment = request.path[0];
            let passed = RequestView { path: request.path.drop_first(), ..request };
            match found_route(node, passed, segment) {
                Some(i) => match node.entries()[i] {
                    EntryView::Own(
                        DeclarationView::Route { guard, segments, terminal, label },
                    ) => ActionView::Route {
                        label,
                        terminal,
                        node: own(node),
                        segment,
                        request: passed,
                    },
                    EntryView::Own(
                        DeclarationView::RouteRecursive { holds, segments, condition, label },
                    ) => ActionView::Route {
                        label,
                        terminal: false,
                        node: own(node),
                        segment,
                        request: passed,
                    },
                    _ => decided(circuit(given(node)), passed),
                },
                None => ActionView::Reply(not_found()),
            }
        } else {
            match found_leaf(node, request.method) {
                Some(i) => match node.entries()[i] {
                    EntryView::Own(
                        DeclarationView::Leaf { methods, condition, label },
                    ) => ActionView::Leaf { label, node: own(node), request },
                    _ => ActionView::Reply(given(node)),
                },
                None => if exists|method: MethodView| found_leaf(node, method) is Some {
                    ActionView::Reply(not_allowed())
                } else {
                    ActionView::Reply(not_found())
                },
            }
        },
    }
}

/// What stands inside a node, from one of its entries.
pub open spec fn entry_fits<T: MakeRoute>(node: Node<T>, entry: EntryView<T::Label>) -> bool {
    match entry {
        EntryView::Own(_) => node.inner() is Own,
        EntryView::Refuse(claims) => claims ==> node.inner() matches Node::Optional(None),
        EntryView::Raise(claims) => claims ==> node.inner() matches Node::Fallible(Err(_)),
        EntryView::Keep => node.inner() is Circuit,
        EntryView::Give => node.inner() is Circuit || node.inner() is Last,
    }
}

/// The entries of a node fit what stands inside it.
proof fn lemma_entries_fit<T: MakeRoute>(node: Node<T>)
    ensures
        forall|i: int|
            0 <= i < node.entries().len() ==> entry_fits(node, #[trigger] node.entries()[i]),
    decreases node,
{
    match node {
        Node::Optional(Some(inner)) => {
            lemma_entries_fit(*inner);
            assert forall|i: int| 0 <= i < node.entries().len() implies entry_fits(
                node,
                #[trigger] node.entries()[i],
            ) by {
                if i > 0 {
                    assert(node.entries()[i] == (*inner).entries()[i - 1]);
                }
            }
        },
        Node::Fallible(Ok(inner)) => {
            lemma_entries_fit(*inner);
            assert forall|i: int| 0 <= i < node.entries().len() implies entry_fits(
                node,
                #[trigger] node.entries()[i],
            ) by {
                if i > 0 {
                    assert(node.entries()[i] == (*inner).entries()[i - 1]);
                }
            }
        },
        Node::OneOf(Either::Left(inner)) => {
            lemma_entries_fit(*inner);
            assert forall|i: int| 0 <= i < node.entries().len() implies entry_fits(
                node,
                #[trigger] node.entries()[i],
            ) by {
                assert(node.entries()[i] == (*inner).entries()[i]);
            }
        },
        Node::OneOf(Either::Right(inner)) => {
            lemma_entries_fit(*inner);
            assert forall|i: int| 0 <= i < node.entries().len() implies entry_fits(
                node,
                #[trigger] node.entries()[i],
            ) by {
                assert(node.entries()[i] == (*inner).entries()[i]);
            }
        },
        _ => {},
    }
}

impl<T: MakeRoute> Node<T> {
    /// Declares the entries of the node.
    pub fn register(&self, list: &mut Vec<Entry<T::Label>>)
        ensures
            entry_views(final(list)@) == entry_views(old(list)@) + self.entries(),
        decreases self,
    {
        let ghost before = entry_views(list@);
        match self {
            Node::Own(node) => {
                let mut own: Declarations<T::Label> = Declarations::new();
                node.register(&mut own);
                let ghost all = own.list@;
                let ghost wrap = |declaration: DeclarationView<T::Label>| EntryView::Own(declaration);
                assert(views(all) =~= node.declared());
                for declaration in it: own.list
                    invariant
                        it.seq() == all,
                        wrap == (|declaration: DeclarationView<T::Label>| EntryView::Own(declaration)),
                        entry_views(list@) == before + views(all).take(it.index()).map_values(wrap),
                {
                    let ghost so_far = list@;
                    list.push(Entry::Own(declaration));
                    proof {
                        let i = it.index();
                        assert(entry_views(list@) =~= entry_views(so_far).push(
                            EntryView::Own(declaration@),
                        ));
                        assert(views(all).take(i + 1).map_values(wrap) =~= views(all).take(
                            i,
                        ).map_values(wrap).push(EntryView::Own(declaration@)));
                    }
                }
                proof {
                    assert(views(all).take(all.len() as int) =~= views(all));
                    assert(before + self.entries() =~= entry_views(list@));
                }
            },
            Node::Nothing => {
                assert(before + self.entries() =~= before);
            },
            Node::Circuit(_) => {
                push_entry(list, Entry::Keep);
                push_entry(list, Entry::Give);
                assert(before + self.entries() =~= entry_views(list@));
            },
            Node::Last(_) => {
                push_entry(list, Entry::Give);
                assert(before + self.entries() =~= entry_views(list@));
            },
            Node::Optional(optional) => match optional {
                Some(node) => {
                    push_entry(list, Entry::Refuse(false));
                    node.register(list);
                    assert(before + self.entries() =~= entry_views(list@));
                },
                None => {
                    push_entry(list, Entry::Refuse(true));
                    assert(before + self.entries() =~= entry_views(list@));
                },
            },
            Node::Fallible(fallible) => match fallible {
                Ok(node) => {
                    push_entry(list, Entry::Raise(false));
                    node.register(list);
                    assert(before + self.entries() =~= entry_views(list@));
                },
                Err(_) => {
                    push_entry(list, Entry::Raise(true));
                    assert(before + self.entries() =~= entry_views(list@));
                },
            },
            Node::OneOf(either) => match either {
                Either::Left(node) => {
                    node.register(list);
                },
                Either::Right(node) => {
                    node.register(list);
                },
            },
        }
    }

    /// The node without what stands round it.
    pub fn into_inner(self) -> (r: Node<T>)
        ensures
            r == self.inner(),
        decreases self,
    {
        match self {
            Node::Optional(Some(node)) => (*node).into_inner(),
            Node::Fallible(Ok(node)) => (*node).into_inner(),
            Node::OneOf(Either::Left(node)) => (*node).into_inner(),
            Node::OneOf(Either::Right(node)) => (*node).into_inner(),
            other => other,
        }
    }

    /// The node's own value.
    fn into_own(self) -> (r: T)
        requires
            self.inner() is Own,
        ensures
            r == own(self),
    {
        match self.into_inner() {
            Node::Own(own) => own,
            _ => vstd::pervasive::unreached(),
        }
    }

    /// The response that a fallible node failed with.
    fn into_raised(self) -> (r: RouterResponse<T::Response>)
        requires
            self.inner() matches Node::Fallible(Err(_)),
        ensures
            r == self.inner()->Fallible_0->Err_0,
    {
        match self.into_inner() {
            Node::Fallible(Err(response)) => response,
            _ => vstd::pervasive::unreached(),
        }
    }

    /// The response of a short circuit or a leaf route.
    fn into_given(self) -> (r: RouterResponse<T::Response>)
        requires
            self.inner() is Circuit || self.inner() is Last,
        ensures
            r == given(self),
    {
        match self.into_inner() {
            Node::Circuit(circuit) => circuit.0,
            Node::Last(last) => last.0,
            _ => vstd::pervasive::unreached(),
        }
    }

    /// The node's own value, where it has one.
    fn own(&self) -> (r: Option<&T>)
        ensures
            match r {
                Some(own) => self.inner() == Node::Own(*own),
                None => !(self.inner() is Own),
            },
        decreases self,
    {
        match self {
            Node::Own(own) => Some(own),
            Node::Optional(Some(node)) => node.own(),
            Node::Fallible(Ok(node)) => node.own(),
            Node::OneOf(Either::Left(node)) => node.own(),
            Node::OneOf(Either::Right(node)) => node.own(),
            _ => None,
        }
    }
}

fn push_entry<L>(list: &mut Vec<Entry<L>>, entry: Entry<L>)
    ensures
        entry_views(final(list)@) == entry_views(old(list)@).push(entry@),
{
    let ghost before = list@;
    list.push(entry);
    assert(entry_views(list@) =~= entry_views(before).push(entry@));
}

fn admitted<L, B>(guard: &Guard<L>, request: &Request<B>) -> (r: bool)
    ensures
        r == guard_admits(guard@, request@),
{
    guard.holds && guard.methods.admits(&request.method) && (!guard.exhausted
        || request.path.len() == 0)
}

/// The key of the `Authorization` header.
pub fn authorization_key() -> (r: StringId)
    ensures
        r.ident() == "authorization"@,
        r.wf(),
{
    proof {
        reveal_strlit("authorization");
        text::lemma_lowercase_of_plain("authorization"@);
    }
    StringId::from("authorization")
}

fn find_middleware<T: MakeRoute>(
    node: &Node<T>,
    list: &Vec<Entry<T::Label>>,
    request: &Request<T::Body>,
) -> (r: Option<usize>)
    requires
        entry_views(list@) == node.entries(),
    ensures
        match r {
            Some(i) => found_middleware(*node, request@) == Some(i as int),
            None => found_middleware(*node, request@) is None,
        },
{
    let ghost claims = |entry: EntryView<T::Label>| claims_request(*node, entry, request@);
    let mut i: usize = 0;
    while i < list.len()
        invariant
            i <= list.len(),
            entry_views(list@) == node.entries(),
            claims == (|entry: EntryView<T::Label>| claims_request(*node, entry, request@)),
            forall|j: int| 0 <= j < i ==> !claims(#[trigger] node.entries()[j]),
        decreases list.len() - i,
    {
        assert(node.entries()[i as int] == list@[i as int]@);
        let claimed = match &list[i] {
            Entry::Own(Declaration::Middleware { guard, stage, label: _ }) => {
                let fits = match guard.condition {
                    None => true,
                    Some(condition) => match node.own() {
                        Some(own) => own.test_request(condition, request),
                        None => false,
                    },
                };
                let present = match *stage {
                    Stage::Authorization => request.headers.get(&authorization_key()).is_some(),
                    _ => true,
                };
                admitted(guard, request) && fits && present
            },
            Entry::Refuse(claims) => *claims,
            Entry::Raise(claims) => *claims,
            _ => false,
        };
        assert(claimed == claims(node.entries()[i as int]));
        if claimed {
            proof {
                lemma_first_is(node.entries(), claims, i as int);
            }
            return Some(i);
        }
        i = i + 1;
    }
    proof {
        lemma_first_is(node.entries(), claims, i as int);
    }
    None
}

fn find_route<T: MakeRoute>(
    node: &Node<T>,
    list: &Vec<Entry<T::Label>>,
    request: &Request<T::Body>,
    segment: &StringId,
) -> (r: Option<usize>)
    requires
        entry_views(list@) == node.entries(),
    ensures
        match r {
            Some(i) => found_route(*node, request@, *segment) == Some(i as int),
            None => found_route(*node, request@, *segment) is None,
        },
{
    let ghost claims = |entry: EntryView<T::Label>|
        claims_segment(*node, entry, request@, *segment);
    let mut i: usize = 0;
    while i < list.len()
        invariant
            i <= list.len(),
            entry_views(list@) == node.entries(),
            claims == (|entry: EntryView<T::Label>|
                claims_segment(*node, entry, request@, *segment)),
            forall|j: int| 0 <= j < i ==> !claims(#[trigger] node.entries()[j]),
        decreases list.len() - i,
    {
        assert(node.entries()[i as int] == list@[i as int]@);
        let claimed = match &list[i] {
            Entry::Own(Declaration::Route { guard, segments, terminal: _, label: _ }) => {
                let fits = match guard.condition {
                    None => true,
                    Some(condition) => match node.own() {
                        Some(own) => own.test_route(condition, request, segment),
                        None => false,
                    },
                };
                admitted(guard, request) && segments.admits(segment) && fits
            },
            Entry::Own(Declaration::RouteRecursive { holds, segments, condition, label: _ }) => {
                let fits = match *condition {
                    None => true,
                    Some(condition) => match node.own() {
                        Some(own) => own.test_segment(condition, segment),
                        None => false,
                    },
                };
                *holds && segments.admits(segment) && fits
            },
            Entry::Keep => true,
            _ => false,
        };
        assert(claimed == claims(node.entries()[i as int]));
        if claimed {
            proof {
                lemma_first_is(node.entries(), claims, i as int);
            }
            return Some(i);
        }
        i = i + 1;
    }
    proof {
        lemma_first_is(node.entries(), claims, i as int);
    }
    None
}

fn find_leaf<T: MakeRoute>(
    node: &Node<T>,
    list: &Vec<Entry<T::Label>>,
    method: &http::Method,
) -> (r: Option<usize>)
    requires
        entry_views(list@) == node.entries(),
    ensures
        match r {
            Some(i) => found_leaf(*node, method@) == Some(i as int),
            None => found_leaf(*node, method@) is None,
        },
{
    let ghost claims = |entry: EntryView<T::Label>| claims_method(*node, entry, method@);
    let mut i: usize = 0;
    while i < list.len()
        invariant
            i <= list.len(),
            entry_views(list@) == node.entries(),
            claims == (|entry: EntryView<T::Label>| claims_method(*node, entry, method@)),
            forall|j: int| 0 <= j < i ==> !claims(#[trigger] node.entries()[j]),
        decreases list.len() - i,
    {
        assert(node.entries()[i as int] == list@[i as int]@);
        let claimed = match &list[i] {
            Entry::Own(Declaration::Leaf { methods, condition, label: _ }) => {
                let fits = match *condition {
                    None => true,
                    Some(condition) => match node.own() {
                        Some(own) => own.test_method(condition, method),
                        None => false,
                    },
                };
                methods.admits(method) && fits
            },
            Entry::Give => true,
            _ => false,
        };
        assert(claimed == claims(node.entries()[i as int]));
        if claimed {
            proof {
                lemma_first_is(node.entries(), claims, i as int);
            }
            return Some(i);
        }
        i = i + 1;
    }
    proof {
        lemma_first_is(node.entries(), claims, i as int);
    }
    None
}

/// Whether the node has a leaf for any method at all.
fn has_leaf<T: MakeRoute>(node: &Node<T>, list: &Vec<Entry<T::Label>>) -> (r: bool)
    requires
        entry_views(list@) == node.entries(),
    ensures
        r == exists|method: MethodView| found_leaf(*node, method) is Some,
{
    let mut i: usize = 0;
    while i < list.len()
        invariant
            i <= list.len(),
            entry_views(list@) == node.entries(),
            forall|j: int, method: MethodView|
                0 <= j < i ==> !(#[trigger] claims_method(*node, node.entries()[j], method)),
        decreases list.len() - i,
    {
        assert(node.entries()[i as int] == list@[i as int]@);
        let served = match &list[i] {
            Entry::Own(Declaration::Leaf { methods, condition, label: _ }) => match *condition {
                None => methods.admits_some(),
                Some(condition) => match node.own() {
                    Some(own) => own.test_any_method(condition, methods),
                    None => false,
                },
            },
            Entry::Give => true,
            _ => false,
        };
        if served {
            proof {
                let method = match node.entries()[i as int] {
                    EntryView::Own(DeclarationView::Leaf { methods, condition, label }) => {
                        match condition {
                            None => choose|method: MethodView| methods.admits(method),
                            Some(condition) => choose|method: MethodView|
                                methods.admits(method) && #[trigger] own(*node).on_method(
                                    condition,
                                    method,
                                ),
                        }
                    },
                    _ => MethodView::Get,
                };
                assert(claims_method(*node, node.entries()[i as int], method));
                let claims = |entry: EntryView<T::Label>| claims_method(*node, entry, method);
                law_first_match_wins(node.entries(), claims);
                assert(claims(node.entries()[i as int]));
                assert(found_leaf(*node, method) is Some);
            }
            return true;
        }
        i = i + 1;
    }
    proof {
        assert forall|method: MethodView| found_leaf(*node, method) is None by {
            let claims = |entry: EntryView<T::Label>| claims_method(*node, entry, method);
            law_first_match_wins(node.entries(), claims);
            if found_leaf(*node, method) is Some {
                let j = found_leaf(*node, method)->0;
                assert(!claims_method(*node, node.entries()[j], method));
            }
        }
    }
    false
}

/// The handler that drives a routing tree: for each request it starts from the root
/// node.
pub struct RouterHandler<R: MakeRoute> {
    root: R,
}

impl<R: MakeRoute> RouterHandler<R> {
    /// The node that every request starts from.
    pub closed spec fn root(self) -> R {
        self.root
    }

    /// Build a handler that routes every request starting from `root`.
    ///
    /// `root` is cloned per request, so it holds the shared state from which a
    /// request's routing begins.
    pub fn new(root: R) -> (r: Self)
        ensures
            r.root() == root,
    {
        RouterHandler { root }
    }

    /// Decides what is to be done for a request that stands at `root`.
    pub fn do_handle(root: Node<R>, req: Request<R::Body>) -> (r: Action<R>)
        ensures
            r@ == decided(root, req@),
            r matches Action::Authorize { scheme, .. } ==> scheme.wf(),
    {
        let mut node = root;
        let mut request = req;
        loop
            invariant
                decided(root, req@) == decided(node, request@),
            decreases rank(node), request.path.len(),
        {
            proof {
                lemma_circuit_has_no_middleware(node, request@);
                lemma_entries_fit(node);
                law_first_match_wins(
                    node.entries(),
                    |entry: EntryView<R::Label>| claims_request(node, entry, request@),
                );
            }
            let mut list: Vec<Entry<R::Label>> = Vec::new();
            node.register(&mut list);
            assert(entry_views(list@) =~= node.entries());
            if let Some(i) = find_middleware(&node, &list, &request) {
                assert(node.entries()[i as int] == list@[i as int]@);
                match &list[i] {
                    Entry::Own(Declaration::Middleware { guard: _, stage, label }) => {
                        match *stage {
                            Stage::Authorization => {
                                let header = request.headers.remove(&authorization_key());
                                let header = match header {
                                    Some(header) => header,
                                    None => vstd::pervasive::unreached(),
                                };
                                match text::split_once(header.as_str(), ' ') {
                                    Some((scheme, credentials)) => {
                                        return Action::Authorize {
                                            label: *label,
                                            node: node.into_own(),
                                            scheme: StringId::new(scheme.as_str()),
                                            credentials,
                                            request,
                                        };
                                    },
                                    None => {
                                        node = Node::Circuit(
                                            ShortCircuit(
                                                RouterResponse::Unauthorized(
                                                    AuthError::MalformedAuthorizationHeader,
                                                ),
                                            ),
                                        );
                                    },
                                }
                            },
                            stage => {
                                return Action::Middleware {
                                    label: *label,
                                    post: stage == Stage::Post,
                                    node: node.into_own(),
                                    request,
                                };
                            },
                        }
                    },
                    Entry::Refuse(_) => {
                        node = Node::Circuit(ShortCircuit(RouterResponse::Missing(Empty404)));
                    },
                    _ => {
                        node = Node::Circuit(ShortCircuit(node.into_raised()));
                    },
                }
            } else {
                let ghost before = request@;
                match request.path.pop_front() {
                    Some(segment) => {
                        proof {
                            assert(before.path[0] == segment);
                            assert(request@ == (RequestView {
                                path: before.path.drop_first(),
                                ..before
                            }));
                            law_first_match_wins(
                                node.entries(),
                                |entry: EntryView<R::Label>|
                                    claims_segment(node, entry, request@, segment),
                            );
                        }
                        match find_route(&node, &list, &request, &segment) {
                            Some(i) => {
                                assert(node.entries()[i as int] == list@[i as int]@);
                                match &list[i] {
                                    Entry::Own(
                                        Declaration::Route { guard: _, segments: _, terminal, label },
                                    ) => {
                                        return Action::Route {
                                            label: *label,
                                            terminal: *terminal,
                                            node: node.into_own(),
                                            segment,
                                            request,
                                        };
                                    },
                                    Entry::Own(
                                        Declaration::RouteRecursive {
                                            holds: _,
                                            segments: _,
                                            condition: _,
                                            label,
                                        },
                                    ) => {
                                        return Action::Route {
                                            label: *label,
                                            terminal: false,
                                            node: node.into_own(),
                                            segment,
                                            request,
                                        };
                                    },
                                    _ => {
                                        node = Node::Circuit(ShortCircuit(node.into_given()));
                                    },
                                }
                            },
                            None => {
                                return Action::Reply(RouterResponse::e404());
                            },
                        }
                    },
                    None => {
                        proof {
                            law_first_match_wins(
                                node.entries(),
                                |entry: EntryView<R::Label>|
                                    claims_method(node, entry, request@.method),
                            );
                        }
                        match find_leaf(&node, &list, &request.method) {
                            Some(i) => {
                                assert(node.entries()[i as int] == list@[i as int]@);
                                match &list[i] {
                                    Entry::Own(
                                        Declaration::Leaf { methods: _, condition: _, label },
                                    ) => {
                                        return Action::Leaf {
                                            label: *label,
                                            node: node.into_own(),
                                            request,
                                        };
                                    },
                                    _ => {
                                        return Action::Reply(node.into_given());
                                    },
                                }
                            },
                            None => {
                                if has_leaf(&node, &list) {
                                    return Action::Reply(RouterResponse::e405());
                                } else {
                                    return Action::Reply(RouterResponse::e404());
                                }
                            },
                        }
                    },
                }
            }
        }
    }
}

/// What follows a response, with the middleware that waits for one: the innermost
/// looks at it first.
pub open spec fn answered<T: MakeRoute>(
    pending: Seq<(T::Label, T)>,
    response: RouterResponse<T::Response>,
) -> (Seq<(T::Label, T)>, ActionView<T>) {
    if pending.len() == 0 {
        (pending, ActionView::Reply(response))
    } else {
        (
            pending.drop_last(),
            ActionView::Post { label: pending.last().0, held: pending.last().1, response },
        )
    }
}

/// What follows when a request comes to stand at `node`.
pub open spec fn entered<T: MakeRoute>(
    pending: Seq<(T::Label, T)>,
    node: Node<T>,
    request: RequestView<T::Body>,
) -> (Seq<(T::Label, T)>, ActionView<T>) {
    match decided(node, request) {
        ActionView::Reply(response) => answered(pending, response),
        action => (pending, action),
    }
}

/// One request on its way through the tree: the middleware that waits for the
/// response, outermost first.
pub struct Walk<T: MakeRoute> {
    pending: Vec<(T::Label, T)>,
}

impl<T: MakeRoute> Walk<T> {
    /// The middleware that waits for the response, outermost first.
    pub closed spec fn pending(self) -> Seq<(T::Label, T)> {
        self.pending@
    }

    /// A walk on which nothing waits yet.
    pub fn new() -> (r: Self)
        ensures
            r.pending() == Seq::<(T::Label, T)>::empty(),
    {
        Walk { pending: Vec::new() }
    }

    /// Lets the request stand at `node`, and says what to do next.
    pub fn enter(&mut self, node: Node<T>, request: Request<T::Body>) -> (r: Action<T>)
        ensures
            (final(self).pending(), r@) == entered(old(self).pending(), node, request@),
            r matches Action::Authorize { scheme, .. } ==> scheme.wf(),
    {
        match RouterHandler::do_handle(node, request) {
            Action::Reply(response) => self.answer(response),
            action => action,
        }
    }

    /// Lets the request stand at the node that the middleware `label` gave, and keeps
    /// what the middleware holds until the response comes back.
    pub fn enter_holding(
        &mut self,
        label: T::Label,
        held: T,
        node: Node<T>,
        request: Request<T::Body>,
    ) -> (r: Action<T>)
        ensures
            (final(self).pending(), r@) == entered(
                old(self).pending().push((label, held)),
                node,
                request@,
            ),
            r matches Action::Authorize { scheme, .. } ==> scheme.wf(),
    {
        self.pending.push((label, held));
        self.enter(node, request)
    }

    /// Takes the response that a terminal route gave: it is the response once the path
    /// is exhausted.
    pub fn enter_last(
        &mut self,
        response: RouterResponse<T::Response>,
        request: Request<T::Body>,
    ) -> (r: Action<T>)
        ensures
            (final(self).pending(), r@) == entered(
                old(self).pending(),
                Node::Last(LeafRoute(response)),
                request@,
            ),
            r matches Action::Authorize { scheme, .. } ==> scheme.wf(),
    {
        self.enter(Node::Last(LeafRoute(response)), request)
    }

    /// Takes a response, of a leaf or of the middleware that looked at it last, and
    /// says what to do next.
    pub fn answer(&mut self, response: RouterResponse<T::Response>) -> (r: Action<T>)
        ensures
            (final(self).pending(), r@) == answered(old(self).pending(), response),
            !(r is Authorize),
    {
        match self.pending.pop() {
            Some((label, held)) => Action::Post { label, held, response },
            None => Action::Reply(response),
        }
    }
}

impl<R: MakeRoute + Clone> RouterHandler<R> {
    /// Lets a request start from a clone of the root, and says what to do first.
    pub fn handle(&self, req: Request<R::Body>) -> (r: (Walk<R>, Action<R>))
        ensures
            exists|root: R|
                #[trigger] cloned(self.root(), root) && (r.0.pending(), r.1@) == entered(
                    Seq::empty(),
                    Node::Own(root),
                    req@,
                ),
            r.1 matches Action::Authorize { scheme, .. } ==> scheme.wf(),
    {
        let mut walk = Walk::new();
        let root = self.root.clone();
        assert(cloned(self.root(), root));
        let action = walk.enter(Node::Own(root), req);
        (walk, action)
    }
}

/// What the handlers of a tree do.
#[verifier::reject_recursive_types(T)]
pub struct World<T: MakeRoute> {
    /// What a middleware gives: the node to go on with, what it holds, the request.
    pub middleware: spec_fn(T::Label, T, RequestView<T::Body>) -> (
        Node<T>,
        T,
        RequestView<T::Body>,
    ),
    /// What an authentication gives.
    pub authorize: spec_fn(T::Label, T, Seq<char>, Seq<char>, RequestView<T::Body>) -> (
        Node<T>,
        RequestView<T::Body>,
    ),
    /// What a route gives.
    pub route: spec_fn(T::Label, T, StringId, RequestView<T::Body>) -> (
        Node<T>,
        RequestView<T::Body>,
    ),
    /// What a terminal route responds.
    pub last: spec_fn(T::Label, T, StringId, RequestView<T::Body>) -> (
        RouterResponse<T::Response>,
        RequestView<T::Body>,
    ),
    /// What a leaf responds.
    pub leaf: spec_fn(T::Label, T, RequestView<T::Body>) -> RouterResponse<T::Response>,
    /// What a middleware makes of the response.
    pub post: spec_fn(T::Label, T, RouterResponse<T::Response>) -> RouterResponse<T::Response>,
}

/// Where a route leads: a terminal one to its response.
pub open spec fn taken<T: MakeRoute>(
    world: World<T>,
    label: T::Label,
    terminal: bool,
    node: T,
    segment: StringId,
    request: RequestView<T::Body>,
) -> (Node<T>, RequestView<T::Body>) {
    if terminal {
        let (response, passed) = (world.last)(label, node, segment, request);
        (Node::Last(LeafRoute(response)), passed)
    } else {
        (world.route)(label, node, segment, request)
    }
}

/// The response to a request that stands at `node`, if it is there after at most
/// `fuel` nodes: each middleware that looks at the response gets the one from below
/// it.
pub open spec fn response_to<T: MakeRoute>(
    world: World<T>,
    node: Node<T>,
    request: RequestView<T::Body>,
    fuel: nat,
) -> Option<RouterResponse<T::Response>>
    decreases fuel,
{
    if fuel == 0 {
        None
    } else {
        let rest = (fuel - 1) as nat;
        match decided(node, request) {
            ActionView::Middleware { label, post, node, request } => {
                let (next, held, passed) = (world.middleware)(label, node, request);
                match response_to(world, next, passed, rest) {
                    Some(response) => if post {
                        Some((world.post)(label, held, response))
                    } else {
                        Some(response)
                    },
                    None => None,
                }
            },
            ActionView::Authorize { label, node, scheme, credentials, request } => {
                let (next, passed) = (world.authorize)(label, node, scheme, credentials, request);
                response_to(world, next, passed, rest)
            },
            ActionView::Route { label, terminal, node, segment, request } => {
                let (next, passed) = taken(world, label, terminal, node, segment, request);
                response_to(world, next, passed, rest)
            },
            ActionView::Leaf { label, node, request } => Some((world.leaf)(label, node, request)),
            ActionView::Post { label, held, response } => Some(response),
            ActionView::Reply(response) => Some(response),
        }
    }
}

/// The response that a walk ends with, if it is there after at most `fuel` actions.
pub open spec fn outcome<T: MakeRoute>(
    world: World<T>,
    state: (Seq<(T::Label, T)>, ActionView<T>),
    fuel: nat,
) -> Option<RouterResponse<T::Response>>
    decreases fuel,
{
    if fuel == 0 {
        None
    } else {
        let rest = (fuel - 1) as nat;
        let pending = state.0;
        match state.1 {
            ActionView::Middleware { label, post, node, request } => {
                let (next, held, passed) = (world.middleware)(label, node, request);
                let waiting = if post {
                    pending.push((label, held))
                } else {
                    pending
                };
                outcome(world, entered(waiting, next, passed), rest)
            },
            ActionView::Authorize { label, node, scheme, credentials, request } => {
                let (next, passed) = (world.authorize)(label, node, scheme, credentials, request);
                outcome(world, entered(pending, next, passed), rest)
            },
            ActionView::Route { label, terminal, node, segment, request } => {
                let (next, passed) = taken(world, label, terminal, node, segment, request);
                outcome(world, entered(pending, next, passed), rest)
            },
            ActionView::Leaf { label, node, request } => {
                outcome(world, answered(pending, (world.leaf)(label, node, request)), rest)
            },
            ActionView::Post { label, held, response } => {
                outcome(world, answered(pending, (world.post)(label, held, response)), rest)
            },
            ActionView::Reply(response) => Some(response),
        }
    }
}

/// A response comes back to the middleware that waits for it.
proof fn lemma_walk_comes_back<T: MakeRoute>(
    world: World<T>,
    pending: Seq<(T::Label, T)>,
    node: Node<T>,
    request: RequestView<T::Body>,
    fuel: nat,
) -> (steps: nat)
    requires
        response_to(world, node, request, fuel) is Some,
    ensures
        forall|more: nat|
            #![trigger outcome(world, entered(pending, node, request), (steps + more) as nat)]
            outcome(world, entered(pending, node, request), (steps + more) as nat) == outcome(
                world,
                answered(pending, response_to(world, node, request, fuel)->0),
                more,
            ),
    decreases fuel,
{
    let rest = (fuel - 1) as nat;
    match decided(node, request) {
        ActionView::Middleware { label, post, node: own, request: same } => {
            let (next, held, passed) = (world.middleware)(label, own, same);
            let waiting = if post {
                pending.push((label, held))
            } else {
                pending
            };
            let inner = lemma_walk_comes_back(world, waiting, next, passed, rest);
            let response = response_to(world, next, passed, rest)->0;
            let steps = if post {
                inner + 2
            } else {
                inner + 1
            };
            assert forall|more: nat|
                #![trigger outcome(world, entered(pending, node, request), (steps + more) as nat)]
                outcome(world, entered(pending, node, request), (steps + more) as nat) == outcome(
                    world,
                    answered(pending, response_to(world, node, request, fuel)->0),
                    more,
                ) by {
                if post {
                    assert(waiting.drop_last() =~= pending);
                    assert(outcome(
                        world,
                        entered(waiting, next, passed),
                        (inner + (more + 1)) as nat,
                    ) == outcome(world, answered(waiting, response), (more + 1) as nat));
                } else {
                    assert(outcome(world, entered(waiting, next, passed), (inner + more) as nat)
                        == outcome(world, answered(waiting, response), more));
                }
            }
            steps as nat
        },
        ActionView::Authorize { label, node: own, scheme, credentials, request: same } => {
            let (next, passed) = (world.authorize)(label, own, scheme, credentials, same);
            let inner = lemma_walk_comes_back(world, pending, next, passed, rest);
            assert forall|more: nat|
                #![trigger outcome(world, entered(pending, node, request), (inner + 1 + more) as nat)]
                outcome(world, entered(pending, node, request), (inner + 1 + more) as nat)
                    == outcome(
                    world,
                    answered(pending, response_to(world, node, request, fuel)->0),
                    more,
                ) by {
                assert(outcome(world, entered(pending, next, passed), (inner + more) as nat)
                    == outcome(
                    world,
                    answered(pending, response_to(world, next, passed, rest)->0),
                    more,
                ));
            }
            inner + 1
        },
        ActionView::Route { label, terminal, node: own, segment, request: same } => {
            let (next, passed) = taken(world, label, terminal, own, segment, same);
            let inner = lemma_walk_comes_back(world, pending, next, passed, rest);
            assert forall|more: nat|
                #![trigger outcome(world, entered(pending, node, request), (inner + 1 + more) as nat)]
                outcome(world, entered(pending, node, request), (inner + 1 + more) as nat)
                    == outcome(
                    world,
                    answered(pending, response_to(world, node, request, fuel)->0),
                    more,
                ) by {
                assert(outcome(world, entered(pending, next, passed), (inner + more) as nat)
                    == outcome(
                    world,
                    answered(pending, response_to(world, next, passed, rest)->0),
                    more,
                ));
            }
            inner + 1
        },
        ActionView::Leaf { label, node: own, request: same } => 1,
        ActionView::Post { label, held, response } => {
            lemma_nothing_decided_looks_back(node, request);
            0
        },
        ActionView::Reply(response) => 0,
    }
}

/// No request is answered by looking at a response.
proof fn lemma_nothing_decided_looks_back<T: MakeRoute>(
    node: Node<T>,
    request: RequestView<T::Body>,
)
    ensures
        !(decided(node, request) is Post),
    decreases rank(node), request.path.len(),
{
    lemma_circuit_has_no_middleware(node, request);
    match found_middleware(node, request) {
        Some(i) => {
            lemma_nothing_decided_looks_back(
                circuit::<T>(RouterResponse::Unauthorized(AuthError::MalformedAuthorizationHeader)),
                RequestView { headers: request.headers.remove("authorization"@), ..request },
            );
            lemma_nothing_decided_looks_back(
                circuit::<T>(RouterResponse::Missing(Empty404)),
                request,
            );
            lemma_nothing_decided_looks_back(
                circuit::<T>(node.inner()->Fallible_0->Err_0),
                request,
            );
        },
        None => if request.path.len() > 0 {
            lemma_nothing_decided_looks_back(
                circuit::<T>(given(node)),
                RequestView { path: request.path.drop_first(), ..request },
            );
        },
    }
}

/// A walk that performs each action it is told and hands back what came of it ends
/// with the response of the tree: every middleware that looks at the response gets,
/// once, the one from below it, the innermost first.
pub proof fn law_walk_ends_with_the_response<T: MakeRoute>(
    world: World<T>,
    node: Node<T>,
    request: RequestView<T::Body>,
    fuel: nat,
)
    requires
        response_to(world, node, request, fuel) is Some,
    ensures
        exists|steps: nat|
            outcome(world, entered(Seq::empty(), node, request), steps) == response_to(
                world,
                node,
                request,
                fuel,
            ),
{
    let steps = lemma_walk_comes_back(world, Seq::empty(), node, request, fuel);
    assert(outcome(world, entered(Seq::empty(), node, request), (steps + 1nat) as nat)
        == response_to(world, node, request, fuel));
}

} // verus!
