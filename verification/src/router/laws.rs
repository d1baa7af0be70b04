//! What holds of every routing tree.
#[allow(unused_imports)]
use crate::handler::{
    Either, Empty404, FullBody, Json, RequestView, Response, StringId, is_json,
};
use crate::http::{MethodView, StatusCode};
use crate::json::Document;
use crate::router::auth::AuthError;
#[allow(unused_imports)]
use crate::router::ext::{
    AttributeView, SerdeError, Transaction, after_commit, begun, ended, is_parsed,
};
#[allow(unused_imports)]
use crate::router::walk::{
    Action, ActionView, World, answered, circuit, claims_method, claims_request, claims_segment,
    decided, entered, first, found_leaf, found_middleware, found_route, given,
    law_first_match_wins, lemma_circuit_has_no_middleware, lemma_first_is, not_allowed, not_found,
    response_to,
};
use crate::router::{
    DeclarationView, EmptyResponse, EntryView, GuardView, LeafRoute, MakeRoute, MethodsView, Node,
    RouterResponse, SegmentsView, Stage,
};
#[allow(unused_imports)]
use crate::text;
#[allow(unused_imports)]
use crate::text::lowercase;
#[allow(unused_imports)]
use vstd::utf8::encode_utf8;
use vstd::prelude::*;

verus! {

/// A short circuit replies for any remaining path and any method.
pub proof fn law_short_circuit_replies<T: MakeRoute>(
    response: RouterResponse<T::Response>,
    request: RequestView<T::Body>,
)
    ensures
        decided(circuit::<T>(response), request) == ActionView::<T>::Reply(response),
    decreases request.path.len(),
{
    let node = circuit::<T>(response);
    lemma_circuit_has_no_middleware(node, request);
    if request.path.len() > 0 {
        let passed = RequestView { path: request.path.drop_first(), ..request };
        assert(found_route(node, passed, request.path[0]) == Some(0int));
        law_short_circuit_replies::<T>(response, passed);
    } else {
        let claims = |entry: EntryView<T::Label>| claims_method(node, entry, request.method);
        law_first_match_wins(node.entries(), claims);
        assert(claims(node.entries()[1]));
    }
}

/// A leaf route replies for any method once the path is exhausted, and `404` while
/// segments remain.
pub proof fn law_leaf_route_replies_at_the_end<T: MakeRoute>(
    response: RouterResponse<T::Response>,
    request: RequestView<T::Body>,
)
    ensures
        decided(Node::<T>::Last(LeafRoute(response)), request) == ActionView::<T>::Reply(
            if request.path.len() == 0 {
                response
            } else {
                not_found()
            },
        ),
{
    let node = Node::<T>::Last(LeafRoute(response));
    law_first_match_wins(
        node.entries(),
        |entry: EntryView<T::Label>| claims_request(node, entry, request),
    );
    if request.path.len() > 0 {
        let passed = RequestView { path: request.path.drop_first(), ..request };
        law_first_match_wins(
            node.entries(),
            |entry: EntryView<T::Label>| claims_segment(node, entry, passed, request.path[0]),
        );
    } else {
        let claims = |entry: EntryView<T::Label>| claims_method(node, entry, request.method);
        law_first_match_wins(node.entries(), claims);
        assert(claims(node.entries()[0]));
    }
}

/// The empty node matches nothing: it replies `404`.
pub proof fn law_empty_node_matches_nothing<T: MakeRoute>(request: RequestView<T::Body>)
    ensures
        decided(Node::<T>::Nothing, request) == ActionView::<T>::Reply(not_found()),
{
}

/// The index found in a list whose first item claims nothing.
proof fn lemma_first_skips<A>(item: A, rest: Seq<A>, claims: spec_fn(A) -> bool)
    requires
        !claims(item),
    ensures
        first(seq![item] + rest, claims) == match first(rest, claims) {
            Some(i) => Some(i + 1),
            None => None::<int>,
        },
{
    assert((seq![item] + rest).drop_first() =~= rest);
}

/// A node decides as the node inside it, where what stands round it claims nothing.
proof fn lemma_wrapped<T: MakeRoute>(
    outer: Node<T>,
    inner: Node<T>,
    item: EntryView<T::Label>,
    request: RequestView<T::Body>,
)
    requires
        outer.inner() == inner.inner(),
        outer.entries() == seq![item] + inner.entries(),
        item == EntryView::<T::Label>::Refuse(false) || item == EntryView::<T::Label>::Raise(false),
    ensures
        decided(outer, request) == decided(inner, request),
{
    let outside = |entry: EntryView<T::Label>| claims_request(outer, entry, request);
    let inside = |entry: EntryView<T::Label>| claims_request(inner, entry, request);
    assert(outside =~= inside);
    lemma_first_skips(item, inner.entries(), inside);
    law_first_match_wins(inner.entries(), inside);
    if request.path.len() > 0 {
        let segment = request.path[0];
        let passed = RequestView { path: request.path.drop_first(), ..request };
        let outside = |entry: EntryView<T::Label>| claims_segment(outer, entry, passed, segment);
        let inside = |entry: EntryView<T::Label>| claims_segment(inner, entry, passed, segment);
        assert(outside =~= inside);
        lemma_first_skips(item, inner.entries(), inside);
        law_first_match_wins(inner.entries(), inside);
    } else {
        assert forall|method: MethodView|
            found_leaf(outer, method) == match #[trigger] found_leaf(inner, method) {
                Some(i) => Some(i + 1),
                None => None::<int>,
            } by {
            let outside = |entry: EntryView<T::Label>| claims_method(outer, entry, method);
            let inside = |entry: EntryView<T::Label>| claims_method(inner, entry, method);
            assert(outside =~= inside);
            lemma_first_skips(item, inner.entries(), inside);
        }
        law_first_match_wins(
            inner.entries(),
            |entry: EntryView<T::Label>| claims_method(inner, entry, request.method),
        );
        if exists|method: MethodView| found_leaf(inner, method) is Some {
            let method = choose|method: MethodView| found_leaf(inner, method) is Some;
            assert(found_leaf(outer, method) is Some);
        }
        if exists|method: MethodView| found_leaf(outer, method) is Some {
            let method = choose|method: MethodView| found_leaf(outer, method) is Some;
            assert(found_leaf(inner, method) is Some);
        }
    }
}

/// `Some(node)` routes into `node`; `None` replies `404` for any remaining path and
/// any method.
pub proof fn law_option_routes_or_is_not_found<T: MakeRoute>(
    optional: Option<Box<Node<T>>>,
    request: RequestView<T::Body>,
)
    ensures
        decided(Node::Optional(optional), request) == match optional {
            Some(node) => decided(*node, request),
            None => ActionView::Reply(RouterResponse::Missing(Empty404)),
        },
{
    match optional {
        Some(node) => {
            lemma_wrapped(Node::Optional(optional), *node, EntryView::Refuse(false), request);
        },
        None => {
            law_short_circuit_replies::<T>(RouterResponse::Missing(Empty404), request);
            let node = Node::<T>::Optional(None);
            let claims = |entry: EntryView<T::Label>| claims_request(node, entry, request);
            law_first_match_wins(node.entries(), claims);
            assert(claims(node.entries()[0]));
        },
    }
}

/// `Ok(node)` routes into `node`; `Err(e)` replies with `e` for any remaining path and
/// any method.
pub proof fn law_result_routes_or_short_circuits<T: MakeRoute>(
    fallible: Result<Box<Node<T>>, RouterResponse<T::Response>>,
    request: RequestView<T::Body>,
)
    ensures
        decided(Node::Fallible(fallible), request) == match fallible {
            Ok(node) => decided(*node, request),
            Err(response) => ActionView::Reply(response),
        },
{
    match fallible {
        Ok(node) => {
            lemma_wrapped(Node::Fallible(fallible), *node, EntryView::Raise(false), request);
        },
        Err(response) => {
            law_short_circuit_replies::<T>(response, request);
            let node = Node::<T>::Fallible(fallible);
            let claims = |entry: EntryView<T::Label>| claims_request(node, entry, request);
            law_first_match_wins(node.entries(), claims);
            assert(claims(node.entries()[0]));
        },
    }
}

/// Of two alternatives, the one that is there drives routing.
pub proof fn law_either_routes_into_what_is_there<T: MakeRoute>(
    either: Either<Box<Node<T>>, Box<Node<T>>>,
    request: RequestView<T::Body>,
)
    ensures
        decided(Node::OneOf(either), request) == match either {
            Either::Left(node) => decided(*node, request),
            Either::Right(node) => decided(*node, request),
        },
{
    let outer = Node::OneOf(either);
    let inner = match either {
        Either::Left(node) => *node,
        Either::Right(node) => *node,
    };
    assert((|entry: EntryView<T::Label>| claims_request(outer, entry, request)) =~= (
    |entry: EntryView<T::Label>| claims_request(inner, entry, request)));
    let segment = request.path[0];
    let passed = RequestView { path: request.path.drop_first(), ..request };
    assert((|entry: EntryView<T::Label>| claims_segment(outer, entry, passed, segment)) =~= (
    |entry: EntryView<T::Label>| claims_segment(inner, entry, passed, segment)));
    assert forall|method: MethodView| #[trigger]
        found_leaf(outer, method) == found_leaf(inner, method) by {
        assert((|entry: EntryView<T::Label>| claims_method(outer, entry, method)) =~= (
        |entry: EntryView<T::Label>| claims_method(inner, entry, method)));
    }
    if exists|method: MethodView| found_leaf(inner, method) is Some {
        let method = choose|method: MethodView| found_leaf(inner, method) is Some;
        assert(found_leaf(outer, method) is Some);
    }
    if exists|method: MethodView| found_leaf(outer, method) is Some {
        let method = choose|method: MethodView| found_leaf(outer, method) is Some;
        assert(found_leaf(inner, method) is Some);
    }
}

/// If no middleware claims the request and no route the remaining segment, the reply
/// is `404`.
pub proof fn law_unmatched_segment_is_not_found<T: MakeRoute>(
    node: Node<T>,
    request: RequestView<T::Body>,
)
    requires
        found_middleware(node, request) is None,
        request.path.len() > 0,
        found_route(
            node,
            RequestView { path: request.path.drop_first(), ..request },
            request.path[0],
        ) is None,
    ensures
        decided(node, request) == ActionView::<T>::Reply(not_found()),
{
}

/// If the path is exhausted and no leaf has the request's method, the reply is `405`
/// exactly when some other method has a leaf, and `404` otherwise.
pub proof fn law_unmatched_method_is_not_allowed<T: MakeRoute>(
    node: Node<T>,
    request: RequestView<T::Body>,
)
    requires
        found_middleware(node, request) is None,
        request.path.len() == 0,
        found_leaf(node, request.method) is None,
    ensures
        decided(node, request) == ActionView::<T>::Reply(
            if exists|other: MethodView|
                other != request.method && #[trigger] found_leaf(node, other) is Some {
                not_allowed()
            } else {
                not_found()
            },
        ),
{
    if exists|method: MethodView| found_leaf(node, method) is Some {
        let other = choose|method: MethodView| found_leaf(node, method) is Some;
        assert(other != request.method);
    }
}

/// A middleware claims before any segment is consumed: while one does, routes and
/// leaves are not consulted, and the middleware gets the path as it is.
pub proof fn law_middleware_goes_first<T: MakeRoute>(node: T, request: RequestView<T::Body>, i: int)
    requires
        found_middleware(Node::Own(node), request) == Some(i),
    ensures
        node.declared()[i] matches DeclarationView::Middleware { guard, stage, label } && (stage
            != Stage::Authorization ==> decided(Node::Own(node), request)
            == (ActionView::Middleware { label, post: stage == Stage::Post, node, request })),
{
    law_first_match_wins(
        Node::Own(node).entries(),
        |entry: EntryView<T::Label>| claims_request(Node::Own(node), entry, request),
    );
}

/// Routes are consulted only while segments remain, leaves only once the path is
/// exhausted, and both only where no middleware claims the request.
pub proof fn law_phases_follow_the_path<T: MakeRoute>(node: T, request: RequestView<T::Body>)
    ensures
        match decided(Node::Own(node), request) {
            ActionView::Route { segment, request: passed, .. } => {
                &&& found_middleware(Node::Own(node), request) is None
                &&& request.path.len() > 0
                &&& segment == request.path[0]
                &&& passed == (RequestView { path: request.path.drop_first(), ..request })
            },
            ActionView::Leaf { request: passed, .. } => {
                &&& found_middleware(Node::Own(node), request) is None
                &&& request.path.len() == 0
                &&& passed == request
            },
            ActionView::Middleware { .. } => found_middleware(Node::Own(node), request) is Some,
            ActionView::Authorize { .. } => found_middleware(Node::Own(node), request) is Some,
            ActionView::Reply(_) => true,
            ActionView::Post { .. } => false,
        },
{
    let place = Node::Own(node);
    law_first_match_wins(
        place.entries(),
        |entry: EntryView<T::Label>| claims_request(place, entry, request),
    );
    law_short_circuit_replies::<T>(
        RouterResponse::Unauthorized(AuthError::MalformedAuthorizationHeader),
        RequestView { headers: request.headers.remove("authorization"@), ..request },
    );
    if request.path.len() > 0 {
        let passed = RequestView { path: request.path.drop_first(), ..request };
        law_first_match_wins(
            place.entries(),
            |entry: EntryView<T::Label>| claims_segment(place, entry, passed, request.path[0]),
        );
    } else {
        law_first_match_wins(
            place.entries(),
            |entry: EntryView<T::Label>| claims_method(place, entry, request.method),
        );
    }
}

/// A route that matches one last segment declines while further segments remain, so
/// that what is declared after it still gets its chance.
pub proof fn law_last_segment_route_declines<T: MakeRoute>(
    node: Node<T>,
    method: MethodView,
    request: RequestView<T::Body>,
    segment: StringId,
    declaration: DeclarationView<T::Label>,
)
    requires
        declaration matches DeclarationView::Route { guard, .. } && guard
            == GuardView::<T::Label>::last_with(method),
        request.path.len() > 0,
    ensures
        !claims_segment(node, EntryView::Own(declaration), request, segment),
{
}

/// A declaration that does not claim is as if it were not there: the first match
/// stays the same.
pub proof fn law_declined_is_passed_over<A>(
    before: Seq<A>,
    declined: A,
    after: Seq<A>,
    claims: spec_fn(A) -> bool,
)
    requires
        !claims(declined),
    ensures
        match (
            first(before.push(declined) + after, claims),
            first(before + after, claims),
        ) {
            (Some(i), Some(j)) => (before.push(declined) + after)[i] == (before + after)[j],
            (None, None) => true,
            _ => false,
        },
{
    let with = before.push(declined) + after;
    let without = before + after;
    law_first_match_wins(with, claims);
    law_first_match_wins(without, claims);
    assert forall|k: int| 0 <= k < before.len() implies with[k] == without[k] by {}
    assert forall|k: int| before.len() <= k < without.len() implies with[k + 1] == without[k] by {}
    assert(with[before.len() as int] == declined);
    match (first(with, claims), first(without, claims)) {
        (Some(i), Some(j)) => {
            let moved = if i < before.len() {
                i
            } else {
                i - 1
            };
            let kept = if j < before.len() {
                j
            } else {
                j + 1
            };
            assert(with[i] == without[moved]);
            assert(with[kept] == without[j]);
            assert(claims(without[moved]));
            assert(claims(with[kept]));
            assert(moved >= j);
            assert(kept >= i);
        },
        (Some(i), None) => {
            let moved = if i < before.len() {
                i
            } else {
                i - 1
            };
            assert(with[i] == without[moved]);
            assert(claims(without[moved]));
        },
        (None, Some(j)) => {
            let kept = if j < before.len() {
                j
            } else {
                j + 1
            };
            assert(with[kept] == without[j]);
            assert(claims(with[kept]));
        },
        _ => {},
    }
}

/// The middleware `label` with the stage `stage` is the first of the node that claims the
/// request.
pub open spec fn first_for<T: MakeRoute>(
    node: T,
    request: RequestView<T::Body>,
    stage: Stage,
    label: T::Label,
) -> bool {
    found_middleware(Node::Own(node), request) matches Some(i) && node.declared()[i] matches
        DeclarationView::Middleware { stage: declared, label: same, .. } && declared == stage
        && same == label
}

/// A middleware without a condition that is declared first is the first that claims any
/// request; if it authenticates, any with an `Authorization` header.
pub proof fn law_open_middleware_comes_first<T: MakeRoute>(
    node: T,
    request: RequestView<T::Body>,
    stage: Stage,
    label: T::Label,
)
    requires
        node.declared().len() > 0,
        node.declared()[0] == (DeclarationView::Middleware {
            guard: GuardView::open(),
            stage,
            label,
        }),
        stage == Stage::Authorization ==> request.headers.contains_key("authorization"@),
    ensures
        first_for(node, request, stage, label),
{
    let place = Node::Own(node);
    let claims = |entry: EntryView<T::Label>| claims_request(place, entry, request);
    assert(claims(place.entries()[0]));
    lemma_first_is(place.entries(), claims, 0);
}

/// A request with an `Authorization` header has the header taken out before the
/// handler or any node deeper in the tree sees it; without the form `<scheme>
/// <credentials>` it is rejected before the handler is reached.
pub proof fn law_credentials_do_not_leak<T: MakeRoute>(
    node: T,
    label: T::Label,
    request: RequestView<T::Body>,
)
    requires
        first_for(node, request, Stage::Authorization, label),
    ensures
        request.headers.contains_key("authorization"@),
        match text::cut(request.headers["authorization"@].value, ' ') {
            Some((scheme, credentials)) => decided(Node::Own(node), request)
                == (ActionView::Authorize {
                label,
                node,
                scheme,
                credentials,
                request: RequestView {
                    headers: request.headers.remove("authorization"@),
                    ..request
                },
            }),
            None => decided(Node::Own(node), request) == ActionView::<T>::Reply(
                RouterResponse::Unauthorized(AuthError::MalformedAuthorizationHeader),
            ),
        },
{
    let claims = |entry: EntryView<T::Label>| claims_request(Node::Own(node), entry, request);
    law_first_match_wins(Node::Own(node).entries(), claims);
    law_short_circuit_replies::<T>(
        RouterResponse::Unauthorized(AuthError::MalformedAuthorizationHeader),
        RequestView { headers: request.headers.remove("authorization"@), ..request },
    );
}

/// Without an `Authorization` header an authentication does not match.
pub proof fn law_no_header_no_authentication<T: MakeRoute>(
    node: Node<T>,
    guard: GuardView<T::Label>,
    label: T::Label,
    request: RequestView<T::Body>,
)
    requires
        !request.headers.contains_key("authorization"@),
    ensures
        !claims_request(
            node,
            EntryView::Own(
                DeclarationView::Middleware { guard, stage: Stage::Authorization, label },
            ),
            request,
        ),
{
}

/// A path is taken exactly for the segments that equal its name without regard to
/// case, whatever the request.
pub proof fn law_path_claims_its_name<T: MakeRoute>(
    node: Node<T>,
    name: StringId,
    label: T::Label,
    request: RequestView<T::Body>,
    segment: StringId,
)
    ensures
        claims_segment(
            node,
            EntryView::Own(
                DeclarationView::Route {
                    guard: GuardView::open(),
                    segments: SegmentsView::OneOf(seq![name.ident()]),
                    terminal: false,
                    label,
                },
            ),
            request,
            segment,
        ) == (segment.ident() == name.ident()),
{
    assert(seq![name.ident()][0] == name.ident());
}

/// A leaf is taken exactly for its method.
pub proof fn law_leaf_claims_its_method<T: MakeRoute>(
    node: Node<T>,
    own: MethodView,
    label: T::Label,
    method: MethodView,
)
    ensures
        claims_method(
            node,
            EntryView::Own(
                DeclarationView::Leaf {
                    methods: MethodsView::Only(seq![own]),
                    condition: None,
                    label,
                },
            ),
            method,
        ) == (method == own),
{
    assert(seq![own][0] == own);
}

/// An endpoint at a fixed last segment is taken exactly for its method, its name and
/// no segment behind it.
pub proof fn law_leaf_path_claims_the_last_segment<T: MakeRoute>(
    node: Node<T>,
    name: StringId,
    method: MethodView,
    label: T::Label,
    request: RequestView<T::Body>,
    segment: StringId,
)
    ensures
        claims_segment(
            node,
            EntryView::Own(
                DeclarationView::Route {
                    guard: GuardView::last_with(method),
                    segments: SegmentsView::OneOf(seq![name.ident()]),
                    terminal: true,
                    label,
                },
            ),
            request,
            segment,
        ) == (request.method == method && segment.ident() == name.ident() && request.path.len()
            == 0),
{
    assert(seq![name.ident()][0] == name.ident());
    assert(seq![method][0] == method);
}

/// A body that could not be read or parsed is answered `400 Bad Request` for any
/// remaining path and any method.
pub proof fn law_bad_body_is_a_bad_request<T: MakeRoute>(
    error: SerdeError,
    request: RequestView<T::Body>,
) where T::Response: Response
    ensures
        decided(Node::<T>::Fallible(Err(RouterResponse::BadBody(error))), request)
            == ActionView::<T>::Reply(RouterResponse::BadBody(error)),
        RouterResponse::<T::Response>::BadBody(error).status() == StatusCode(400),
{
    law_result_routes_or_short_circuits::<T>(Err(RouterResponse::BadBody(error)), request);
}

/// A rejected caller is answered `401 Unauthorized`, or `500` if the authentication
/// itself failed, for any remaining path and any method.
pub proof fn law_rejected_caller_is_unauthorized<T: MakeRoute>(
    error: AuthError,
    request: RequestView<T::Body>,
) where T::Response: Response
    ensures
        decided(Node::<T>::Fallible(Err(RouterResponse::Unauthorized(error))), request)
            == ActionView::<T>::Reply(RouterResponse::Unauthorized(error)),
        RouterResponse::<T::Response>::Unauthorized(error).status() == if error is Error {
            StatusCode(500)
        } else {
            StatusCode(401)
        },
{
    law_result_routes_or_short_circuits::<T>(Err(RouterResponse::Unauthorized(error)), request);
}

/// A middleware that looks at the response gets the response of the subtree that it
/// leads into, together with what it held on to, and what it makes of it is the
/// response of the node.
pub proof fn law_middleware_sees_the_response_below<T: MakeRoute>(
    world: World<T>,
    node: T,
    label: T::Label,
    request: RequestView<T::Body>,
    fuel: nat,
)
    requires
        first_for(node, request, Stage::Post, label),
    ensures
        ({
            let (next, held, passed) = (world.middleware)(label, node, request);
            response_to(world, Node::Own(node), request, fuel + 1) == match response_to(
                world,
                next,
                passed,
                fuel,
            ) {
                Some(response) => Some((world.post)(label, held, response)),
                None => None,
            }
        }),
{
    let place = Node::Own(node);
    law_first_match_wins(
        place.entries(),
        |entry: EntryView<T::Label>| claims_request(place, entry, request),
    );
}

/// A transaction round a subtree follows the response of the subtree: on a success it is
/// committed, and a failed commit takes the place of the response; on anything else it
/// is rolled back and the response stays as it is. Where it cannot be begun, its error
/// is the response, and the subtree is not entered.
pub proof fn law_transaction_wraps_the_response<T: MakeRoute, D>(
    world: World<T>,
    node: T,
    label: T::Label,
    request: RequestView<T::Body>,
    fuel: nat,
    handle: Result<D, T::Response>,
    below: Node<T>,
    transaction: spec_fn(T) -> Transaction<D>,
    commit: spec_fn(D) -> Result<(), T::Response>,
) where T::Response: Response
    requires
        first_for(node, request, Stage::Post, label),
        ({
            let (next, held, _) = (world.middleware)(label, node, request);
            &&& transaction(held) == begun(handle).0
            &&& next == Node::Fallible(
                match begun(handle).1 {
                    Ok(()) => Ok(Box::new(below)),
                    Err(response) => Err(response),
                },
            )
        }),
        forall|held: T, response: RouterResponse<T::Response>| #[trigger]
            (world.post)(label, held, response) == ended(transaction(held), response, commit),
        fuel > 0,
    ensures
        ({
            let (_, _, passed) = (world.middleware)(label, node, request);
            response_to(world, Node::Own(node), request, fuel + 1) == match handle {
                Ok(handle) => match response_to(world, below, passed, fuel) {
                    Some(response) => Some(
                        if response.status().success() {
                            after_commit(commit(handle), response)
                        } else {
                            response
                        },
                    ),
                    None => None,
                },
                Err(error) => Some(RouterResponse::Given(error)),
            }
        }),
{
    law_middleware_sees_the_response_below(world, node, label, request, fuel);
    let (next, held, passed) = (world.middleware)(label, node, request);
    law_result_routes_or_short_circuits(next->Fallible_0, passed);
    match handle {
        Ok(handle) => {
            assert(decided(next, passed) == decided(below, passed));
            assert(response_to(world, next, passed, fuel) == response_to(
                world,
                below,
                passed,
                fuel,
            ));
        },
        Err(error) => {
            assert(response_to(world, next, passed, fuel) == Some(
                RouterResponse::<T::Response>::Given(error),
            ));
        },
    }
}

/// What a terminal route responds is the response: the route leads no further.
pub proof fn law_terminal_route_gives_the_response<T: MakeRoute>(
    world: World<T>,
    node: Node<T>,
    request: RequestView<T::Body>,
    fuel: nat,
)
    requires
        decided(node, request) is Route,
        decided(node, request)->terminal,
        fuel >= 2,
    ensures
        ({
            let action = decided(node, request);
            let (response, passed) = (world.last)(
                action->Route_label,
                action->Route_node,
                action->segment,
                action->Route_request,
            );
            response_to(world, node, request, fuel) == Some(
                if passed.path.len() == 0 {
                    response
                } else {
                    not_found()
                },
            )
        }),
{
    let action = decided(node, request);
    let (response, passed) = (world.last)(
        action->Route_label,
        action->Route_node,
        action->segment,
        action->Route_request,
    );
    law_leaf_route_replies_at_the_end::<T>(response, passed);
    reveal_with_fuel(response_to, 3);
}

/// The two declarations of an attribute.
pub open spec fn attribute_at<L>(name: Seq<char>, set: L, get: L) -> Seq<DeclarationView<L>> {
    seq![
        (DeclarationView::Route {
            guard: GuardView::last_with(MethodView::Get),
            segments: SegmentsView::OneOf(seq![name]),
            terminal: true,
            label: get,
        }),
        (DeclarationView::Route {
            guard: GuardView::last_with(MethodView::Put),
            segments: SegmentsView::OneOf(seq![name]),
            terminal: true,
            label: set,
        }),
    ]
}

/// A node with an attribute reads it by `GET` and writes it by `PUT` at its name, and
/// answers all else `404`.
pub proof fn law_attribute_is_read_and_written<T: MakeRoute>(
    node: T,
    name: Seq<char>,
    set: T::Label,
    get: T::Label,
    request: RequestView<T::Body>,
)
    requires
        node.declared() == attribute_at(name, set, get),
    ensures
        decided(Node::Own(node), request) == if request.path.len() == 1 && request.path[0].ident()
            == name && (request.method == MethodView::Get || request.method == MethodView::Put) {
            ActionView::Route {
                label: if request.method == MethodView::Get {
                    get
                } else {
                    set
                },
                terminal: true,
                node,
                segment: request.path[0],
                request: RequestView { path: request.path.drop_first(), ..request },
            }
        } else {
            ActionView::Reply(not_found())
        },
{
    let place = Node::Own(node);
    let entries = place.entries();
    assert(seq![MethodView::Get][0] == MethodView::Get);
    assert(seq![MethodView::Put][0] == MethodView::Put);
    assert(seq![name][0] == name);
    lemma_first_is(entries, |entry: EntryView<T::Label>| claims_request(place, entry, request), 2);
    if request.path.len() > 0 {
        let passed = RequestView { path: request.path.drop_first(), ..request };
        let claims = |entry: EntryView<T::Label>|
            claims_segment(place, entry, passed, request.path[0]);
        let there = request.path.len() == 1 && request.path[0].ident() == name;
        assert(claims(entries[0]) == (there && request.method == MethodView::Get));
        assert(claims(entries[1]) == (there && request.method == MethodView::Put));
        lemma_first_is(
            entries,
            claims,
            if there && request.method == MethodView::Get {
                0
            } else if there && request.method == MethodView::Put {
                1
            } else {
                2int
            },
        );
    } else {
        assert forall|method: MethodView| found_leaf(place, method) is None by {
            lemma_first_is(
                entries,
                |entry: EntryView<T::Label>| claims_method(place, entry, method),
                2,
            );
        }
    }
}

/// The attribute `name` is declared at `at` by `node`, and nothing that the node declares
/// takes the request before it.
pub open spec fn attribute_reached<T: MakeRoute>(
    node: T,
    at: int,
    name: Seq<char>,
    set: T::Label,
    get: T::Label,
    request: RequestView<T::Body>,
) -> bool {
    let place = Node::Own(node);
    &&& 0 <= at
    &&& at + 2 <= node.declared().len()
    &&& node.declared().subrange(at, at + 2) == attribute_at(name, set, get)
    &&& found_middleware(place, request) is None
    &&& forall|i: int|
        0 <= i < at ==> !claims_segment(
            place,
            #[trigger] place.entries()[i],
            RequestView { path: request.path.drop_first(), ..request },
            request.path[0],
        )
}

/// Among whatever else a node declares, an attribute that is reached is read by `GET` and
/// written by `PUT`.
pub proof fn law_reached_attribute_is_read_and_written<T: MakeRoute>(
    node: T,
    at: int,
    name: Seq<char>,
    set: T::Label,
    get: T::Label,
    request: RequestView<T::Body>,
)
    requires
        attribute_reached(node, at, name, set, get, request),
        request.path.len() == 1,
        request.path[0].ident() == name,
        request.method == MethodView::Get || request.method == MethodView::Put,
    ensures
        decided(Node::Own(node), request) == (ActionView::Route {
            label: if request.method == MethodView::Get {
                get
            } else {
                set
            },
            terminal: true,
            node,
            segment: request.path[0],
            request: RequestView { path: request.path.drop_first(), ..request },
        }),
{
    let place = Node::Own(node);
    let entries = place.entries();
    let declared = node.declared();
    assert(declared.subrange(at, at + 2)[0] == declared[at]);
    assert(declared.subrange(at, at + 2)[1] == declared[at + 1]);
    assert(entries[at] == EntryView::Own(declared[at]));
    assert(entries[at + 1] == EntryView::Own(declared[at + 1]));
    assert(seq![MethodView::Get][0] == MethodView::Get);
    assert(seq![MethodView::Put][0] == MethodView::Put);
    assert(seq![name][0] == name);
    let passed = RequestView { path: request.path.drop_first(), ..request };
    let claims = |entry: EntryView<T::Label>|
        claims_segment(place, entry, passed, request.path[0]);
    assert(claims(entries[at]) == (request.method == MethodView::Get));
    assert(claims(entries[at + 1]) == (request.method == MethodView::Put));
    lemma_first_is(
        entries,
        claims,
        if request.method == MethodView::Get {
            at
        } else {
            at + 1
        },
    );
}

/// An attribute gives back what was put into it. Where the body of a `PUT` at its name
/// is a document of a value, read as that value, and the value is stored, the response
/// is `200` with an empty body, and a `GET` at its name after it responds `200` with the
/// document of the value. The name may be written in any casing.
pub proof fn law_attribute_round_trip<T, S, V, E, X>(
    node: T,
    at: int,
    name: StringId,
    set: T::Label,
    get: T::Label,
    attribute: AttributeView<S, V, E>,
    parse: spec_fn(Seq<u8>) -> Result<V, String>,
    value: V,
    state: S,
    put: RequestView<T::Body>,
    putting: World<T>,
    read: Result<V, SerdeError>,
    got: RequestView<T::Body>,
    getting: World<T>,
) where T: MakeRoute<Response = Result<Json<V>, E>>, V: Document, E: Response
    requires
        name.wf(),
        attribute_reached(node, at, name.ident(), set, get, put),
        attribute_reached(node, at, name.ident(), set, get, got),
        parse(encode_utf8(value.document())) == Ok::<V, String>(value),
        is_parsed(Ok::<_, X>(parse(encode_utf8(value.document()))), read),
        (attribute.set)(state, value).1 is Ok,
        (attribute.get)((attribute.set)(state, value).0) == Ok::<V, E>(value),
        put.method == MethodView::Put,
        put.path.len() == 1,
        put.path[0].wf(),
        lowercase(put.path[0].text()) == lowercase(name.text()),
        ({
            let passed = RequestView { path: put.path.drop_first(), ..put };
            (putting.last)(set, node, put.path[0], passed) == (
                attribute.put(state, read).1,
                passed,
            )
        }),
        got.method == MethodView::Get,
        got.path.len() == 1,
        got.path[0].wf(),
        lowercase(got.path[0].text()) == lowercase(name.text()),
        ({
            let passed = RequestView { path: got.path.drop_first(), ..got };
            (getting.last)(get, node, got.path[0], passed) == (
                attribute.got(attribute.put(state, read).0),
                passed,
            )
        }),
    ensures
        response_to(putting, Node::Own(node), put, 2) == Some(
            RouterResponse::<T::Response>::Empty(EmptyResponse(StatusCode(200))),
        ),
        response_to(getting, Node::Own(node), got, 2) == Some(
            RouterResponse::<T::Response>::Given(Ok(Json(value, StatusCode(200)))),
        ),
        forall|body: FullBody| #[trigger]
            Json(value, StatusCode(200)).has_body(body) <==> is_json(body, value.document()),
{
    law_reached_attribute_is_read_and_written(node, at, name.ident(), set, get, put);
    law_reached_attribute_is_read_and_written(node, at, name.ident(), set, get, got);
    law_terminal_route_gives_the_response(putting, Node::Own(node), put, 2);
    law_terminal_route_gives_the_response(getting, Node::Own(node), got, 2);
}

/// In each phase the declaration that claims and has none that claims before it is found;
/// none is found exactly if none claims.
pub proof fn law_found_is_the_first_that_claims<T: MakeRoute>(
    node: Node<T>,
    request: RequestView<T::Body>,
    segment: StringId,
    method: MethodView,
)
    ensures
        match found_middleware(node, request) {
            Some(i) => 0 <= i < node.entries().len() && claims_request(
                node,
                node.entries()[i],
                request,
            ) && forall|j: int|
                0 <= j < i ==> !claims_request(node, #[trigger] node.entries()[j], request),
            None => forall|j: int|
                0 <= j < node.entries().len() ==> !claims_request(
                    node,
                    #[trigger] node.entries()[j],
                    request,
                ),
        },
        match found_route(node, request, segment) {
            Some(i) => 0 <= i < node.entries().len() && claims_segment(
                node,
                node.entries()[i],
                request,
                segment,
            ) && forall|j: int|
                0 <= j < i ==> !claims_segment(
                    node,
                    #[trigger] node.entries()[j],
                    request,
                    segment,
                ),
            None => forall|j: int|
                0 <= j < node.entries().len() ==> !claims_segment(
                    node,
                    #[trigger] node.entries()[j],
                    request,
                    segment,
                ),
        },
        match found_leaf(node, method) {
            Some(i) => 0 <= i < node.entries().len() && claims_method(
                node,
                node.entries()[i],
                method,
            ) && forall|j: int|
                0 <= j < i ==> !claims_method(node, #[trigger] node.entries()[j], method),
            None => forall|j: int|
                0 <= j < node.entries().len() ==> !claims_method(
                    node,
                    #[trigger] node.entries()[j],
                    method,
                ),
        },
{
    let middleware = |entry: EntryView<T::Label>| claims_request(node, entry, request);
    let route = |entry: EntryView<T::Label>| claims_segment(node, entry, request, segment);
    let leaf = |entry: EntryView<T::Label>| claims_method(node, entry, method);
    law_first_match_wins(node.entries(), middleware);
    law_first_match_wins(node.entries(), route);
    law_first_match_wins(node.entries(), leaf);
    assert forall|j: int| 0 <= j < node.entries().len() implies claims_request(
        node,
        #[trigger] node.entries()[j],
        request,
    ) == middleware(node.entries()[j]) && claims_segment(
        node,
        node.entries()[j],
        request,
        segment,
    ) == route(node.entries()[j]) && claims_method(node, node.entries()[j], method) == leaf(
        node.entries()[j],
    ) by {}
}

/// A node offers its declarations, in their order and nothing else.
pub proof fn law_node_offers_its_declarations<T: MakeRoute>(node: T)
    ensures
        Node::Own(node).entries().len() == node.declared().len(),
        forall|i: int|
            0 <= i < node.declared().len() ==> #[trigger] Node::Own(node).entries()[i]
                == EntryView::Own(node.declared()[i]),
        Node::Own(node).inner() == Node::Own(node),
{
}

/// A middleware claims exactly the requests that its guard holds for, that have one of its
/// methods, that have no segment left if it asks for that, on which the node finds its
/// condition true, and that have an `Authorization` header if it authenticates. It claims
/// no segment and no method.
pub proof fn law_middleware_claims_by_its_guard<T: MakeRoute>(
    node: T,
    guard: GuardView<T::Label>,
    stage: Stage,
    label: T::Label,
    request: RequestView<T::Body>,
    segment: StringId,
    method: MethodView,
)
    ensures
        ({
            let place = Node::Own(node);
            let entry = EntryView::Own(DeclarationView::Middleware { guard, stage, label });
            &&& claims_request(place, entry, request) <==> {
                &&& guard.holds
                &&& guard.methods.admits(request.method)
                &&& guard.exhausted ==> request.path.len() == 0
                &&& guard.condition matches Some(condition) ==> node.on_request(condition, request)
                &&& stage == Stage::Authorization ==> request.headers.contains_key(
                    "authorization"@,
                )
            }
            &&& !claims_segment(place, entry, request, segment)
            &&& !claims_method(place, entry, method)
        }),
{
}

/// A route claims exactly the requests and segments that its guard and its set of segments
/// admit and on which the node finds its condition true; one into the node's own type sees
/// only the segment. Neither claims before a segment is taken, or a method.
pub proof fn law_route_claims_by_its_guard<T: MakeRoute>(
    node: T,
    guard: GuardView<T::Label>,
    segments: SegmentsView,
    terminal: bool,
    condition: Option<T::Label>,
    label: T::Label,
    request: RequestView<T::Body>,
    segment: StringId,
    method: MethodView,
)
    ensures
        ({
            let place = Node::Own(node);
            let entry = EntryView::Own(
                DeclarationView::Route { guard, segments, terminal, label },
            );
            let recursive = EntryView::Own(
                DeclarationView::RouteRecursive { holds: guard.holds, segments, condition, label },
            );
            &&& claims_segment(place, entry, request, segment) <==> {
                &&& guard.holds
                &&& guard.methods.admits(request.method)
                &&& guard.exhausted ==> request.path.len() == 0
                &&& segments.admits(segment)
                &&& guard.condition matches Some(condition) ==> node.on_route(
                    condition,
                    request,
                    segment,
                )
            }
            &&& claims_segment(place, recursive, request, segment) <==> {
                &&& guard.holds
                &&& segments.admits(segment)
                &&& condition matches Some(condition) ==> node.on_segment(condition, segment)
            }
            &&& !claims_request(place, entry, request)
            &&& !claims_request(place, recursive, request)
            &&& !claims_method(place, entry, method)
            &&& !claims_method(place, recursive, method)
        }),
{
}

/// A leaf claims exactly its methods, where the node finds its condition true of them. It
/// claims no request before the path is exhausted.
pub proof fn law_leaf_claims_by_its_methods<T: MakeRoute>(
    node: T,
    methods: MethodsView,
    condition: Option<T::Label>,
    label: T::Label,
    request: RequestView<T::Body>,
    segment: StringId,
    method: MethodView,
)
    ensures
        ({
            let place = Node::Own(node);
            let entry = EntryView::Own(DeclarationView::Leaf { methods, condition, label });
            &&& claims_method(place, entry, method) <==> {
                &&& methods.admits(method)
                &&& condition matches Some(condition) ==> node.on_method(condition, method)
            }
            &&& !claims_request(place, entry, request)
            &&& !claims_segment(place, entry, request, segment)
        }),
{
}

/// While segments remain and no middleware claims, the first route that claims is taken: by
/// its label, with the segment, and with the request without the segment.
pub proof fn law_first_route_is_taken<T: MakeRoute>(
    node: T,
    request: RequestView<T::Body>,
    i: int,
)
    requires
        found_middleware(Node::Own(node), request) is None,
        request.path.len() > 0,
        found_route(
            Node::Own(node),
            RequestView { path: request.path.drop_first(), ..request },
            request.path[0],
        ) == Some(i),
    ensures
        0 <= i < node.declared().len(),
        match node.declared()[i] {
            DeclarationView::Route { terminal, label, .. } => decided(Node::Own(node), request)
                == (ActionView::Route {
                label,
                terminal,
                node,
                segment: request.path[0],
                request: RequestView { path: request.path.drop_first(), ..request },
            }),
            DeclarationView::RouteRecursive { label, .. } => decided(Node::Own(node), request)
                == (ActionView::Route {
                label,
                terminal: false,
                node,
                segment: request.path[0],
                request: RequestView { path: request.path.drop_first(), ..request },
            }),
            _ => false,
        },
{
    let passed = RequestView { path: request.path.drop_first(), ..request };
    law_found_is_the_first_that_claims(
        Node::Own(node),
        passed,
        request.path[0],
        request.method,
    );
    law_node_offers_its_declarations(node);
}

/// Once the path is exhausted and no middleware claims, the first leaf that claims the
/// method answers: by its label, with the request as it is.
pub proof fn law_first_leaf_answers<T: MakeRoute>(node: T, request: RequestView<T::Body>, i: int)
    requires
        found_middleware(Node::Own(node), request) is None,
        request.path.len() == 0,
        found_leaf(Node::Own(node), request.method) == Some(i),
    ensures
        0 <= i < node.declared().len(),
        node.declared()[i] matches DeclarationView::Leaf { label, .. } && decided(
            Node::Own(node),
            request,
        ) == (ActionView::Leaf { label, node, request }),
{
    law_found_is_the_first_that_claims(
        Node::Own(node),
        request,
        arbitrary(),
        request.method,
    );
    law_node_offers_its_declarations(node);
}

/// What no route matches is `404`, and what no leaf has the method for is `405`; neither
/// has a body or a header.
pub proof fn law_refusals_have_their_status<R: Response>()
    ensures
        not_found::<R>() == RouterResponse::<R>::Empty(EmptyResponse(StatusCode(404))),
        not_allowed::<R>() == RouterResponse::<R>::Empty(EmptyResponse(StatusCode(405))),
        not_found::<R>().status() == StatusCode(404),
        not_allowed::<R>().status() == StatusCode(405),
{
}

/// A response goes to the middleware that began to wait last, with what it held; without
/// one it is the reply. A request that is not answered lets all of them wait on.
pub proof fn law_response_comes_back_to_the_last_that_waits<T: MakeRoute>(
    pending: Seq<(T::Label, T)>,
    label: T::Label,
    held: T,
    response: RouterResponse<T::Response>,
    node: Node<T>,
    request: RequestView<T::Body>,
)
    ensures
        answered(Seq::<(T::Label, T)>::empty(), response) == (
            Seq::<(T::Label, T)>::empty(),
            ActionView::<T>::Reply(response),
        ),
        answered(pending.push((label, held)), response) == (
            pending,
            (ActionView::Post { label, held, response }),
        ),
        decided(node, request) matches ActionView::Reply(reply) ==> entered(
            pending,
            node,
            request,
        ) == answered(pending, reply),
        !(decided(node, request) is Reply) ==> entered(pending, node, request) == (
            pending,
            decided(node, request),
        ),
{
    assert(pending.push((label, held)).drop_last() =~= pending);
    assert(pending.push((label, held)).last() == (label, held));
}

/// What an action shows is what it holds.
pub proof fn law_action_shows_what_it_holds<T: MakeRoute>(action: Action<T>)
    ensures
        match action {
            Action::Middleware { label, post, node, request } => action@
                == (ActionView::Middleware { label, post, node, request: request@ }),
            Action::Authorize { label, node, scheme, credentials, request } => action@
                == (ActionView::Authorize {
                label,
                node,
                scheme: scheme.text(),
                credentials: credentials@,
                request: request@,
            }),
            Action::Route { label, terminal, node, segment, request } => action@
                == (ActionView::Route { label, terminal, node, segment, request: request@ }),
            Action::Leaf { label, node, request } => action@ == (ActionView::Leaf {
                label,
                node,
                request: request@,
            }),
            Action::Post { label, held, response } => action@ == (ActionView::Post {
                label,
                held,
                response,
            }),
            Action::Reply(response) => action@ == ActionView::<T>::Reply(response),
        },
{
}

/// A node that was refused is `401` or `500` for any request, and one whose body was bad
/// `400`; a node that was given is entered.
pub proof fn law_middleware_results_are_entered_or_refused<T: MakeRoute>(
    node: Node<T>,
    refused: AuthError,
    bad: SerdeError,
    request: RequestView<T::Body>,
)
    ensures
        decided(Node::Fallible(Ok(Box::new(node))), request) == decided(node, request),
        decided(Node::<T>::Fallible(Err(RouterResponse::Unauthorized(refused))), request)
            == ActionView::<T>::Reply(RouterResponse::Unauthorized(refused)),
        decided(Node::<T>::Fallible(Err(RouterResponse::BadBody(bad))), request)
            == ActionView::<T>::Reply(RouterResponse::BadBody(bad)),
{
    law_result_routes_or_short_circuits(Ok(Box::new(node)), request);
    law_result_routes_or_short_circuits::<T>(Err(RouterResponse::Unauthorized(refused)), request);
    law_result_routes_or_short_circuits::<T>(Err(RouterResponse::BadBody(bad)), request);
}

/// Where an authentication is the first middleware that claims a request, the header is
/// parted at its first space into the scheme and the credentials, and the request goes on
/// without it and otherwise as it was; a header without a space is answered `401`.
pub proof fn law_authentication_takes_the_header_out<T: MakeRoute>(
    node: T,
    request: RequestView<T::Body>,
    i: int,
) where T::Response: Response
    requires
        found_middleware(Node::Own(node), request) == Some(i),
        node.declared()[i] is Middleware,
        node.declared()[i]->stage == Stage::Authorization,
    ensures
        ({
            let header = request.headers["authorization"@].value;
            if header.contains(' ') {
                &&& decided(Node::Own(node), request) is Authorize
                &&& header == decided(Node::Own(node), request)->scheme + seq![' '] + decided(
                    Node::Own(node),
                    request,
                )->credentials
                &&& !decided(Node::Own(node), request)->scheme.contains(' ')
                &&& decided(Node::Own(node), request)->Authorize_label
                    == node.declared()[i]->Middleware_label
                &&& decided(Node::Own(node), request)->Authorize_node == node
                &&& decided(Node::Own(node), request)->Authorize_request == (RequestView {
                    headers: request.headers.remove("authorization"@),
                    ..request
                })
            } else {
                &&& decided(Node::Own(node), request) is Reply
                &&& decided(Node::Own(node), request)->Reply_0 is Unauthorized
                &&& decided(Node::Own(node), request)->Reply_0.status() == StatusCode(401)
            }
        }),
{
    let label = node.declared()[i]->Middleware_label;
    assert(first_for(node, request, Stage::Authorization, label));
    law_credentials_do_not_leak(node, label, request);
    text::law_cut_parts_the_text(request.headers["authorization"@].value, ' ');
}

} // verus!
