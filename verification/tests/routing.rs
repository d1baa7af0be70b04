use http_gateway::fields::Fields;
use http_gateway::handler::{Either, Json, Request, Response, StringId};
use http_gateway::http::{Method, StatusCode};
use http_gateway::router::auth::{AuthError, RouterAuthExt, authorized};
use http_gateway::router::ext::{
    Finish, RouterExt, SerdeError, Transaction, committed, deserialized, parsed_body, set_response,
};
use http_gateway::router::walk::{Action, Walk};
use http_gateway::router::{
    Guard, LeafRoute, MakeRoute, Methods, Node, Router, RouterDerived, RouterHandler,
    RouterResponse, Segments, ShortCircuit, Then,
};
use http_gateway::uri_subject::path_str_to_path;
use std::cell::RefCell;
use std::rc::Rc;

/// What the handlers of a tree do.
trait Tree: MakeRoute<Body = ()> + Sized {
    fn middleware(&mut self, _label: Self::Label, _request: &mut Request<()>) -> Node<Self> {
        Node::Nothing
    }

    fn authorize(
        &mut self,
        _label: Self::Label,
        _scheme: StringId,
        _credentials: String,
        _request: &mut Request<()>,
    ) -> Result<Node<Self>, AuthError> {
        Err(AuthError::InvalidCredentials)
    }

    fn route(
        &mut self,
        _label: Self::Label,
        _segment: StringId,
        _request: &mut Request<()>,
    ) -> Node<Self> {
        Node::Nothing
    }

    fn last(
        &mut self,
        _label: Self::Label,
        _segment: StringId,
        _request: &mut Request<()>,
    ) -> RouterResponse<Self::Response> {
        RouterResponse::e404()
    }

    fn leaf(self, label: Self::Label, request: Request<()>) -> RouterResponse<Self::Response>;

    fn post(
        self,
        _label: Self::Label,
        response: RouterResponse<Self::Response>,
    ) -> RouterResponse<Self::Response> {
        response
    }
}

fn request(method: Method, path: &str) -> Request<()> {
    Request {
        method,
        path: path_str_to_path(path),
        headers: Fields::new(),
        query: Fields::new(),
        body: (),
    }
}

fn run<T: Tree>(root: Node<T>, request: Request<()>) -> RouterResponse<T::Response> {
    let mut walk = Walk::new();
    let mut action = walk.enter(root, request);
    loop {
        action = match action {
            Action::Middleware {
                label,
                post,
                mut node,
                mut request,
            } => {
                let next = node.middleware(label, &mut request);
                if post {
                    walk.enter_holding(label, node, next, request)
                } else {
                    walk.enter(next, request)
                }
            }
            Action::Authorize {
                label,
                mut node,
                scheme,
                credentials,
                mut request,
            } => {
                let result = node.authorize(label, scheme, credentials, &mut request);
                walk.enter(authorized(result), request)
            }
            Action::Route {
                label,
                terminal,
                mut node,
                segment,
                mut request,
            } => {
                if terminal {
                    let response = node.last(label, segment, &mut request);
                    walk.enter_last(response, request)
                } else {
                    let next = node.route(label, segment, &mut request);
                    walk.enter(next, request)
                }
            }
            Action::Leaf {
                label,
                node,
                request,
            } => walk.answer(node.leaf(label, request)),
            Action::Post {
                label,
                held,
                response,
            } => walk.answer(held.post(label, response)),
            Action::Reply(response) => return response,
        }
    }
}

fn get<T: Tree>(root: T, path: &str) -> T::Response
where
    T::Response: Clone,
{
    run(Node::Own(root), request(Method::Get, path))
        .downcast()
        .clone()
}

fn boxed<T: MakeRoute>(node: T) -> Box<Node<T>> {
    Box::new(Node::Own(node))
}

#[test]
fn downcast_response() {
    let response = RouterResponse::new(Json::j200("Ola"));
    assert_eq!(response.downcast().0, "Ola");
}

#[derive(Clone, Copy)]
enum Breaker {
    Root,
    Middleware,
    JustRoute,
    Root2,
}

impl MakeRoute for Breaker {
    type Body = ();
    type Label = ();
    type Response = Json<&'static str>;

    fn register<R: Router<()>>(&self, router: &mut R) {
        match self {
            Breaker::Root => router.route(()),
            Breaker::Middleware => router.middleware(()),
            Breaker::JustRoute => router.route(()),
            Breaker::Root2 => {
                router.route_recursive(());
                router.any_leaf(());
            }
        }
    }

    fn test_request(&self, _: (), _: &Request<()>) -> bool {
        false
    }

    fn test_route(&self, _: (), _: &Request<()>, _: &StringId) -> bool {
        false
    }

    fn test_segment(&self, _: (), _: &StringId) -> bool {
        false
    }

    fn test_method(&self, _: (), _: &Method) -> bool {
        false
    }

    fn test_any_method(&self, _: (), _: &Methods) -> bool {
        false
    }
}

impl Tree for Breaker {
    fn middleware(&mut self, _: (), _: &mut Request<()>) -> Node<Self> {
        Node::Own(Breaker::JustRoute)
    }

    fn route(&mut self, _: (), path: StringId, _: &mut Request<()>) -> Node<Self> {
        match self {
            Breaker::Root => {
                if path == "inexistent" {
                    Node::Fallible(Err(RouterResponse::new(Json::j200("circuit breaker"))))
                } else {
                    Node::Fallible(Ok(boxed(Breaker::Middleware)))
                }
            }
            _ => Node::Own(Breaker::Root2),
        }
    }

    fn leaf(self, _: (), _: Request<()>) -> RouterResponse<Json<&'static str>> {
        RouterResponse::new(Json::j200("done"))
    }
}

#[test]
fn error_response() {
    assert_eq!(get(Breaker::Root, "hello/thing/more").0, "done");
    assert_eq!(get(Breaker::Root, "hello/thing").0, "done");
    assert_eq!(get(Breaker::Root, "inexistent/more/more").0, "circuit breaker");
}

#[derive(Clone, Copy)]
enum Sides {
    Root,
    MidLeft,
    MidRight,
    LeftRoute,
    RightRoute,
    LeafRoute(&'static str),
    EitherLeaf,
}

#[derive(Clone, Copy)]
enum Side {
    Is,
    Go,
    Recursive,
    Bola,
    EitherLeaf,
}

impl MakeRoute for Sides {
    type Body = ();
    type Label = Side;
    type Response = Json<&'static str>;

    fn register<R: Router<Side>>(&self, router: &mut R) {
        match self {
            Sides::Root => router.route_if(Side::Is, Side::Go),
            Sides::MidLeft | Sides::MidRight => router.middleware(Side::Go),
            Sides::LeftRoute => router.route(Side::Go),
            Sides::RightRoute => {
                router.path_recursive("recursive".into(), Side::Recursive);
                router.path("bola".into(), Side::Bola);
                router.path("either_leaf".into(), Side::EitherLeaf);
            }
            Sides::LeafRoute(_) | Sides::EitherLeaf => router.any_leaf(Side::Go),
        }
    }

    fn test_request(&self, _: Side, _: &Request<()>) -> bool {
        false
    }

    fn test_route(&self, _: Side, _: &Request<()>, path: &StringId) -> bool {
        *path == "left" || *path == "right"
    }

    fn test_segment(&self, _: Side, _: &StringId) -> bool {
        false
    }

    fn test_method(&self, _: Side, _: &Method) -> bool {
        false
    }

    fn test_any_method(&self, _: Side, _: &Methods) -> bool {
        false
    }
}

impl Tree for Sides {
    fn middleware(&mut self, _: Side, _: &mut Request<()>) -> Node<Self> {
        match self {
            Sides::MidLeft => Node::Own(Sides::LeftRoute),
            _ => Node::Own(Sides::RightRoute),
        }
    }

    fn route(&mut self, label: Side, path: StringId, req: &mut Request<()>) -> Node<Self> {
        match (*self, label) {
            (Sides::Root, _) => Node::OneOf(if path == "left" {
                Either::Left(boxed(Sides::MidLeft))
            } else {
                Either::Right(boxed(Sides::MidRight))
            }),
            (Sides::LeftRoute, _) => Node::Own(Sides::LeafRoute("left")),
            (_, Side::Recursive) => Node::Own(Sides::LeafRoute("recursive")),
            (_, Side::Bola) => Node::Own(Sides::LeafRoute("right")),
            _ => Node::OneOf(if req.headers.is_empty() {
                Either::Right(boxed(Sides::EitherLeaf))
            } else {
                Either::Left(boxed(Sides::LeafRoute("never happens")))
            }),
        }
    }

    fn leaf(self, _: Side, _: Request<()>) -> RouterResponse<Json<&'static str>> {
        RouterResponse::new(Json::j200(match self {
            Sides::LeafRoute(text) => text,
            _ => "happened",
        }))
    }
}

#[test]
fn either_router() {
    assert_eq!(get(Sides::Root, "left/bola").0, "left");
    assert_eq!(get(Sides::Root, "right/bola").0, "right");
    assert_eq!(get(Sides::Root, "right/recursive").0, "recursive");
    assert_eq!(get(Sides::Root, "right/either_leaf").0, "happened");
}

#[test]
fn an_unmatched_segment_is_not_found() {
    for path in ["middle/bola", "right/other", "left"] {
        let response = run(Node::Own(Sides::Root), request(Method::Get, path));
        assert!(matches!(&response, RouterResponse::Empty(e) if e.status_code() == StatusCode(404)));
        assert!(!response.is_success());
    }
}

#[test]
fn conditions_see_the_segment_without_regard_to_case() {
    assert_eq!(get(Sides::Root, "RIGHT/Bola").0, "right");
}

/// A node made of declarations that are given to it.
#[derive(Clone)]
struct Given {
    declare: fn(&mut dyn FnMut(Declared)),
    trace: Vec<String>,
}

/// A declaration, so that a test can write it down.
enum Declared {
    Middleware(&'static str),
    MiddlewareIf(&'static str),
    MiddlewareMut(&'static str),
    MiddlewareMutIf(&'static str),
    MiddlewareFor(Method, Method, &'static str),
    Authorization(&'static str),
    Route(&'static str),
    RouteIf(&'static str),
    RouteIfRecursive(&'static str),
    RouteOnly(bool, &'static str),
    Path(&'static str, &'static str),
    GetRoute(&'static str),
    PutRoute(&'static str),
    PostRoute(&'static str),
    DeleteRoute(&'static str),
    GetPath(&'static str, &'static str),
    PutPath(&'static str, &'static str),
    PostPath(&'static str, &'static str),
    DeletePath(&'static str, &'static str),
    Get(&'static str),
    Put(&'static str),
    Post(&'static str),
    Delete(&'static str),
    Leaf(Method, &'static str),
    LeafExcept(Method, &'static str),
    LeafIf(&'static str),
    Deserialize(&'static str),
    DeserializeIf(&'static str),
    PostBody(&'static str),
    PutBody(&'static str),
    Setter(&'static str, &'static str),
    Attribute(&'static str, &'static str, &'static str),
    Transaction(&'static str),
}

impl MakeRoute for Given {
    type Body = ();
    type Label = &'static str;
    type Response = Json<String>;

    fn register<R: Router<&'static str>>(&self, router: &mut R) {
        (self.declare)(&mut |declared| match declared {
            Declared::Middleware(label) => router.middleware(label),
            Declared::MiddlewareIf(label) => router.middleware_if(label, label),
            Declared::MiddlewareMut(label) => router.middleware_mut(label),
            Declared::MiddlewareMutIf(label) => router.middleware_mut_if(label, label),
            Declared::MiddlewareFor(a, b, label) => {
                router.middleware_map(Guard::for_methods(Methods::two(a, b)), label)
            }
            Declared::Authorization(label) => router.authorization(label),
            Declared::Route(label) => router.route(label),
            Declared::RouteIf(label) => router.route_if(label, label),
            Declared::RouteIfRecursive(label) => router.route_if_recursive(label, label),
            Declared::RouteOnly(holds, label) => {
                router.route_map(Guard::when(holds), Segments::Any, false, label)
            }
            Declared::Path(path, label) => router.path(path.into(), label),
            Declared::GetRoute(label) => router.get_route(label),
            Declared::PutRoute(label) => router.put_route(label),
            Declared::PostRoute(label) => router.post_route(label),
            Declared::DeleteRoute(label) => router.delete_route(label),
            Declared::GetPath(path, label) => router.get_path(path.into(), label),
            Declared::PutPath(path, label) => router.put_path(path.into(), label),
            Declared::PostPath(path, label) => router.post_path(path.into(), label),
            Declared::DeletePath(path, label) => router.delete_path(path.into(), label),
            Declared::Get(label) => router.get(label),
            Declared::Put(label) => router.put(label),
            Declared::Post(label) => router.post(label),
            Declared::Delete(label) => router.delete(label),
            Declared::Leaf(method, label) => router.leaf(method, label),
            Declared::LeafExcept(method, label) => {
                router.leaf_map(Methods::Except(vec![method]), None, label)
            }
            Declared::LeafIf(label) => router.leaf_if(label, label),
            Declared::Deserialize(label) => router.deserialize(label),
            Declared::DeserializeIf(label) => router.deserialize_if(label, label),
            Declared::PostBody(label) => router.post_body(label),
            Declared::PutBody(label) => router.put_body(label),
            Declared::Setter(path, label) => router.setter(path.into(), label),
            Declared::Attribute(path, set, get) => router.attribute(path.into(), set, get),
            Declared::Transaction(label) => router.transaction(label),
        })
    }

    fn test_request(&self, condition: &'static str, request: &Request<()>) -> bool {
        request.query.get(&condition.into()).is_some()
    }

    fn test_route(
        &self,
        condition: &'static str,
        request: &Request<()>,
        segment: &StringId,
    ) -> bool {
        *segment == condition && request.query.is_empty()
    }

    fn test_segment(&self, condition: &'static str, segment: &StringId) -> bool {
        *segment == condition
    }

    // A condition of a leaf is the first letter of the methods that it holds of.
    fn test_method(&self, condition: &'static str, method: &Method) -> bool {
        method.name().starts_with(condition)
    }

    fn test_any_method(&self, _: &'static str, methods: &Methods) -> bool {
        methods.admits_some()
    }
}

/// The label of the first thing that is to be done, and what is left of the path.
fn first(declare: fn(&mut dyn FnMut(Declared)), request: Request<()>) -> (String, usize) {
    let node = Given {
        declare,
        trace: Vec::new(),
    };
    match RouterHandler::do_handle(Node::Own(node), request) {
        Action::Middleware { label, post, request, .. } => (
            format!("{}{label}", if post { "post " } else { "" }),
            request.path.len(),
        ),
        Action::Authorize { label, scheme, credentials, request, .. } => {
            assert!(request.headers.is_empty());
            (format!("{label} {} {credentials}", &*scheme), request.path.len())
        }
        Action::Route { label, terminal, segment, request, .. } => (
            format!("{}{label} {}", if terminal { "last " } else { "" }, &*segment),
            request.path.len(),
        ),
        Action::Leaf { label, request, .. } => (label.to_string(), request.path.len()),
        Action::Post { .. } => unreachable!(),
        Action::Reply(RouterResponse::Empty(empty)) => (empty.0.0.to_string(), 0),
        Action::Reply(RouterResponse::Unauthorized(error)) => (error.to_message(), 0),
        Action::Reply(_) => unreachable!(),
    }
}

fn label(declare: fn(&mut dyn FnMut(Declared)), method: Method, path: &str) -> String {
    first(declare, request(method, path)).0
}

#[test]
fn the_first_match_wins_in_each_phase() {
    let declare: fn(&mut dyn FnMut(Declared)) = |d| {
        d(Declared::Get("leaf"));
        d(Declared::Path("a", "first"));
        d(Declared::Path("A", "second"));
        d(Declared::Route("any"));
        d(Declared::Get("other leaf"));
    };
    assert_eq!(label(declare, Method::Get, "a"), "first a");
    assert_eq!(label(declare, Method::Get, "b/c"), "any b");
    assert_eq!(label(declare, Method::Get, ""), "leaf");
}

#[test]
fn middleware_goes_before_routes_and_leaves() {
    let declare: fn(&mut dyn FnMut(Declared)) = |d| {
        d(Declared::Get("leaf"));
        d(Declared::Route("any"));
        d(Declared::MiddlewareFor(Method::Put, Method::Post, "edit"));
        d(Declared::MiddlewareIf("asked"));
    };
    assert_eq!(first(declare, request(Method::Put, "a/b")), ("edit".to_string(), 2));
    assert_eq!(label(declare, Method::Post, ""), "edit");
    assert_eq!(label(declare, Method::Get, "a"), "any a");
    let mut asked = request(Method::Get, "a");
    asked.query.insert("ASKED".into(), String::new());
    assert_eq!(first(declare, asked), ("asked".to_string(), 1));
    assert_eq!(label(|d| d(Declared::MiddlewareMut("m")), Method::Get, ""), "post m");
    assert_eq!(label(|d| d(Declared::MiddlewareMutIf("m")), Method::Get, "x"), "404");
    assert_eq!(label(|d| d(Declared::Middleware("m")), Method::Get, "x"), "m");
}

#[test]
fn conditional_routes_test_the_segment() {
    let declare: fn(&mut dyn FnMut(Declared)) = |d| {
        d(Declared::RouteOnly(false, "never"));
        d(Declared::RouteIf("one"));
        d(Declared::RouteIfRecursive("one"));
        d(Declared::RouteOnly(true, "always"));
    };
    assert_eq!(label(declare, Method::Get, "One"), "one One");
    assert_eq!(label(declare, Method::Get, "two"), "always two");
    let mut asked = request(Method::Get, "one");
    asked.query.insert("q".into(), String::new());
    assert_eq!(first(declare, asked).0, "one one");
}

#[test]
fn a_last_segment_route_declines_while_segments_remain() {
    let declare: fn(&mut dyn FnMut(Declared)) = |d| {
        d(Declared::GetRoute("get"));
        d(Declared::PutRoute("put"));
        d(Declared::PostRoute("post"));
        d(Declared::DeleteRoute("delete"));
        d(Declared::Route("other"));
    };
    assert_eq!(label(declare, Method::Get, "x"), "last get x");
    assert_eq!(label(declare, Method::Put, "x"), "last put x");
    assert_eq!(label(declare, Method::Post, "x"), "last post x");
    assert_eq!(label(declare, Method::Delete, "x"), "last delete x");
    assert_eq!(label(declare, Method::Patch, "x"), "other x");
    assert_eq!(label(declare, Method::Get, "x/y"), "other x");
}

#[test]
fn a_last_path_matches_its_name_and_method() {
    let declare: fn(&mut dyn FnMut(Declared)) = |d| {
        d(Declared::GetPath("a", "get"));
        d(Declared::PutPath("a", "put"));
        d(Declared::PostPath("a", "post"));
        d(Declared::DeletePath("a", "delete"));
    };
    assert_eq!(label(declare, Method::Get, "A"), "last get A");
    assert_eq!(label(declare, Method::Put, "a"), "last put a");
    assert_eq!(label(declare, Method::Post, "a"), "last post a");
    assert_eq!(label(declare, Method::Delete, "a"), "last delete a");
    assert_eq!(label(declare, Method::Head, "a"), "404");
    assert_eq!(label(declare, Method::Get, "a/b"), "404");
    assert_eq!(label(declare, Method::Get, "b"), "404");
}

#[test]
fn another_method_is_not_allowed() {
    let declare: fn(&mut dyn FnMut(Declared)) = |d| {
        d(Declared::Get("get"));
        d(Declared::Put("put"));
        d(Declared::Post("post"));
        d(Declared::Delete("delete"));
    };
    assert_eq!(label(declare, Method::Put, ""), "put");
    assert_eq!(label(declare, Method::Post, ""), "post");
    assert_eq!(label(declare, Method::Delete, ""), "delete");
    assert_eq!(label(declare, Method::Head, ""), "405");
    assert_eq!(label(|_| {}, Method::Get, ""), "404");
    // Any other method counts, also one that is not among the common ones.
    assert_eq!(label(|d| d(Declared::Leaf(Method::Patch, "p")), Method::Get, ""), "405");
    assert_eq!(
        label(
            |d| d(Declared::Leaf(Method::Extension("PURGE".to_string()), "p")),
            Method::Get,
            ""
        ),
        "405"
    );
    let but_get: fn(&mut dyn FnMut(Declared)) = |d| d(Declared::LeafExcept(Method::Get, "e"));
    assert_eq!(label(but_get, Method::Get, ""), "405");
    assert_eq!(label(but_get, Method::Trace, ""), "e");
    assert_eq!(label(|d| d(Declared::Path("x", "p")), Method::Get, ""), "404");
    let with_p: fn(&mut dyn FnMut(Declared)) = |d| d(Declared::LeafIf("P"));
    assert_eq!(label(with_p, Method::Put, ""), "P");
    assert_eq!(label(with_p, Method::Extension("PURGE".to_string()), ""), "P");
    assert_eq!(label(with_p, Method::Get, ""), "405");
}

#[test]
fn bodies_are_read_for_the_methods_that_carry_one() {
    let declare: fn(&mut dyn FnMut(Declared)) = |d| {
        d(Declared::PostBody("post"));
        d(Declared::PutBody("put"));
        d(Declared::Deserialize("any"));
        d(Declared::DeserializeIf("asked"));
    };
    assert_eq!(label(declare, Method::Post, ""), "post");
    assert_eq!(label(declare, Method::Put, ""), "put");
    assert_eq!(label(declare, Method::Put, "x"), "any");
    assert_eq!(label(declare, Method::Delete, "x"), "404");
    let mut asked = request(Method::Delete, "x");
    asked.query.insert("asked".into(), String::new());
    assert_eq!(first(declare, asked).0, "asked");
}

#[test]
fn attributes_are_read_and_written_at_one_name() {
    let declare: fn(&mut dyn FnMut(Declared)) = |d| {
        d(Declared::Attribute("title", "set", "get"));
        d(Declared::Setter("only", "put"));
    };
    assert_eq!(label(declare, Method::Get, "Title"), "last get Title");
    assert_eq!(label(declare, Method::Put, "title"), "last set title");
    assert_eq!(label(declare, Method::Post, "title"), "404");
    assert_eq!(label(declare, Method::Put, "title/x"), "404");
    assert_eq!(label(declare, Method::Put, "only"), "last put only");
    assert_eq!(label(declare, Method::Get, "only"), "404");
}

#[test]
fn credentials_are_taken_out_of_the_request() {
    let declare: fn(&mut dyn FnMut(Declared)) = |d| {
        d(Declared::Authorization("auth"));
        d(Declared::Get("open"));
    };
    let mut with = request(Method::Get, "");
    with.headers.insert("Authorization".into(), "Bearer a b".to_string());
    assert_eq!(first(declare, with).0, "auth Bearer a b");
    let mut malformed = request(Method::Get, "any/path");
    malformed.headers.insert("authorization".into(), "Bearer".to_string());
    assert_eq!(
        first(declare, malformed).0,
        "Authorization header value is not in the format <scheme> <credentials>"
    );
    assert_eq!(label(declare, Method::Get, ""), "open");
}

#[test]
fn rejected_callers_are_unauthorized_whatever_the_path() {
    let node = authorized::<Breaker>(Err(AuthError::InvalidCredentials));
    let response = run(node, request(Method::Delete, "a/b"));
    assert_eq!(response.status_code(), StatusCode(401));
    let node = authorized(Ok(Node::Own(Breaker::Root2)));
    assert_eq!(run(node, request(Method::Get, "a")).downcast().0, "done");
}

fn text_of(error: AuthError) -> (u16, String) {
    let status = error.status_code();
    let body = error.into_body();
    (status.0, String::from_utf8(body.0.to_vec()).unwrap())
}

#[test]
fn authentication_errors_are_responses() {
    assert_eq!(
        text_of(AuthError::UnsupportedScheme("Basic".into())),
        (401, "{\n  \"error\": \"The scheme Basic is not supported\"\n}".to_string())
    );
    assert_eq!(
        text_of(AuthError::InvalidCredentials),
        (401, "{\n  \"error\": \"Invalid credentials\"\n}".to_string())
    );
    assert_eq!(text_of(AuthError::MalformedAuthorizationHeader).0, 401);
    assert_eq!(
        text_of(AuthError::from(std::io::Error::other("secret"))),
        (500, "{\n  \"error\": \"Internal server error\"\n}".to_string())
    );
}

impl Tree for Given {
    fn middleware(&mut self, label: &'static str, _: &mut Request<()>) -> Node<Self> {
        self.trace.push(format!("held by {label}"));
        let declare: fn(&mut dyn FnMut(Declared)) = match label {
            "outer" => |d| d(Declared::MiddlewareMut("inner")),
            _ => |d| d(Declared::Get("leaf")),
        };
        Node::Own(Given {
            declare,
            trace: Vec::new(),
        })
    }

    fn leaf(self, label: &'static str, _: Request<()>) -> RouterResponse<Json<String>> {
        RouterResponse::new(Json::j200(label.to_string()))
    }

    fn post(
        self,
        label: &'static str,
        response: RouterResponse<Json<String>>,
    ) -> RouterResponse<Json<String>> {
        let text = match response {
            RouterResponse::Given(json) => json.0,
            other => other.status_code().0.to_string(),
        };
        RouterResponse::new(Json::j200(format!("{text}, {} {label}", self.trace.join(" "))))
    }
}

#[test]
fn the_innermost_middleware_sees_the_response_first() {
    let root = Given {
        declare: |d| d(Declared::MiddlewareMut("outer")),
        trace: Vec::new(),
    };
    assert_eq!(
        get(root.clone(), "").0,
        "leaf, held by inner inner, held by outer outer"
    );
    let response = run(Node::Own(root), request(Method::Put, ""));
    assert_eq!(
        response.downcast().0,
        "405, held by inner inner, held by outer outer"
    );
}

#[test]
fn handlers_start_from_a_clone_of_the_root() {
    let handler = RouterHandler::new(Given {
        declare: |d| d(Declared::Get("leaf")),
        trace: Vec::new(),
    });
    for _ in 0..2 {
        let (_, action) = handler.handle(request(Method::Get, ""));
        assert!(matches!(action, Action::Leaf { label: "leaf", .. }));
    }
}

#[test]
fn short_circuits_reply_for_any_path_and_method() {
    let node = || Node::<Breaker>::Circuit(ShortCircuit(RouterResponse::new(Json::j200("x"))));
    for path in ["", "a", "a/b/c"] {
        for method in [Method::Get, Method::Extension("X".to_string())] {
            assert_eq!(run(node(), request(method, path)).downcast().0, "x");
        }
    }
}

#[test]
fn leaf_routes_reply_once_the_path_is_exhausted() {
    let node = || Node::<Breaker>::Last(LeafRoute(RouterResponse::new(Json::j200("x"))));
    assert_eq!(run(node(), request(Method::Patch, "")).downcast().0, "x");
    assert_eq!(run(node(), request(Method::Get, "a")).status_code(), StatusCode(404));
}

#[test]
fn absent_and_failed_nodes_reply() {
    let none = Node::<Breaker>::Optional(None);
    let response = run(none, request(Method::Delete, "a/b"));
    assert!(matches!(response, RouterResponse::Missing(_)));
    assert_eq!(response.status_code(), StatusCode(404));
    let some = Node::Optional(Some(boxed(Breaker::Root2)));
    assert_eq!(run(some, request(Method::Get, "a")).downcast().0, "done");
    let failed = Node::<Breaker>::Fallible(Err(RouterResponse::e405()));
    assert_eq!(run(failed, request(Method::Get, "a")).status_code(), StatusCode(405));
    let empty = Node::<Breaker>::Nothing;
    assert_eq!(run(empty, request(Method::Get, "")).status_code(), StatusCode(404));
    let nested = Node::Optional(Some(Box::new(Node::Fallible(Ok(Box::new(Node::OneOf(
        Either::Right(boxed(Breaker::Root2)),
    )))))));
    assert_eq!(run(nested, request(Method::Get, "")).downcast().0, "done");
}

#[test]
fn bad_bodies_are_bad_requests() {
    let bad: Result<u8, SerdeError> = parsed_body(Err::<Result<u8, String>, _>("lost"));
    let error = bad.err().unwrap();
    assert_eq!(error.error, "Bad body transport");
    assert_eq!(error.status_code(), StatusCode(400));
    let error = parsed_body(Ok::<Result<u8, String>, ()>(Err("line 1".to_string())))
        .err()
        .unwrap();
    let node = deserialized::<Breaker>(Err(error));
    let response = run(node, request(Method::Post, "a/b"));
    assert_eq!(response.status_code(), StatusCode(400));
    match response {
        RouterResponse::BadBody(error) => assert_eq!(
            &error.into_body().0[..],
            b"{\n  \"error\": \"line 1\"\n}"
        ),
        _ => panic!("no bad body"),
    }
    assert!(matches!(parsed_body(Ok::<_, ()>(Ok(7))), Ok(7)));
    let node = deserialized(Ok(Node::Own(Breaker::Root2)));
    assert_eq!(run(node, request(Method::Post, "")).downcast().0, "done");
}

#[test]
fn setters_reply_with_nothing_or_an_error() {
    let set = set_response::<Json<bool>>(Ok(Ok(())));
    assert_eq!(set.status_code(), StatusCode(200));
    assert!(matches!(set, RouterResponse::Empty(_)));
    let failed = set_response(Ok(Err(Json(false, StatusCode(409)))));
    assert_eq!(failed.status_code(), StatusCode(409));
    let bad = set_response::<Json<bool>>(Err(SerdeError { error: "x".to_string() }));
    assert_eq!(bad.status_code(), StatusCode(400));
}

#[test]
fn transactions_follow_the_response() {
    for code in [100, 199, 200, 204, 299, 300, 404, 500] {
        let response = RouterResponse::new(Json(true, StatusCode(code)));
        match Transaction::Open("handle").finish(response) {
            Finish::Commit("handle", response) => {
                assert!((200..300).contains(&code));
                assert_eq!(committed(Ok(()), response).status_code(), StatusCode(code));
            }
            Finish::Rollback("handle", response) => {
                assert!(!(200..300).contains(&code));
                assert_eq!(response.status_code(), StatusCode(code));
            }
            _ => panic!("not ended"),
        }
    }
    let replaced = committed(
        Err(Json(false, StatusCode(503))),
        RouterResponse::new(Json(true, StatusCode(200))),
    );
    assert_eq!(replaced.status_code(), StatusCode(503));
}

#[test]
fn a_transaction_that_cannot_begin_ends_with_its_error() {
    let (transaction, result) = Transaction::<&str>::begin(Err(Json(false, StatusCode(503))));
    let response = result.err().unwrap();
    match transaction.finish(response) {
        Finish::Keep(response) => assert_eq!(response.status_code(), StatusCode(503)),
        _ => panic!("ended"),
    }
    let (transaction, result) = Transaction::begin::<Json<bool>>(Ok("handle"));
    assert!(matches!(transaction, Transaction::Open("handle")));
    assert!(result.is_ok());
    assert_eq!(label(|d| d(Declared::Transaction("t")), Method::Get, "x"), "post t");
}

#[test]
fn matches_are_transformed() {
    let matched: Then<i32, &str> = Then::Then(1);
    assert!(matches!(matched.map(|x| x + 1), Then::Then(2)));
    let missed: Then<i32, &str> = Then::Else("node");
    assert!(matches!(missed.map(|x| x + 1), Then::Else("node")));
    let matched: Then<i32, &str> = Then::Then(1);
    assert!(matches!(
        matched.and_then(|_| Then::<i32, &str>::Else("back")),
        Then::Else("back")
    ));
    let missed: Then<i32, &str> = Then::Else("node");
    assert!(matches!(
        missed.and_then(|x| Then::<i32, &str>::Then(x)),
        Then::Else("node")
    ));
    let missed: Then<i32, &str> = Then::Else("node");
    assert!(matches!(missed.map_else(|node| node.len()), Then::Else(4)));
    let matched: Then<i32, &str> = Then::Then(1);
    assert!(matches!(matched.map_else(|node| node.len()), Then::Then(1)));
}

/// A node in a transaction, and below it one with an attribute.
#[derive(Clone)]
struct Store {
    below: bool,
    open: bool,
    begin: Result<(), u16>,
    commit: Result<(), u16>,
    document: &'static str,
    cell: Rc<RefCell<String>>,
    log: Rc<RefCell<Vec<&'static str>>>,
}

impl Store {
    fn new(document: &'static str) -> Self {
        Store {
            below: false,
            open: false,
            begin: Ok(()),
            commit: Ok(()),
            document,
            cell: Rc::new(RefCell::new("first".to_string())),
            log: Rc::new(RefCell::new(Vec::new())),
        }
    }

    fn ask(&self, method: Method, path: &str) -> (u16, Option<String>) {
        let response = run(Node::Own(self.clone()), request(method, path));
        let status = response.status_code().0;
        match response {
            RouterResponse::Given(Ok(Json(text, _))) => (status, Some(text)),
            _ => (status, None),
        }
    }

    fn logged(&self) -> Vec<&'static str> {
        std::mem::take(&mut *self.log.borrow_mut())
    }
}

impl MakeRoute for Store {
    type Body = ();
    type Label = &'static str;
    type Response = Result<Json<String>, Json<bool>>;

    fn register<R: Router<&'static str>>(&self, router: &mut R) {
        if self.below {
            router.attribute("Title".into(), "set", "get")
        } else {
            router.transaction("transaction")
        }
    }

    fn test_request(&self, _: &'static str, _: &Request<()>) -> bool {
        false
    }

    fn test_route(&self, _: &'static str, _: &Request<()>, _: &StringId) -> bool {
        false
    }

    fn test_segment(&self, _: &'static str, _: &StringId) -> bool {
        false
    }

    fn test_method(&self, _: &'static str, _: &Method) -> bool {
        false
    }

    fn test_any_method(&self, _: &'static str, _: &Methods) -> bool {
        false
    }
}

impl Tree for Store {
    fn middleware(&mut self, _: &'static str, _: &mut Request<()>) -> Node<Self> {
        let (transaction, result) = Transaction::begin(
            self.begin
                .map_err(|code| Err(Json(false, StatusCode(code)))),
        );
        self.open = matches!(transaction, Transaction::Open(()));
        let below = Store {
            below: true,
            ..self.clone()
        };
        Node::Fallible(result.map(|()| boxed(below)))
    }

    fn last(
        &mut self,
        label: &'static str,
        _: StringId,
        _: &mut Request<()>,
    ) -> RouterResponse<Self::Response> {
        self.log.borrow_mut().push(label);
        if label == "get" {
            return RouterResponse::new(Ok(Json::j200(self.cell.borrow().clone())));
        }
        let read = serde_json::from_str::<String>(self.document).map_err(|e| e.to_string());
        set_response(parsed_body(Ok::<_, ()>(read)).map(|value| {
            *self.cell.borrow_mut() = value;
            Ok(())
        }))
    }

    fn leaf(self, _: &'static str, _: Request<()>) -> RouterResponse<Self::Response> {
        unreachable!()
    }

    fn post(
        self,
        _: &'static str,
        response: RouterResponse<Self::Response>,
    ) -> RouterResponse<Self::Response> {
        let transaction = if self.open {
            Transaction::Open(())
        } else {
            Transaction::Failed
        };
        match transaction.finish(response) {
            Finish::Keep(response) => response,
            Finish::Commit((), response) => {
                self.log.borrow_mut().push("commit");
                let result = self
                    .commit
                    .map_err(|code| Err(Json(false, StatusCode(code))));
                committed(result, response)
            }
            Finish::Rollback((), response) => {
                self.log.borrow_mut().push("rollback");
                response
            }
        }
    }
}

#[test]
fn attributes_give_back_what_was_put() {
    let store = Store::new("\"second\"");
    assert_eq!(store.ask(Method::Get, "title"), (200, Some("first".to_string())));
    assert_eq!(store.ask(Method::Put, "TITLE"), (200, None));
    assert_eq!(store.ask(Method::Get, "tiTle"), (200, Some("second".to_string())));
    assert_eq!(store.ask(Method::Get, "title"), (200, Some("second".to_string())));
    store.logged();
    for method in [Method::Post, Method::Delete] {
        assert_eq!(store.ask(method, "title"), (404, None));
    }
    assert_eq!(store.logged(), ["rollback", "rollback"]);
    let store = Store::new("second");
    assert_eq!(store.ask(Method::Put, "title"), (400, None));
    assert_eq!(&*store.cell.borrow(), "first");
}

#[test]
fn transactions_wrap_the_response_of_the_tree() {
    let mut store = Store::new("\"second\"");
    assert_eq!(store.ask(Method::Put, "title"), (200, None));
    assert_eq!(store.logged(), ["set", "commit"]);
    assert_eq!(store.ask(Method::Get, "other"), (404, None));
    assert_eq!(store.logged(), ["rollback"]);
    store.commit = Err(503);
    assert_eq!(store.ask(Method::Get, "title"), (503, None));
    assert_eq!(store.logged(), ["get", "commit"]);
    assert_eq!(store.ask(Method::Get, "other"), (404, None));
    assert_eq!(store.logged(), ["rollback"]);
    store.begin = Err(409);
    assert_eq!(store.ask(Method::Put, "title"), (409, None));
    assert!(store.logged().is_empty());
}
