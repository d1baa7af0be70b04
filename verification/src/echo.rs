//! A tree that tells a request back.
use crate::buffers;
#[allow(unused_imports)]
use crate::buffers::filled;
use crate::fields::Fields;
use crate::handler::{Authorization, Json, Request, RequestView, StringId};
#[allow(unused_imports)]
use crate::handler::authorization_parts;
use crate::http;
use crate::http::{Method, MethodView, StatusCode};
use crate::json;
#[allow(unused_imports)]
use crate::router::walk::{
    ActionView, claims_method, claims_request, claims_segment, decided, lemma_first_is,
};
use crate::router::walk::authorization_key;
use crate::router::{
    DeclarationView, EntryView, GuardView, MakeRoute, Methods, MethodsView, Node, Router, RouterDerived,
    SegmentsView, Stage,
};
use bytes::BytesMut;
use vstd::prelude::*;

verus! {

/// What is known of a request on its way.
#[derive(Clone)]
pub struct EchoRouter {
    pub auth: Option<Authorization>,
    pub path: Vec<StringId>,
}

/// A node of the tree.
#[derive(Clone)]
pub enum EchoNode {
    /// The root.
    AuthRouter,
    /// A place below it.
    EchoRouter(EchoRouter),
}

/// What the handlers of the tree are named.
#[derive(Clone, Copy, Debug, PartialEq, Eq, Structural)]
pub enum EchoLabel {
    /// Take the `Authorization` header out.
    Authenticate,
    /// Note a path segment.
    Hop,
    /// Tell the request back.
    Echo,
}

/// What is told back of a request. The body is a JSON document, or the reason why it
/// is none.
pub struct EchoResponse {
    pub auth: Option<(StringId, String)>,
    pub method: String,
    pub path: Vec<StringId>,
    pub headers: Fields,
    pub query: Fields,
    pub body: Result<Vec<u8>, String>,
}

impl MakeRoute for EchoNode {
    type Body = ();

    type Label = EchoLabel;

    type Response = Result<Json<EchoResponse>, std::io::Error>;

    open spec fn declared(&self) -> Seq<DeclarationView<EchoLabel>> {
        match self {
            EchoNode::AuthRouter => seq![
                (DeclarationView::Middleware {
                    guard: GuardView::open(),
                    stage: Stage::Plain,
                    label: EchoLabel::Authenticate,
                }),
            ],
            EchoNode::EchoRouter(_) => seq![
                (DeclarationView::RouteRecursive {
                    holds: true,
                    segments: SegmentsView::Any,
                    condition: None,
                    label: EchoLabel::Hop,
                }),
                (DeclarationView::Leaf {
                    methods: MethodsView::Except(Seq::empty()),
                    condition: None,
                    label: EchoLabel::Echo,
                }),
            ],
        }
    }

    open spec fn on_request(&self, condition: EchoLabel, request: RequestView<()>) -> bool {
        false
    }

    open spec fn on_route(
        &self,
        condition: EchoLabel,
        request: RequestView<()>,
        segment: StringId,
    ) -> bool {
        false
    }

    open spec fn on_segment(&self, condition: EchoLabel, segment: StringId) -> bool {
        false
    }

    open spec fn on_method(&self, condition: EchoLabel, method: MethodView) -> bool {
        false
    }

    fn register<R: Router<EchoLabel>>(&self, router: &mut R) {
        let ghost before = router.listed();
        match self {
            EchoNode::AuthRouter => {
                router.middleware(EchoLabel::Authenticate);
            },
            EchoNode::EchoRouter(_) => {
                router.route_recursive(EchoLabel::Hop);
                router.any_leaf(EchoLabel::Echo);
            },
        }
        assert(router.listed() =~= before + self.declared());
    }

    fn test_request(&self, condition: EchoLabel, request: &Request<()>) -> (r: bool) {
        false
    }

    fn test_route(
        &self,
        condition: EchoLabel,
        request: &Request<()>,
        segment: &StringId,
    ) -> (r: bool) {
        false
    }

    fn test_segment(&self, condition: EchoLabel, segment: &StringId) -> (r: bool) {
        false
    }

    fn test_method(&self, condition: EchoLabel, method: &Method) -> (r: bool) {
        false
    }

    fn test_any_method(&self, condition: EchoLabel, methods: &Methods) -> (r: bool) {
        false
    }
}

/// Takes the `Authorization` header out of a request, and goes on with what it says.
pub fn authenticate<B>(request: &mut Request<B>) -> (r: Node<EchoNode>)
    ensures
        final(request)@ == (RequestView {
            headers: old(request)@.headers.remove("authorization"@),
            ..old(request)@
        }),
        r matches Node::Optional(Some(inner)) && *inner matches Node::Own(
            EchoNode::EchoRouter(router),
        ) && router.path@ == Seq::<StringId>::empty() && match router.auth {
            Some(auth) => {
                let header = old(request)@.headers["authorization"@].value;
                &&& old(request)@.headers.contains_key("authorization"@)
                &&& auth.scheme.made_from(authorization_parts(header).0)
                &&& auth.params@ == authorization_parts(header).1
            },
            None => !old(request)@.headers.contains_key("authorization"@),
        },
{
    let auth = match request.headers.remove(&authorization_key()) {
        Some(value) => Some(Authorization::from(value)),
        None => None,
    };
    let router = EchoRouter { auth, path: Vec::new() };
    Node::Optional(Some(Box::new(Node::Own(EchoNode::EchoRouter(router)))))
}

impl EchoRouter {
    /// Notes a path segment.
    pub fn hop(self, segment: StringId) -> (r: Node<EchoNode>)
        ensures
            r matches Node::Own(EchoNode::EchoRouter(router)) && router.auth == self.auth
                && router.path@ == self.path@.push(segment),
    {
        let mut router = self;
        router.path.push(segment);
        Node::Own(EchoNode::EchoRouter(router))
    }

    /// Tells a request with the body `body` back; `refused` says why the body is no
    /// JSON document.
    pub fn echo_with<B>(
        self,
        request: Request<B>,
        body: BytesMut,
        refused: Option<String>,
    ) -> (r: Json<EchoResponse>)
        ensures
            r.1 == StatusCode(http::OK),
            r.0.auth == match self.auth {
                Some(auth) => Some((auth.scheme, auth.params)),
                None => None,
            },
            r.0.method@ == http::method_name(request.method@),
            r.0.path == self.path,
            r.0.headers == request.headers,
            r.0.query == request.query,
            match refused {
                Some(reason) => r.0.body == Err::<Vec<u8>, String>(reason),
                None => r.0.body matches Ok(document) && document@ == filled(body),
            },
    {
        Json::j200(
            EchoResponse {
                auth: match self.auth {
                    Some(auth) => Some((auth.scheme, auth.params)),
                    None => None,
                },
                method: request.method.name().to_owned(),
                path: self.path,
                headers: request.headers,
                query: request.query,
                body: match refused {
                    Some(reason) => Err(reason),
                    None => Ok(vstd::slice::slice_to_vec(buffers::slice_of_mut(&body))),
                },
            },
        )
    }

    /// Tells a request with the body `body` back.
    pub fn echo<B>(self, request: Request<B>, body: BytesMut) -> (r: Json<EchoResponse>)
        ensures
            r.1 == StatusCode(http::OK),
            r.0.auth == match self.auth {
                Some(auth) => Some((auth.scheme, auth.params)),
                None => None,
            },
            r.0.method@ == http::method_name(request.method@),
            r.0.path == self.path,
            r.0.headers == request.headers,
            r.0.query == request.query,
            match json::refused(filled(body)) {
                Some(reason) => r.0.body matches Err(told) && told@ == reason,
                None => r.0.body matches Ok(document) && document@ == filled(body),
            },
    {
        let refused = json::refuse(buffers::slice_of_mut(&body));
        self.echo_with(request, body, refused)
    }
}

/// Below the root every segment is noted, and at the end every method is told back.
pub proof fn law_every_request_is_told_back(router: EchoRouter, request: RequestView<()>)
    ensures
        decided(Node::Own(EchoNode::EchoRouter(router)), request) == if request.path.len() > 0 {
            ActionView::Route {
                label: EchoLabel::Hop,
                terminal: false,
                node: EchoNode::EchoRouter(router),
                segment: request.path[0],
                request: RequestView { path: request.path.drop_first(), ..request },
            }
        } else {
            ActionView::Leaf {
                label: EchoLabel::Echo,
                node: EchoNode::EchoRouter(router),
                request,
            }
        },
{
    let node = Node::Own(EchoNode::EchoRouter(router));
    let entries = node.entries();
    lemma_first_is(entries, |entry: EntryView<EchoLabel>| claims_request(node, entry, request), 2);
    if request.path.len() > 0 {
        let passed = RequestView { path: request.path.drop_first(), ..request };
        lemma_first_is(
            entries,
            |entry: EntryView<EchoLabel>| claims_segment(node, entry, passed, request.path[0]),
            0,
        );
    } else {
        lemma_first_is(
            entries,
            |entry: EntryView<EchoLabel>| claims_method(node, entry, request.method),
            1,
        );
    }
}

/// At the root every request is authenticated first, with its path as it came.
pub proof fn law_root_authenticates(request: RequestView<()>)
    ensures
        decided(Node::Own(EchoNode::AuthRouter), request) == (ActionView::Middleware {
            label: EchoLabel::Authenticate,
            post: false,
            node: EchoNode::AuthRouter,
            request,
        }),
{
    let node = Node::Own(EchoNode::AuthRouter);
    let entries = node.entries();
    let claims = |entry: EntryView<EchoLabel>| claims_request(node, entry, request);
    assert(claims(entries[0]));
    lemma_first_is(entries, claims, 0);
}

} // verus!
