//! JSON bodies, attributes and transactions.
use crate::fields::Fields;
#[allow(unused_imports)]
use crate::fields::FieldView;
use crate::handler::{FullBody, Json, Response, StringId, is_json};
use crate::http;
use crate::http::{Method, MethodView, StatusCode};
#[allow(unused_imports)]
use crate::json;
use crate::json::ErrorBody;
use crate::router::{
    DeclarationView, EmptyResponse, Guard, GuardView, MakeRoute, Methods, MethodsView, Node,
    Router, RouterDerived, RouterResponse, Segments, SegmentsView, Stage,
};
#[allow(unused_imports)]
use crate::buffers::held;
#[allow(unused_imports)]
use vstd::utf8::encode_utf8;
use vstd::prelude::*;

verus! {

/// Higher-level, JSON-oriented routing helpers, available on every [`Router`].
pub trait RouterExt<L>: Router<L> + RouterDerived<L> {
    /// Middleware that, when the node finds `condition` true of the request, reads the
    /// entire request body, parses it, and routes into the node that the handler gives
    /// (see [`deserialized`]).
    fn deserialize_if(&mut self, condition: L, label: L)
        ensures
            final(self).listed() == old(self).listed().push(
                (DeclarationView::Middleware {
                    guard: GuardView::tested(condition),
                    stage: Stage::Plain,
                    label,
                }),
            ),
    {
        self.middleware_if(condition, label)
    }

    /// [`deserialize_if`](Self::deserialize_if) restricted to `POST` and `PUT`
    /// requests, the methods that conventionally carry a body.
    fn deserialize(&mut self, label: L)
        ensures
            final(self).listed() == old(self).listed().push(
                (DeclarationView::Middleware {
                    guard: GuardView::for_methods(
                        MethodsView::Only(seq![MethodView::Post, MethodView::Put]),
                    ),
                    stage: Stage::Plain,
                    label,
                }),
            ),
    {
        self.middleware_map(Guard::for_methods(Methods::two(Method::Post, Method::Put)), label)
    }

    /// Terminal handler that parses the request body, for requests with the given
    /// `method` and no segment left. A malformed body yields `400 Bad Request`.
    fn leaf_body(&mut self, method: Method, label: L)
        ensures
            final(self).listed() == old(self).listed().push(
                (DeclarationView::Middleware {
                    guard: GuardView::last_with(method@),
                    stage: Stage::Plain,
                    label,
                }),
            ),
    {
        self.middleware_map(Guard::last_with(method), label)
    }

    /// [`leaf_body`](Self::leaf_body) fixed to `POST`.
    fn post_body(&mut self, label: L)
        ensures
            final(self).listed() == old(self).listed().push(
                (DeclarationView::Middleware {
                    guard: GuardView::last_with(MethodView::Post),
                    stage: Stage::Plain,
                    label,
                }),
            ),
    {
        self.leaf_body(Method::Post, label)
    }

    /// [`leaf_body`](Self::leaf_body) fixed to `PUT`.
    fn put_body(&mut self, label: L)
        ensures
            final(self).listed() == old(self).listed().push(
                (DeclarationView::Middleware {
                    guard: GuardView::last_with(MethodView::Put),
                    stage: Stage::Plain,
                    label,
                }),
            ),
    {
        self.leaf_body(Method::Put, label)
    }

    /// Declares a `PUT` endpoint at the path segment `name` that parses the body and
    /// hands it to the handler; what follows is said by [`set_response`].
    fn setter(&mut self, name: StringId, label: L)
        ensures
            final(self).listed() == old(self).listed().push(
                (DeclarationView::Route {
                    guard: GuardView::last_with(MethodView::Put),
                    segments: SegmentsView::OneOf(seq![name.ident()]),
                    terminal: true,
                    label,
                }),
            ),
    {
        self.route_map(Guard::last_with(Method::Put), Segments::one(name), true, label)
    }

    /// Declares a readable and writable attribute at the path segment `name`: `GET
    /// name` by the handler `get`, `PUT name` by the handler `set` (see
    /// [`setter`](Self::setter)).
    fn attribute(&mut self, name: StringId, set: L, get: L)
        ensures
            final(self).listed() == old(self).listed().push(
                (DeclarationView::Route {
                    guard: GuardView::last_with(MethodView::Get),
                    segments: SegmentsView::OneOf(seq![name.ident()]),
                    terminal: true,
                    label: get,
                }),
            ).push(
                (DeclarationView::Route {
                    guard: GuardView::last_with(MethodView::Put),
                    segments: SegmentsView::OneOf(seq![name.ident()]),
                    terminal: true,
                    label: set,
                }),
            ),
    {
        self.leaf_path(name.clone(), Method::Get, get);
        self.setter(name, set)
    }

    /// Wraps the subtree below this node in a transaction whose outcome follows the
    /// response: it is begun by [`Transaction::begin`], and [`Transaction::finish`]
    /// says how it ends.
    fn transaction(&mut self, label: L)
        ensures
            final(self).listed() == old(self).listed().push(
                (DeclarationView::Middleware {
                    guard: GuardView::open(),
                    stage: Stage::Post,
                    label,
                }),
            ),
    {
        self.middleware_mut(label)
    }
}

impl<L, R: Router<L>> RouterExt<L> for R {

}

/// `400 Bad Request` response produced when a request body cannot be read or parsed,
/// rendered as a JSON `{ "error": ... }` body.
pub struct SerdeError {
    pub error: String,
}

impl Response for SerdeError {
    type Body = FullBody;

    open spec fn status(&self) -> StatusCode {
        StatusCode(http::BAD_REQUEST)
    }

    open spec fn headers(&self) -> Map<Seq<char>, FieldView> {
        Map::empty()
    }

    open spec fn has_body(&self, body: FullBody) -> bool {
        is_json(body, json::object_of("error"@, self.error@))
    }

    fn status_code(&self) -> (r: StatusCode) {
        StatusCode(http::BAD_REQUEST)
    }

    fn into_body(self) -> (r: FullBody) {
        let code = self.status_code();
        Json(ErrorBody { error: self.error }, code).into_body()
    }

    fn extra_headers(&self) -> (r: Fields) {
        Fields::new()
    }
}

/// Whether `read` is what is made of a request body: the value that it was parsed as, or
/// the error to respond with.
pub open spec fn is_parsed<B, E>(
    collected: Result<Result<B, String>, E>,
    read: Result<B, SerdeError>,
) -> bool {
    match collected {
        Ok(Ok(body)) => read == Ok::<B, SerdeError>(body),
        Ok(Err(message)) => read == Err::<B, SerdeError>(SerdeError { error: message }),
        Err(_) => read matches Err(e) && e.error@ == "Bad body transport"@,
    }
}

/// What is made of a request body: the value that it was parsed as, or the error to
/// respond with. `collected` fails where the transport failed, and holds a message
/// where the body could not be parsed.
pub fn parsed_body<B, E>(collected: Result<Result<B, String>, E>) -> (r: Result<B, SerdeError>)
    ensures
        is_parsed(collected, r),
        match collected {
            Ok(Ok(body)) => r == Ok::<B, SerdeError>(body),
            Ok(Err(message)) => r == Err::<B, SerdeError>(SerdeError { error: message }),
            Err(_) => r matches Err(e) && e.error@ == "Bad body transport"@,
        },
{
    match collected {
        Ok(Ok(body)) => Ok(body),
        Ok(Err(message)) => Err(SerdeError { error: message }),
        Err(_) => Err(SerdeError { error: "Bad body transport".to_owned() }),
    }
}

/// The node to go on with after reading a body: the one that the handler gave for it,
/// or the error as the response to any remaining path.
pub fn deserialized<T: MakeRoute>(result: Result<Node<T>, SerdeError>) -> (r: Node<T>)
    ensures
        r == Node::Fallible(
            match result {
                Ok(node) => Ok(Box::new(node)),
                Err(error) => Err(RouterResponse::BadBody(error)),
            },
        ),
{
    match result {
        Ok(node) => Node::Fallible(Ok(Box::new(node))),
        Err(error) => Node::Fallible(Err(RouterResponse::BadBody(error))),
    }
}

/// The response of a setter.
pub open spec fn set_reply<R>(result: Result<Result<(), R>, SerdeError>) -> RouterResponse<R> {
    match result {
        Ok(Ok(())) => RouterResponse::Empty(EmptyResponse(StatusCode(http::OK))),
        Ok(Err(error)) => RouterResponse::Given(error),
        Err(error) => RouterResponse::BadBody(error),
    }
}

/// The response of a setter: `400` for a body that could not be read, `200` with an
/// empty body if the value was set, and the error otherwise.
pub fn set_response<R>(result: Result<Result<(), R>, SerdeError>) -> (r: RouterResponse<R>)
    ensures
        r == set_reply(result),
        match result {
            Ok(Ok(())) => r == RouterResponse::<R>::Empty(EmptyResponse(StatusCode(200))),
            Ok(Err(error)) => r == RouterResponse::Given(error),
            Err(error) => r == RouterResponse::<R>::BadBody(error),
        },
{
    match result {
        Ok(Ok(())) => RouterResponse::Empty(EmptyResponse(StatusCode(http::OK))),
        Ok(Err(error)) => RouterResponse::Given(error),
        Err(error) => RouterResponse::BadBody(error),
    }
}

/// What the handlers of an attribute do: what setting a value makes of a state, and the
/// value that is got from a state.
#[verifier::reject_recursive_types(S)]
#[verifier::reject_recursive_types(V)]
pub struct AttributeView<S, V, E> {
    pub set: spec_fn(S, V) -> (S, Result<(), E>),
    pub get: spec_fn(S) -> Result<V, E>,
}

impl<S, V, E> AttributeView<S, V, E> {
    /// The state and the response after a `PUT` with the body that was read.
    pub open spec fn put(self, state: S, read: Result<V, SerdeError>) -> (
        S,
        RouterResponse<Result<Json<V>, E>>,
    ) {
        match read {
            Ok(value) => {
                let (after, result) = (self.set)(state, value);
                (
                    after,
                    set_reply(
                        Ok(
                            match result {
                                Ok(()) => Ok(()),
                                Err(error) => Err(Err(error)),
                            },
                        ),
                    ),
                )
            },
            Err(error) => (state, set_reply(Err(error))),
        }
    }

    /// The response to a `GET`.
    pub open spec fn got(self, state: S) -> RouterResponse<Result<Json<V>, E>> {
        RouterResponse::Given(
            match (self.get)(state) {
                Ok(value) => Ok(Json(value, StatusCode(http::OK))),
                Err(error) => Err(error),
            },
        )
    }
}

/// A transaction round the subtree below a node.
pub enum Transaction<D> {
    /// It could not be begun.
    Failed,
    /// It is open, with this handle.
    Open(D),
}

/// How a transaction ends.
pub enum Finish<D, R> {
    /// There is nothing to end; this is the response.
    Keep(RouterResponse<R>),
    /// The transaction is to be committed (see [`committed`]).
    Commit(D, RouterResponse<R>),
    /// The transaction is to be rolled back; this is the response.
    Rollback(D, RouterResponse<R>),
}

/// How a transaction ends with `response`: it is committed on a success and rolled back
/// on anything else.
pub open spec fn finished<D, R: Response>(
    transaction: Transaction<D>,
    response: RouterResponse<R>,
) -> Finish<D, R> {
    match transaction {
        Transaction::Failed => Finish::Keep(response),
        Transaction::Open(handle) => if response.status().success() {
            Finish::Commit(handle, response)
        } else {
            Finish::Rollback(handle, response)
        },
    }
}

/// The response after a commit.
pub open spec fn after_commit<R>(
    result: Result<(), R>,
    response: RouterResponse<R>,
) -> RouterResponse<R> {
    match result {
        Ok(()) => response,
        Err(error) => RouterResponse::Given(error),
    }
}

/// An open transaction is committed exactly on a status from 200 to 299, and rolled
/// back on any other; a rollback preserves the response, and so does a commit that
/// succeeds.
pub proof fn law_transaction_follows_the_response<D, R: Response>(
    handle: D,
    response: RouterResponse<R>,
)
    ensures
        finished(Transaction::Open(handle), response) == if 200 <= response.status().0 < 300 {
            Finish::Commit(handle, response)
        } else {
            Finish::Rollback(handle, response)
        },
        after_commit(Ok(()), response) == response,
{
}

/// What comes of beginning a transaction.
pub open spec fn begun<D, R>(result: Result<D, R>) -> (
    Transaction<D>,
    Result<(), RouterResponse<R>>,
) {
    match result {
        Ok(handle) => (Transaction::Open(handle), Ok(())),
        Err(error) => (Transaction::Failed, Err(RouterResponse::Given(error))),
    }
}

/// The response after a transaction ended with `response`, where `commit` says what
/// comes of a commit.
pub open spec fn ended<D, R: Response>(
    transaction: Transaction<D>,
    response: RouterResponse<R>,
    commit: spec_fn(D) -> Result<(), R>,
) -> RouterResponse<R> {
    match finished(transaction, response) {
        Finish::Keep(response) => response,
        Finish::Commit(handle, response) => after_commit(commit(handle), response),
        Finish::Rollback(_, response) => response,
    }
}

/// A commit that failed takes the place of the response; a transaction that could not be
/// begun ends with the error, and there is nothing to end.
pub proof fn law_failed_transaction_is_told<D, R: Response>(
    error: R,
    handle: D,
    response: RouterResponse<R>,
    commit: spec_fn(D) -> Result<(), R>,
)
    ensures
        after_commit(Err(error), response) == RouterResponse::Given(error),
        begun::<D, R>(Err(error)).0 == Transaction::<D>::Failed,
        begun::<D, R>(Err(error)).1 == Err::<(), RouterResponse<R>>(RouterResponse::Given(error)),
        begun::<D, R>(Ok(handle)).0 == Transaction::Open(handle),
        begun::<D, R>(Ok(handle)).1 is Ok,
        ended(Transaction::<D>::Failed, response, commit) == response,
        ended(Transaction::Open(handle), response, commit) == if 200 <= response.status().0 < 300 {
            match commit(handle) {
                Ok(()) => response,
                Err(failed) => RouterResponse::Given(failed),
            }
        } else {
            response
        },
{
}

/// A body that was parsed is its value, one that was not is its message, and one whose
/// transport failed is told so; a setter answers `400` with that message, `200` without a
/// body if the value was set, and with the error otherwise.
pub proof fn law_setter_answers_by_what_happened<B, E, R: Response>(
    collected: Result<Result<B, String>, E>,
    read: Result<B, SerdeError>,
    failed: R,
    bad: SerdeError,
)
    requires
        is_parsed(collected, read),
    ensures
        match collected {
            Ok(Ok(body)) => read == Ok::<B, SerdeError>(body),
            Ok(Err(message)) => read matches Err(e) && e.error == message,
            Err(_) => read matches Err(e) && e.error@ == "Bad body transport"@,
        },
        set_reply::<R>(Ok(Ok(()))) == RouterResponse::<R>::Empty(EmptyResponse(StatusCode(200))),
        set_reply::<R>(Ok(Err(failed))) == RouterResponse::Given(failed),
        set_reply::<R>(Err(bad)) == RouterResponse::<R>::BadBody(bad),
        bad.status() == StatusCode(400),
        bad.headers() == Map::<Seq<char>, FieldView>::empty(),
{
}

/// The body of a bad request is the message as the entry `error` of a JSON object.
pub proof fn law_bad_request_says_why(bad: SerdeError, body: FullBody)
    ensures
        bad.has_body(body) <==> held(body.0) == encode_utf8(
            json::object_of("error"@, bad.error@),
        ) && body.1@ == "application/json"@,
{
}

impl<D> Transaction<D> {
    /// What comes of beginning a transaction: with a handle the request goes on, and
    /// an error short-circuits it.
    pub fn begin<R>(result: Result<D, R>) -> (r: (Self, Result<(), RouterResponse<R>>))
        ensures
            r == begun(result),
            match result {
                Ok(handle) => r.0 == Transaction::Open(handle) && r.1 is Ok,
                Err(error) => r.0 == Transaction::<D>::Failed && r.1 == Err::<
                    (),
                    RouterResponse<R>,
                >(RouterResponse::Given(error)),
            },
    {
        match result {
            Ok(handle) => (Transaction::Open(handle), Ok(())),
            Err(error) => (Transaction::Failed, Err(RouterResponse::Given(error))),
        }
    }

    /// How the transaction ends with `response`: it is committed on a success and
    /// rolled back on anything else.
    pub fn finish<R: Response>(self, response: RouterResponse<R>) -> (r: Finish<D, R>)
        ensures
            r == finished(self, response),
            match self {
                Transaction::Failed => r == Finish::<D, R>::Keep(response),
                Transaction::Open(handle) => r == if 200 <= response.status().0 < 300 {
                    Finish::Commit(handle, response)
                } else {
                    Finish::Rollback(handle, response)
                },
            },
    {
        match self {
            Transaction::Failed => Finish::Keep(response),
            Transaction::Open(handle) => if response.is_success() {
                Finish::Commit(handle, response)
            } else {
                Finish::Rollback(handle, response)
            },
        }
    }
}

/// The response after a commit: if the commit itself failed, its error replaces the
/// response.
pub fn committed<R>(result: Result<(), R>, response: RouterResponse<R>) -> (r: RouterResponse<R>)
    ensures
        r == after_commit(result, response),
        match result {
            Ok(()) => r == response,
            Err(error) => r == RouterResponse::Given(error),
        },
{
    match result {
        Ok(()) => response,
        Err(error) => RouterResponse::Given(error),
    }
}

} // verus!
