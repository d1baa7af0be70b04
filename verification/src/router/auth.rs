//! Authentication.
use crate::fields::Fields;
#[allow(unused_imports)]
use crate::fields::FieldView;
use crate::handler::{FullBody, Json, Response, StringId, is_json};
use crate::http;
use crate::http::StatusCode;
#[allow(unused_imports)]
use crate::json;
use crate::json::ErrorBody;
use crate::router::{
    DeclarationView, Guard, GuardView, MakeRoute, Node, Router, RouterResponse, Stage,
};
#[allow(unused_imports)]
use crate::buffers::held;
#[allow(unused_imports)]
use vstd::utf8::encode_utf8;
use vstd::prelude::*;

verus! {

/// Authentication helpers, available on every [`Router`].
pub trait RouterAuthExt<L>: Router<L> {
    /// Middleware that authenticates a request carrying an `Authorization` header.
    ///
    /// When the header is present it is **removed from the request** before the
    /// handler runs, so the raw credentials do not leak into the nodes deeper in the
    /// routing tree. The header value is then split into its scheme and credentials.
    /// What the handler gives is turned into a node by [`authorized`]. A header that
    /// is not of the form `<scheme> <credentials>` is rejected with
    /// [`AuthError::MalformedAuthorizationHeader`] before the handler is reached.
    ///
    /// If the request has **no** `Authorization` header this middleware does not
    /// match, leaving later declarations at the node free to handle the
    /// unauthenticated case.
    fn authorization(&mut self, label: L)
        ensures
            final(self).listed() == old(self).listed().push(
                (DeclarationView::Middleware {
                    guard: GuardView::open(),
                    stage: Stage::Authorization,
                    label,
                }),
            ),
    {
        self.middleware_mut_map(Guard::open(), Stage::Authorization, label)
    }
}

impl<L, R: Router<L>> RouterAuthExt<L> for R {

}

/// The node to go on with after an authentication: the one that was given, or the
/// error as the response to any remaining path.
pub fn authorized<T: MakeRoute>(result: Result<Node<T>, AuthError>) -> (r: Node<T>)
    ensures
        r == Node::Fallible(
            match result {
                Ok(node) => Ok(Box::new(node)),
                Err(error) => Err(RouterResponse::Unauthorized(error)),
            },
        ),
{
    match result {
        Ok(node) => Node::Fallible(Ok(Box::new(node))),
        Err(error) => Node::Fallible(Err(RouterResponse::Unauthorized(error))),
    }
}

/// Why a request was not authenticated, usable as a [`Response`]: the
/// credential-related variants map to `401 Unauthorized` and
/// [`Error`](AuthError::Error) to `500`, each rendered as a JSON `{ "error": ... }`
/// body.
pub enum AuthError {
    MalformedAuthorizationHeader,
    UnsupportedScheme(StringId),
    InvalidCredentials,
    Error(std::io::Error),
}

impl AuthError {
    /// The message of the error.
    pub open spec fn message(self) -> Seq<char> {
        match self {
            AuthError::MalformedAuthorizationHeader => {
                "Authorization header value is not in the format <scheme> <credentials>"@
            },
            AuthError::UnsupportedScheme(scheme) => "The scheme "@ + scheme.text()
                + " is not supported"@,
            AuthError::InvalidCredentials => "Invalid credentials"@,
            AuthError::Error(_) => "Internal server error"@,
        }
    }

    /// The message of the error.
    pub fn to_message(&self) -> (r: String)
        ensures
            r@ == self.message(),
    {
        match self {
            AuthError::MalformedAuthorizationHeader => {
                "Authorization header value is not in the format <scheme> <credentials>".to_owned()
            },
            AuthError::UnsupportedScheme(scheme) => {
                let mut message: String = "The scheme ".to_owned();
                message.append(&**scheme);
                message.append(" is not supported");
                message
            },
            AuthError::InvalidCredentials => "Invalid credentials".to_owned(),
            AuthError::Error(_) => "Internal server error".to_owned(),
        }
    }
}

impl From<std::io::Error> for AuthError {
    fn from(value: std::io::Error) -> (r: Self) {
        AuthError::Error(value)
    }
}

impl vstd::std_specs::convert::FromSpecImpl<std::io::Error> for AuthError {
    open spec fn obeys_from_spec() -> bool {
        true
    }

    open spec fn from_spec(v: std::io::Error) -> Self {
        AuthError::Error(v)
    }
}

impl Response for AuthError {
    type Body = FullBody;

    open spec fn status(&self) -> StatusCode {
        match self {
            AuthError::Error(_) => StatusCode(http::INTERNAL_SERVER_ERROR),
            _ => StatusCode(http::UNAUTHORIZED),
        }
    }

    open spec fn headers(&self) -> Map<Seq<char>, FieldView> {
        Map::empty()
    }

    open spec fn has_body(&self, body: FullBody) -> bool {
        is_json(body, json::object_of("error"@, self.message()))
    }

    fn status_code(&self) -> (r: StatusCode) {
        match self {
            AuthError::Error(_) => StatusCode(http::INTERNAL_SERVER_ERROR),
            _ => StatusCode(http::UNAUTHORIZED),
        }
    }

    fn into_body(self) -> (r: FullBody) {
        let code = self.status_code();
        Json(ErrorBody { error: self.to_message() }, code).into_body()
    }

    fn extra_headers(&self) -> (r: Fields) {
        Fields::new()
    }
}

/// Each rejection has the message that says why; an error of the authentication itself is
/// not told.
pub proof fn law_rejections_say_why(scheme: StringId, error: std::io::Error)
    ensures
        AuthError::MalformedAuthorizationHeader.message()
            == "Authorization header value is not in the format <scheme> <credentials>"@,
        AuthError::UnsupportedScheme(scheme).message() == "The scheme "@ + scheme.text()
            + " is not supported"@,
        AuthError::InvalidCredentials.message() == "Invalid credentials"@,
        AuthError::Error(error).message() == "Internal server error"@,
{
}

/// A rejection is `401`, an error of the authentication itself `500`; the body is the
/// message as the entry `error` of a JSON object.
pub proof fn law_rejection_is_a_response(error: AuthError, body: FullBody)
    ensures
        error.status() == if error is Error {
            StatusCode(500)
        } else {
            StatusCode(401)
        },
        error.headers() == Map::<Seq<char>, FieldView>::empty(),
        error.has_body(body) <==> held(body.0) == encode_utf8(
            json::object_of("error"@, error.message()),
        ) && body.1@ == "application/json"@,
{
}

} // verus!
