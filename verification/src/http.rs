//! The vocabulary of HTTP: methods and status codes.
use crate::text;
use vstd::prelude::*;

verus! {

/// An HTTP request method.
pub enum Method {
    Options,
    Get,
    Post,
    Put,
    Delete,
    Head,
    Trace,
    Connect,
    Patch,
    /// Any other method, by its name.
    Extension(String),
}

/// What a [`Method`] is, with the name of an extension as a sequence of characters.
pub enum MethodView {
    Options,
    Get,
    Post,
    Put,
    Delete,
    Head,
    Trace,
    Connect,
    Patch,
    Extension(Seq<char>),
}

impl View for Method {
    type V = MethodView;

    open spec fn view(&self) -> MethodView {
        match self {
            Method::Options => MethodView::Options,
            Method::Get => MethodView::Get,
            Method::Post => MethodView::Post,
            Method::Put => MethodView::Put,
            Method::Delete => MethodView::Delete,
            Method::Head => MethodView::Head,
            Method::Trace => MethodView::Trace,
            Method::Connect => MethodView::Connect,
            Method::Patch => MethodView::Patch,
            Method::Extension(name) => MethodView::Extension(name@),
        }
    }
}

/// The method that a name stands for. Names are case-sensitive.
pub open spec fn method_named(name: Seq<char>) -> MethodView {
    if name == "OPTIONS"@ {
        MethodView::Options
    } else if name == "GET"@ {
        MethodView::Get
    } else if name == "POST"@ {
        MethodView::Post
    } else if name == "PUT"@ {
        MethodView::Put
    } else if name == "DELETE"@ {
        MethodView::Delete
    } else if name == "HEAD"@ {
        MethodView::Head
    } else if name == "TRACE"@ {
        MethodView::Trace
    } else if name == "CONNECT"@ {
        MethodView::Connect
    } else if name == "PATCH"@ {
        MethodView::Patch
    } else {
        MethodView::Extension(name)
    }
}

/// The name of a method.
pub open spec fn method_name(method: MethodView) -> Seq<char> {
    match method {
        MethodView::Options => "OPTIONS"@,
        MethodView::Get => "GET"@,
        MethodView::Post => "POST"@,
        MethodView::Put => "PUT"@,
        MethodView::Delete => "DELETE"@,
        MethodView::Head => "HEAD"@,
        MethodView::Trace => "TRACE"@,
        MethodView::Connect => "CONNECT"@,
        MethodView::Patch => "PATCH"@,
        MethodView::Extension(name) => name,
    }
}

impl Method {
    /// The method that `name` stands for.
    pub fn from_name(name: &str) -> (r: Method)
        ensures
            r@ == method_named(name@),
            name@ == "OPTIONS"@ <==> r is Options,
            name@ == "GET"@ <==> r is Get,
            name@ == "POST"@ <==> r is Post,
            name@ == "PUT"@ <==> r is Put,
            name@ == "DELETE"@ <==> r is Delete,
            name@ == "HEAD"@ <==> r is Head,
            name@ == "TRACE"@ <==> r is Trace,
            name@ == "CONNECT"@ <==> r is Connect,
            name@ == "PATCH"@ <==> r is Patch,
            r matches Method::Extension(kept) ==> kept@ == name@,
    {
        proof {
            lemma_names_differ();
        }
        if text::same(name, "OPTIONS") {
            Method::Options
        } else if text::same(name, "GET") {
            Method::Get
        } else if text::same(name, "POST") {
            Method::Post
        } else if text::same(name, "PUT") {
            Method::Put
        } else if text::same(name, "DELETE") {
            Method::Delete
        } else if text::same(name, "HEAD") {
            Method::Head
        } else if text::same(name, "TRACE") {
            Method::Trace
        } else if text::same(name, "CONNECT") {
            Method::Connect
        } else if text::same(name, "PATCH") {
            Method::Patch
        } else {
            Method::Extension(name.to_owned())
        }
    }

    /// The name of the method.
    pub fn name(&self) -> (r: &str)
        ensures
            r@ == method_name(self@),
            self is Options ==> r@ == "OPTIONS"@,
            self is Get ==> r@ == "GET"@,
            self is Post ==> r@ == "POST"@,
            self is Put ==> r@ == "PUT"@,
            self is Delete ==> r@ == "DELETE"@,
            self is Head ==> r@ == "HEAD"@,
            self is Trace ==> r@ == "TRACE"@,
            self is Connect ==> r@ == "CONNECT"@,
            self is Patch ==> r@ == "PATCH"@,
            self matches Method::Extension(kept) ==> r@ == kept@,
    {
        match self {
            Method::Options => "OPTIONS",
            Method::Get => "GET",
            Method::Post => "POST",
            Method::Put => "PUT",
            Method::Delete => "DELETE",
            Method::Head => "HEAD",
            Method::Trace => "TRACE",
            Method::Connect => "CONNECT",
            Method::Patch => "PATCH",
            Method::Extension(name) => name.as_str(),
        }
    }
}

impl PartialEq for Method {
    fn eq(&self, other: &Self) -> (r: bool) {
        match (self, other) {
            (Method::Options, Method::Options) => true,
            (Method::Get, Method::Get) => true,
            (Method::Post, Method::Post) => true,
            (Method::Put, Method::Put) => true,
            (Method::Delete, Method::Delete) => true,
            (Method::Head, Method::Head) => true,
            (Method::Trace, Method::Trace) => true,
            (Method::Connect, Method::Connect) => true,
            (Method::Patch, Method::Patch) => true,
            (Method::Extension(a), Method::Extension(b)) => text::same(a.as_str(), b.as_str()),
            _ => false,
        }
    }
}

impl vstd::std_specs::cmp::PartialEqSpecImpl for Method {
    open spec fn obeys_eq_spec() -> bool {
        true
    }

    open spec fn eq_spec(&self, other: &Self) -> bool {
        self@ == other@
    }
}

impl Eq for Method {

}

impl Clone for Method {
    fn clone(&self) -> (r: Self)
        ensures
            r == *self,
    {
        match self {
            Method::Options => Method::Options,
            Method::Get => Method::Get,
            Method::Post => Method::Post,
            Method::Put => Method::Put,
            Method::Delete => Method::Delete,
            Method::Head => Method::Head,
            Method::Trace => Method::Trace,
            Method::Connect => Method::Connect,
            Method::Patch => Method::Patch,
            Method::Extension(name) => Method::Extension(name.clone()),
        }
    }
}

/// The name of a method gives the method back.
pub proof fn law_method_name_round_trip(name: Seq<char>)
    ensures
        method_name(method_named(name)) == name,
{
}

/// The names of the standard methods differ.
proof fn lemma_names_differ()
    ensures
        "OPTIONS"@ != "CONNECT"@,
        "GET"@ != "PUT"@,
        "POST"@ != "HEAD"@,
        "TRACE"@ != "PATCH"@,
        "OPTIONS"@.len() == 7,
        "GET"@.len() == 3,
        "POST"@.len() == 4,
        "PUT"@.len() == 3,
        "DELETE"@.len() == 6,
        "HEAD"@.len() == 4,
        "TRACE"@.len() == 5,
        "CONNECT"@.len() == 7,
        "PATCH"@.len() == 5,
{
    reveal_strlit("OPTIONS");
    reveal_strlit("GET");
    reveal_strlit("POST");
    reveal_strlit("PUT");
    reveal_strlit("DELETE");
    reveal_strlit("HEAD");
    reveal_strlit("TRACE");
    reveal_strlit("CONNECT");
    reveal_strlit("PATCH");
    assert("OPTIONS"@[0] == 'O' && "CONNECT"@[0] == 'C');
    assert("GET"@[0] == 'G' && "PUT"@[0] == 'P');
    assert("POST"@[0] == 'P' && "HEAD"@[0] == 'H');
    assert("TRACE"@[0] == 'T' && "PATCH"@[0] == 'P');
}

/// A standard method is what its name is read as, and is read from no other name.
pub proof fn law_standard_method_is_read_back(method: MethodView, name: Seq<char>)
    requires
        !(method is Extension),
    ensures
        method_named(method_name(method)) == method,
        method_named(name) == method <==> name == method_name(method),
{
    lemma_names_differ();
}

/// The standard methods have the names that requests write; any other name is kept as
/// that of an extension.
pub proof fn law_methods_have_their_names(name: Seq<char>)
    ensures
        method_named("OPTIONS"@) == MethodView::Options,
        method_name(MethodView::Options) == "OPTIONS"@,
        method_named("GET"@) == MethodView::Get,
        method_name(MethodView::Get) == "GET"@,
        method_named("POST"@) == MethodView::Post,
        method_name(MethodView::Post) == "POST"@,
        method_named("PUT"@) == MethodView::Put,
        method_name(MethodView::Put) == "PUT"@,
        method_named("DELETE"@) == MethodView::Delete,
        method_name(MethodView::Delete) == "DELETE"@,
        method_named("HEAD"@) == MethodView::Head,
        method_name(MethodView::Head) == "HEAD"@,
        method_named("TRACE"@) == MethodView::Trace,
        method_name(MethodView::Trace) == "TRACE"@,
        method_named("CONNECT"@) == MethodView::Connect,
        method_name(MethodView::Connect) == "CONNECT"@,
        method_named("PATCH"@) == MethodView::Patch,
        method_name(MethodView::Patch) == "PATCH"@,
        method_named(name) is Extension <==> {
            &&& name != "OPTIONS"@
            &&& name != "GET"@
            &&& name != "POST"@
            &&& name != "PUT"@
            &&& name != "DELETE"@
            &&& name != "HEAD"@
            &&& name != "TRACE"@
            &&& name != "CONNECT"@
            &&& name != "PATCH"@
        },
        method_named(name) matches MethodView::Extension(kept) ==> kept == name,
{
    lemma_names_differ();
}

/// What a method shows is the method: two methods are equal exactly if they are the same
/// one or extensions of the same name.
pub proof fn law_method_shows_itself(method: Method, other: Method)
    ensures
        method is Options <==> method@ is Options,
        method is Get <==> method@ is Get,
        method is Post <==> method@ is Post,
        method is Put <==> method@ is Put,
        method is Delete <==> method@ is Delete,
        method is Head <==> method@ is Head,
        method is Trace <==> method@ is Trace,
        method is Connect <==> method@ is Connect,
        method is Patch <==> method@ is Patch,
        method matches Method::Extension(name) ==> method@ == MethodView::Extension(name@),
        vstd::std_specs::cmp::PartialEqSpec::eq_spec(&method, &other) <==> method@ == other@,
{
}

/// `200 OK`.
pub const OK: u16 = 200;

/// `201 Created`.
pub const CREATED: u16 = 201;

/// `400 Bad Request`.
pub const BAD_REQUEST: u16 = 400;

/// `401 Unauthorized`.
pub const UNAUTHORIZED: u16 = 401;

/// `404 Not Found`.
pub const NOT_FOUND: u16 = 404;

/// `405 Method Not Allowed`.
pub const METHOD_NOT_ALLOWED: u16 = 405;

/// `422 Unprocessable Entity`.
pub const UNPROCESSABLE_ENTITY: u16 = 422;

/// `500 Internal Server Error`.
pub const INTERNAL_SERVER_ERROR: u16 = 500;

/// The codes are those that HTTP gives these names.
pub proof fn law_codes_have_their_numbers()
    ensures
        OK == 200,
        CREATED == 201,
        BAD_REQUEST == 400,
        UNAUTHORIZED == 401,
        NOT_FOUND == 404,
        METHOD_NOT_ALLOWED == 405,
        UNPROCESSABLE_ENTITY == 422,
        INTERNAL_SERVER_ERROR == 500,
        forall|code: StatusCode| #[trigger] code.success() <==> 200 <= code.0 < 300,
{
}

/// An HTTP status code.
#[derive(Clone, Copy, Debug, PartialEq, Eq, PartialOrd, Ord, Hash, Structural)]
pub struct StatusCode(pub u16);

impl StatusCode {
    /// Whether the code is one of the 2xx codes.
    pub open spec fn success(self) -> bool {
        200 <= self.0 <= 299
    }

    /// Whether the code is one of the 2xx codes.
    pub fn is_success(self) -> (r: bool)
        ensures
            r == self.success(),
            r == (200 <= self.0 < 300),
    {
        200 <= self.0 && self.0 <= 299
    }
}

} // verus!
